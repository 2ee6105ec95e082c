//! The decisions of an ingestion: resource limits, retry policy and the
//! counters of what was fetched. The fetching itself is done by the caller,
//! which reports each outcome and performs the action decided here.
use vstd::prelude::*;

use crate::catalog::LoadedCatalog;

verus! {

/// Limits and retry policy for one explicitly submitted site ingestion.
#[derive(Debug, Clone)]
pub struct CrawlerConfig {
    pub refresh_after: u64,
    pub lease_seconds: u64,
    pub max_backoff_seconds: u64,
    pub max_attempts: u32,
    pub max_mappings: usize,
    pub max_rows: usize,
    pub max_documents: usize,
}

impl Default for CrawlerConfig {
    fn default() -> (c: CrawlerConfig)
        ensures
            c.refresh_after == 3600,
            c.lease_seconds == 120,
            c.max_backoff_seconds == 3600,
            c.max_attempts == 3,
            c.max_mappings == 256,
            c.max_rows == 100_000,
            c.max_documents == 1_000_000,
    {
        CrawlerConfig {
            refresh_after: 3600,
            lease_seconds: 120,
            max_backoff_seconds: 3600,
            max_attempts: 3,
            max_mappings: 256,
            max_rows: 100_000,
            max_documents: 1_000_000,
        }
    }
}

/// Counters for remote resources consumed while building one finite catalog.
#[derive(Debug, Clone, Copy, PartialEq, Eq)]
pub struct CrawlStats {
    pub fetched: usize,
    pub not_modified: usize,
    pub retries: usize,
    pub deferred: usize,
}

impl Default for CrawlStats {
    fn default() -> (s: CrawlStats)
        ensures
            s == (CrawlStats { fetched: 0, not_modified: 0, retries: 0, deferred: 0 }),
    {
        CrawlStats { fetched: 0, not_modified: 0, retries: 0, deferred: 0 }
    }
}

/// Bounds applied to every remote request made from the submitted locator
/// set; timeouts in seconds.
#[derive(Debug, Clone)]
pub struct FetchPolicy {
    pub max_response_bytes: usize,
    pub connect_timeout_secs: u64,
    pub request_timeout_secs: u64,
    pub max_redirects: usize,
    pub allow_private_networks: bool,
}

impl Default for FetchPolicy {
    fn default() -> (p: FetchPolicy)
        ensures
            p.max_response_bytes == 4 * 1024 * 1024,
            p.connect_timeout_secs == 5,
            p.request_timeout_secs == 30,
            p.max_redirects == 3,
            !p.allow_private_networks,
    {
        FetchPolicy {
            max_response_bytes: 4 * 1024 * 1024,
            connect_timeout_secs: 5,
            request_timeout_secs: 30,
            max_redirects: 3,
            allow_private_networks: false,
        }
    }
}

impl FetchPolicy {
    /// Enable loopback access only for deterministic local integration tests.
    pub fn for_tests() -> (p: FetchPolicy)
        ensures
            p.max_response_bytes == 4 * 1024 * 1024,
            p.connect_timeout_secs == 5,
            p.request_timeout_secs == 30,
            p.max_redirects == 3,
            p.allow_private_networks,
    {
        FetchPolicy { allow_private_networks: true, ..FetchPolicy::default() }
    }
}

/// A finite remote catalog ready for the authoritative index sync.
#[derive(Debug, Clone)]
pub struct RemoteCatalog {
    pub catalog: LoadedCatalog,
    pub rows: usize,
    pub stats: CrawlStats,
}

/// Why an ingestion stops.
#[derive(Debug, Clone, Copy, PartialEq, Eq)]
pub enum IngestError {
    NoAttempts,
    TooManyMappings,
    TooManyRows,
    TooManyDocuments,
}

/// A crawler needs at least one attempt per resource.
pub fn check_config(config: &CrawlerConfig) -> (r: Result<(), IngestError>)
    ensures
        r is Err <==> config.max_attempts == 0,
{
    if config.max_attempts == 0 {
        Err(IngestError::NoAttempts)
    } else {
        Ok(())
    }
}

/// The mapping index may hold at most `max_mappings` mappings.
pub fn check_mappings(count: usize, config: &CrawlerConfig) -> (r: Result<(), IngestError>)
    ensures
        r is Err <==> count > config.max_mappings,
{
    if count > config.max_mappings {
        Err(IngestError::TooManyMappings)
    } else {
        Ok(())
    }
}

/// `a + b`, or the largest `usize` where that overflows.
pub open spec fn sat_add_usize(a: usize, b: usize) -> usize {
    if a + b > usize::MAX {
        usize::MAX
    } else {
        (a + b) as usize
    }
}

/// Count the rows of one more sitemap; all sitemaps together may hold at
/// most `max_rows` rows.
pub fn add_rows(total: usize, rows: usize, config: &CrawlerConfig) -> (r: Result<usize, IngestError>)
    ensures
        match r {
            Ok(t) => t == sat_add_usize(total, rows) && t <= config.max_rows,
            Err(_) => sat_add_usize(total, rows) > config.max_rows,
        },
{
    let t = total.saturating_add(rows);
    if t > config.max_rows {
        Err(IngestError::TooManyRows)
    } else {
        Ok(t)
    }
}

/// The expanded pages may number at most `max_documents`.
pub fn check_documents(count: usize, config: &CrawlerConfig) -> (r: Result<(), IngestError>)
    ensures
        r is Err <==> count > config.max_documents,
{
    if count > config.max_documents {
        Err(IngestError::TooManyDocuments)
    } else {
        Ok(())
    }
}

/// What one fetch attempt came to.
#[derive(Debug, Clone, Copy, PartialEq, Eq)]
pub enum FetchOutcome {
    /// Another worker holds the resource's lease.
    Leased,
    /// The origin answered `304 Not Modified`; the cached body serves.
    NotModified,
    /// The origin sent a body.
    Fetched,
    /// The attempt failed.
    Failed,
}

/// What the fetcher does next.
#[derive(Debug, Clone, Copy, PartialEq, Eq)]
pub enum FetchAction {
    /// Stop with what the attempt came to.
    Stop,
    /// Try again after this many milliseconds.
    RetryAfter(u64),
}

/// The counters and next action after attempt `attempt` (counted from
/// zero) of at most `max_attempts`.
pub open spec fn next_step(stats: CrawlStats, attempt: u32, max_attempts: u32, outcome: FetchOutcome) -> (
    CrawlStats,
    FetchAction,
) {
    match outcome {
        FetchOutcome::Leased => (
            CrawlStats { deferred: sat_add_usize(stats.deferred, 1), ..stats },
            FetchAction::Stop,
        ),
        FetchOutcome::NotModified => (
            CrawlStats { not_modified: sat_add_usize(stats.not_modified, 1), ..stats },
            FetchAction::Stop,
        ),
        FetchOutcome::Fetched => (
            CrawlStats {
                fetched: sat_add_usize(stats.fetched, 1),
                retries: sat_add_usize(stats.retries, attempt as usize),
                ..stats
            },
            FetchAction::Stop,
        ),
        FetchOutcome::Failed => if attempt + 1 < max_attempts {
            (stats, FetchAction::RetryAfter((50 * (attempt + 1)) as u64))
        } else {
            (stats, FetchAction::Stop)
        },
    }
}

/// Decide what follows a fetch attempt: count what it came to, and retry
/// a failure after a delay growing by 50 ms per attempt while attempts are
/// left.
pub fn after_attempt(stats: CrawlStats, attempt: u32, max_attempts: u32, outcome: FetchOutcome) -> (r: (
    CrawlStats,
    FetchAction,
))
    ensures
        r == next_step(stats, attempt, max_attempts, outcome),
{
    match outcome {
        FetchOutcome::Leased => (
            CrawlStats { deferred: stats.deferred.saturating_add(1), ..stats },
            FetchAction::Stop,
        ),
        FetchOutcome::NotModified => (
            CrawlStats { not_modified: stats.not_modified.saturating_add(1), ..stats },
            FetchAction::Stop,
        ),
        FetchOutcome::Fetched => (
            CrawlStats {
                fetched: stats.fetched.saturating_add(1),
                retries: stats.retries.saturating_add(attempt as usize),
                ..stats
            },
            FetchAction::Stop,
        ),
        FetchOutcome::Failed => {
            if attempt < max_attempts && attempt + 1 < max_attempts {
                let delay: u64 = 50u64 * (attempt as u64 + 1);
                (stats, FetchAction::RetryAfter(delay))
            } else {
                (stats, FetchAction::Stop)
            }
        },
    }
}

/// A `304 Not Modified` answer with nothing stored to serve.
#[derive(Debug, Clone, Copy, PartialEq, Eq)]
pub enum NotModifiedError {
    NoCachedBody,
}

/// What a `304 Not Modified` attempt comes to: the body stored from an
/// earlier fetch, with the attempt counted as not modified; with no stored
/// body the fetch fails at once, without a retry and with the counters
/// unchanged.
pub fn serve_not_modified(
    stats: CrawlStats,
    attempt: u32,
    max_attempts: u32,
    cached: Option<Vec<u8>>,
) -> (r: Result<(CrawlStats, Vec<u8>), NotModifiedError>)
    ensures
        match cached {
            Some(b) => r matches Ok((s, body)) && s == next_step(
                stats,
                attempt,
                max_attempts,
                FetchOutcome::NotModified,
            ).0 && body@ == b@,
            None => r == Err::<(CrawlStats, Vec<u8>), NotModifiedError>(
                NotModifiedError::NoCachedBody,
            ),
        },
{
    match cached {
        Some(body) => {
            let (next, _) = after_attempt(stats, attempt, max_attempts, FetchOutcome::NotModified);
            Ok((next, body))
        },
        None => Err(NotModifiedError::NoCachedBody),
    }
}

/// A response may announce at most `max_bytes` bytes.
pub fn announced_length_fits(length: Option<u64>, max_bytes: usize) -> (r: bool)
    ensures
        r == (match length {
            Some(l) => l <= max_bytes,
            None => true,
        }),
{
    match length {
        Some(l) => l <= max_bytes as u64,
        None => true,
    }
}

/// A body that has `received` bytes may take a chunk of `chunk` bytes
/// while the total stays within `max_bytes`.
pub fn chunk_fits(received: usize, chunk: usize, max_bytes: usize) -> (r: bool)
    ensures
        r == (sat_add_usize(received, chunk) <= max_bytes),
{
    received.saturating_add(chunk) <= max_bytes
}

/// Whether a redirect may be followed after `redirects` were followed.
pub fn redirect_allowed(redirects: usize, max_redirects: usize) -> (r: bool)
    ensures
        r == (redirects < max_redirects),
{
    redirects < max_redirects
}

/// Failures are retried with growing delays and at most `max_attempts`
/// attempts are made: a failure of the last attempt stops.
pub proof fn law_retries_are_bounded(stats: CrawlStats, attempt: u32, max_attempts: u32)
    ensures
        attempt + 1 >= max_attempts ==> next_step(stats, attempt, max_attempts, FetchOutcome::Failed).1
            == FetchAction::Stop,
        attempt + 1 < max_attempts ==> next_step(
            stats,
            attempt,
            max_attempts,
            FetchOutcome::Failed,
        ).1 == FetchAction::RetryAfter((50 * (attempt + 1)) as u64),
        next_step(stats, attempt, max_attempts, FetchOutcome::Failed).0 == stats,
{
}

} // verus!
