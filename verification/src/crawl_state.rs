//! The bookkeeping of remote resources: leases that keep one worker per
//! resource, cache validators, and bounded retry backoff. Each operation
//! is a transition from the stored record to the record to store.
use vstd::prelude::*;

use vstd::utf8::encode_utf8;

use crate::document::{hex_digest, hex_text, sha256_digest, sha256_of};

verus! {

/// Persisted metadata for one submitted remote resource.
#[derive(Debug, Clone)]
pub struct ResourceRecord {
    pub url: String,
    pub etag: Option<String>,
    pub last_modified: Option<String>,
    pub status: u16,
    pub content_hash: String,
    pub fetched_at: u64,
    pub next_fetch_at: u64,
    pub retry_count: u32,
    pub lease_until: u64,
}

/// Input payload for an atomic successful resource update.
#[derive(Debug)]
pub struct SuccessUpdate<'a> {
    pub status: u16,
    pub etag: Option<String>,
    pub last_modified: Option<String>,
    pub body: &'a [u8],
    pub fetched_at: u64,
    pub refresh_after: u64,
}

/// `a + b`, or the largest `u64` where that overflows.
pub open spec fn sat_add(a: u64, b: u64) -> u64 {
    if a + b > u64::MAX {
        u64::MAX
    } else {
        (a + b) as u64
    }
}

/// Two to the power `n`.
pub open spec fn pow2(n: nat) -> nat
    decreases n,
{
    if n == 0 {
        1
    } else {
        2 * pow2((n - 1) as nat)
    }
}

/// The wait after the `retry`-th failure: five seconds doubled per retry,
/// doubling at most ten times, and never more than `max_backoff`.
pub open spec fn backoff_delay(retry: u32, max_backoff: u64) -> u64 {
    let exponent: nat = if retry < 10 {
        retry as nat
    } else {
        10
    };
    let delay = 5 * pow2(exponent);
    if delay < max_backoff {
        delay as u64
    } else {
        max_backoff
    }
}


/// `r` is the record of a resource never fetched before.
pub open spec fn is_fresh(r: ResourceRecord, url: Seq<char>, next_fetch_at: u64) -> bool {
    &&& r.url@ == url
    &&& r.etag is None
    &&& r.last_modified is None
    &&& r.status == 0
    &&& r.content_hash@ == Seq::<char>::empty()
    &&& r.fetched_at == 0
    &&& r.next_fetch_at == next_fetch_at
    &&& r.retry_count == 0
    &&& r.lease_until == 0
}

/// `b` is `a` with only its lease changed, to `lease_until`.
pub open spec fn relet(a: ResourceRecord, b: ResourceRecord, lease_until: u64) -> bool {
    &&& b.url == a.url
    &&& b.etag == a.etag
    &&& b.last_modified == a.last_modified
    &&& b.status == a.status
    &&& b.content_hash == a.content_hash
    &&& b.fetched_at == a.fetched_at
    &&& b.next_fetch_at == a.next_fetch_at
    &&& b.retry_count == a.retry_count
    &&& b.lease_until == lease_until
}

fn fresh_record(url: &str, next_fetch_at: u64) -> (r: ResourceRecord)
    ensures
        is_fresh(r, url@, next_fetch_at),
{
    ResourceRecord {
        url: url.to_owned(),
        etag: None,
        last_modified: None,
        status: 0,
        content_hash: String::new(),
        fetched_at: 0,
        next_fetch_at,
        retry_count: 0,
        lease_until: 0,
    }
}

fn clone_opt(o: &Option<String>) -> (r: Option<String>)
    ensures
        r == *o,
{
    match o {
        Some(s) => Some(s.clone()),
        None => None,
    }
}

fn copy_record(r: &ResourceRecord) -> (c: ResourceRecord)
    ensures
        c == *r,
{
    ResourceRecord {
        url: r.url.clone(),
        etag: clone_opt(&r.etag),
        last_modified: clone_opt(&r.last_modified),
        status: r.status,
        content_hash: r.content_hash.clone(),
        fetched_at: r.fetched_at,
        next_fetch_at: r.next_fetch_at,
        retry_count: r.retry_count,
        lease_until: r.lease_until,
    }
}

/// No worker holds the lease of the stored record at `now`.
pub open spec fn lease_free(current: Option<&ResourceRecord>, now: u64) -> bool {
    match current {
        Some(c) => c.lease_until <= now,
        None => true,
    }
}

/// Acquire a lease so one resource is fetched by one worker at a time:
/// refused while the stored lease runs past `now`, otherwise the stored
/// record (a fresh one where there is none) leased until `now +
/// lease_seconds`.
pub fn try_acquire(current: Option<&ResourceRecord>, url: &str, now: u64, lease_seconds: u64) -> (r:
    Option<ResourceRecord>)
    ensures
        r is Some <==> lease_free(current, now),
        match current {
            Some(c) => if c.lease_until > now {
                r is None
            } else {
                r matches Some(n) && relet(*c, n, sat_add(now, lease_seconds))
            },
            None => r matches Some(n) && n.url@ == url@ && n.etag is None && n.last_modified is None
                && n.status == 0 && n.content_hash@ == Seq::<char>::empty() && n.fetched_at == 0
                && n.next_fetch_at == 0 && n.retry_count == 0 && n.lease_until == sat_add(
                now,
                lease_seconds,
            ),
        },
{
    let mut record = match current {
        Some(c) => copy_record(c),
        None => fresh_record(url, 0),
    };
    if record.lease_until > now {
        return None;
    }
    record.lease_until = now.saturating_add(lease_seconds);
    Some(record)
}

/// `sha256:` and the hexadecimal SHA-256 digest of a body.
pub open spec fn body_hash_of(body: Seq<u8>) -> Seq<char> {
    seq!['s', 'h', 'a', '2', '5', '6', ':'] + hex_text(sha256_of(body))
}

/// The content hash of a fetched body.
pub fn body_hash(body: &[u8]) -> (r: String)
    ensures
        r@ == body_hash_of(body@),
{
    let digest = sha256_digest(body);
    hex_digest(&['s', 'h', 'a', '2', '5', '6', ':'], digest.as_slice())
}

/// The record of a successful fetch: the new validators and body hash,
/// the next fetch due `refresh_after` seconds later, no retries and no
/// lease.
pub fn apply_success(url: &str, update: SuccessUpdate) -> (r: ResourceRecord)
    ensures
        r.url@ == url@,
        r.etag == update.etag,
        r.last_modified == update.last_modified,
        r.status == update.status,
        r.content_hash@ == body_hash_of(update.body@),
        r.fetched_at == update.fetched_at,
        r.next_fetch_at == sat_add(update.fetched_at, update.refresh_after),
        r.retry_count == 0,
        r.lease_until == 0,
{
    ResourceRecord {
        url: url.to_owned(),
        etag: update.etag,
        last_modified: update.last_modified,
        status: update.status,
        content_hash: body_hash(update.body),
        fetched_at: update.fetched_at,
        next_fetch_at: update.fetched_at.saturating_add(update.refresh_after),
        retry_count: 0,
        lease_until: 0,
    }
}

/// The record of a `304 Not Modified` answer: the stored validators and
/// hash stay, the next fetch is due `refresh_after` seconds later, with no
/// retries and no lease. Nothing where no record is stored.
pub fn apply_not_modified(current: Option<&ResourceRecord>, fetched_at: u64, refresh_after: u64) -> (r:
    Option<ResourceRecord>)
    ensures
        match current {
            None => r is None,
            Some(c) => r matches Some(n) && n.url == c.url && n.etag == c.etag && n.last_modified
                == c.last_modified && n.content_hash == c.content_hash && n.status == 304
                && n.fetched_at == fetched_at && n.next_fetch_at == sat_add(fetched_at, refresh_after)
                && n.retry_count == 0 && n.lease_until == 0,
        },
{
    let mut record = match current {
        Some(c) => copy_record(c),
        None => {
            return None;
        },
    };
    record.status = 304;
    record.fetched_at = fetched_at;
    record.next_fetch_at = fetched_at.saturating_add(refresh_after);
    record.retry_count = 0;
    record.lease_until = 0;
    Some(record)
}

fn backoff(retry: u32, max_backoff: u64) -> (d: u64)
    ensures
        d == backoff_delay(retry, max_backoff),
{
    let exponent: u32 = if retry < 10 {
        retry
    } else {
        10
    };
    let mut p: u64 = 1;
    let mut i: u32 = 0;
    while i < exponent
        invariant
            0 <= i <= exponent <= 10,
            p == pow2(i as nat),
            p <= 1024,
        decreases exponent - i,
    {
        proof {
            lemma_pow2_bound(i as nat);
        }
        p = p * 2;
        i = i + 1;
    }
    let delay = 5 * p;
    if delay < max_backoff {
        delay
    } else {
        max_backoff
    }
}

proof fn lemma_pow2_bound(n: nat)
    requires
        n < 10,
    ensures
        pow2(n) <= 512,
        pow2(n + 1) == 2 * pow2(n),
{
    reveal_with_fuel(pow2, 11);
}

/// The record of a failed attempt: one more retry, the next fetch due
/// after the bounded backoff, and the lease released. A resource with no
/// stored record starts from a fresh one due now.
pub fn apply_failure(current: Option<&ResourceRecord>, url: &str, now: u64, max_backoff: u64) -> (r:
    ResourceRecord)
    ensures
        ({
            let base_retry = match current {
                Some(c) => c.retry_count,
                None => 0u32,
            };
            let retry: u32 = if base_retry == u32::MAX {
                u32::MAX
            } else {
                (base_retry + 1) as u32
            };
            &&& r.retry_count == retry
            &&& r.next_fetch_at == sat_add(now, backoff_delay(retry, max_backoff))
            &&& r.lease_until == 0
            &&& match current {
                Some(c) => r.url == c.url && r.etag == c.etag && r.last_modified == c.last_modified
                    && r.status == c.status && r.content_hash == c.content_hash && r.fetched_at
                    == c.fetched_at,
                None => r.url@ == url@ && r.etag is None && r.last_modified is None && r.status == 0
                    && r.content_hash@ == Seq::<char>::empty() && r.fetched_at == 0,
            }
        }),
{
    let mut record = match current {
        Some(c) => copy_record(c),
        None => fresh_record(url, now),
    };
    record.retry_count = record.retry_count.saturating_add(1);
    let delay = backoff(record.retry_count, max_backoff);
    record.next_fetch_at = now.saturating_add(delay);
    record.lease_until = 0;
    record
}

/// The storage key of a resource's record: `resource/` and the hexadecimal
/// SHA-256 digest of its URL.
pub open spec fn record_key_of(url: Seq<char>) -> Seq<char> {
    seq!['r', 'e', 's', 'o', 'u', 'r', 'c', 'e', '/'] + hex_text(sha256_of(encode_utf8(url)))
}

/// The storage key of a resource's cached body: `body/` and the
/// hexadecimal SHA-256 digest of its URL.
pub open spec fn body_key_of(url: Seq<char>) -> Seq<char> {
    seq!['b', 'o', 'd', 'y', '/'] + hex_text(sha256_of(encode_utf8(url)))
}

/// The storage key of a resource's record.
pub fn record_key(url: &str) -> (r: String)
    ensures
        r@ == record_key_of(url@),
{
    let digest = sha256_digest(url.as_bytes());
    hex_digest(&['r', 'e', 's', 'o', 'u', 'r', 'c', 'e', '/'], digest.as_slice())
}

/// The storage key of a resource's cached body.
pub fn body_key(url: &str) -> (r: String)
    ensures
        r@ == body_key_of(url@),
{
    let digest = sha256_digest(url.as_bytes());
    hex_digest(&['b', 'o', 'd', 'y', '/'], digest.as_slice())
}

/// Once a worker acquired a resource's lease, no other worker acquires it
/// before the lease runs out.
pub proof fn law_lease_is_exclusive(n: &ResourceRecord, now: u64, lease_seconds: u64, later: u64)
    requires
        n.lease_until == sat_add(now, lease_seconds),
        now + lease_seconds <= u64::MAX,
        now <= later,
        later < now + lease_seconds,
    ensures
        !lease_free(Some(n), later),
{
}

/// The wait after a failure never exceeds `max_backoff` nor five seconds
/// doubled ten times, and never shrinks as failures accumulate.
pub proof fn law_backoff_is_bounded_and_monotone(retry: u32, max_backoff: u64)
    ensures
        backoff_delay(retry, max_backoff) <= max_backoff,
        backoff_delay(retry, max_backoff) <= 5120,
        retry < u32::MAX ==> backoff_delay(retry, max_backoff) <= backoff_delay(
            (retry + 1) as u32,
            max_backoff,
        ),
{
    reveal_with_fuel(pow2, 11);
}

} // verus!
