//! The shapes the search API exchanges, and the bounds it puts on a query.
use vstd::prelude::*;

use crate::crawler::CrawlStats;
use crate::sync::IndexSyncReport;
use crate::text::{chars_of, string_of, trim};

verus! {

/// Current index lifecycle state exposed to the console.
#[derive(Debug, Clone)]
pub struct IndexStatus {
    pub documents: usize,
    pub mappings: usize,
    pub generation: u64,
    pub last_rebuilt_at: String,
    pub last_ingested_at: String,
}

/// Result of one complete sitemap ingestion.
#[derive(Debug, Clone, Copy, PartialEq, Eq)]
pub struct RebuildReport {
    pub mappings: usize,
    pub rows: usize,
    pub documents: usize,
    pub generation: u64,
    pub added: usize,
    pub updated: usize,
    pub deleted: usize,
    pub unchanged: usize,
    pub fetched: usize,
    pub not_modified: usize,
    pub retries: usize,
    pub deferred: usize,
}

/// The parameters of a search request.
#[derive(Debug, Clone)]
pub struct SearchQuery {
    pub q: String,
    pub offset: Option<usize>,
    pub limit: Option<usize>,
}

/// A request to ingest a webmaster-submitted mapping.
#[derive(Debug, Clone)]
pub struct IngestRequest {
    pub mapping_url: String,
}

/// The longest query accepted, in characters.
pub const MAX_QUERY_CHARS: usize = 256;

/// The largest page of results.
pub const MAX_PAGE_SIZE: usize = 50;

/// The page size used where a request names none.
pub const DEFAULT_PAGE_SIZE: usize = 20;

/// The number of content characters shown in a result.
pub const SNIPPET_CHARS: usize = 180;

/// Why a search request is refused.
#[derive(Debug, Clone, Copy, PartialEq, Eq)]
pub enum SearchError {
    QueryTooLong,
}

/// A query as searched: trimmed, and refused when longer than 256
/// characters.
pub fn normalize_query(query: &str) -> (r: Result<String, SearchError>)
    ensures
        match r {
            Ok(q) => q@ == trim(query@) && trim(query@).len() <= MAX_QUERY_CHARS,
            Err(_) => trim(query@).len() > MAX_QUERY_CHARS,
        },
{
    let t = crate::text::trimmed(chars_of(query).as_slice());
    if t.len() > MAX_QUERY_CHARS {
        Err(SearchError::QueryTooLong)
    } else {
        Ok(string_of(t.as_slice()))
    }
}

/// A page size between 1 and 50.
pub open spec fn clamped_limit(limit: usize) -> usize {
    if limit < 1 {
        1
    } else if limit > MAX_PAGE_SIZE {
        MAX_PAGE_SIZE
    } else {
        limit
    }
}

/// The page size searched for a requested one.
pub fn page_limit(limit: usize) -> (r: usize)
    ensures
        r == clamped_limit(limit),
        1 <= r <= MAX_PAGE_SIZE,
{
    if limit < 1 {
        1
    } else if limit > MAX_PAGE_SIZE {
        MAX_PAGE_SIZE
    } else {
        limit
    }
}

impl SearchQuery {
    /// The offset and the requested page size: zero and twenty where the
    /// request names none.
    pub fn window(&self) -> (r: (usize, usize))
        ensures
            r.0 == match self.offset {
                Some(o) => o,
                None => 0,
            },
            r.1 == match self.limit {
                Some(l) => l,
                None => DEFAULT_PAGE_SIZE,
            },
    {
        let offset = match self.offset {
            Some(o) => o,
            None => 0,
        };
        let limit = match self.limit {
            Some(l) => l,
            None => DEFAULT_PAGE_SIZE,
        };
        (offset, limit)
    }
}

/// The first 180 characters of a text.
pub open spec fn snippet_of(text: Seq<char>) -> Seq<char> {
    if text.len() <= SNIPPET_CHARS {
        text
    } else {
        text.take(SNIPPET_CHARS as int)
    }
}

/// The snippet shown for a result.
pub fn snippet(text: &str) -> (r: String)
    ensures
        r@ == snippet_of(text@),
{
    let cs = chars_of(text);
    if cs.len() <= SNIPPET_CHARS {
        string_of(cs.as_slice())
    } else {
        let head = crate::text::copy_range(cs.as_slice(), 0, SNIPPET_CHARS);
        assert(head@ == cs@.take(SNIPPET_CHARS as int));
        string_of(head.as_slice())
    }
}

/// The decimal digits of `n`.
pub open spec fn decimal(n: nat) -> Seq<char>
    decreases n,
{
    if n < 10 {
        seq![(0x30 + n) as char]
    } else {
        decimal(n / 10).push((0x30 + n % 10) as char)
    }
}

/// The value of a text of decimal digits, or nothing where it holds
/// another character or none.
pub open spec fn digits_value(s: Seq<char>) -> Option<nat>
    decreases s.len(),
{
    if s.len() == 0 {
        None
    } else if !('0' <= s.last() <= '9') {
        None
    } else if s.len() == 1 {
        Some((s.last() as nat - 0x30) as nat)
    } else {
        match digits_value(s.drop_last()) {
            Some(v) => Some(v * 10 + (s.last() as nat - 0x30) as nat),
            None => None,
        }
    }
}

/// What `str::parse::<u64>` accepts: decimal digits after an optional
/// `+`, with a value that fits.
pub open spec fn u64_text_value(s: Seq<char>) -> Option<u64> {
    let digits = if s.len() > 0 && s[0] == '+' {
        s.drop_first()
    } else {
        s
    };
    digits_u64(digits)
}

/// The value of decimal digits, where it fits a `u64`.
pub open spec fn digits_u64(digits: Seq<char>) -> Option<u64> {
    match digits_value(digits) {
        Some(v) => if v <= u64::MAX {
            Some(v as u64)
        } else {
            None
        },
        None => None,
    }
}

/// The decimal text of a generation, as stored with each document.
pub fn generation_text(g: u64) -> (r: String)
    ensures
        r@ == decimal(g as nat),
    decreases g,
{
    if g < 10 {
        let c = digit_char(g);
        string_of(&[c])
    } else {
        let head = generation_text(g / 10);
        let mut cs = chars_of(head.as_str());
        cs.push(digit_char(g % 10));
        string_of(cs.as_slice())
    }
}

fn digit_char(d: u64) -> (c: char)
    requires
        d < 10,
    ensures
        c == (0x30 + d) as char,
{
    if d == 0 {
        '0'
    } else if d == 1 {
        '1'
    } else if d == 2 {
        '2'
    } else if d == 3 {
        '3'
    } else if d == 4 {
        '4'
    } else if d == 5 {
        '5'
    } else if d == 6 {
        '6'
    } else if d == 7 {
        '7'
    } else if d == 8 {
        '8'
    } else {
        '9'
    }
}

/// Read a `u64` as `str::parse::<u64>` does: decimal digits after an
/// optional `+`, refused where another character occurs or the value does
/// not fit.
pub fn parse_u64(text: &str) -> (r: Option<u64>)
    ensures
        r == u64_text_value(text@),
{
    let cs = chars_of(text);
    let start: usize = if cs.len() > 0 && cs[0] == '+' {
        1
    } else {
        0
    };
    let digits = crate::text::copy_range(cs.as_slice(), start, cs.len());
    assert(start == 1 ==> digits@ == text@.drop_first());
    assert(start == 0 ==> digits@ == text@);
    assert(u64_text_value(text@) == digits_u64(digits@));
    if digits.len() == 0 {
        return None;
    }
    let mut value: u64 = 0;
    let mut i: usize = 0;
    while i < digits.len()
        invariant
            0 <= i <= digits.len(),
            digits.len() > 0,
            u64_text_value(text@) == digits_u64(digits@),
            i == 0 ==> value == 0,
            i > 0 ==> digits_value(digits@.take(i as int)) == Some(value as nat),
        decreases digits.len() - i,
    {
        let c = digits[i];
        assert(digits@.take(i + 1).drop_last() == digits@.take(i as int));
        assert(digits@.take(i + 1).last() == c);
        if !('0' <= c && c <= '9') {
            proof {
                lemma_digits_none_after(digits@, (i + 1) as nat);
            }
            return None;
        }
        let d = (c as u32 - 0x30) as u64;
        if value > (u64::MAX - d) / 10 {
            proof {
                lemma_digits_too_large(digits@, i as nat, value as nat, d as nat);
            }
            return None;
        }
        assert(value * 10 + d <= u64::MAX) by (nonlinear_arith)
            requires
                value <= (u64::MAX - d) / 10,
                d < 10,
        ;
        proof {
            if i > 0 {
                assert(digits_value(digits@.take(i + 1)) == Some((value * 10 + d) as nat));
            } else {
                assert(digits_value(digits@.take(i + 1)) == Some(d as nat));
            }
        }
        value = value * 10 + d;
        i = i + 1;
    }
    assert(digits@.take(digits.len() as int) == digits@);
    Some(value)
}

/// The generation stored as text with a document; text that is not one
/// reads as generation zero.
pub fn parse_generation(text: &str) -> (g: u64)
    ensures
        g == match u64_text_value(text@) {
            Some(v) => v,
            None => 0,
        },
{
    match parse_u64(text) {
        Some(v) => v,
        None => 0,
    }
}

proof fn lemma_digits_none_after(s: Seq<char>, k: nat)
    requires
        1 <= k <= s.len(),
        digits_value(s.take(k as int)) is None,
    ensures
        digits_value(s) is None,
    decreases s.len() - k,
{
    if k < s.len() {
        assert(s.take((k + 1) as int).drop_last() == s.take(k as int));
        lemma_digits_none_after(s, k + 1);
    } else {
        assert(s.take(k as int) == s);
    }
}

proof fn lemma_digits_grow(s: Seq<char>, k: nat, v: nat)
    requires
        1 <= k <= s.len(),
        digits_value(s.take(k as int)) == Some(v),
    ensures
        digits_value(s) matches Some(w) ==> w >= v,
    decreases s.len() - k,
{
    if k < s.len() {
        assert(s.take((k + 1) as int).drop_last() == s.take(k as int));
        match digits_value(s.take((k + 1) as int)) {
            Some(w) => {
                lemma_digits_grow(s, k + 1, w);
            },
            None => {
                lemma_digits_none_after(s, k + 1);
            },
        }
    } else {
        assert(s.take(k as int) == s);
    }
}

proof fn lemma_digits_too_large(s: Seq<char>, i: nat, value: nat, d: nat)
    requires
        i < s.len(),
        i > 0 ==> digits_value(s.take(i as int)) == Some(value),
        i == 0 ==> value == 0,
        '0' <= s[i as int] <= '9',
        d == (s[i as int] as nat - 0x30) as nat,
        value > (u64::MAX - d) / 10,
    ensures
        u64_text_value_digits(s),
{
    assert(s.take((i + 1) as int).drop_last() == s.take(i as int));
    assert(s.take((i + 1) as int).last() == s[i as int]);
    assert(value * 10 + d > u64::MAX) by (nonlinear_arith)
        requires
            value > (u64::MAX - d) / 10,
            d < 10,
    ;
    if i > 0 {
        assert(digits_value(s.take((i + 1) as int)) == Some(value * 10 + d));
    } else {
        assert(value == 0);
    }
    lemma_digits_grow(s, i + 1, (value * 10 + d) as nat);
}

/// The digits of `s` hold a value too large for a `u64`, or none.
pub open spec fn u64_text_value_digits(s: Seq<char>) -> bool {
    match digits_value(s) {
        Some(v) => v > u64::MAX,
        None => true,
    }
}

/// A generation written and read back is the same generation.
pub proof fn law_generation_text_round_trip(g: u64)
    ensures
        u64_text_value(decimal(g as nat)) == Some(g),
{
    lemma_decimal_value(g as nat);
}

proof fn lemma_decimal_value(n: nat)
    ensures
        digits_value(decimal(n)) == Some(n),
        decimal(n).len() > 0,
        decimal(n)[0] != '+',
    decreases n,
{
    if n >= 10 {
        lemma_decimal_value(n / 10);
        let d = decimal(n);
        assert(d.drop_last() == decimal(n / 10));
        assert(n == (n / 10) * 10 + n % 10);
        assert(d[0] == decimal(n / 10)[0]);
    }
}

/// The report of a rebuild from the local catalog: every page is a row and
/// a document, and nothing was fetched.
pub fn rebuild_report(mappings: usize, pages: usize, sync: &IndexSyncReport) -> (r: RebuildReport)
    ensures
        r == (RebuildReport {
            mappings,
            rows: pages,
            documents: pages,
            generation: sync.generation,
            added: sync.added,
            updated: sync.updated,
            deleted: sync.deleted,
            unchanged: sync.unchanged,
            fetched: 0,
            not_modified: 0,
            retries: 0,
            deferred: 0,
        }),
{
    RebuildReport {
        mappings,
        rows: pages,
        documents: pages,
        generation: sync.generation,
        added: sync.added,
        updated: sync.updated,
        deleted: sync.deleted,
        unchanged: sync.unchanged,
        fetched: 0,
        not_modified: 0,
        retries: 0,
        deferred: 0,
    }
}

/// The report of an ingestion of a remote catalog.
pub fn ingest_report(
    mappings: usize,
    rows: usize,
    documents: usize,
    sync: &IndexSyncReport,
    stats: &CrawlStats,
) -> (r: RebuildReport)
    ensures
        r == (RebuildReport {
            mappings,
            rows,
            documents,
            generation: sync.generation,
            added: sync.added,
            updated: sync.updated,
            deleted: sync.deleted,
            unchanged: sync.unchanged,
            fetched: stats.fetched,
            not_modified: stats.not_modified,
            retries: stats.retries,
            deferred: stats.deferred,
        }),
{
    RebuildReport {
        mappings,
        rows,
        documents,
        generation: sync.generation,
        added: sync.added,
        updated: sync.updated,
        deleted: sync.deleted,
        unchanged: sync.unchanged,
        fetched: stats.fetched,
        not_modified: stats.not_modified,
        retries: stats.retries,
        deferred: stats.deferred,
    }
}

} // verus!
