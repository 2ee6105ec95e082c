//! One fetch of a submitted locator, hop by hop. The caller performs each
//! action (a host lookup, a request, reading a body chunk) and reports what
//! came back; every hop is revalidated here: its target, its origin, the
//! redirect budget, the status and the size of the body.
use vstd::prelude::*;

use crate::crawler::{FetchPolicy, announced_length_fits, redirect_allowed};
use crate::document::opt_string_view;
use crate::net::{
    IpAddress, LocatorError, ParsedUrl, TargetCheck, TargetError, UrlView, check_resolved,
    check_target, parse_mapping_locator, redirect_target, resolved_ok, same_origin_view,
    target_check, url_join_of, url_parse_of,
};

verus! {

/// Where a fetch stands.
#[derive(Debug, Clone, Copy, PartialEq, Eq, Structural)]
pub enum FetchStage {
    /// Waiting for the addresses of the target's host.
    Resolving,
    /// Waiting for the answer to a request.
    Requesting,
    /// Reading the body of an accepted answer.
    Reading,
    /// The body is complete (empty for `304 Not Modified`).
    Finished,
    Failed,
}

/// Why a fetch fails.
#[derive(Debug, Clone, Copy, PartialEq, Eq)]
pub enum FetchError {
    /// A redirect leads to an unreadable URL or off the first origin.
    Locator(LocatorError),
    /// A target may not be requested.
    Target(TargetError),
    /// More redirects than the policy allows.
    RedirectLimit,
    /// A redirect without a `Location`.
    NoLocation,
    /// An answer that is neither a success, a redirect nor `304`.
    Status(u16),
    /// The body exceeds the byte limit.
    TooLarge,
    /// An event that the current stage does not wait for.
    Unexpected,
}

/// What the caller reports.
#[derive(Debug)]
pub enum HopEvent {
    /// The addresses of the host to look up.
    Resolved(Vec<IpAddress>),
    /// The answer to a request: status, `Location`, announced length,
    /// `ETag` and `Last-Modified`.
    Response(u16, Option<String>, Option<u64>, Option<String>, Option<String>),
    /// The next chunk of the body.
    Chunk(Vec<u8>),
    /// The body is complete.
    End,
}

/// What the caller reports, as a value of the specification.
pub enum HopEventView {
    Resolved(Seq<IpAddress>),
    Response(u16, Option<Seq<char>>, Option<u64>, Option<Seq<char>>, Option<Seq<char>>),
    Chunk(Seq<u8>),
    End,
}

impl View for HopEvent {
    type V = HopEventView;

    open spec fn view(&self) -> HopEventView {
        match self {
            HopEvent::Resolved(a) => HopEventView::Resolved(a@),
            HopEvent::Response(s, l, n, e, m) => HopEventView::Response(
                *s,
                opt_string_view(*l),
                *n,
                opt_string_view(*e),
                opt_string_view(*m),
            ),
            HopEvent::Chunk(b) => HopEventView::Chunk(b@),
            HopEvent::End => HopEventView::End,
        }
    }
}

/// What the caller does next.
#[derive(Debug, Clone, PartialEq, Eq)]
pub enum HopAction {
    /// Look up this host and port, and report `Resolved`.
    Resolve(String, u16),
    /// Request the current URL, with the stored validators where the flag
    /// is set (the first hop), and report `Response`.
    Request(bool),
    /// Read the next chunk of the body, and report `Chunk` or `End`.
    Read,
    /// The fetch is complete.
    Done,
    /// The fetch failed.
    Fail(FetchError),
}

/// What the caller does next, as a value of the specification.
pub enum HopActionView {
    Resolve(Seq<char>, u16),
    Request(bool),
    Read,
    Done,
    Fail(FetchError),
}

impl View for HopAction {
    type V = HopActionView;

    open spec fn view(&self) -> HopActionView {
        match self {
            HopAction::Resolve(h, p) => HopActionView::Resolve(h@, *p),
            HopAction::Request(c) => HopActionView::Request(*c),
            HopAction::Read => HopActionView::Read,
            HopAction::Done => HopActionView::Done,
            HopAction::Fail(e) => HopActionView::Fail(*e),
        }
    }
}

/// A fetch in progress.
#[derive(Debug)]
pub struct FetchLoop {
    initial: ParsedUrl,
    current: ParsedUrl,
    redirects: usize,
    requests: usize,
    stage: FetchStage,
    status: u16,
    etag: Option<String>,
    last_modified: Option<String>,
    body: Vec<u8>,
}

/// A fetch in progress, as a value of the specification.
pub struct FetchView {
    /// The submitted locator.
    pub initial: UrlView,
    /// The URL of the current hop.
    pub current: UrlView,
    pub redirects: usize,
    /// The requests made so far.
    pub requests: usize,
    pub stage: FetchStage,
    pub status: u16,
    pub etag: Option<Seq<char>>,
    pub last_modified: Option<Seq<char>>,
    pub body: Seq<u8>,
}

impl FetchLoop {
    /// The fetch as a value of the specification.
    pub closed spec fn model(&self) -> FetchView {
        FetchView {
            initial: self.initial.spec_parts(),
            current: self.current.spec_parts(),
            redirects: self.redirects,
            requests: self.requests,
            stage: self.stage,
            status: self.status,
            etag: opt_string_view(self.etag),
            last_modified: opt_string_view(self.last_modified),
            body: self.body@,
        }
    }
}

impl View for FetchLoop {
    type V = FetchView;

    open spec fn view(&self) -> FetchView {
        self.model()
    }
}

/// `a + 1`, or the largest `usize` where that overflows.
pub open spec fn bump(a: usize) -> usize {
    if a < usize::MAX {
        (a + 1) as usize
    } else {
        a
    }
}

/// The fetch failed with `e`.
pub open spec fn failed(v: FetchView, e: FetchError) -> (FetchView, HopActionView) {
    (FetchView { stage: FetchStage::Failed, ..v }, HopActionView::Fail(e))
}

/// Begin a hop: check its target, then look up its host or request it.
pub open spec fn hop_begin(v: FetchView, policy: FetchPolicy) -> (FetchView, HopActionView) {
    match target_check(v.current, policy.allow_private_networks) {
        Err(e) => failed(v, FetchError::Target(e)),
        Ok(None) => (
            FetchView { stage: FetchStage::Requesting, requests: bump(v.requests), ..v },
            HopActionView::Request(v.redirects == 0),
        ),
        Ok(Some((h, p))) => (
            FetchView { stage: FetchStage::Resolving, ..v },
            HopActionView::Resolve(h, p),
        ),
    }
}

/// Where a redirect leads: the `Location` resolved against the current URL,
/// on the origin of the first request.
pub open spec fn redirect_next(initial: UrlView, current: UrlView, location: Seq<char>) -> Result<
    UrlView,
    LocatorError,
> {
    match url_join_of(current.text, location) {
        None => Err(LocatorError::InvalidUrl),
        Some(next) => if same_origin_view(initial, next) {
            Ok(next)
        } else {
            Err(LocatorError::CrossOrigin)
        },
    }
}

/// The start of a fetch of `raw`: the first hop to the locator, or why it
/// is no URL.
pub open spec fn fetch_start(raw: Seq<char>, policy: FetchPolicy) -> Result<
    (FetchView, HopActionView),
    LocatorError,
> {
    match url_parse_of(raw) {
        None => Err(LocatorError::InvalidUrl),
        Some(u) => Ok(
            hop_begin(
                FetchView {
                    initial: u,
                    current: u,
                    redirects: 0,
                    requests: 0,
                    stage: FetchStage::Resolving,
                    status: 0,
                    etag: None,
                    last_modified: None,
                    body: seq![],
                },
                policy,
            ),
        ),
    }
}

/// The answer to a request. `304 Not Modified` ends the fetch with an
/// empty body and the new validators (the caller serves its cache); a
/// redirect, within the budget, begins a hop to its target on the first
/// origin; a success within the byte limit is read; anything else fails.
pub open spec fn on_response(
    v: FetchView,
    policy: FetchPolicy,
    status: u16,
    location: Option<Seq<char>>,
    length: Option<u64>,
    etag: Option<Seq<char>>,
    last_modified: Option<Seq<char>>,
) -> (FetchView, HopActionView) {
    if status == 304 {
        (
            FetchView {
                stage: FetchStage::Finished,
                status,
                etag,
                last_modified,
                body: seq![],
                ..v
            },
            HopActionView::Done,
        )
    } else if 300 <= status <= 399 {
        if v.redirects >= policy.max_redirects {
            failed(v, FetchError::RedirectLimit)
        } else {
            match location {
                None => failed(v, FetchError::NoLocation),
                Some(loc) => match redirect_next(v.initial, v.current, loc) {
                    Err(e) => failed(v, FetchError::Locator(e)),
                    Ok(next) => hop_begin(
                        FetchView { current: next, redirects: (v.redirects + 1) as usize, ..v },
                        policy,
                    ),
                },
            }
        }
    } else if !(200 <= status <= 299) {
        failed(v, FetchError::Status(status))
    } else if length matches Some(l) && l > policy.max_response_bytes {
        failed(v, FetchError::TooLarge)
    } else {
        (
            FetchView {
                stage: FetchStage::Reading,
                status,
                etag,
                last_modified,
                body: seq![],
                ..v
            },
            HopActionView::Read,
        )
    }
}

/// The next state and action of a fetch after an event.
pub open spec fn fetch_next(v: FetchView, policy: FetchPolicy, e: HopEventView) -> (
    FetchView,
    HopActionView,
) {
    match e {
        HopEventView::Resolved(addresses) => if v.stage == FetchStage::Resolving {
            match resolved_ok(addresses) {
                Err(err) => failed(v, FetchError::Target(err)),
                Ok(_) => (
                    FetchView { stage: FetchStage::Requesting, requests: bump(v.requests), ..v },
                    HopActionView::Request(v.redirects == 0),
                ),
            }
        } else {
            failed(v, FetchError::Unexpected)
        },
        HopEventView::Response(status, location, length, etag, last_modified) => if v.stage
            == FetchStage::Requesting {
            on_response(v, policy, status, location, length, etag, last_modified)
        } else {
            failed(v, FetchError::Unexpected)
        },
        HopEventView::Chunk(bytes) => if v.stage == FetchStage::Reading {
            if v.body.len() + bytes.len() <= policy.max_response_bytes {
                (FetchView { body: v.body + bytes, ..v }, HopActionView::Read)
            } else {
                failed(v, FetchError::TooLarge)
            }
        } else {
            failed(v, FetchError::Unexpected)
        },
        HopEventView::End => if v.stage == FetchStage::Reading {
            (FetchView { stage: FetchStage::Finished, ..v }, HopActionView::Done)
        } else {
            failed(v, FetchError::Unexpected)
        },
    }
}

fn fail(mut s: FetchLoop, e: FetchError) -> (r: (FetchLoop, HopAction))
    ensures
        (r.0@, r.1@) == failed(s@, e),
{
    s.stage = FetchStage::Failed;
    (s, HopAction::Fail(e))
}

fn append_bytes(body: &mut Vec<u8>, bytes: &[u8])
    ensures
        final(body)@ == old(body)@ + bytes@,
{
    let mut i: usize = 0;
    while i < bytes.len()
        invariant
            0 <= i <= bytes.len(),
            body@ == old(body)@ + bytes@.take(i as int),
        decreases bytes.len() - i,
    {
        body.push(bytes[i]);
        assert(bytes@.take(i + 1) == bytes@.take(i as int).push(bytes@[i as int]));
        i = i + 1;
    }
    assert(bytes@.take(bytes.len() as int) == bytes@);
}

impl FetchLoop {
    /// Start a fetch of `raw`.
    pub fn start(raw: &str, policy: &FetchPolicy) -> (r: Result<
        (FetchLoop, HopAction),
        LocatorError,
    >)
        ensures
            match r {
                Ok((s, a)) => fetch_start(raw@, *policy) == Ok::<
                    (FetchView, HopActionView),
                    LocatorError,
                >((s@, a@)),
                Err(e) => fetch_start(raw@, *policy) == Err::<
                    (FetchView, HopActionView),
                    LocatorError,
                >(e),
            },
    {
        let initial = match parse_mapping_locator(raw) {
            Ok(u) => u,
            Err(e) => {
                return Err(e);
            },
        };
        let current = match parse_mapping_locator(raw) {
            Ok(u) => u,
            Err(e) => {
                return Err(e);
            },
        };
        let s = FetchLoop {
            initial,
            current,
            redirects: 0,
            requests: 0,
            stage: FetchStage::Resolving,
            status: 0,
            etag: None,
            last_modified: None,
            body: Vec::new(),
        };
        Ok(s.begin(policy))
    }

    fn begin(self, policy: &FetchPolicy) -> (r: (FetchLoop, HopAction))
        ensures
            (r.0@, r.1@) == hop_begin(self@, *policy),
    {
        let mut s = self;
        match check_target(s.current.parts(), policy.allow_private_networks) {
            Err(e) => fail(s, FetchError::Target(e)),
            Ok(TargetCheck::Accepted) => {
                s.stage = FetchStage::Requesting;
                s.requests = s.requests.saturating_add(1);
                let first = s.redirects == 0;
                (s, HopAction::Request(first))
            },
            Ok(TargetCheck::Resolve(h, p)) => {
                s.stage = FetchStage::Resolving;
                (s, HopAction::Resolve(h, p))
            },
        }
    }

    fn respond(
        self,
        policy: &FetchPolicy,
        status: u16,
        location: Option<String>,
        length: Option<u64>,
        etag: Option<String>,
        last_modified: Option<String>,
    ) -> (r: (FetchLoop, HopAction))
        ensures
            (r.0@, r.1@) == on_response(
                self@,
                *policy,
                status,
                opt_string_view(location),
                length,
                opt_string_view(etag),
                opt_string_view(last_modified),
            ),
    {
        let mut s = self;
        if status == 304 {
            s.stage = FetchStage::Finished;
            s.status = status;
            s.etag = etag;
            s.last_modified = last_modified;
            s.body = Vec::new();
            (s, HopAction::Done)
        } else if 300 <= status && status <= 399 {
            if !redirect_allowed(s.redirects, policy.max_redirects) {
                return fail(s, FetchError::RedirectLimit);
            }
            let loc = match location {
                None => {
                    return fail(s, FetchError::NoLocation);
                },
                Some(l) => l,
            };
            match redirect_target(&s.initial, &s.current, loc.as_str()) {
                Err(e) => fail(s, FetchError::Locator(e)),
                Ok(next) => {
                    s.current = next;
                    s.redirects = s.redirects + 1;
                    s.begin(policy)
                },
            }
        } else if !(200 <= status && status <= 299) {
            fail(s, FetchError::Status(status))
        } else if !announced_length_fits(length, policy.max_response_bytes) {
            fail(s, FetchError::TooLarge)
        } else {
            s.stage = FetchStage::Reading;
            s.status = status;
            s.etag = etag;
            s.last_modified = last_modified;
            s.body = Vec::new();
            (s, HopAction::Read)
        }
    }

    fn resolved(self, addresses: &[IpAddress]) -> (r: (FetchLoop, HopAction))
        ensures
            (r.0@, r.1@) == (match resolved_ok(addresses@) {
                Err(err) => failed(self@, FetchError::Target(err)),
                Ok(_) => (
                    FetchView { stage: FetchStage::Requesting, requests: bump(self@.requests), ..self@ },
                    HopActionView::Request(self@.redirects == 0),
                ),
            }),
    {
        let mut s = self;
        match check_resolved(addresses) {
            Err(e) => fail(s, FetchError::Target(e)),
            Ok(()) => {
                s.stage = FetchStage::Requesting;
                s.requests = s.requests.saturating_add(1);
                let first = s.redirects == 0;
                (s, HopAction::Request(first))
            },
        }
    }

    /// The next state and action after an event.
    pub fn step(self, policy: &FetchPolicy, event: HopEvent) -> (r: (FetchLoop, HopAction))
        ensures
            (r.0@, r.1@) == fetch_next(self@, *policy, event@),
    {
        let mut s = self;
        match event {
            HopEvent::Resolved(addresses) => {
                if s.stage != FetchStage::Resolving {
                    return fail(s, FetchError::Unexpected);
                }
                s.resolved(addresses.as_slice())
            },
            HopEvent::Response(status, location, length, etag, last_modified) => {
                if s.stage != FetchStage::Requesting {
                    return fail(s, FetchError::Unexpected);
                }
                s.respond(policy, status, location, length, etag, last_modified)
            },
            HopEvent::Chunk(bytes) => {
                if s.stage != FetchStage::Reading {
                    return fail(s, FetchError::Unexpected);
                }
                if s.body.len() <= policy.max_response_bytes && bytes.len() <= policy.max_response_bytes
                    - s.body.len() {
                    append_bytes(&mut s.body, bytes.as_slice());
                    (s, HopAction::Read)
                } else {
                    fail(s, FetchError::TooLarge)
                }
            },
            HopEvent::End => {
                if s.stage != FetchStage::Reading {
                    return fail(s, FetchError::Unexpected);
                }
                s.stage = FetchStage::Finished;
                (s, HopAction::Done)
            },
        }
    }

    /// The URL of the current hop.
    pub fn current(&self) -> (u: &ParsedUrl)
        ensures
            u.spec_parts() == self@.current,
    {
        &self.current
    }

    /// Where the fetch stands.
    pub fn stage(&self) -> (s: FetchStage)
        ensures
            s == self@.stage,
    {
        self.stage
    }

    /// The outcome of the fetch: the final URL, the status, the validators
    /// and the body.
    pub fn into_parts(self) -> (r: (ParsedUrl, u16, Option<String>, Option<String>, Vec<u8>))
        ensures
            r.0.spec_parts() == self@.current,
            r.1 == self@.status,
            opt_string_view(r.2) == self@.etag,
            opt_string_view(r.3) == self@.last_modified,
            r.4@ == self@.body,
    {
        (self.current, self.status, self.etag, self.last_modified, self.body)
    }
}

/// What holds of a fetch at every step: the first origin is kept, the
/// redirect budget and the number of requests are respected, and a body
/// being read or accepted stays within the byte limit.
pub open spec fn fetch_inv(v: FetchView, policy: FetchPolicy) -> bool {
    &&& v.redirects <= policy.max_redirects
    &&& same_origin_view(v.initial, v.current)
    &&& v.requests <= v.redirects + 1
    &&& v.stage == FetchStage::Resolving ==> v.requests == v.redirects
    &&& (v.stage == FetchStage::Requesting || v.stage == FetchStage::Reading || v.stage
        == FetchStage::Finished) ==> v.requests == bump(v.redirects)
    &&& v.stage == FetchStage::Reading ==> v.body.len() <= policy.max_response_bytes && 200
        <= v.status <= 299
    &&& v.stage == FetchStage::Finished ==> v.body.len() <= policy.max_response_bytes
    &&& (v.stage == FetchStage::Finished && v.status == 304) ==> v.body.len() == 0
    &&& (v.stage == FetchStage::Finished && v.status != 304) ==> 200 <= v.status <= 299
}

proof fn lemma_hop_begin_inv(v: FetchView, policy: FetchPolicy)
    requires
        v.redirects <= policy.max_redirects,
        same_origin_view(v.initial, v.current),
        v.requests == v.redirects,
    ensures
        fetch_inv(hop_begin(v, policy).0, policy),
        hop_begin(v, policy).0.initial == v.initial,
{
}

/// A fetch starts on the submitted locator, within every bound.
pub proof fn law_fetch_starts_within_bounds(raw: Seq<char>, policy: FetchPolicy)
    ensures
        fetch_start(raw, policy) matches Ok((v, a)) ==> fetch_inv(v, policy) && Some(
            v.initial,
        ) == url_parse_of(raw) && v.current == v.initial,
{
    if let Some(u) = url_parse_of(raw) {
        let v0 = FetchView {
            initial: u,
            current: u,
            redirects: 0,
            requests: 0,
            stage: FetchStage::Resolving,
            status: 0,
            etag: None,
            last_modified: None,
            body: seq![],
        };
        lemma_hop_begin_inv(v0, policy);
    }
}

/// Every hop is revalidated: each step keeps the first origin and every
/// bound. Hence at most `max_redirects + 1` requests are made, every
/// requested URL shares the origin of the submitted locator, and an
/// accepted body holds at most `max_response_bytes` bytes.
pub proof fn law_fetch_steps_stay_within_bounds(v: FetchView, policy: FetchPolicy, e: HopEventView)
    requires
        fetch_inv(v, policy),
    ensures
        fetch_inv(fetch_next(v, policy, e).0, policy),
        fetch_next(v, policy, e).0.initial == v.initial,
        fetch_next(v, policy, e).0.requests <= policy.max_redirects + 1,
        fetch_next(v, policy, e).1 is Request ==> same_origin_view(
            v.initial,
            fetch_next(v, policy, e).0.current,
        ),
        fetch_next(v, policy, e).1 is Done ==> fetch_next(v, policy, e).0.body.len()
            <= policy.max_response_bytes,
        fetch_next(v, policy, e).1 is Done ==> (fetch_next(v, policy, e).0.status == 304
            && fetch_next(v, policy, e).0.body.len() == 0) || 200 <= fetch_next(
            v,
            policy,
            e,
        ).0.status <= 299,
{
    match e {
        HopEventView::Response(status, location, length, etag, last_modified) => {
            if v.stage == FetchStage::Requesting && !(status == 304) && 300 <= status <= 399
                && v.redirects < policy.max_redirects {
                if let Some(loc) = location {
                    if let Ok(next) = redirect_next(v.initial, v.current, loc) {
                        lemma_hop_begin_inv(
                            FetchView { current: next, redirects: (v.redirects + 1) as usize, ..v },
                            policy,
                        );
                    }
                }
            }
        },
        _ => {},
    }
}

/// `304 Not Modified` ends the fetch with status 304, an empty body and
/// the new validators; the caller serves the body it stored.
pub proof fn law_not_modified_ends_with_no_body(
    v: FetchView,
    policy: FetchPolicy,
    location: Option<Seq<char>>,
    length: Option<u64>,
    etag: Option<Seq<char>>,
    last_modified: Option<Seq<char>>,
)
    requires
        v.stage == FetchStage::Requesting,
    ensures
        ({
            let r = fetch_next(
                v,
                policy,
                HopEventView::Response(304, location, length, etag, last_modified),
            );
            r.1 is Done && r.0.stage == FetchStage::Finished && r.0.body.len() == 0 && r.0.status
                == 304 && r.0.etag == etag && r.0.last_modified == last_modified
        }),
{
}

/// An answer that is neither a success (`2xx`) nor a redirect (`3xx`)
/// ends the fetch with its status as the error.
pub proof fn law_other_statuses_fail(
    v: FetchView,
    policy: FetchPolicy,
    status: u16,
    location: Option<Seq<char>>,
    length: Option<u64>,
    etag: Option<Seq<char>>,
    last_modified: Option<Seq<char>>,
)
    requires
        v.stage == FetchStage::Requesting,
        !(200 <= status <= 399),
    ensures
        fetch_next(v, policy, HopEventView::Response(status, location, length, etag, last_modified))
            == failed(v, FetchError::Status(status)),
{
}

} // verus!
