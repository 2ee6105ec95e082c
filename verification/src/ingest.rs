//! Ingestion of a submitted mapping locator, step by step: the mapping
//! index, then each mapping's sitemap, then the content of each row, with
//! one fetch per content URL. The caller fetches what a step asks for and
//! reports the text; every URL asked for is resolved here against the URL
//! it was found under and stays on the origin of the submitted locator, and
//! the mapping, row and document limits are checked as the catalog grows.
use vstd::prelude::*;

use crate::catalog::{
    LoadedCatalog, MappingSpec, content_graph, is_page, mappings_of, materialization,
    materialize_row_from_source, parse_mappings, parse_sitemap_rows, row_content,
    row_content_reference, row_updated, sitemap_rows,
};
use crate::crawler::{CrawlerConfig, IngestError, sat_add_usize};
use crate::document::{SearchDocument, mapping_id_of};
use crate::error::{CoreError, CoreFault};
use crate::net::{
    LocatorError, ParsedUrl, UrlView, locator_view, parse_mapping_locator, same_origin_url,
    same_origin_view, url_parse_of,
};
use crate::value::{RuntimeValue, ValueView, models};

verus! {

/// Where an ingestion stands.
#[derive(Debug, Clone, Copy, PartialEq, Eq, Structural)]
pub enum IngestStage {
    /// Waiting for the mapping index.
    Mappings,
    /// Waiting for the sitemap of the current mapping.
    Datas,
    /// Going through the rows of the current sitemap.
    Rows,
    /// Waiting for the content of the current row.
    Content,
    Done,
    Failed,
}

/// Why an ingestion stops.
#[derive(Debug, Clone, PartialEq, Eq)]
pub enum IngestFailure {
    /// A locator of the catalog is refused.
    Locator(LocatorError),
    /// A fetched text is refused.
    Core(CoreError),
    /// A limit is exceeded.
    Limit(IngestError),
    /// An event that the current stage does not wait for.
    Unexpected,
}

/// Why an ingestion stops, as a value of the specification.
pub enum IngestFailureView {
    Locator(LocatorError),
    Core(CoreFault),
    Limit(IngestError),
    Unexpected,
}

impl View for IngestFailure {
    type V = IngestFailureView;

    open spec fn view(&self) -> IngestFailureView {
        match self {
            IngestFailure::Locator(e) => IngestFailureView::Locator(*e),
            IngestFailure::Core(e) => IngestFailureView::Core(e@),
            IngestFailure::Limit(e) => IngestFailureView::Limit(*e),
            IngestFailure::Unexpected => IngestFailureView::Unexpected,
        }
    }
}

/// What the caller reports.
#[derive(Debug)]
pub enum IngestEvent {
    /// The text fetched from the target asked for.
    Fetched(String),
    /// The step asked for needs nothing fetched.
    Proceed,
}

/// What the caller reports, as a value of the specification.
pub enum IngestEventView {
    Fetched(Seq<char>),
    Proceed,
}

impl View for IngestEvent {
    type V = IngestEventView;

    open spec fn view(&self) -> IngestEventView {
        match self {
            IngestEvent::Fetched(t) => IngestEventView::Fetched(t@),
            IngestEvent::Proceed => IngestEventView::Proceed,
        }
    }
}

/// What the caller does next.
#[derive(Debug, Clone, PartialEq, Eq)]
pub enum IngestAction {
    /// Fetch the target and report `Fetched`.
    Fetch,
    /// Report `Proceed`.
    Proceed,
    /// The catalog is complete.
    Done,
    /// The ingestion failed.
    Fail(IngestFailure),
}

/// What the caller does next, as a value of the specification.
pub enum IngestActionView {
    Fetch,
    Proceed,
    Done,
    Fail(IngestFailureView),
}

impl View for IngestAction {
    type V = IngestActionView;

    open spec fn view(&self) -> IngestActionView {
        match self {
            IngestAction::Fetch => IngestActionView::Fetch,
            IngestAction::Proceed => IngestActionView::Proceed,
            IngestAction::Done => IngestActionView::Done,
            IngestAction::Fail(f) => IngestActionView::Fail(f@),
        }
    }
}

/// An ingestion in progress.
#[derive(Debug)]
pub struct IngestLoop {
    origin: ParsedUrl,
    stage: IngestStage,
    mappings: Vec<MappingSpec>,
    mapping: usize,
    data: Option<ParsedUrl>,
    rows: Vec<RuntimeValue>,
    row: usize,
    total_rows: usize,
    pages: Vec<SearchDocument>,
    cache: Vec<(String, String)>,
    target: Option<ParsedUrl>,
    max_mappings: usize,
    max_rows: usize,
    max_documents: usize,
}

/// An ingestion in progress, as a value of the specification.
pub struct IngestView {
    /// The submitted mapping locator.
    pub origin: UrlView,
    pub stage: IngestStage,
    pub mappings: Seq<MappingSpec>,
    /// The current mapping.
    pub mapping: usize,
    /// The sitemap URL of the current mapping.
    pub data: Option<UrlView>,
    /// The rows of the current sitemap.
    pub rows: Seq<RuntimeValue>,
    /// The current row.
    pub row: usize,
    /// The rows of all sitemaps so far.
    pub total_rows: usize,
    pub pages: Seq<SearchDocument>,
    /// The fetched content texts by URL.
    pub cache: Seq<(Seq<char>, Seq<char>)>,
    /// The URL to fetch.
    pub target: Option<UrlView>,
    pub max_mappings: usize,
    pub max_rows: usize,
    pub max_documents: usize,
}

/// What is read of an optional URL.
pub open spec fn opt_url_view(o: Option<ParsedUrl>) -> Option<UrlView> {
    match o {
        Some(u) => Some(u.spec_parts()),
        None => None,
    }
}

/// The pairs of texts of a cache.
pub open spec fn cache_view(c: Seq<(String, String)>) -> Seq<(Seq<char>, Seq<char>)> {
    c.map_values(|p: (String, String)| (p.0@, p.1@))
}

impl IngestLoop {
    /// The ingestion as a value of the specification.
    pub closed spec fn model(&self) -> IngestView {
        IngestView {
            origin: self.origin.spec_parts(),
            stage: self.stage,
            mappings: self.mappings@,
            mapping: self.mapping,
            data: opt_url_view(self.data),
            rows: self.rows@,
            row: self.row,
            total_rows: self.total_rows,
            pages: self.pages@,
            cache: cache_view(self.cache@),
            target: opt_url_view(self.target),
            max_mappings: self.max_mappings,
            max_rows: self.max_rows,
            max_documents: self.max_documents,
        }
    }

    /// The ingestion holds what every step keeps (`ingest_inv`).
    pub open spec fn wf(&self) -> bool {
        ingest_inv(self@)
    }
}

impl View for IngestLoop {
    type V = IngestView;

    open spec fn view(&self) -> IngestView {
        self.model()
    }
}

/// What holds of an ingestion at every step: every URL it holds shares the
/// origin of the submitted locator, the limits hold, and the current
/// mapping, row and target exist where the stage needs them.
pub open spec fn ingest_inv(v: IngestView) -> bool {
    &&& v.mappings.len() <= v.max_mappings
    &&& v.total_rows <= v.max_rows
    &&& v.pages.len() <= v.max_documents
    &&& (v.data matches Some(d) ==> same_origin_view(v.origin, d))
    &&& (v.target matches Some(t) ==> same_origin_view(v.origin, t))
    &&& v.stage == IngestStage::Mappings ==> v.target == Some(v.origin)
    &&& v.stage == IngestStage::Datas ==> v.mapping < v.mappings.len() && v.data is Some
        && v.target == v.data
    &&& v.stage == IngestStage::Rows ==> v.mapping < v.mappings.len() && v.data is Some && v.row
        <= v.rows.len()
    &&& v.stage == IngestStage::Content ==> v.mapping < v.mappings.len() && v.data is Some && v.row
        < v.rows.len() && v.target is Some
}

/// The ingestion stops with `f`, unchanged otherwise.
pub open spec fn fail_to(
    v: IngestView,
    f: IngestFailureView,
    v2: IngestView,
    a: IngestActionView,
) -> bool {
    v2 == IngestView { stage: IngestStage::Failed, ..v } && a == IngestActionView::Fail(f)
}

/// `ms` are the mappings of `list`: pattern, sitemap locator and the id
/// derived from the pattern.
pub open spec fn mappings_match(ms: Seq<MappingSpec>, list: Seq<(Seq<char>, Seq<char>)>) -> bool {
    &&& ms.len() == list.len()
    &&& forall|i: int|
        0 <= i < list.len() ==> {
            &&& (#[trigger] ms[i]).pattern@ == list[i].0
            &&& ms[i].datas@ == list[i].1
            &&& ms[i].mapping_id@ == mapping_id_of(list[i].0)
        }
}

/// `rows` are the runtime values of the row descriptions `ws`.
pub open spec fn rows_match(rows: Seq<RuntimeValue>, ws: Seq<ValueView>) -> bool {
    rows.len() == ws.len() && forall|i: int| 0 <= i < ws.len() ==> models(#[trigger] rows[i], ws[i])
}

/// The content text fetched for `key`, where it was fetched.
pub open spec fn cache_lookup(cache: Seq<(Seq<char>, Seq<char>)>, key: Seq<char>) -> Option<Seq<char>>
    decreases cache.len(),
{
    if cache.len() == 0 {
        None
    } else if cache[0].0 == key {
        Some(cache[0].1)
    } else {
        cache_lookup(cache.drop_first(), key)
    }
}

/// Go to mapping `i` with an empty content cache: ask for its sitemap,
/// resolved against the submitted locator; after the last mapping the
/// catalog is complete.
pub open spec fn begin_mapping(v: IngestView, i: usize, v2: IngestView, a: IngestActionView) -> bool {
    if i >= v.mappings.len() {
        v2 == IngestView { stage: IngestStage::Done, mapping: i, cache: seq![], ..v } && a
            == IngestActionView::Done
    } else {
        match locator_view(v.origin, v.mappings[i as int].datas@) {
            Err(e) => v2 == IngestView {
                stage: IngestStage::Failed,
                mapping: i,
                cache: seq![],
                ..v
            } && a
                == IngestActionView::Fail(IngestFailureView::Locator(e)),
            Ok(d) => v2 == IngestView {
                stage: IngestStage::Datas,
                mapping: i,
                data: Some(d),
                target: Some(d),
                cache: seq![],
                ..v
            } && a == IngestActionView::Fetch,
        }
    }
}

/// The mapping index arrived: read it, check the mapping limit and go to
/// the first mapping.
pub open spec fn after_mappings(v: IngestView, src: Seq<char>, v2: IngestView, a: IngestActionView) -> bool {
    match mappings_of(src, v.origin.text) {
        Err(f) => fail_to(v, IngestFailureView::Core(f), v2, a),
        Ok(list) => if list.len() > v.max_mappings {
            fail_to(v, IngestFailureView::Limit(IngestError::TooManyMappings), v2, a)
        } else {
            mappings_match(v2.mappings, list) && begin_mapping(
                IngestView { mappings: v2.mappings, ..v },
                0,
                v2,
                a,
            )
        },
    }
}

/// A sitemap arrived: read its rows, check the row limit and go to its
/// first row.
pub open spec fn after_rows(v: IngestView, src: Seq<char>, v2: IngestView, a: IngestActionView) -> bool {
    match sitemap_rows(src, v.data->0.text) {
        Err(f) => fail_to(v, IngestFailureView::Core(f), v2, a),
        Ok(ws) => if sat_add_usize(v.total_rows, ws.len() as usize) > v.max_rows {
            fail_to(v, IngestFailureView::Limit(IngestError::TooManyRows), v2, a)
        } else {
            rows_match(v2.rows, ws) && v2 == IngestView {
                stage: IngestStage::Rows,
                rows: v2.rows,
                row: 0,
                total_rows: sat_add_usize(v.total_rows, ws.len() as usize),
                ..v
            } && a == IngestActionView::Proceed
        },
    }
}

/// The content of the current row, fetched from `key`, is `src`:
/// materialize the row's pages, check the document limit and go to the
/// next row.
pub open spec fn materialize_to(
    v: IngestView,
    key: Seq<char>,
    src: Seq<char>,
    v2: IngestView,
    a: IngestActionView,
) -> bool {
    let m = v.mappings[v.mapping as int];
    let row = v.rows[v.row as int];
    match materialization(m.pattern@, row, src, key) {
        Err(f) => fail_to(v, IngestFailureView::Core(f), v2, a),
        Ok((urls, ws)) => if v.pages.len() + urls.len() > v.max_documents {
            fail_to(v, IngestFailureView::Limit(IngestError::TooManyDocuments), v2, a)
        } else {
            &&& v2 == IngestView {
                stage: IngestStage::Rows,
                row: (v.row + 1) as usize,
                pages: v2.pages,
                ..v
            }
            &&& v2.pages.len() == v.pages.len() + urls.len()
            &&& v2.pages.subrange(0, v.pages.len() as int) == v.pages
            &&& forall|k: int|
                0 <= k < urls.len() ==> is_page(
                    #[trigger] v2.pages[v.pages.len() + k],
                    m,
                    key,
                    urls[k],
                    row_updated(row),
                    ws,
                    content_graph(ws),
                )
            &&& a == IngestActionView::Proceed
        },
    }
}

/// Go on from the current row: after the last one, to the next mapping;
/// otherwise resolve the row's content locator against the sitemap URL and
/// use the text already fetched from it, or ask for it.
pub open spec fn next_row(v: IngestView, v2: IngestView, a: IngestActionView) -> bool {
    if v.row >= v.rows.len() {
        begin_mapping(v, (v.mapping + 1) as usize, v2, a)
    } else {
        match row_content(v.rows[v.row as int]) {
            Err(f) => fail_to(v, IngestFailureView::Core(f), v2, a),
            Ok(reference) => match locator_view(v.data->0, reference) {
                Err(e) => fail_to(v, IngestFailureView::Locator(e), v2, a),
                Ok(cu) => match cache_lookup(v.cache, cu.text) {
                    Some(src) => materialize_to(v, cu.text, src, v2, a),
                    None => v2 == IngestView { stage: IngestStage::Content, target: Some(cu), ..v }
                        && a == IngestActionView::Fetch,
                },
            },
        }
    }
}

/// The next state and action of an ingestion after an event.
pub open spec fn ingest_next(v: IngestView, e: IngestEventView, v2: IngestView, a: IngestActionView) -> bool {
    match e {
        IngestEventView::Fetched(src) => if v.stage == IngestStage::Mappings {
            after_mappings(v, src, v2, a)
        } else if v.stage == IngestStage::Datas {
            after_rows(v, src, v2, a)
        } else if v.stage == IngestStage::Content {
            let key = v.target->0.text;
            materialize_to(IngestView { cache: v.cache.push((key, src)), ..v }, key, src, v2, a)
        } else {
            fail_to(v, IngestFailureView::Unexpected, v2, a)
        },
        IngestEventView::Proceed => if v.stage == IngestStage::Rows {
            next_row(v, v2, a)
        } else {
            fail_to(v, IngestFailureView::Unexpected, v2, a)
        },
    }
}

proof fn lemma_cache_view_push(c: Seq<(String, String)>, p: (String, String))
    ensures
        cache_view(c.push(p)) == cache_view(c).push((p.0@, p.1@)),
{
    assert(cache_view(c.push(p)) =~= cache_view(c).push((p.0@, p.1@)));
}

fn find_cached(cache: &Vec<(String, String)>, key: &str) -> (r: Option<usize>)
    ensures
        match r {
            Some(j) => j < cache@.len() && cache_lookup(cache_view(cache@), key@) == Some(
                cache@[j as int].1@,
            ),
            None => cache_lookup(cache_view(cache@), key@) is None,
        },
{
    let mut i: usize = 0;
    assert(cache_view(cache@).skip(0) =~= cache_view(cache@));
    let kc = crate::text::chars_of(key);
    while i < cache.len()
        invariant
            kc@ == key@,
            0 <= i <= cache@.len(),
            cache_lookup(cache_view(cache@), key@) == cache_lookup(cache_view(cache@).skip(i as int), key@),
        decreases cache.len() - i,
    {
        proof {
            assert(cache_view(cache@).skip(i as int)[0] == (cache@[i as int].0@, cache@[i as int].1@));
            assert(cache_view(cache@).skip(i as int).drop_first() =~= cache_view(cache@).skip(i + 1));
        }
        let ec = crate::text::chars_of(cache[i].0.as_str());
        if crate::text::chars_eq(ec.as_slice(), kc.as_slice()) {
            return Some(i);
        }
        i = i + 1;
    }
    proof {
        assert(cache_view(cache@).skip(i as int) =~= Seq::<(Seq<char>, Seq<char>)>::empty());
    }
    None
}

/// Every step keeps what an ingestion holds at every step: each URL it
/// asks for shares the origin of the submitted locator, at most
/// `max_mappings` mappings, `max_rows` rows and `max_documents` pages are
/// gathered, and the submitted locator stays the origin.
pub proof fn law_ingest_steps_stay_within_bounds(
    v: IngestView,
    e: IngestEventView,
    v2: IngestView,
    a: IngestActionView,
)
    requires
        ingest_inv(v),
        ingest_next(v, e, v2, a),
    ensures
        ingest_inv(v2),
        v2.origin == v.origin,
        v2.max_mappings == v.max_mappings && v2.max_rows == v.max_rows && v2.max_documents
            == v.max_documents,
        a is Fetch ==> (v2.target matches Some(t) && same_origin_view(v.origin, t)),
        v2.mappings.len() <= v.max_mappings,
        v2.total_rows <= v.max_rows,
        v2.pages.len() <= v.max_documents,
{
    match e {
        IngestEventView::Fetched(src) => {
            if v.stage == IngestStage::Mappings {
                if let Ok(list) = mappings_of(src, v.origin.text) {
                    if list.len() <= v.max_mappings && v2.mappings.len() > 0 {
                        lemma_locator_view_same_origin(v.origin, v2.mappings[0].datas@);
                    }
                }
            }
        },
        IngestEventView::Proceed => {
            if v.stage == IngestStage::Rows {
                if v.row < v.rows.len() {
                    if let Ok(reference) = row_content(v.rows[v.row as int]) {
                        lemma_locator_view_same_origin(v.data->0, reference);
                        if let Ok(cu) = locator_view(v.data->0, reference) {
                            crate::net::law_same_origin_is_transitive(v.origin, v.data->0, cu);
                        }
                    }
                } else {
                    let i = (v.mapping + 1) as usize;
                    if i < v.mappings.len() {
                        lemma_locator_view_same_origin(v.origin, v.mappings[i as int].datas@);
                    }
                }
            }
        },
    }
}

/// A locator resolves only to URLs of its base's origin.
proof fn lemma_locator_view_same_origin(base: UrlView, locator: Seq<char>)
    ensures
        locator_view(base, locator) matches Ok(t) ==> same_origin_view(base, t),
{
}

impl IngestLoop {
    /// Start the ingestion of the mapping locator `locator` under the limits
    /// of `config`: the first step fetches the locator itself.
    pub fn start(locator: &str, config: &CrawlerConfig) -> (r: Result<
        (IngestLoop, IngestAction),
        LocatorError,
    >)
        ensures
            match r {
                Ok((s, a)) => {
                    &&& url_parse_of(locator@) == Some(s@.origin)
                    &&& s@ == IngestView {
                        origin: s@.origin,
                        stage: IngestStage::Mappings,
                        mappings: seq![],
                        mapping: 0,
                        data: None,
                        rows: seq![],
                        row: 0,
                        total_rows: 0,
                        pages: seq![],
                        cache: seq![],
                        target: Some(s@.origin),
                        max_mappings: config.max_mappings,
                        max_rows: config.max_rows,
                        max_documents: config.max_documents,
                    }
                    &&& a@ == IngestActionView::Fetch
                    &&& s.wf()
                },
                Err(e) => url_parse_of(locator@) is None && e == LocatorError::InvalidUrl,
            },
    {
        let origin = match parse_mapping_locator(locator) {
            Ok(u) => u,
            Err(e) => {
                return Err(e);
            },
        };
        let target = match parse_mapping_locator(locator) {
            Ok(u) => u,
            Err(e) => {
                return Err(e);
            },
        };
        let s = IngestLoop {
            origin,
            stage: IngestStage::Mappings,
            mappings: Vec::new(),
            mapping: 0,
            data: None,
            rows: Vec::new(),
            row: 0,
            total_rows: 0,
            pages: Vec::new(),
            cache: Vec::new(),
            target: Some(target),
            max_mappings: config.max_mappings,
            max_rows: config.max_rows,
            max_documents: config.max_documents,
        };
        assert(cache_view(s.cache@) =~= Seq::<(Seq<char>, Seq<char>)>::empty());
        Ok((s, IngestAction::Fetch))
    }

    fn fail(self, f: IngestFailure) -> (r: (IngestLoop, IngestAction))
        ensures
            fail_to(self@, f@, r.0@, r.1@),
    {
        let mut s = self;
        s.stage = IngestStage::Failed;
        (s, IngestAction::Fail(f))
    }

    fn begin_mapping(self, i: usize) -> (r: (IngestLoop, IngestAction))
        ensures
            begin_mapping(self@, i, r.0@, r.1@),
    {
        let mut s = self;
        s.mapping = i;
        s.cache = Vec::new();
        assert(cache_view(s.cache@) =~= Seq::<(Seq<char>, Seq<char>)>::empty());
        if i >= s.mappings.len() {
            s.stage = IngestStage::Done;
            return (s, IngestAction::Done);
        }
        match same_origin_url(&s.origin, s.mappings[i].datas.as_str()) {
            Err(e) => {
                s.stage = IngestStage::Failed;
                (s, IngestAction::Fail(IngestFailure::Locator(e)))
            },
            Ok(d) => {
                let t = same_origin_url(&s.origin, s.mappings[i].datas.as_str());
                match t {
                    Ok(t) => {
                        s.stage = IngestStage::Datas;
                        s.data = Some(d);
                        s.target = Some(t);
                        (s, IngestAction::Fetch)
                    },
                    Err(e) => {
                        s.stage = IngestStage::Failed;
                        (s, IngestAction::Fail(IngestFailure::Locator(e)))
                    },
                }
            },
        }
    }

    fn mappings_arrived(self, src: &str) -> (r: (IngestLoop, IngestAction))
        ensures
            after_mappings(self@, src@, r.0@, r.1@),
    {
        let mut s = self;
        let ms = match parse_mappings(src, s.origin.parts().text.as_str()) {
            Ok(ms) => ms,
            Err(e) => {
                return s.fail(IngestFailure::Core(e));
            },
        };
        if ms.len() > s.max_mappings {
            return s.fail(IngestFailure::Limit(IngestError::TooManyMappings));
        }
        s.mappings = ms;
        s.begin_mapping(0)
    }

    fn rows_arrived(self, src: &str) -> (r: (IngestLoop, IngestAction))
        requires
            self@.data is Some,
        ensures
            after_rows(self@, src@, r.0@, r.1@),
    {
        let mut s = self;
        let rows = match &s.data {
            Some(d) => parse_sitemap_rows(src, d.parts().text.as_str()),
            None => {
                return s.fail(IngestFailure::Unexpected);
            },
        };
        let rows = match rows {
            Ok(rows) => rows,
            Err(e) => {
                return s.fail(IngestFailure::Core(e));
            },
        };
        let total = s.total_rows.saturating_add(rows.len());
        if total > s.max_rows {
            return s.fail(IngestFailure::Limit(IngestError::TooManyRows));
        }
        s.rows = rows;
        s.row = 0;
        s.total_rows = total;
        s.stage = IngestStage::Rows;
        (s, IngestAction::Proceed)
    }

    fn materialize(self, key: &str, src: &str) -> (r: (IngestLoop, IngestAction))
        requires
            self@.mapping < self@.mappings.len(),
            self@.row < self@.rows.len(),
        ensures
            materialize_to(self@, key@, src@, r.0@, r.1@),
    {
        let mut s = self;
        let n = s.rows.len();
        assert(s.row < n);
        let next = s.row + 1;
        let docs: Vec<SearchDocument> = match materialize_row_from_source(
            &s.mappings[s.mapping],
            &s.rows[s.row],
            key,
            src,
            key,
        ) {
            Ok(docs) => docs,
            Err(e) => {
                return s.fail(IngestFailure::Core(e));
            },
        };
        if s.pages.len() > s.max_documents || docs.len() > s.max_documents - s.pages.len() {
            return s.fail(IngestFailure::Limit(IngestError::TooManyDocuments));
        }
        let ghost before = s.pages@;
        let mut docs = docs;
        s.pages.append(&mut docs);
        assert(s.pages@.subrange(0, before.len() as int) =~= before);
        s.row = next;
        s.stage = IngestStage::Rows;
        (s, IngestAction::Proceed)
    }

    fn next_row(self) -> (r: (IngestLoop, IngestAction))
        requires
            self@.mapping < self@.mappings.len(),
            self@.data is Some,
            self@.row <= self@.rows.len(),
        ensures
            next_row(self@, r.0@, r.1@),
    {
        let s = self;
        if s.row >= s.rows.len() {
            let n = s.mappings.len();
            assert(s.mapping < n);
            let next = s.mapping + 1;
            return s.begin_mapping(next);
        }
        let reference = match row_content_reference(&s.rows[s.row]) {
            Ok(t) => t,
            Err(e) => {
                return s.fail(IngestFailure::Core(e));
            },
        };
        let resolved = match &s.data {
            Some(d) => same_origin_url(d, reference.as_str()),
            None => Err(LocatorError::InvalidUrl),
        };
        let cu = match resolved {
            Ok(u) => u,
            Err(e) => {
                proof {
                    assert(locator_view(s@.data->0, reference@) == Err::<UrlView, LocatorError>(e));
                }
                return s.fail(IngestFailure::Locator(e));
            },
        };
        let key = cu.parts().text.clone();
        match find_cached(&s.cache, key.as_str()) {
            Some(j) => {
                let src = s.cache[j].1.clone();
                s.materialize(key.as_str(), src.as_str())
            },
            None => {
                let mut s = s;
                s.stage = IngestStage::Content;
                s.target = Some(cu);
                (s, IngestAction::Fetch)
            },
        }
    }

    fn content_arrived(self, src: String) -> (r: (IngestLoop, IngestAction))
        requires
            self@.mapping < self@.mappings.len(),
            self@.row < self@.rows.len(),
            self@.target is Some,
        ensures
            ({
                let key = self@.target->0.text;
                materialize_to(
                    IngestView { cache: self@.cache.push((key, src@)), ..self@ },
                    key,
                    src@,
                    r.0@,
                    r.1@,
                )
            }),
    {
        let mut s = self;
        let key = match &s.target {
            Some(t) => t.parts().text.clone(),
            None => String::new(),
        };
        let ghost before = s.cache@;
        let entry = (key.clone(), src.clone());
        s.cache.push(entry);
        proof {
            lemma_cache_view_push(before, entry);
        }
        s.materialize(key.as_str(), src.as_str())
    }

    /// The next state and action after an event.
    pub fn step(self, event: IngestEvent) -> (r: (IngestLoop, IngestAction))
        requires
            self.wf(),
        ensures
            ingest_next(self@, event@, r.0@, r.1@),
            r.0.wf(),
    {
        let ghost v = self@;
        let r = match event {
            IngestEvent::Fetched(src) => {
                if self.stage == IngestStage::Mappings {
                    self.mappings_arrived(src.as_str())
                } else if self.stage == IngestStage::Datas {
                    self.rows_arrived(src.as_str())
                } else if self.stage == IngestStage::Content {
                    self.content_arrived(src)
                } else {
                    self.fail(IngestFailure::Unexpected)
                }
            },
            IngestEvent::Proceed => {
                if self.stage == IngestStage::Rows {
                    self.next_row()
                } else {
                    self.fail(IngestFailure::Unexpected)
                }
            },
        };
        proof {
            law_ingest_steps_stay_within_bounds(v, event@, r.0@, r.1@);
        }
        r
    }

    /// The URL to fetch for a `Fetch` action.
    pub fn target(&self) -> (t: Option<&ParsedUrl>)
        ensures
            match t {
                Some(u) => self@.target == Some(u.spec_parts()),
                None => self@.target is None,
            },
    {
        match &self.target {
            Some(u) => Some(u),
            None => None,
        }
    }

    /// Where the ingestion stands.
    pub fn stage(&self) -> (s: IngestStage)
        ensures
            s == self@.stage,
    {
        self.stage
    }

    /// The catalog gathered: the mappings and the pages, with the number of
    /// sitemap rows read.
    pub fn into_catalog(self) -> (r: (LoadedCatalog, usize))
        ensures
            r.0.mappings@ == self@.mappings,
            r.0.pages@ == self@.pages,
            r.1 == self@.total_rows,
    {
        (LoadedCatalog { mappings: self.mappings, pages: self.pages }, self.total_rows)
    }
}

} // verus!
