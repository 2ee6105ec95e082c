//! Authoritative synchronization of a finite catalog with the published
//! index: which documents are added, rewritten, kept or deleted, and which
//! generation the result is published under.
use vstd::prelude::*;

use crate::document::SearchDocument;
use crate::pattern::distinct_names;

verus! {

/// The version of the manifest format.
pub const MANIFEST_VERSION: u32 = 1;

/// The published state of one document: its content hash and the
/// generation that last published it.
#[derive(Debug, Clone, PartialEq, Eq)]
pub struct ManifestEntry {
    pub document_id: String,
    pub content_hash: String,
    pub generation: u64,
}

/// The logical catalog that the index was last published from, keyed by
/// document id.
#[derive(Debug)]
pub struct IndexManifest {
    version: u32,
    generation: u64,
    documents: Vec<ManifestEntry>,
}

/// The document ids of manifest entries.
pub open spec fn entry_ids(es: Seq<ManifestEntry>) -> Seq<Seq<char>> {
    es.map_values(|e: ManifestEntry| e.document_id@)
}

/// The document ids of pages.
pub open spec fn page_ids(pages: Seq<SearchDocument>) -> Seq<Seq<char>> {
    pages.map_values(|p: SearchDocument| p.document_id@)
}

/// The published content hash of `id`.
pub open spec fn hash_in(es: Seq<ManifestEntry>, id: Seq<char>) -> Option<Seq<char>>
    decreases es.len(),
{
    if es.len() == 0 {
        None
    } else if es.last().document_id@ == id {
        Some(es.last().content_hash@)
    } else {
        hash_in(es.drop_last(), id)
    }
}

/// The generation recorded for `id`.
pub open spec fn generation_in(es: Seq<ManifestEntry>, id: Seq<char>) -> Option<u64>
    decreases es.len(),
{
    if es.len() == 0 {
        None
    } else if es.last().document_id@ == id {
        Some(es.last().generation)
    } else {
        generation_in(es.drop_last(), id)
    }
}

impl IndexManifest {
    #[verifier::type_invariant]
    spec fn keyed(self) -> bool {
        distinct_names(entry_ids(self.documents@))
    }

    /// The documents, one entry per id.
    pub closed spec fn entries(self) -> Seq<ManifestEntry> {
        self.documents@
    }

    /// The manifest format version.
    pub closed spec fn spec_version(self) -> u32 {
        self.version
    }

    /// The generation the catalog was last published under.
    pub closed spec fn spec_generation(self) -> u64 {
        self.generation
    }

    /// An empty manifest of the current format at generation zero.
    pub fn new() -> (m: IndexManifest)
        ensures
            m.spec_version() == MANIFEST_VERSION,
            m.spec_generation() == 0,
            m.entries().len() == 0,
    {
        IndexManifest { version: MANIFEST_VERSION, generation: 0, documents: Vec::new() }
    }

    /// A manifest with the given version and generation and no documents.
    pub fn with_header(version: u32, generation: u64) -> (m: IndexManifest)
        ensures
            m.spec_version() == version,
            m.spec_generation() == generation,
            m.entries().len() == 0,
    {
        IndexManifest { version, generation, documents: Vec::new() }
    }

    /// The manifest format version.
    pub fn version(&self) -> (v: u32)
        ensures
            v == self.spec_version(),
    {
        self.version
    }

    /// The generation the catalog was last published under.
    pub fn generation(&self) -> (g: u64)
        ensures
            g == self.spec_generation(),
    {
        self.generation
    }

    /// The documents, one entry per id.
    pub fn documents(&self) -> (d: &[ManifestEntry])
        ensures
            d@ == self.entries(),
            distinct_names(entry_ids(d@)),
    {
        proof {
            use_type_invariant(self);
        }
        self.documents.as_slice()
    }

    /// Record the published state of one document, replacing what was
    /// recorded for its id (`BTreeMap::insert`).
    pub fn insert(&mut self, document_id: String, content_hash: String, generation: u64)
        ensures
            final(self).spec_version() == old(self).spec_version(),
            final(self).spec_generation() == old(self).spec_generation(),
            hash_in(final(self).entries(), document_id@) == Some(content_hash@),
            generation_in(final(self).entries(), document_id@) == Some(generation),
            forall|k: Seq<char>|
                k != document_id@ ==> #[trigger] hash_in(final(self).entries(), k) == hash_in(
                    old(self).entries(),
                    k,
                ) && generation_in(final(self).entries(), k) == generation_in(
                    old(self).entries(),
                    k,
                ),
    {
        proof {
            use_type_invariant(&*self);
        }
        let ghost before = self.documents@;
        let mut i: usize = 0;
        while i < self.documents.len() && self.documents[i].document_id != document_id
            invariant
                0 <= i <= self.documents@.len(),
                self.documents@ == before,
                forall|j: int| 0 <= j < i ==> (#[trigger] before[j]).document_id@ != document_id@,
            decreases self.documents.len() - i,
        {
            i = i + 1;
        }
        let entry = ManifestEntry { document_id, content_hash, generation };
        let ghost id = entry.document_id@;
        let ghost hash = entry.content_hash@;
        let mut documents: Vec<ManifestEntry> = Vec::new();
        std::mem::swap(&mut documents, &mut self.documents);
        if i < documents.len() {
            documents.set(i, entry);
            proof {
                lemma_hash_in_replace(before, documents@, i as int, id);
                lemma_generation_in_replace(before, documents@, i as int, id);
            }
        } else {
            documents.push(entry);
            proof {
                assert(documents@.drop_last() == before);
                assert forall|a: int, b: int| 0 <= a < b < documents@.len() implies entry_ids(
                    documents@,
                )[a] != entry_ids(documents@)[b] by {
                    if b < before.len() {
                        assert(entry_ids(before)[a] != entry_ids(before)[b]);
                    }
                }
            }
        }
        self.documents = documents;
    }
}

proof fn lemma_hash_in_none(es: Seq<ManifestEntry>, id: Seq<char>)
    requires
        forall|j: int| 0 <= j < es.len() ==> (#[trigger] es[j]).document_id@ != id,
    ensures
        hash_in(es, id) is None,
    decreases es.len(),
{
    if es.len() > 0 {
        assert forall|j: int| 0 <= j < es.drop_last().len() implies (
        #[trigger] es.drop_last()[j]).document_id@ != id by {
            assert(es.drop_last()[j] == es[j]);
        }
        lemma_hash_in_none(es.drop_last(), id);
    }
}

proof fn lemma_hash_in_index(es: Seq<ManifestEntry>, i: int)
    requires
        distinct_names(entry_ids(es)),
        0 <= i < es.len(),
    ensures
        hash_in(es, es[i].document_id@) == Some(es[i].content_hash@),
    decreases es.len(),
{
    if i < es.len() - 1 {
        assert(entry_ids(es)[i] != entry_ids(es)[es.len() - 1]);
        assert(es.drop_last()[i] == es[i]);
        assert forall|a: int, b: int| 0 <= a < b < es.drop_last().len() implies entry_ids(
            es.drop_last(),
        )[a] != entry_ids(es.drop_last())[b] by {
            assert(entry_ids(es)[a] != entry_ids(es)[b]);
        }
        lemma_hash_in_index(es.drop_last(), i);
    }
}

proof fn lemma_hash_in_replace(before: Seq<ManifestEntry>, after: Seq<ManifestEntry>, i: int, id: Seq<
    char,
>)
    requires
        distinct_names(entry_ids(before)),
        0 <= i < before.len(),
        before[i].document_id@ == id,
        after == before.update(i, after[i]),
        after[i].document_id@ == id,
    ensures
        distinct_names(entry_ids(after)),
        hash_in(after, id) == Some(after[i].content_hash@),
        forall|k: Seq<char>| k != id ==> #[trigger] hash_in(after, k) == hash_in(before, k),
    decreases before.len(),
{
    assert forall|a: int, b: int| 0 <= a < b < after.len() implies entry_ids(after)[a]
        != entry_ids(after)[b] by {
        assert(entry_ids(before)[a] != entry_ids(before)[b]);
    }
    lemma_hash_in_index(after, i);
    assert forall|k: Seq<char>| k != id implies #[trigger] hash_in(after, k) == hash_in(before, k) by {
        lemma_hash_in_other(before, after, i, k);
    }
}

proof fn lemma_hash_in_other(before: Seq<ManifestEntry>, after: Seq<ManifestEntry>, i: int, k: Seq<
    char,
>)
    requires
        0 <= i < before.len(),
        after == before.update(i, after[i]),
        after[i].document_id@ == before[i].document_id@,
        k != before[i].document_id@,
    ensures
        hash_in(after, k) == hash_in(before, k),
    decreases before.len(),
{
    if i < before.len() - 1 {
        assert(after.drop_last() == before.drop_last().update(i, after[i]));
        lemma_hash_in_other(before.drop_last(), after.drop_last(), i, k);
    } else {
        assert(after.drop_last() == before.drop_last());
    }
}

proof fn lemma_generation_in_replace(
    before: Seq<ManifestEntry>,
    after: Seq<ManifestEntry>,
    i: int,
    id: Seq<char>,
)
    requires
        distinct_names(entry_ids(before)),
        0 <= i < before.len(),
        before[i].document_id@ == id,
        after == before.update(i, after[i]),
        after[i].document_id@ == id,
    ensures
        generation_in(after, id) == Some(after[i].generation),
        forall|k: Seq<char>| k != id ==> #[trigger] generation_in(after, k) == generation_in(before, k),
{
    assert forall|a: int, b: int| 0 <= a < b < after.len() implies entry_ids(after)[a]
        != entry_ids(after)[b] by {
        assert(entry_ids(before)[a] != entry_ids(before)[b]);
    }
    lemma_generation_in_index(after, i);
    assert forall|k: Seq<char>| k != id implies #[trigger] generation_in(after, k) == generation_in(
        before,
        k,
    ) by {
        lemma_generation_in_other(before, after, i, k);
    }
}

proof fn lemma_generation_in_index(es: Seq<ManifestEntry>, i: int)
    requires
        distinct_names(entry_ids(es)),
        0 <= i < es.len(),
    ensures
        generation_in(es, es[i].document_id@) == Some(es[i].generation),
    decreases es.len(),
{
    if i < es.len() - 1 {
        assert(entry_ids(es)[i] != entry_ids(es)[es.len() - 1]);
        assert(es.drop_last()[i] == es[i]);
        assert forall|a: int, b: int| 0 <= a < b < es.drop_last().len() implies entry_ids(
            es.drop_last(),
        )[a] != entry_ids(es.drop_last())[b] by {
            assert(entry_ids(es)[a] != entry_ids(es)[b]);
        }
        lemma_generation_in_index(es.drop_last(), i);
    }
}

proof fn lemma_generation_in_other(
    before: Seq<ManifestEntry>,
    after: Seq<ManifestEntry>,
    i: int,
    k: Seq<char>,
)
    requires
        0 <= i < before.len(),
        after == before.update(i, after[i]),
        after[i].document_id@ == before[i].document_id@,
        k != before[i].document_id@,
    ensures
        generation_in(after, k) == generation_in(before, k),
    decreases before.len(),
{
    if i < before.len() - 1 {
        assert(after.drop_last() == before.drop_last().update(i, after[i]));
        lemma_generation_in_other(before.drop_last(), after.drop_last(), i, k);
    } else {
        assert(after.drop_last() == before.drop_last());
    }
}

/// Changes applied to the index in one committed batch.
#[derive(Debug, Clone, Copy, PartialEq, Eq)]
pub struct IndexSyncReport {
    pub generation: u64,
    pub added: usize,
    pub updated: usize,
    pub deleted: usize,
    pub unchanged: usize,
}

impl Default for IndexSyncReport {
    fn default() -> (r: IndexSyncReport)
        ensures
            r == (IndexSyncReport { generation: 0, added: 0, updated: 0, deleted: 0, unchanged: 0 }),
    {
        IndexSyncReport { generation: 0, added: 0, updated: 0, deleted: 0, unchanged: 0 }
    }
}

/// Why a catalog cannot be synchronized.
#[derive(Debug, Clone, PartialEq, Eq)]
pub enum SyncError {
    /// Two pages share this document id.
    DuplicateDocumentId(String),
}

/// What a synchronization does to the index.
#[derive(Debug)]
pub struct SyncPlan {
    pub report: IndexSyncReport,
    /// Remove every live document first (an index published without a manifest).
    pub delete_all: bool,
    /// Ids of published documents to delete, stale or about to be rewritten.
    pub deletions: Vec<String>,
    /// Positions of the pages to (re)write under `report.generation`.
    pub writes: Vec<usize>,
    /// The manifest to persist after the commit; none where nothing changed.
    pub manifest: Option<IndexManifest>,
}

/// The id of the first page whose id an earlier page already has, among
/// the first `k` pages.
pub open spec fn first_duplicate(pages: Seq<SearchDocument>, k: nat) -> Option<Seq<char>>
    decreases k,
{
    if k == 0 || k > pages.len() {
        None
    } else {
        match first_duplicate(pages, (k - 1) as nat) {
            Some(d) => Some(d),
            None => if page_ids(pages).take(k - 1).contains(pages[k - 1].document_id@) {
                Some(pages[k - 1].document_id@)
            } else {
                None
            },
        }
    }
}

/// The number of pages whose id `es` does not know.
pub open spec fn count_added(pages: Seq<SearchDocument>, es: Seq<ManifestEntry>) -> nat
    decreases pages.len(),
{
    if pages.len() == 0 {
        0
    } else {
        count_added(pages.drop_last(), es) + if hash_in(es, pages.last().document_id@) is None {
            1nat
        } else {
            0nat
        }
    }
}

/// The number of pages whose published hash differs from theirs.
pub open spec fn count_updated(pages: Seq<SearchDocument>, es: Seq<ManifestEntry>) -> nat
    decreases pages.len(),
{
    if pages.len() == 0 {
        0
    } else {
        count_updated(pages.drop_last(), es) + if hash_in(es, pages.last().document_id@) matches Some(
            h,
        ) && h != pages.last().content_hash@ {
            1nat
        } else {
            0nat
        }
    }
}

/// The number of pages whose published hash is theirs.
pub open spec fn count_unchanged(pages: Seq<SearchDocument>, es: Seq<ManifestEntry>) -> nat
    decreases pages.len(),
{
    if pages.len() == 0 {
        0
    } else {
        count_unchanged(pages.drop_last(), es) + if hash_in(es, pages.last().document_id@)
            == Some(pages.last().content_hash@) {
            1nat
        } else {
            0nat
        }
    }
}

/// The number of published documents that no page keeps.
pub open spec fn count_stale(es: Seq<ManifestEntry>, pages: Seq<SearchDocument>) -> nat
    decreases es.len(),
{
    if es.len() == 0 {
        0
    } else {
        count_stale(es.drop_last(), pages) + if page_ids(pages).contains(es.last().document_id@) {
            0nat
        } else {
            1nat
        }
    }
}

/// The published documents the plan starts from: none for an index
/// published without a manifest.
pub open spec fn base_entries(m: IndexManifest, legacy_documents: usize) -> Seq<ManifestEntry> {
    if legacy_documents > 0 {
        seq![]
    } else {
        m.entries()
    }
}

/// The generation the plan starts from.
pub open spec fn base_generation(m: IndexManifest, legacy_documents: usize) -> u64 {
    if legacy_documents > 0 {
        0
    } else {
        m.spec_generation()
    }
}

/// Whether the plan changes anything.
pub open spec fn changes(m: IndexManifest, pages: Seq<SearchDocument>, legacy_documents: usize) -> bool {
    let es = base_entries(m, legacy_documents);
    count_added(pages, es) + count_updated(pages, es) + legacy_documents + count_stale(es, pages) > 0
}

/// The generation a synchronization publishes under.
pub open spec fn next_generation(
    m: IndexManifest,
    pages: Seq<SearchDocument>,
    legacy_documents: usize,
) -> u64 {
    let g = base_generation(m, legacy_documents);
    if changes(m, pages, legacy_documents) {
        if g == u64::MAX {
            g
        } else {
            (g + 1) as u64
        }
    } else {
        g
    }
}

/// The report of a synchronization.
pub open spec fn planned_report(
    m: IndexManifest,
    pages: Seq<SearchDocument>,
    legacy_documents: usize,
) -> IndexSyncReport {
    let es = base_entries(m, legacy_documents);
    IndexSyncReport {
        generation: next_generation(m, pages, legacy_documents),
        added: count_added(pages, es) as usize,
        updated: count_updated(pages, es) as usize,
        deleted: (legacy_documents + count_stale(es, pages)) as usize,
        unchanged: count_unchanged(pages, es) as usize,
    }
}

/// The positions of the pages whose published hash is not theirs, in order,
/// among the first `k`.
pub open spec fn planned_writes(pages: Seq<SearchDocument>, es: Seq<ManifestEntry>, k: nat) -> Seq<
    usize,
>
    decreases k,
{
    if k == 0 || k > pages.len() {
        seq![]
    } else if hash_in(es, pages[k - 1].document_id@) == Some(pages[k - 1].content_hash@) {
        planned_writes(pages, es, (k - 1) as nat)
    } else {
        planned_writes(pages, es, (k - 1) as nat).push((k - 1) as usize)
    }
}

/// The hash a page of `pages` carries for `id`.
pub open spec fn page_hash(pages: Seq<SearchDocument>, id: Seq<char>) -> Option<Seq<char>>
    decreases pages.len(),
{
    if pages.len() == 0 {
        None
    } else if pages.last().document_id@ == id {
        Some(pages.last().content_hash@)
    } else {
        page_hash(pages.drop_last(), id)
    }
}

/// The ids of the published documents to delete, in order, among the
/// first `k`: those no page keeps and those a page changes.
pub open spec fn planned_deletions(es: Seq<ManifestEntry>, pages: Seq<SearchDocument>, k: nat) -> Seq<
    Seq<char>,
>
    decreases k,
{
    if k == 0 || k > es.len() {
        seq![]
    } else if page_hash(pages, es[k - 1].document_id@) == Some(es[k - 1].content_hash@) {
        planned_deletions(es, pages, (k - 1) as nat)
    } else {
        planned_deletions(es, pages, (k - 1) as nat).push(es[k - 1].document_id@)
    }
}

/// The manifest entries a synchronization publishes: one per page.
pub open spec fn synced_entries(pages: Seq<SearchDocument>, generation: u64) -> Seq<ManifestEntry> {
    pages.map_values(
        |p: SearchDocument|
            ManifestEntry {
                document_id: p.document_id,
                content_hash: p.content_hash,
                generation,
            },
    )
}

proof fn lemma_page_hash_contains(pages: Seq<SearchDocument>, id: Seq<char>)
    ensures
        page_hash(pages, id) is None <==> !page_ids(pages).contains(id),
    decreases pages.len(),
{
    if pages.len() > 0 {
        lemma_page_hash_contains(pages.drop_last(), id);
        assert(page_ids(pages.drop_last()) == page_ids(pages).drop_last());
        if page_ids(pages).contains(id) && pages.last().document_id@ != id {
            let k = choose|k: int| 0 <= k < page_ids(pages).len() && page_ids(pages)[k] == id;
            assert(k < pages.len() - 1);
            assert(page_ids(pages.drop_last())[k] == id);
        }
        if pages.last().document_id@ == id {
            assert(page_ids(pages)[pages.len() - 1] == id);
        }
    }
}

proof fn lemma_first_duplicate_distinct(pages: Seq<SearchDocument>, k: nat)
    requires
        k <= pages.len(),
        first_duplicate(pages, k) is None,
    ensures
        distinct_names(page_ids(pages).take(k as int)),
    decreases k,
{
    if k > 0 {
        lemma_first_duplicate_distinct(pages, (k - 1) as nat);
        let ids = page_ids(pages);
        assert forall|a: int, b: int| 0 <= a < b < k implies ids.take(k as int)[a] != ids.take(
            k as int,
        )[b] by {
            if b == k - 1 {
                if ids[a] == ids[b] {
                    assert(ids.take(k - 1)[a] == ids[b]);
                    assert(ids.take(k - 1).contains(pages[k - 1].document_id@));
                }
            } else {
                assert(ids.take(k - 1)[a] == ids.take(k as int)[a]);
                assert(ids.take(k - 1)[b] == ids.take(k as int)[b]);
            }
        }
    }
}

fn lookup_hash(es: &[ManifestEntry], id: &String) -> (r: Option<usize>)
    ensures
        match r {
            Some(j) => j < es@.len() && es@[j as int].document_id@ == id@ && hash_in(es@, id@)
                == Some(es@[j as int].content_hash@),
            None => hash_in(es@, id@) is None,
        },
{
    let mut j: usize = es.len();
    assert(es@.take(es.len() as int) == es@);
    while j > 0
        invariant
            0 <= j <= es.len(),
            hash_in(es@, id@) == hash_in(es@.take(j as int), id@),
        decreases j,
    {
        assert(es@.take(j as int).last() == es@[j - 1]);
        assert(es@.take(j as int).drop_last() == es@.take(j - 1));
        if es[j - 1].document_id == *id {
            return Some(j - 1);
        }
        j = j - 1;
    }
    None
}

fn lookup_page(pages: &[SearchDocument], id: &String) -> (r: Option<usize>)
    ensures
        match r {
            Some(j) => j < pages@.len() && page_hash(pages@, id@) == Some(
                pages@[j as int].content_hash@,
            ),
            None => page_hash(pages@, id@) is None,
        },
{
    let mut j: usize = pages.len();
    assert(pages@.take(pages.len() as int) == pages@);
    while j > 0
        invariant
            0 <= j <= pages.len(),
            page_hash(pages@, id@) == page_hash(pages@.take(j as int), id@),
        decreases j,
    {
        assert(pages@.take(j as int).last() == pages@[j - 1]);
        assert(pages@.take(j as int).drop_last() == pages@.take(j - 1));
        if pages[j - 1].document_id == *id {
            return Some(j - 1);
        }
        j = j - 1;
    }
    None
}

fn find_duplicate(pages: &[SearchDocument]) -> (r: Option<usize>)
    ensures
        match r {
            Some(j) => j < pages@.len() && first_duplicate(pages@, pages@.len()) == Some(
                pages@[j as int].document_id@,
            ),
            None => first_duplicate(pages@, pages@.len()) is None,
        },
{
    let ghost ids = page_ids(pages@);
    let mut j: usize = 0;
    while j < pages.len()
        invariant
            0 <= j <= pages.len(),
            ids == page_ids(pages@),
            first_duplicate(pages@, j as nat) is None,
        decreases pages.len() - j,
    {
        let mut i: usize = 0;
        while i < j
            invariant
                0 <= i <= j < pages.len(),
                ids == page_ids(pages@),
                first_duplicate(pages@, j as nat) is None,
                forall|a: int| 0 <= a < i ==> ids[a] != ids[j as int],
            decreases j - i,
        {
            if pages[i].document_id == pages[j].document_id {
                proof {
                    assert(ids.take(j as int)[i as int] == pages@[j as int].document_id@);
                    assert(ids.take(j as int).contains(pages@[j as int].document_id@));
                    assert(first_duplicate(pages@, (j + 1) as nat) == Some(
                        pages@[j as int].document_id@,
                    ));
                    lemma_first_duplicate_after(pages@, (j + 1) as nat, pages@.len());
                }
                return Some(j);
            }
            i = i + 1;
        }
        proof {
            if ids.take(j as int).contains(pages@[j as int].document_id@) {
                let a = choose|a: int|
                    0 <= a < ids.take(j as int).len() && ids.take(j as int)[a]
                        == pages@[j as int].document_id@;
                assert(ids[a] == ids[j as int]);
            }
        }
        j = j + 1;
    }
    None
}

proof fn lemma_first_duplicate_after(pages: Seq<SearchDocument>, k: nat, n: nat)
    requires
        k <= n <= pages.len(),
        first_duplicate(pages, k) is Some,
    ensures
        first_duplicate(pages, n) == first_duplicate(pages, k),
    decreases n,
{
    if n > k {
        lemma_first_duplicate_after(pages, k, (n - 1) as nat);
    }
}

/// Plan the synchronization of the index with an authoritative finite
/// catalog, using stable ids and content hashes. `legacy_documents` is the
/// number of live documents of an index published without a manifest
/// (zero otherwise); those are all deleted and the plan starts afresh.
pub fn plan_sync(manifest: &IndexManifest, pages: &[SearchDocument], legacy_documents: usize) -> (res:
    Result<SyncPlan, SyncError>)
    ensures
        match res {
            Err(SyncError::DuplicateDocumentId(id)) => first_duplicate(pages@, pages@.len()) == Some(
                id@,
            ),
            Ok(plan) => {
                let es = base_entries(*manifest, legacy_documents);
                let g = next_generation(*manifest, pages@, legacy_documents);
                &&& first_duplicate(pages@, pages@.len()) is None
                &&& plan.report == planned_report(*manifest, pages@, legacy_documents)
                &&& plan.delete_all == (legacy_documents > 0)
                &&& crate::pattern::strings_view(plan.deletions@) == planned_deletions(
                    es,
                    pages@,
                    es.len(),
                )
                &&& plan.writes@ == planned_writes(pages@, es, pages@.len())
                &&& changes(*manifest, pages@, legacy_documents) ==> (plan.manifest matches Some(m2)
                    && m2.spec_version() == (if legacy_documents > 0 {
                    MANIFEST_VERSION
                } else {
                    manifest.spec_version()
                }) && m2.spec_generation() == g && m2.entries() == synced_entries(pages@, g))
                &&& !changes(*manifest, pages@, legacy_documents) ==> plan.manifest is None
            },
        },
{
    match find_duplicate(pages) {
        Some(j) => {
            return Err(SyncError::DuplicateDocumentId(pages[j].document_id.clone()));
        },
        None => {},
    }
    let empty: Vec<ManifestEntry> = Vec::new();
    let es: &[ManifestEntry] = if legacy_documents > 0 {
        empty.as_slice()
    } else {
        manifest.documents()
    };
    let ghost es_view = base_entries(*manifest, legacy_documents);
    assert(es@ == es_view);
    let mut added: usize = 0;
    let mut updated: usize = 0;
    let mut unchanged: usize = 0;
    let mut writes: Vec<usize> = Vec::new();
    let mut i: usize = 0;
    while i < pages.len()
        invariant
            0 <= i <= pages.len(),
            es@ == es_view,
            added == count_added(pages@.take(i as int), es_view),
            updated == count_updated(pages@.take(i as int), es_view),
            unchanged == count_unchanged(pages@.take(i as int), es_view),
            added + updated + unchanged == i,
            writes@ == planned_writes(pages@, es_view, i as nat),
        decreases pages.len() - i,
    {
        proof {
            assert(pages@.take(i + 1).drop_last() == pages@.take(i as int));
            assert(pages@.take(i + 1).last() == pages@[i as int]);
        }
        match lookup_hash(es, &pages[i].document_id) {
            None => {
                added = added + 1;
                writes.push(i);
            },
            Some(j) => {
                if es[j].content_hash == pages[i].content_hash {
                    unchanged = unchanged + 1;
                } else {
                    updated = updated + 1;
                    writes.push(i);
                }
            },
        }
        i = i + 1;
    }
    assert(pages@.take(pages.len() as int) == pages@);
    let mut stale: usize = 0;
    let mut deletions: Vec<String> = Vec::new();
    let mut k: usize = 0;
    while k < es.len()
        invariant
            0 <= k <= es.len(),
            es@ == es_view,
            stale == count_stale(es_view.take(k as int), pages@),
            stale <= k,
            crate::pattern::strings_view(deletions@) == planned_deletions(
                es_view,
                pages@,
                k as nat,
            ),
        decreases es.len() - k,
    {
        proof {
            assert(es_view.take(k + 1).drop_last() == es_view.take(k as int));
            assert(es_view.take(k + 1).last() == es_view[k as int]);
            lemma_page_hash_contains(pages@, es_view[k as int].document_id@);
        }
        let ghost before = deletions@;
        match lookup_page(pages, &es[k].document_id) {
            None => {
                stale = stale + 1;
                deletions.push(es[k].document_id.clone());
                assert(crate::pattern::strings_view(deletions@) =~= crate::pattern::strings_view(
                    before,
                ).push(es_view[k as int].document_id@));
            },
            Some(j) => {
                if pages[j].content_hash != es[k].content_hash {
                    deletions.push(es[k].document_id.clone());
                    assert(crate::pattern::strings_view(deletions@)
                        =~= crate::pattern::strings_view(before).push(
                        es_view[k as int].document_id@,
                    ));
                }
            },
        }
        k = k + 1;
    }
    assert(es_view.take(es.len() as int) == es_view);
    let deleted: usize = if legacy_documents > 0 {
        legacy_documents
    } else {
        stale
    };
    let base_generation: u64 = if legacy_documents > 0 {
        0
    } else {
        manifest.generation()
    };
    let changed = added > 0 || updated > 0 || deleted > 0;
    let generation: u64 = if changed && base_generation < u64::MAX {
        base_generation + 1
    } else {
        base_generation
    };
    let report = IndexSyncReport { generation, added, updated, deleted, unchanged };
    let new_manifest = if changed {
        let mut documents: Vec<ManifestEntry> = Vec::new();
        let mut p: usize = 0;
        while p < pages.len()
            invariant
                0 <= p <= pages.len(),
                documents@ == synced_entries(pages@, generation).take(p as int),
            decreases pages.len() - p,
        {
            documents.push(
                ManifestEntry {
                    document_id: pages[p].document_id.clone(),
                    content_hash: pages[p].content_hash.clone(),
                    generation,
                },
            );
            assert(synced_entries(pages@, generation).take(p + 1) =~= synced_entries(
                pages@,
                generation,
            ).take(p as int).push(synced_entries(pages@, generation)[p as int]));
            p = p + 1;
        }
        assert(synced_entries(pages@, generation).take(pages.len() as int) == synced_entries(
            pages@,
            generation,
        ));
        proof {
            lemma_first_duplicate_distinct(pages@, pages@.len());
            assert(page_ids(pages@).take(pages@.len() as int) == page_ids(pages@));
            assert(entry_ids(documents@) =~= page_ids(pages@));
        }
        let version: u32 = if legacy_documents > 0 {
            MANIFEST_VERSION
        } else {
            manifest.version()
        };
        Some(IndexManifest { version, generation, documents })
    } else {
        None
    };
    Ok(SyncPlan {
        report,
        delete_all: legacy_documents > 0,
        deletions,
        writes,
        manifest: new_manifest,
    })
}

/// Every page of a synchronization is counted exactly once: as added,
/// updated or unchanged.
pub proof fn law_sync_counts_cover_pages(pages: Seq<SearchDocument>, es: Seq<ManifestEntry>)
    ensures
        count_added(pages, es) + count_updated(pages, es) + count_unchanged(pages, es)
            == pages.len(),
    decreases pages.len(),
{
    if pages.len() > 0 {
        law_sync_counts_cover_pages(pages.drop_last(), es);
    }
}

/// A synchronization that changes nothing keeps the generation; one that
/// changes something publishes the next generation (saturating at the
/// largest one).
pub proof fn law_sync_generation(m: IndexManifest, pages: Seq<SearchDocument>, legacy_documents: usize)
    ensures
        !changes(m, pages, legacy_documents) ==> next_generation(m, pages, legacy_documents)
            == base_generation(m, legacy_documents),
        changes(m, pages, legacy_documents) && base_generation(m, legacy_documents) < u64::MAX
            ==> next_generation(m, pages, legacy_documents) == base_generation(m, legacy_documents)
            + 1,
{
}

proof fn lemma_all_published(pages: Seq<SearchDocument>, es: Seq<ManifestEntry>)
    requires
        count_added(pages, es) == 0,
        count_updated(pages, es) == 0,
    ensures
        forall|i: int|
            0 <= i < pages.len() ==> hash_in(es, (#[trigger] pages[i]).document_id@) == Some(
                pages[i].content_hash@,
            ),
    decreases pages.len(),
{
    if pages.len() > 0 {
        lemma_all_published(pages.drop_last(), es);
        assert forall|i: int| 0 <= i < pages.len() implies hash_in(
            es,
            (#[trigger] pages[i]).document_id@,
        ) == Some(pages[i].content_hash@) by {
            if i < pages.len() - 1 {
                assert(pages.drop_last()[i] == pages[i]);
            }
        }
    }
}

proof fn lemma_writes_empty(pages: Seq<SearchDocument>, es: Seq<ManifestEntry>, k: nat)
    requires
        forall|i: int|
            0 <= i < pages.len() ==> hash_in(es, (#[trigger] pages[i]).document_id@) == Some(
                pages[i].content_hash@,
            ),
    ensures
        planned_writes(pages, es, k) == Seq::<usize>::empty(),
    decreases k,
{
    if k > 0 && k <= pages.len() {
        assert(hash_in(es, pages[k - 1].document_id@) == Some(pages[k - 1].content_hash@));
        lemma_writes_empty(pages, es, (k - 1) as nat);
    }
}

proof fn lemma_page_hash_witness(pages: Seq<SearchDocument>, id: Seq<char>)
    requires
        page_hash(pages, id) is Some,
    ensures
        exists|i: int|
            0 <= i < pages.len() && (#[trigger] pages[i]).document_id@ == id && Some(
                pages[i].content_hash@,
            ) == page_hash(pages, id),
    decreases pages.len(),
{
    if pages.last().document_id@ != id {
        lemma_page_hash_witness(pages.drop_last(), id);
        let i = choose|i: int|
            0 <= i < pages.drop_last().len() && (#[trigger] pages.drop_last()[i]).document_id@
                == id && Some(pages.drop_last()[i].content_hash@) == page_hash(
                pages.drop_last(),
                id,
            );
        assert(pages[i] == pages.drop_last()[i]);
    } else {
        assert(pages[pages.len() - 1].document_id@ == id);
    }
}

proof fn lemma_none_stale(es: Seq<ManifestEntry>, pages: Seq<SearchDocument>)
    requires
        count_stale(es, pages) == 0,
    ensures
        forall|j: int|
            0 <= j < es.len() ==> page_ids(pages).contains((#[trigger] es[j]).document_id@),
    decreases es.len(),
{
    if es.len() > 0 {
        lemma_none_stale(es.drop_last(), pages);
        assert forall|j: int| 0 <= j < es.len() implies page_ids(pages).contains(
            (#[trigger] es[j]).document_id@,
        ) by {
            if j < es.len() - 1 {
                assert(es.drop_last()[j] == es[j]);
            }
        }
    }
}

proof fn lemma_deletions_empty(es: Seq<ManifestEntry>, pages: Seq<SearchDocument>, k: nat)
    requires
        forall|j: int|
            0 <= j < es.len() ==> page_hash(pages, (#[trigger] es[j]).document_id@) == Some(
                es[j].content_hash@,
            ),
    ensures
        planned_deletions(es, pages, k) == Seq::<Seq<char>>::empty(),
    decreases k,
{
    if k > 0 && k <= es.len() {
        assert(page_hash(pages, es[k - 1].document_id@) == Some(es[k - 1].content_hash@));
        lemma_deletions_empty(es, pages, (k - 1) as nat);
    }
}

/// A synchronization that changes nothing writes and deletes nothing.
pub proof fn law_unchanged_sync_touches_nothing(
    m: IndexManifest,
    pages: Seq<SearchDocument>,
    legacy_documents: usize,
)
    requires
        distinct_names(entry_ids(m.entries())),
        !changes(m, pages, legacy_documents),
    ensures
        planned_writes(pages, base_entries(m, legacy_documents), pages.len()) == Seq::<
            usize,
        >::empty(),
        planned_deletions(
            base_entries(m, legacy_documents),
            pages,
            base_entries(m, legacy_documents).len(),
        ) == Seq::<Seq<char>>::empty(),
{
    let es = base_entries(m, legacy_documents);
    lemma_all_published(pages, es);
    lemma_writes_empty(pages, es, pages.len());
    lemma_none_stale(es, pages);
    assert forall|j: int| 0 <= j < es.len() implies page_hash(
        pages,
        (#[trigger] es[j]).document_id@,
    ) == Some(es[j].content_hash@) by {
        let id = es[j].document_id@;
        lemma_page_hash_contains(pages, id);
        lemma_page_hash_witness(pages, id);
        let i = choose|i: int|
            0 <= i < pages.len() && (#[trigger] pages[i]).document_id@ == id && Some(
                pages[i].content_hash@,
            ) == page_hash(pages, id);
        lemma_hash_in_index(es, j);
    }
    lemma_deletions_empty(es, pages, es.len());
}

proof fn lemma_synced_lookup(pages: Seq<SearchDocument>, g: u64)
    requires
        distinct_names(page_ids(pages)),
    ensures
        distinct_names(entry_ids(synced_entries(pages, g))),
        forall|i: int|
            0 <= i < pages.len() ==> hash_in(
                synced_entries(pages, g),
                (#[trigger] pages[i]).document_id@,
            ) == Some(pages[i].content_hash@),
{
    let es = synced_entries(pages, g);
    assert(entry_ids(es) =~= page_ids(pages));
    assert forall|i: int| 0 <= i < pages.len() implies hash_in(
        es,
        (#[trigger] pages[i]).document_id@,
    ) == Some(pages[i].content_hash@) by {
        lemma_hash_in_index(es, i);
    }
}

proof fn lemma_counts_all_published(pages: Seq<SearchDocument>, es: Seq<ManifestEntry>)
    requires
        forall|i: int|
            0 <= i < pages.len() ==> hash_in(es, (#[trigger] pages[i]).document_id@) == Some(
                pages[i].content_hash@,
            ),
    ensures
        count_added(pages, es) == 0,
        count_updated(pages, es) == 0,
        count_unchanged(pages, es) == pages.len(),
    decreases pages.len(),
{
    if pages.len() > 0 {
        assert forall|i: int| 0 <= i < pages.drop_last().len() implies hash_in(
            es,
            (#[trigger] pages.drop_last()[i]).document_id@,
        ) == Some(pages.drop_last()[i].content_hash@) by {
            assert(pages.drop_last()[i] == pages[i]);
        }
        lemma_counts_all_published(pages.drop_last(), es);
        assert(hash_in(es, pages[pages.len() - 1].document_id@) == Some(
            pages[pages.len() - 1].content_hash@,
        ));
    }
}

proof fn lemma_stale_none(es: Seq<ManifestEntry>, pages: Seq<SearchDocument>)
    requires
        forall|j: int|
            0 <= j < es.len() ==> page_ids(pages).contains((#[trigger] es[j]).document_id@),
    ensures
        count_stale(es, pages) == 0,
    decreases es.len(),
{
    if es.len() > 0 {
        assert forall|j: int| 0 <= j < es.drop_last().len() implies page_ids(pages).contains(
            (#[trigger] es.drop_last()[j]).document_id@,
        ) by {
            assert(es.drop_last()[j] == es[j]);
        }
        lemma_stale_none(es.drop_last(), pages);
        assert(page_ids(pages).contains(es[es.len() - 1].document_id@));
    }
}

/// Synchronizing a catalog again with the manifest its synchronization
/// published changes nothing: every page is unchanged and the generation
/// stays.
pub proof fn law_sync_is_idempotent(m: IndexManifest, pages: Seq<SearchDocument>, g: u64)
    requires
        first_duplicate(pages, pages.len()) is None,
        m.entries() == synced_entries(pages, g),
        m.spec_generation() == g,
    ensures
        !changes(m, pages, 0),
        planned_report(m, pages, 0) == (IndexSyncReport {
            generation: g,
            added: 0,
            updated: 0,
            deleted: 0,
            unchanged: pages.len() as usize,
        }),
{
    lemma_first_duplicate_distinct(pages, pages.len());
    assert(page_ids(pages).take(pages.len() as int) == page_ids(pages));
    lemma_synced_lookup(pages, g);
    let es = synced_entries(pages, g);
    lemma_counts_all_published(pages, es);
    assert forall|j: int| 0 <= j < es.len() implies page_ids(pages).contains(
        (#[trigger] es[j]).document_id@,
    ) by {
        assert(page_ids(pages)[j] == es[j].document_id@);
    }
    lemma_stale_none(es, pages);
}

} // verus!

verus! {

/// The number of `ks` that satisfy `p`, counted along the sequence.
pub open spec fn count_where(ks: Seq<Seq<char>>, p: spec_fn(Seq<char>) -> bool) -> nat
    decreases ks.len(),
{
    if ks.len() == 0 {
        0
    } else {
        count_where(ks.drop_last(), p) + if p(ks.last()) {
            1nat
        } else {
            0nat
        }
    }
}

proof fn lemma_distinct_drop_last(ks: Seq<Seq<char>>)
    requires
        distinct_names(ks),
        ks.len() > 0,
    ensures
        distinct_names(ks.drop_last()),
        !ks.drop_last().contains(ks.last()),
{
    assert forall|i: int, j: int| 0 <= i < j < ks.drop_last().len() implies ks.drop_last()[i]
        != ks.drop_last()[j] by {
        assert(ks.drop_last()[i] == ks[i] && ks.drop_last()[j] == ks[j]);
    }
    if ks.drop_last().contains(ks.last()) {
        let i = choose|i: int| 0 <= i < ks.drop_last().len() && ks.drop_last()[i] == ks.last();
        assert(ks[i] == ks[ks.len() - 1]);
    }
}

/// Counting the distinct `ks` that satisfy `p` gives the size of the set
/// of those keys.
proof fn lemma_count_where_set(ks: Seq<Seq<char>>, p: spec_fn(Seq<char>) -> bool)
    requires
        distinct_names(ks),
    ensures
        ks.to_set().filter(p).finite(),
        count_where(ks, p) == ks.to_set().filter(p).len(),
    decreases ks.len(),
{
    broadcast use vstd::set::group_set_axioms;

    if ks.len() == 0 {
        assert(ks.to_set().filter(p) =~= Set::<Seq<char>>::empty());
    } else {
        let init = ks.drop_last();
        let x = ks.last();
        lemma_distinct_drop_last(ks);
        lemma_count_where_set(init, p);
        assert(ks == init.push(x));
        init.lemma_push_to_set_commute(x);
        assert(!init.to_set().contains(x));
        if p(x) {
            assert(ks.to_set().filter(p) =~= init.to_set().filter(p).insert(x));
        } else {
            assert(ks.to_set().filter(p) =~= init.to_set().filter(p));
        }
    }
}

proof fn lemma_count_where_congruent(
    ks: Seq<Seq<char>>,
    p: spec_fn(Seq<char>) -> bool,
    q: spec_fn(Seq<char>) -> bool,
)
    requires
        forall|i: int| 0 <= i < ks.len() ==> p(#[trigger] ks[i]) == q(ks[i]),
    ensures
        count_where(ks, p) == count_where(ks, q),
    decreases ks.len(),
{
    if ks.len() > 0 {
        assert forall|i: int| 0 <= i < ks.drop_last().len() implies p(#[trigger] ks.drop_last()[i])
            == q(ks.drop_last()[i]) by {
            assert(ks.drop_last()[i] == ks[i]);
        }
        lemma_count_where_congruent(ks.drop_last(), p, q);
        assert(p(ks[ks.len() - 1]) == q(ks[ks.len() - 1]));
    }
}

proof fn lemma_hash_in_iff(es: Seq<ManifestEntry>, id: Seq<char>)
    ensures
        hash_in(es, id) is Some <==> entry_ids(es).contains(id),
    decreases es.len(),
{
    if es.len() > 0 {
        lemma_hash_in_iff(es.drop_last(), id);
        assert(entry_ids(es.drop_last()) == entry_ids(es).drop_last());
        if entry_ids(es).contains(id) && es.last().document_id@ != id {
            let k = choose|k: int| 0 <= k < entry_ids(es).len() && entry_ids(es)[k] == id;
            assert(k < es.len() - 1);
            assert(entry_ids(es.drop_last())[k] == id);
        }
        if es.last().document_id@ == id {
            assert(entry_ids(es)[es.len() - 1] == id);
        }
    }
}

proof fn lemma_page_hash_last(pages: Seq<SearchDocument>)
    requires
        pages.len() > 0,
    ensures
        page_hash(pages, pages.last().document_id@) == Some(pages.last().content_hash@),
{
}

proof fn lemma_count_added(pages: Seq<SearchDocument>, es: Seq<ManifestEntry>)
    ensures
        count_added(pages, es) == count_where(page_ids(pages), |id: Seq<char>| hash_in(es, id) is None),
    decreases pages.len(),
{
    if pages.len() > 0 {
        lemma_count_added(pages.drop_last(), es);
        assert(page_ids(pages.drop_last()) == page_ids(pages).drop_last());
    }
}

proof fn lemma_count_stale(es: Seq<ManifestEntry>, pages: Seq<SearchDocument>)
    ensures
        count_stale(es, pages) == count_where(
            entry_ids(es),
            |id: Seq<char>| !page_ids(pages).contains(id),
        ),
    decreases es.len(),
{
    if es.len() > 0 {
        lemma_count_stale(es.drop_last(), pages);
        assert(entry_ids(es.drop_last()) == entry_ids(es).drop_last());
    }
}

/// Whether the published hash of `id` differs from the hash its page
/// carries.
pub open spec fn republished(pages: Seq<SearchDocument>, es: Seq<ManifestEntry>, id: Seq<char>) -> bool {
    hash_in(es, id) is Some && hash_in(es, id) != page_hash(pages, id)
}

proof fn lemma_count_updated(pages: Seq<SearchDocument>, es: Seq<ManifestEntry>)
    requires
        distinct_names(page_ids(pages)),
    ensures
        count_updated(pages, es) == count_where(
            page_ids(pages),
            |id: Seq<char>| republished(pages, es, id),
        ),
    decreases pages.len(),
{
    if pages.len() > 0 {
        let init = pages.drop_last();
        assert(page_ids(init) == page_ids(pages).drop_last());
        lemma_distinct_drop_last(page_ids(pages));
        lemma_count_updated(init, es);
        let p = |id: Seq<char>| republished(init, es, id);
        let q = |id: Seq<char>| republished(pages, es, id);
        assert forall|i: int| 0 <= i < page_ids(init).len() implies p(
            #[trigger] page_ids(init)[i],
        ) == q(page_ids(init)[i]) by {
            assert(page_ids(init)[i] == page_ids(pages)[i]);
            assert(page_ids(pages)[i] != page_ids(pages)[pages.len() - 1]);
        }
        lemma_count_where_congruent(page_ids(init), p, q);
        lemma_page_hash_last(pages);
        assert(page_ids(pages).last() == pages.last().document_id@);
    }
}

/// The counts of a synchronization as sets of document ids, for pages
/// `I` with distinct ids and the published documents `M`: added are the
/// ids of `I` not in `M`, updated those in both whose published hash
/// differs from the page's, deleted those of `M` not in `I`.
pub proof fn law_sync_counts_are_set_sizes(pages: Seq<SearchDocument>, es: Seq<ManifestEntry>)
    requires
        distinct_names(page_ids(pages)),
        distinct_names(entry_ids(es)),
    ensures
        count_added(pages, es) == page_ids(pages).to_set().difference(entry_ids(es).to_set()).len(),
        count_updated(pages, es) == page_ids(pages).to_set().intersect(entry_ids(es).to_set()).filter(
            |id: Seq<char>| hash_in(es, id) != page_hash(pages, id),
        ).len(),
        count_stale(es, pages) == entry_ids(es).to_set().difference(page_ids(pages).to_set()).len(),
        count_unchanged(pages, es) == pages.len() - count_added(pages, es) - count_updated(
            pages,
            es,
        ),
{
    let i = page_ids(pages);
    let d = entry_ids(es);
    let added = |id: Seq<char>| hash_in(es, id) is None;
    let upd = |id: Seq<char>| republished(pages, es, id);
    let stale = |id: Seq<char>| !i.contains(id);
    lemma_count_added(pages, es);
    lemma_count_where_set(i, added);
    assert forall|id: Seq<char>| #[trigger] i.to_set().filter(added).contains(id) <==> i.to_set().difference(d.to_set()).contains(id) by {
        lemma_hash_in_iff(es, id);
    }
    assert(i.to_set().filter(added) =~= i.to_set().difference(d.to_set()));
    lemma_count_updated(pages, es);
    lemma_count_where_set(i, upd);
    assert forall|id: Seq<char>| #[trigger] i.to_set().filter(upd).contains(id) <==> i.to_set().intersect(d.to_set()).filter(
        |id: Seq<char>| hash_in(es, id) != page_hash(pages, id),
    ).contains(id) by {
        lemma_hash_in_iff(es, id);
    }
    assert(i.to_set().filter(upd) =~= i.to_set().intersect(d.to_set()).filter(
        |id: Seq<char>| hash_in(es, id) != page_hash(pages, id),
    ));
    lemma_count_stale(es, pages);
    lemma_count_where_set(d, stale);
    assert(d.to_set().filter(stale) =~= d.to_set().difference(i.to_set()));
    law_sync_counts_cover_pages(pages, es);
}

} // verus!
