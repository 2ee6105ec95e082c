use std::collections::BTreeMap;

use fetch_spp::document::{SearchDocument, content_hash, stable_document_id, stable_mapping_id};
use fetch_spp::model::{generation_text, parse_generation};
use fetch_spp::sync::{IndexManifest, IndexSyncReport, SyncError, plan_sync};

/// The published index as the tests see it: the manifest and the live
/// documents, updated the way the engine applies a plan.
struct Published {
    manifest: IndexManifest,
    documents: BTreeMap<String, SearchDocument>,
}

impl Published {
    fn new() -> Self {
        Published {
            manifest: IndexManifest::new(),
            documents: BTreeMap::new(),
        }
    }

    fn sync_documents(&mut self, pages: &[SearchDocument]) -> IndexSyncReport {
        let plan = plan_sync(&self.manifest, pages, 0).unwrap();
        if plan.delete_all {
            self.documents.clear();
        }
        for id in &plan.deletions {
            self.documents.remove(id);
        }
        for &i in &plan.writes {
            let page = pages[i].clone().with_generation(plan.report.generation);
            self.documents.insert(page.document_id.clone(), page);
        }
        if let Some(manifest) = plan.manifest {
            self.manifest = manifest;
        }
        plan.report
    }

    fn document_count(&self) -> usize {
        self.documents.len()
    }
}

fn page(url: &str, body: &str) -> SearchDocument {
    SearchDocument::new(
        "mapping".to_string(),
        "content.fon".to_string(),
        url.to_string(),
        "Stable".to_string(),
        body.to_string(),
        "2026-08-30".to_string(),
        Vec::new(),
        None,
    )
}

#[test]
fn unchanged_sync_keeps_generation_and_changed_sync_increments_it() {
    let mut engine = Published::new();
    let page = page("/stable", "Initial body");
    let first = engine.sync_documents(std::slice::from_ref(&page));
    assert_eq!(first.generation, 1);
    assert_eq!(first.added, 1);
    let unchanged = engine.sync_documents(std::slice::from_ref(&page));
    assert_eq!(unchanged.generation, 1);
    assert_eq!(unchanged.unchanged, 1);
    let changed = SearchDocument::new(
        "mapping".to_string(),
        "content.fon".to_string(),
        "/stable".to_string(),
        "Stable".to_string(),
        "Changed body".to_string(),
        "2026-08-30".to_string(),
        Vec::new(),
        None,
    );
    let second = engine.sync_documents(std::slice::from_ref(&changed));
    assert_eq!(second.generation, 2);
    assert_eq!(second.updated, 1);
    assert_eq!(engine.document_count(), 1);
}

#[test]
fn missing_authoritative_document_is_deleted() {
    let mut engine = Published::new();
    let page = SearchDocument::new(
        "mapping".to_string(),
        "content.fon".to_string(),
        "/to-delete".to_string(),
        "Delete me".to_string(),
        "Body".to_string(),
        "2026-08-30".to_string(),
        Vec::new(),
        None,
    );
    engine.sync_documents(std::slice::from_ref(&page));
    let report = engine.sync_documents(&[]);
    assert_eq!(report.deleted, 1);
    assert_eq!(engine.document_count(), 0);
}

#[test]
fn duplicate_document_ids_are_refused() {
    let a = page("/a", "x");
    let b = page("/a", "y");
    match plan_sync(&IndexManifest::new(), &[a.clone(), b], 0) {
        Err(SyncError::DuplicateDocumentId(id)) => assert_eq!(id, a.document_id),
        Ok(_) => panic!("duplicate ids must be refused"),
    }
}

#[test]
fn plan_counts_every_page_once_and_writes_only_changes() {
    let mut engine = Published::new();
    engine.sync_documents(&[page("/a", "1"), page("/b", "2"), page("/c", "3")]);
    let plan = plan_sync(
        &engine.manifest,
        &[page("/a", "1"), page("/b", "changed"), page("/d", "4")],
        0,
    )
    .unwrap();
    assert_eq!(plan.report.added, 1);
    assert_eq!(plan.report.updated, 1);
    assert_eq!(plan.report.unchanged, 1);
    assert_eq!(plan.report.deleted, 1);
    assert_eq!(plan.report.generation, 2);
    assert_eq!(plan.writes, [1, 2]);
    assert_eq!(plan.deletions.len(), 2);
    assert!(!plan.delete_all);
    let manifest = plan.manifest.unwrap();
    assert_eq!(manifest.generation(), 2);
    assert_eq!(manifest.documents().len(), 3);
}

#[test]
fn a_published_catalog_synced_again_is_unchanged() {
    let pages = [page("/a", "1"), page("/b", "2")];
    let first = plan_sync(&IndexManifest::new(), &pages, 0).unwrap();
    let manifest = first.manifest.unwrap();
    let again = plan_sync(&manifest, &pages, 0).unwrap();
    assert_eq!(
        again.report,
        IndexSyncReport {
            generation: 1,
            added: 0,
            updated: 0,
            deleted: 0,
            unchanged: 2,
        }
    );
    assert!(again.writes.is_empty());
    assert!(again.deletions.is_empty());
    assert!(again.manifest.is_none());
}

#[test]
fn an_index_without_manifest_is_rebuilt_from_scratch() {
    let mut manifest = IndexManifest::with_header(1, 7);
    manifest.insert("doc_x".to_string(), "sha256:x".to_string(), 7);
    let plan = plan_sync(&manifest, &[page("/a", "1")], 4).unwrap();
    assert!(plan.delete_all);
    assert_eq!(plan.report.deleted, 4);
    assert_eq!(plan.report.added, 1);
    assert_eq!(plan.report.generation, 1);
    assert!(plan.deletions.is_empty());
    let fresh = plan_sync(&IndexManifest::new(), &[], 0).unwrap();
    assert_eq!(fresh.report, IndexSyncReport::default());
}

#[test]
fn manifest_insert_replaces_by_id() {
    let mut manifest = IndexManifest::new();
    manifest.insert("a".to_string(), "h1".to_string(), 1);
    manifest.insert("b".to_string(), "h2".to_string(), 1);
    manifest.insert("a".to_string(), "h3".to_string(), 2);
    assert_eq!(manifest.documents().len(), 2);
    assert_eq!(manifest.documents()[0].content_hash, "h3");
    assert_eq!(manifest.version(), 1);
}

#[test]
fn mapping_id_depends_on_canonical_pattern_only() {
    let first = stable_mapping_id("/@{username}/thoughts");
    let second = stable_mapping_id("/@{username}/thoughts");
    assert_eq!(first, second);
    assert_ne!(first, stable_mapping_id("/@{username}/articles"));
}

#[test]
fn document_id_depends_on_mapping_and_url_only() {
    let mapping_id = stable_mapping_id("/@{username}/thoughts");
    let first = stable_document_id(&mapping_id, "/@Fuyeor/thoughts");
    let second = stable_document_id(&mapping_id, "/@Fuyeor/thoughts");
    assert_eq!(first, second);
    assert_ne!(first, stable_document_id(&mapping_id, "/@Fuyeor/comments"));
}

#[test]
fn content_hash_changes_when_indexed_content_changes() {
    let base = content_hash("Title", "Body", "2026-08-30", &[], None);
    let changed = content_hash("Title", "Changed", "2026-08-30", &[], None);
    assert_ne!(base, changed);
}

#[test]
fn new_document_starts_before_publication_generation() {
    let document = SearchDocument::new(
        stable_mapping_id("/@{username}"),
        "profile.fon".to_string(),
        "/@Fuyeor".to_string(),
        "Fuyeor".to_string(),
        "Body".to_string(),
        "2026-08-30".to_string(),
        Vec::new(),
        None,
    );
    assert_eq!(document.generation, 0);
    assert!(document.content_hash.starts_with("sha256:"));
}

#[test]
fn identities_have_fixed_shapes_and_separate_fields() {
    let mapping_id = stable_mapping_id("/@{username}");
    assert!(mapping_id.starts_with("map_"));
    assert_eq!(mapping_id.len(), 4 + 64);
    let document_id = stable_document_id(&mapping_id, "/@Fuyeor");
    assert!(document_id.starts_with("doc_"));
    assert_eq!(document_id.len(), 4 + 64);
    let hash = content_hash("Title", "Body", "2026-08-30", &[], None);
    assert_eq!(hash.len(), 7 + 64);
    assert_ne!(
        content_hash("ab", "c", "", &[], None),
        content_hash("a", "bc", "", &[], None)
    );
    assert_ne!(
        content_hash("t", "b", "", &["x".to_string()], None),
        content_hash("t", "b", "", &[], Some("x"))
    );
    let graph_hash = content_hash("t", "b", "", &[], Some("g"));
    assert_ne!(graph_hash, content_hash("t", "b", "", &[], None));
    let later = SearchDocument::new(
        mapping_id.clone(),
        "s".to_string(),
        "/u".to_string(),
        "t".to_string(),
        "b".to_string(),
        "".to_string(),
        Vec::new(),
        None,
    )
    .with_generation(9);
    assert_eq!(later.generation, 9);
}

#[test]
fn generations_are_written_and_read_back_in_decimal() {
    assert_eq!(generation_text(0), "0");
    assert_eq!(generation_text(1234567890), "1234567890");
    assert_eq!(parse_generation(&generation_text(u64::MAX)), u64::MAX);
    assert_eq!(parse_generation("+42"), 42);
    assert_eq!(parse_generation(""), 0);
    assert_eq!(parse_generation("4x"), 0);
    assert_eq!(parse_generation("18446744073709551616"), 0);
}
