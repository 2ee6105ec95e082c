use std::collections::HashMap;

use fetch_spp::catalog::{
    materialize_row_from_source, parse_mappings, parse_sitemap_rows, row_content_reference,
};
use fetch_spp::fetch::{FetchError, FetchLoop, FetchStage, HopAction, HopEvent};
use fetch_spp::ingest::{IngestAction, IngestEvent, IngestFailure, IngestLoop};
use fetch_spp::crawl_state::{
    ResourceRecord, SuccessUpdate, apply_failure, apply_not_modified, apply_success, body_key,
    record_key, try_acquire,
};
use fetch_spp::crawler::{
    CrawlStats, CrawlerConfig, FetchAction, FetchOutcome, FetchPolicy, IngestError, add_rows,
    after_attempt, announced_length_fits, check_config, check_documents, check_mappings,
    chunk_fits, redirect_allowed, NotModifiedError, serve_not_modified,
};
use fetch_spp::net::{
    IpAddress, LocatorError, TargetCheck, TargetError, check_resolved, check_target,
    is_public_ip, parse_mapping_locator, redirect_target, same_origin, same_origin_url,
};

/// Crawler state kept in two keyed tables, records and bodies, updated
/// by the library's transitions.
struct State {
    records: HashMap<String, ResourceRecord>,
    bodies: HashMap<String, Vec<u8>>,
}

impl State {
    fn open() -> Self {
        State {
            records: HashMap::new(),
            bodies: HashMap::new(),
        }
    }

    fn get(&self, url: &str) -> Option<ResourceRecord> {
        self.records.get(&record_key(url)).cloned()
    }

    fn body(&self, url: &str) -> Option<Vec<u8>> {
        self.bodies.get(&body_key(url)).cloned()
    }

    fn try_acquire(&mut self, url: &str, now: u64, lease_seconds: u64) -> Option<ResourceRecord> {
        let current = self.get(url);
        let acquired = try_acquire(current.as_ref(), url, now, lease_seconds);
        if let Some(record) = &acquired {
            self.records.insert(record_key(url), record.clone());
        }
        acquired
    }

    fn apply_success(&mut self, url: &str, update: SuccessUpdate<'_>) -> ResourceRecord {
        let body = update.body.to_vec();
        let record = apply_success(url, update);
        self.records.insert(record_key(url), record.clone());
        self.bodies.insert(body_key(url), body);
        record
    }

    fn apply_not_modified(
        &mut self,
        url: &str,
        fetched_at: u64,
        refresh_after: u64,
    ) -> Option<ResourceRecord> {
        let current = self.get(url);
        let record = apply_not_modified(current.as_ref(), fetched_at, refresh_after);
        if let Some(record) = &record {
            self.records.insert(record_key(url), record.clone());
        }
        record
    }

    fn apply_failure(&mut self, url: &str, now: u64, max_backoff: u64) {
        let current = self.get(url);
        let record = apply_failure(current.as_ref(), url, now, max_backoff);
        self.records.insert(record_key(url), record);
    }
}

#[test]
fn lease_and_conditional_body_state_are_persistent() {
    let mut state = State::open();
    let url = "https://example.com/catalog.fon";
    assert!(state.try_acquire(url, 100, 60).is_some());
    assert!(state.try_acquire(url, 101, 60).is_none());
    state.apply_success(
        url,
        SuccessUpdate {
            status: 200,
            etag: Some("etag-1".to_string()),
            last_modified: None,
            body: b"catalog",
            fetched_at: 100,
            refresh_after: 3600,
        },
    );
    assert_eq!(state.body(url).as_deref(), Some(&b"catalog"[..]));
    assert_eq!(state.get(url).unwrap().etag.as_deref(), Some("etag-1"));
    let unchanged = state.apply_not_modified(url, 200, 3600).unwrap();
    assert_eq!(unchanged.status, 304);
    assert_eq!(state.body(url).as_deref(), Some(&b"catalog"[..]));
}

#[test]
fn failure_backoff_is_bounded_and_releases_lease() {
    let mut state = State::open();
    let url = "https://example.com/fail.fon";
    state.try_acquire(url, 100, 60);
    state.apply_failure(url, 100, 120);
    let record = state.get(url).unwrap();
    assert_eq!(record.retry_count, 1);
    assert_eq!(record.lease_until, 0);
    assert_eq!(record.next_fetch_at, 110);
}

#[test]
fn backoff_doubles_until_capped() {
    let mut record: Option<ResourceRecord> = None;
    let mut waits = Vec::new();
    for _ in 0..13 {
        let next = apply_failure(record.as_ref(), "u", 1000, 3600);
        waits.push(next.next_fetch_at - 1000);
        record = Some(next);
    }
    assert_eq!(
        waits,
        [10, 20, 40, 80, 160, 320, 640, 1280, 2560, 3600, 3600, 3600, 3600]
    );
    let uncapped = apply_failure(record.as_ref(), "u", 0, u64::MAX);
    assert_eq!(uncapped.next_fetch_at, 5120);
    assert_eq!(uncapped.retry_count, 14);
}

#[test]
fn lease_expires_and_success_resets_retries() {
    let first = try_acquire(None, "u", 10, 5).unwrap();
    assert_eq!(first.lease_until, 15);
    assert!(try_acquire(Some(&first), "u", 14, 5).is_none());
    let again = try_acquire(Some(&first), "u", 15, 5).unwrap();
    assert_eq!(again.lease_until, 20);
    let failed = apply_failure(Some(&again), "u", 15, 60);
    let done = apply_success(
        "u",
        SuccessUpdate {
            status: 200,
            etag: None,
            last_modified: Some("yesterday".to_string()),
            body: b"",
            fetched_at: u64::MAX - 1,
            refresh_after: 10,
        },
    );
    assert_eq!(failed.retry_count, 1);
    assert_eq!(done.retry_count, 0);
    assert_eq!(done.lease_until, 0);
    assert_eq!(done.next_fetch_at, u64::MAX);
    assert_eq!(
        done.content_hash,
        "sha256:e3b0c44298fc1c149afbf4c8996fb92427ae41e4649b934ca495991b7852b855"
    );
    assert!(apply_not_modified(None, 1, 1).is_none());
    assert!(record_key("u").starts_with("resource/"));
    assert!(body_key("u").starts_with("body/"));
    assert_eq!(&record_key("u")[9..], &body_key("u")[5..]);
}

#[test]
fn rejects_private_and_reserved_addresses() {
    assert!(!is_public_ip(&IpAddress::V4([127, 0, 0, 1])));
    assert!(!is_public_ip(&IpAddress::V4([10, 0, 0, 1])));
    assert!(!is_public_ip(&IpAddress::V6([0, 0, 0, 0, 0, 0, 0, 1])));
    assert!(is_public_ip(&IpAddress::V4([1, 1, 1, 1])));
}

#[test]
fn reserved_ranges_are_not_public() {
    for octets in [
        [172, 16, 0, 1],
        [192, 168, 1, 1],
        [169, 254, 1, 1],
        [100, 64, 0, 1],
        [192, 0, 2, 1],
        [198, 18, 0, 1],
        [198, 51, 100, 1],
        [203, 0, 113, 1],
        [224, 0, 0, 1],
        [255, 255, 255, 255],
        [0, 0, 0, 0],
    ] {
        assert!(!is_public_ip(&IpAddress::V4(octets)), "{octets:?}");
    }
    assert!(is_public_ip(&IpAddress::V4([172, 32, 0, 1])));
    assert!(is_public_ip(&IpAddress::V4([8, 8, 8, 8])));
    assert!(!is_public_ip(&IpAddress::V6([0xfd00, 0, 0, 0, 0, 0, 0, 1])));
    assert!(!is_public_ip(&IpAddress::V6([0xfe80, 0, 0, 0, 0, 0, 0, 1])));
    assert!(!is_public_ip(&IpAddress::V6([0xff02, 0, 0, 0, 0, 0, 0, 1])));
    assert!(!is_public_ip(&IpAddress::V6([0x2001, 0x0db8, 0, 0, 0, 0, 0, 1])));
    assert!(is_public_ip(&IpAddress::V6([0x2606, 0x4700, 0, 0, 0, 0, 0, 0x1111])));
    assert_eq!(check_resolved(&[]), Err(TargetError::NotResolved));
    assert_eq!(
        check_resolved(&[IpAddress::V4([8, 8, 8, 8]), IpAddress::V4([10, 0, 0, 1])]),
        Err(TargetError::PrivateAddress)
    );
    assert_eq!(check_resolved(&[IpAddress::V4([8, 8, 8, 8])]), Ok(()));
}

#[test]
fn redirect_origin_comparison_includes_scheme_host_and_port() {
    let origin = parse_mapping_locator("https://example.com:443/a").unwrap();
    assert!(same_origin(
        origin.parts(),
        parse_mapping_locator("https://example.com/b").unwrap().parts()
    ));
    assert!(!same_origin(
        origin.parts(),
        parse_mapping_locator("http://example.com/a").unwrap().parts()
    ));
    assert!(!same_origin(
        origin.parts(),
        parse_mapping_locator("https://other.example/a").unwrap().parts()
    ));
}

#[test]
fn locators_stay_on_the_submitted_origin() {
    let base = parse_mapping_locator("http://127.0.0.1:9/search-patterns.fon?x=1").unwrap();
    let data = same_origin_url(&base, "/sitemap.fon").unwrap();
    assert_eq!(data.parts().text, "http://127.0.0.1:9/sitemap.fon");
    let relative = same_origin_url(&base, "./data/rows.fon").unwrap();
    assert_eq!(relative.parts().text, "http://127.0.0.1:9/data/rows.fon");
    let absolute = same_origin_url(&base, "http://127.0.0.1:9/c.fon").unwrap();
    assert_eq!(absolute.parts().text, "http://127.0.0.1:9/c.fon");
    assert_eq!(
        same_origin_url(&base, "https://other.example/c.fon").unwrap_err(),
        LocatorError::CrossOrigin
    );
    assert_eq!(
        same_origin_url(&base, "/a/../b").unwrap_err(),
        LocatorError::ParentTraversal
    );
    assert_eq!(
        same_origin_url(&base, "rows.fon").unwrap_err(),
        LocatorError::NotAbsoluteOrRootRelative
    );
}

#[test]
fn fetch_targets_are_checked_before_requests() {
    let public = parse_mapping_locator("https://example.com/a").unwrap();
    assert_eq!(
        check_target(public.parts(), false),
        Ok(TargetCheck::Resolve("example.com".to_string(), 443))
    );
    assert_eq!(check_target(public.parts(), true), Ok(TargetCheck::Accepted));
    let ftp = parse_mapping_locator("ftp://example.com/a").unwrap();
    assert_eq!(
        check_target(ftp.parts(), true),
        Err(TargetError::UnsupportedScheme)
    );
    let user = parse_mapping_locator("https://me:pw@example.com/a").unwrap();
    assert_eq!(check_target(user.parts(), true), Err(TargetError::Credentials));
    assert_eq!(
        parse_mapping_locator("not a url").unwrap_err(),
        LocatorError::InvalidUrl
    );
}

#[test]
fn redirects_stay_on_the_first_origin() {
    let initial = parse_mapping_locator("https://example.com/a/b.fon").unwrap();
    let next = redirect_target(&initial, &initial, "c.fon").unwrap();
    assert_eq!(next.parts().text, "https://example.com/a/c.fon");
    let rooted = redirect_target(&initial, &next, "/d.fon").unwrap();
    assert_eq!(rooted.parts().text, "https://example.com/d.fon");
    assert_eq!(
        redirect_target(&initial, &next, "https://evil.example/").unwrap_err(),
        LocatorError::CrossOrigin
    );
    assert_eq!(
        redirect_target(&initial, &next, "http://example.com/d.fon").unwrap_err(),
        LocatorError::CrossOrigin
    );
}

#[test]
fn ingestion_limits_and_retries() {
    let config = CrawlerConfig::default();
    assert_eq!(config.max_attempts, 3);
    assert!(check_config(&config).is_ok());
    let none = CrawlerConfig {
        max_attempts: 0,
        ..CrawlerConfig::default()
    };
    assert!(matches!(check_config(&none), Err(IngestError::NoAttempts)));
    assert!(check_mappings(256, &config).is_ok());
    assert!(matches!(
        check_mappings(257, &config),
        Err(IngestError::TooManyMappings)
    ));
    assert_eq!(add_rows(99_999, 1, &config).ok(), Some(100_000));
    assert!(matches!(
        add_rows(usize::MAX, 1, &config),
        Err(IngestError::TooManyRows)
    ));
    assert!(matches!(
        check_documents(1_000_001, &config),
        Err(IngestError::TooManyDocuments)
    ));
    let stats = CrawlStats::default();
    let (stats, action) = after_attempt(stats, 0, 3, FetchOutcome::Failed);
    assert_eq!(action, FetchAction::RetryAfter(50));
    let (stats, action) = after_attempt(stats, 1, 3, FetchOutcome::Failed);
    assert_eq!(action, FetchAction::RetryAfter(100));
    let (stats, action) = after_attempt(stats, 2, 3, FetchOutcome::Fetched);
    assert_eq!(action, FetchAction::Stop);
    assert_eq!(stats.fetched, 1);
    assert_eq!(stats.retries, 2);
    let (stats, _) = after_attempt(stats, 0, 3, FetchOutcome::NotModified);
    let (stats, _) = after_attempt(stats, 0, 3, FetchOutcome::Leased);
    assert_eq!(
        stats,
        CrawlStats {
            fetched: 1,
            not_modified: 1,
            retries: 2,
            deferred: 1,
        }
    );
    let (_, last) = after_attempt(stats, 2, 3, FetchOutcome::Failed);
    assert_eq!(last, FetchAction::Stop);
    assert!(FetchPolicy::for_tests().allow_private_networks);
    assert!(!FetchPolicy::default().allow_private_networks);
    assert!(announced_length_fits(Some(4 * 1024 * 1024), 4 * 1024 * 1024));
    assert!(!announced_length_fits(Some(4 * 1024 * 1024 + 1), 4 * 1024 * 1024));
    assert!(announced_length_fits(None, 0));
    assert!(!chunk_fits(usize::MAX, 1, usize::MAX - 1));
    assert!(chunk_fits(10, 5, 15));
    assert!(redirect_allowed(2, 3));
    assert!(!redirect_allowed(3, 3));
}

#[test]
fn submitted_fon_resources_materialize_on_their_origin() {
    let mapping_url = parse_mapping_locator("http://127.0.0.1:8080/search-patterns.fon").unwrap();
    let mappings = parse_mappings(
        "[{ pattern = `/profile/{username}` params = struct { username: string } datas = `/sitemap.fon` }]",
        &mapping_url.parts().text,
    )
    .unwrap();
    assert_eq!(mappings.len(), 1);
    let data_url = same_origin_url(&mapping_url, &mappings[0].datas).unwrap();
    assert_eq!(data_url.parts().text, "http://127.0.0.1:8080/sitemap.fon");
    let rows = parse_sitemap_rows(
        "[{ params = { username = `Alice` } content = `/content.fon` }]",
        &data_url.parts().text,
    )
    .unwrap();
    assert_eq!(rows.len(), 1);
    let reference = row_content_reference(&rows[0]).unwrap();
    let content_url = same_origin_url(&data_url, &reference).unwrap();
    let key = content_url.parts().text.clone();
    assert_eq!(key, "http://127.0.0.1:8080/content.fon");
    let pages = materialize_row_from_source(
        &mappings[0],
        &rows[0],
        &key,
        "{ title = `Alice` content = `# Hello` }",
        &key,
    )
    .unwrap();
    assert_eq!(pages.len(), 1);
    assert_eq!(pages[0].url, "/profile/Alice");
    assert_eq!(pages[0].title, "Alice");
    assert_eq!(
        same_origin_url(&data_url, "http://127.0.0.2:8080/content.fon").unwrap_err(),
        LocatorError::CrossOrigin
    );
}

fn response(status: u16, location: Option<&str>, length: Option<u64>) -> HopEvent {
    HopEvent::Response(status, location.map(|l| l.to_string()), length, None, None)
}

#[test]
fn fetch_loop_revalidates_every_hop() {
    let policy = FetchPolicy::for_tests();
    let (state, action) = FetchLoop::start("http://127.0.0.1:8080/a.fon", &policy).unwrap();
    assert_eq!(action, HopAction::Request(true));
    let (state, action) = state.step(&policy, response(301, Some("/b.fon"), None));
    assert_eq!(action, HopAction::Request(false));
    assert_eq!(state.current().parts().text, "http://127.0.0.1:8080/b.fon");
    let (state, action) = state.step(
        &policy,
        HopEvent::Response(200, None, Some(3), Some("e1".to_string()), None),
    );
    assert_eq!(action, HopAction::Read);
    let (state, action) = state.step(&policy, HopEvent::Chunk(vec![1, 2]));
    assert_eq!(action, HopAction::Read);
    let (state, action) = state.step(&policy, HopEvent::Chunk(vec![3]));
    assert_eq!(action, HopAction::Read);
    let (state, action) = state.step(&policy, HopEvent::End);
    assert_eq!(action, HopAction::Done);
    assert_eq!(state.stage(), FetchStage::Finished);
    let (url, status, etag, last_modified, body) = state.into_parts();
    assert_eq!(url.parts().text, "http://127.0.0.1:8080/b.fon");
    assert_eq!(status, 200);
    assert_eq!(etag.as_deref(), Some("e1"));
    assert!(last_modified.is_none());
    assert_eq!(body, vec![1, 2, 3]);
}

#[test]
fn fetch_loop_refuses_what_the_policy_forbids() {
    let policy = FetchPolicy::for_tests();
    let start = || FetchLoop::start("http://127.0.0.1:8080/a.fon", &policy).unwrap().0;
    let (_, action) = start().step(&policy, response(302, Some("http://127.0.0.2:8080/x"), None));
    assert_eq!(action, HopAction::Fail(FetchError::Locator(LocatorError::CrossOrigin)));
    let (_, action) = start().step(&policy, response(302, None, None));
    assert_eq!(action, HopAction::Fail(FetchError::NoLocation));
    let (_, action) = start().step(&policy, response(500, None, None));
    assert_eq!(action, HopAction::Fail(FetchError::Status(500)));
    let (_, action) = start().step(&policy, response(200, None, Some(4 * 1024 * 1024 + 1)));
    assert_eq!(action, HopAction::Fail(FetchError::TooLarge));
    let (state, _) = start().step(&policy, response(200, None, None));
    let (_, action) = state.step(&policy, HopEvent::Chunk(vec![0; 4 * 1024 * 1024 + 1]));
    assert_eq!(action, HopAction::Fail(FetchError::TooLarge));
    let (_, action) = start().step(&policy, HopEvent::End);
    assert_eq!(action, HopAction::Fail(FetchError::Unexpected));
    let mut state = start();
    for _ in 0..3 {
        let (next, action) = state.step(&policy, response(307, Some("/again"), None));
        assert_eq!(action, HopAction::Request(false));
        state = next;
    }
    let (_, action) = state.step(&policy, response(307, Some("/again"), None));
    assert_eq!(action, HopAction::Fail(FetchError::RedirectLimit));
}

#[test]
fn not_modified_ends_the_fetch_and_the_crawler_serves_its_cache() {
    let policy = FetchPolicy::for_tests();
    let (state, _) = FetchLoop::start("http://127.0.0.1:8080/a.fon", &policy).unwrap();
    let (state, action) = state.step(
        &policy,
        HopEvent::Response(304, None, None, Some("e2".to_string()), None),
    );
    assert_eq!(action, HopAction::Done);
    let (_, status, etag, _, body) = state.into_parts();
    assert_eq!(status, 304);
    assert_eq!(etag.as_deref(), Some("e2"));
    assert!(body.is_empty());
    let stats = CrawlStats::default();
    let (served_stats, served) = serve_not_modified(stats, 0, 3, Some(b"old".to_vec())).unwrap();
    assert_eq!(served, b"old".to_vec());
    assert_eq!(served_stats.not_modified, 1);
    assert_eq!(
        serve_not_modified(stats, 0, 3, None),
        Err(NotModifiedError::NoCachedBody)
    );
}

#[test]
fn fetch_loop_resolves_public_hosts_only() {
    let policy = FetchPolicy::default();
    let (state, action) = FetchLoop::start("http://example.com/a.fon", &policy).unwrap();
    assert_eq!(action, HopAction::Resolve("example.com".to_string(), 80));
    let (_, action) = state.step(&policy, HopEvent::Resolved(vec![IpAddress::V4([127, 0, 0, 1])]));
    assert_eq!(action, HopAction::Fail(FetchError::Target(TargetError::PrivateAddress)));
    let (state, _) = FetchLoop::start("http://example.com/a.fon", &policy).unwrap();
    let (_, action) =
        state.step(&policy, HopEvent::Resolved(vec![IpAddress::V4([93, 184, 216, 34])]));
    assert_eq!(action, HopAction::Request(true));
    assert!(FetchLoop::start("not a url", &policy).is_err());
}

#[test]
fn ingest_loop_fetches_only_on_the_submitted_origin() {
    let config = CrawlerConfig::default();
    let (state, action) =
        IngestLoop::start("http://127.0.0.1:8080/search-patterns.fon", &config).unwrap();
    assert_eq!(action, IngestAction::Fetch);
    assert_eq!(
        state.target().unwrap().parts().text,
        "http://127.0.0.1:8080/search-patterns.fon"
    );
    let (state, action) = state.step(IngestEvent::Fetched(
        "[{ pattern = `/profile/{username}` params = struct { username: string } datas = `/sitemap.fon` }]"
            .to_string(),
    ));
    assert_eq!(action, IngestAction::Fetch);
    assert_eq!(state.target().unwrap().parts().text, "http://127.0.0.1:8080/sitemap.fon");
    let (state, action) = state.step(IngestEvent::Fetched(
        "[{ params = { username = `Alice` } content = `/content.fon` }, { params = { username = `Bob` } content = `/content.fon` }]"
            .to_string(),
    ));
    assert_eq!(action, IngestAction::Proceed);
    let (state, action) = state.step(IngestEvent::Proceed);
    assert_eq!(action, IngestAction::Fetch);
    assert_eq!(state.target().unwrap().parts().text, "http://127.0.0.1:8080/content.fon");
    let (state, action) =
        state.step(IngestEvent::Fetched("{ title = `Alice` content = `# Hello` }".to_string()));
    assert_eq!(action, IngestAction::Proceed);
    let (state, action) = state.step(IngestEvent::Proceed);
    assert_eq!(action, IngestAction::Proceed);
    let (state, action) = state.step(IngestEvent::Proceed);
    assert_eq!(action, IngestAction::Done);
    let (catalog, rows) = state.into_catalog();
    assert_eq!(catalog.mappings.len(), 1);
    assert_eq!(catalog.pages.len(), 2);
    assert_eq!(catalog.pages[0].url, "/profile/Alice");
    assert_eq!(catalog.pages[1].url, "/profile/Bob");
    assert_eq!(rows, 2);
}

#[test]
fn ingest_loop_refuses_other_origins_and_excess() {
    let config = CrawlerConfig::default();
    let (state, _) =
        IngestLoop::start("http://127.0.0.1:8080/search-patterns.fon", &config).unwrap();
    let (_, action) = state.step(IngestEvent::Fetched(
        "[{ pattern = `/p/{id}` params = struct { id: string } datas = `http://127.0.0.2:8080/s.fon` }]"
            .to_string(),
    ));
    assert_eq!(action, IngestAction::Fail(IngestFailure::Locator(LocatorError::CrossOrigin)));
    let tight = CrawlerConfig { max_mappings: 0, ..CrawlerConfig::default() };
    let (state, _) =
        IngestLoop::start("http://127.0.0.1:8080/search-patterns.fon", &tight).unwrap();
    let (_, action) = state.step(IngestEvent::Fetched(
        "[{ pattern = `/p/{id}` params = struct { id: string } datas = `/s.fon` }]".to_string(),
    ));
    assert_eq!(action, IngestAction::Fail(IngestFailure::Limit(IngestError::TooManyMappings)));
    let (state, _) =
        IngestLoop::start("http://127.0.0.1:8080/search-patterns.fon", &config).unwrap();
    let (_, action) = state.step(IngestEvent::Proceed);
    assert_eq!(action, IngestAction::Fail(IngestFailure::Unexpected));
}

#[test]
fn ingest_loop_fetches_content_afresh_for_each_mapping() {
    let config = CrawlerConfig::default();
    let (state, _) =
        IngestLoop::start("http://127.0.0.1:8080/search-patterns.fon", &config).unwrap();
    let (state, action) = state.step(IngestEvent::Fetched(
        "[{ pattern = `/a/{id}` params = struct { id: string } datas = `/s1.fon` }, { pattern = `/b/{id}` params = struct { id: string } datas = `/s2.fon` }]"
            .to_string(),
    ));
    assert_eq!(action, IngestAction::Fetch);
    let rows = "[{ params = { id = `1` } content = `/content.fon` }]";
    let (state, action) = state.step(IngestEvent::Fetched(rows.to_string()));
    assert_eq!(action, IngestAction::Proceed);
    let (state, action) = state.step(IngestEvent::Proceed);
    assert_eq!(action, IngestAction::Fetch);
    let (state, action) = state.step(IngestEvent::Fetched("{ content = `x` }".to_string()));
    assert_eq!(action, IngestAction::Proceed);
    let (state, action) = state.step(IngestEvent::Proceed);
    assert_eq!(action, IngestAction::Fetch);
    assert_eq!(state.target().unwrap().parts().text, "http://127.0.0.1:8080/s2.fon");
    let (state, action) = state.step(IngestEvent::Fetched(rows.to_string()));
    assert_eq!(action, IngestAction::Proceed);
    let (state, action) = state.step(IngestEvent::Proceed);
    assert_eq!(action, IngestAction::Fetch);
    assert_eq!(state.target().unwrap().parts().text, "http://127.0.0.1:8080/content.fon");
}
