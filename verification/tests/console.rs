use fetch_spp::console::{
    added_domain, challenge_file_url, listed_domain, ownership_shown, parse_port,
    verification_result,
};
use fetch_spp::session::{
    ACCESS_TOKEN_SECONDS, REFRESH_TOKEN_SECONDS, access_cookie, make_cookie, sign_in_cookies,
};
use fetch_spp::domain::{
    DomainError, DomainStatus, canonicalize_and_validate_domain, challenge_host,
    derive_verification_token, file_token_matches, fqdn, records_contain,
};
use fetch_spp::model::{SearchQuery, normalize_query, page_limit, parse_u64, snippet};

#[test]
fn test_valid_domains() {
    assert_eq!(
        canonicalize_and_validate_domain("https://fuyeor.com/").unwrap(),
        "fuyeor.com"
    );
    assert_eq!(
        canonicalize_and_validate_domain("sub.fuyeor.com").unwrap(),
        "sub.fuyeor.com"
    );
    assert_eq!(
        canonicalize_and_validate_domain("a.b.c.fuyeor.com").unwrap(),
        "a.b.c.fuyeor.com"
    );
    assert_eq!(
        canonicalize_and_validate_domain("blog.github.io").unwrap(),
        "blog.github.io"
    );
}

#[test]
fn test_psl_and_security_rejections() {
    assert!(canonicalize_and_validate_domain("http://fuyeor.com").is_err());
    assert!(canonicalize_and_validate_domain("https://fuyeor.com/thought/123").is_err());
    assert!(canonicalize_and_validate_domain("fuyeor.com/blog/").is_err());
    assert!(canonicalize_and_validate_domain("fuyeor.com:8080").is_err());
    assert!(canonicalize_and_validate_domain("com.cn").is_err());
    assert!(canonicalize_and_validate_domain("github.io").is_err());
    assert!(canonicalize_and_validate_domain("co.uk").is_err());
    assert!(canonicalize_and_validate_domain("com").is_err());
}

#[test]
fn domain_errors_name_their_cause() {
    assert_eq!(
        canonicalize_and_validate_domain(" http://a.com "),
        Err(DomainError::InsecureScheme)
    );
    assert_eq!(
        canonicalize_and_validate_domain("a.com?x"),
        Err(DomainError::NotBareDomain)
    );
    assert_eq!(
        canonicalize_and_validate_domain("https:///"),
        Err(DomainError::Empty)
    );
    assert_eq!(
        canonicalize_and_validate_domain("com"),
        Err(DomainError::InvalidSyntax)
    );
    assert_eq!(
        canonicalize_and_validate_domain("co.uk"),
        Err(DomainError::PublicSuffix)
    );
    let long = format!("{}.com", "a".repeat(240));
    assert!(canonicalize_and_validate_domain(&long).is_err());
    assert_eq!(
        canonicalize_and_validate_domain("Sub.Fuyeor.COM").unwrap(),
        "sub.fuyeor.com"
    );
    assert_eq!(
        canonicalize_and_validate_domain("bücher.example").unwrap(),
        "xn--bcher-kva.example"
    );
    assert_eq!(
        DomainError::PublicSuffix.message(),
        "Cannot register a public suffix (eTLD) directly; must be an eTLD+1 or subdomain"
    );
}

#[test]
fn verification_tokens_are_stable_and_short() {
    let token = derive_verification_token("user", "fuyeor.com", "salt");
    assert_eq!(token.len(), 32);
    assert!(token.chars().all(|c| c.is_ascii_hexdigit() && !c.is_ascii_uppercase()));
    assert_eq!(token, derive_verification_token("user", "fuyeor.com", "salt"));
    assert_ne!(token, derive_verification_token("user", "fuyeor.com", "other"));
    assert_ne!(
        derive_verification_token("a:b", "c", "d"),
        derive_verification_token("a", "b:c", "e")
    );
}

#[test]
fn challenge_records_and_files() {
    assert_eq!(challenge_host("fuyeor.com"), "_fetch-challenge.fuyeor.com");
    assert_eq!(fqdn("fuyeor.com"), "fuyeor.com.");
    assert_eq!(fqdn("fuyeor.com."), "fuyeor.com.");
    let records = vec!["v=spf1".to_string(), "fetch-verification=abc".to_string()];
    assert!(records_contain(&records, "abc"));
    assert!(!records_contain(&records, "abd"));
    assert!(records_contain(&records, ""));
    assert!(!records_contain(&[], ""));
    assert!(file_token_matches("  abc\n", "abc"));
    assert!(!file_token_matches("abc def", "abc"));
    let added = added_domain("fuyeor.com", "abc", "now".to_string());
    assert_eq!(added.status, "pending");
    assert_eq!(added.dns_record_name, "_fetch-challenge.fuyeor.com");
    assert_eq!(added.dns_record_value, "fetch-verification=abc");
    let listed = listed_domain(
        "fuyeor.com",
        &DomainStatus::Verified,
        "abc",
        "then".to_string(),
        Some("later".to_string()),
    );
    assert_eq!(listed.status, "verified");
    assert_eq!(listed.dns_record_value, "abc");
    assert_eq!(listed.verified_at.as_deref(), Some("later"));
}

#[test]
fn search_requests_are_bounded() {
    assert_eq!(normalize_query("  rust  ").unwrap(), "rust");
    assert!(normalize_query(&"x".repeat(257)).is_err());
    assert_eq!(normalize_query(&"搜".repeat(256)).unwrap().chars().count(), 256);
    assert_eq!(page_limit(0), 1);
    assert_eq!(page_limit(10), 10);
    assert_eq!(page_limit(500), 50);
    let query = SearchQuery {
        q: "q".to_string(),
        offset: None,
        limit: None,
    };
    assert_eq!(query.window(), (0, 20));
    let text = "字".repeat(200);
    assert_eq!(snippet(&text).chars().count(), 180);
    assert_eq!(snippet("short"), "short");
}

#[test]
fn challenge_file_lives_under_well_known() {
    assert_eq!(
        challenge_file_url("example.com"),
        "https://example.com/.well-known/fetch-challenge.txt"
    );
}

#[test]
fn verification_result_reports_success_or_what_was_missing() {
    let ok = verification_result("example.com".to_string(), "tok", "_fetch-challenge.example.com", true);
    assert_eq!(ok.domain, "example.com");
    assert!(ok.verified);
    assert_eq!(ok.message, "Domain ownership verified successfully via DNS or well-known file!");
    let failed =
        verification_result("example.com".to_string(), "tok", "_fetch-challenge.example.com", false);
    assert!(!failed.verified);
    assert_eq!(
        failed.message,
        "Verification failed: DNS TXT record matching 'tok' not found on '_fetch-challenge.example.com', and https://example.com/.well-known/fetch-challenge.txt is unreachable."
    );
}

#[test]
fn ports_parse_as_u16() {
    assert_eq!(parse_port("8080"), Some(8080));
    assert_eq!(parse_port("+443"), Some(443));
    assert_eq!(parse_port("65535"), Some(65535));
    assert_eq!(parse_port("65536"), None);
    assert_eq!(parse_port(""), None);
    assert_eq!(parse_port("80a"), None);
    assert_eq!(parse_port("-1"), None);
    assert_eq!(parse_port("99999999999999999999999"), None);
    assert_eq!(parse_u64("18446744073709551615"), Some(u64::MAX));
    assert_eq!(parse_u64("18446744073709551616"), None);
    assert_eq!(parse_u64("+"), None);
}

#[test]
fn sign_in_sets_three_session_cookies() {
    let cookies = sign_in_cookies("a".to_string(), "r".to_string(), true);
    assert_eq!(cookies.len(), 3);
    assert_eq!(cookies[0].name, "access_token");
    assert_eq!(cookies[0].value, "a");
    assert_eq!(cookies[0].max_age_seconds, 30 * 60);
    assert!(cookies[0].http_only);
    assert_eq!(cookies[1].name, "refresh_token");
    assert_eq!(cookies[1].value, "r");
    assert_eq!(cookies[1].max_age_seconds, 7 * 24 * 60 * 60);
    assert!(cookies[1].http_only);
    assert_eq!(cookies[2].name, "session_payload");
    assert_eq!(cookies[2].value, "true");
    assert_eq!(cookies[2].max_age_seconds, REFRESH_TOKEN_SECONDS);
    assert!(!cookies[2].http_only);
    for cookie in &cookies {
        assert!(cookie.secure);
        assert_eq!(cookie.path, "/");
        assert!(cookie.same_site_lax);
    }
    let refreshed = access_cookie("b".to_string(), false);
    assert_eq!(refreshed.max_age_seconds, ACCESS_TOKEN_SECONDS);
    assert!(!refreshed.secure);
    assert_eq!(refreshed, make_cookie("access_token", "b".to_string(), 1800, true, false));
}

#[test]
fn accepted_domains_are_lower_case_ascii() {
    let d = canonicalize_and_validate_domain("Sub.Fuyeor.COM").unwrap();
    assert_eq!(d, "sub.fuyeor.com");
    let idn = canonicalize_and_validate_domain("bücher.de").unwrap();
    assert!(idn.is_ascii());
    assert!(!idn.chars().any(|c| c.is_ascii_uppercase()));
    assert_eq!(canonicalize_and_validate_domain(&idn).unwrap(), idn);
}

#[test]
fn ownership_is_shown_by_record_or_file() {
    assert!(ownership_shown(true, None, "tok"));
    assert!(ownership_shown(false, Some("  tok\n"), "tok"));
    assert!(!ownership_shown(false, Some("other"), "tok"));
    assert!(!ownership_shown(false, None, "tok"));
}
