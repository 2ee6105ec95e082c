use fetch_spp::catalog::{
    MappingSpec, materialize_row_from_source, parse_content_source, parse_mappings,
    parse_sitemap_rows, resolve_site_path, row_content_reference,
};
use fetch_spp::document::{stable_document_id, stable_mapping_id};
use fetch_spp::error::CoreError;
use fetch_spp::pattern::PatternError;
use fetch_spp::syntax::parse_root_value;
use fetch_spp::value::RuntimeValue;

#[test]
fn duplicate_mapping_patterns_are_rejected() {
    let source = r#"[
      { pattern = `/{username}` params = struct { username: string } datas = ./a.fon }
      { pattern = `/{username}` params = struct { username: string } datas = ./b.fon }
    ]"#;
    assert!(parse_mappings(source, "mappings.fon").is_err());
}

#[test]
fn explicit_mapping_id_is_rejected() {
    let source = r#"[
      { id = `profile` pattern = `/{username}` params = struct { username: string } datas = ./a.fon }
    ]"#;
    assert!(parse_mappings(source, "mappings.fon").is_err());
}

#[test]
fn mapping_params_must_match_pattern_placeholders() {
    let source = r#"[
      { pattern = `/{username}` params = struct { account: string } datas = ./a.fon }
    ]"#;
    assert!(parse_mappings(source, "mappings.fon").is_err());
}

#[test]
fn mappings_get_ids_from_their_canonical_patterns() {
    let source = r#"[
      { pattern = ` /@{username} ` params = struct { username: string } datas = ./a.fon }
      { pattern = `/{locale}/thought/{id}` params = struct { id: string, locale: string } datas = `./b.fon` }
    ]"#;
    let mappings = parse_mappings(source, "mappings.fon").unwrap();
    assert_eq!(mappings.len(), 2);
    assert_eq!(mappings[0].pattern, "/@{username}");
    assert_eq!(mappings[0].mapping_id, stable_mapping_id("/@{username}"));
    assert_eq!(mappings[0].datas, "./a.fon");
    assert_eq!(mappings[1].pattern, "/{locale}/thought/{id}");
    assert_eq!(mappings[1].datas, "./b.fon");
}

#[test]
fn mapping_index_errors() {
    assert!(matches!(
        parse_mappings("{ a = 1 }", "m.fon"),
        Err(CoreError::NotRootArray(_))
    ));
    assert!(matches!(
        parse_mappings("[ 1 ]", "m.fon"),
        Err(CoreError::MappingNotObject)
    ));
    assert!(matches!(
        parse_mappings("[ { params = struct { a: string } datas = ./a.fon } ]", "m.fon"),
        Err(CoreError::PatternRequired)
    ));
    assert!(matches!(
        parse_mappings("[ { pattern = `/{a}` datas = ./a.fon } ]", "m.fon"),
        Err(CoreError::ParamsRequired)
    ));
    assert!(matches!(
        parse_mappings("[ { pattern = `/{a}` params = struct { a: string } } ]", "m.fon"),
        Err(CoreError::DatasRequired)
    ));
    assert!(matches!(
        parse_mappings(
            "[ { pattern = `a` params = struct { a: string } datas = ./a.fon } ]",
            "m.fon"
        ),
        Err(CoreError::Pattern(PatternError::NotRooted))
    ));
}

#[test]
fn sitemap_rows_must_form_a_root_array() {
    let rows = parse_sitemap_rows("[{ params = { username = `Alice` } content = `/c.fon` }]", "s.fon")
        .unwrap();
    assert_eq!(rows.len(), 1);
    assert_eq!(row_content_reference(&rows[0]).unwrap(), "/c.fon");
    assert!(matches!(
        parse_sitemap_rows("{ a = 1 }", "s.fon"),
        Err(CoreError::NotRootArray(_))
    ));
}

#[test]
fn data_files_refuse_interpolation_and_duplicates() {
    assert!(parse_root_value("{ a = 1 a = 2 }", "d.fon").is_err());
    assert!(matches!(
        parse_root_value("{ a = `x` }", "d.fon"),
        Ok(RuntimeValue::Object(_))
    ));
}

#[test]
fn content_envelope_keeps_title_body_and_images() {
    let page = parse_content_source(
        "{ title = `  ` content = `# Hello` images = [`a.png`, ``, `b.png`] }",
        "c.fon",
    )
    .unwrap();
    assert!(page.title.is_none());
    assert_eq!(page.body, "# Hello");
    assert_eq!(page.images, ["a.png", "b.png"]);
    assert!(page.graph.is_none());
    assert!(matches!(
        parse_content_source("{ title = `T` }", "c.fon"),
        Err(CoreError::ContentMissing(_))
    ));
    assert!(matches!(
        parse_content_source("[ 1 ]", "c.fon"),
        Err(CoreError::ContentNotObject(_))
    ));
}

#[test]
fn rows_materialize_one_page_per_url() {
    let rows = parse_sitemap_rows(
        "[{ params = { username = `Alice`, tab = [`a`, `b`] } content = `/content.fon` updated-at = `2026-08-30` }]",
        "s.fon",
    )
    .unwrap();
    let mapping = MappingSpec {
        mapping_id: stable_mapping_id("/@{username}/{tab}"),
        pattern: "/@{username}/{tab}".to_string(),
        datas: "/s.fon".to_string(),
    };
    let pages = materialize_row_from_source(
        &mapping,
        &rows[0],
        "https://example.com/content.fon",
        "{ title = `Alice` content = `# Hello` }",
        "https://example.com/content.fon",
    )
    .unwrap();
    assert_eq!(pages.len(), 2);
    assert_eq!(pages[0].url, "/@Alice/a");
    assert_eq!(pages[1].url, "/@Alice/b");
    assert_eq!(pages[0].title, "Alice");
    assert_eq!(pages[0].body, "# Hello");
    assert_eq!(pages[0].updated_at, "2026-08-30");
    assert_eq!(pages[0].source, "https://example.com/content.fon");
    assert_eq!(
        pages[0].document_id,
        stable_document_id(&mapping.mapping_id, "/@Alice/a")
    );
    assert!(pages[0].content_hash.starts_with("sha256:"));
    assert_eq!(pages[0].content_hash, pages[1].content_hash);
    assert_eq!(pages[0].generation, 0);
}

#[test]
fn rows_without_params_are_refused() {
    let rows = parse_sitemap_rows("[{ content = `/c.fon` }, 3]", "s.fon").unwrap();
    let mapping = MappingSpec {
        mapping_id: stable_mapping_id("/x"),
        pattern: "/x".to_string(),
        datas: "/s.fon".to_string(),
    };
    assert!(matches!(
        materialize_row_from_source(&mapping, &rows[0], "c", "{ content = `x` }", "c"),
        Err(CoreError::RowParamsNotObject)
    ));
    assert!(matches!(
        materialize_row_from_source(&mapping, &rows[1], "c", "{ content = `x` }", "c"),
        Err(CoreError::RowNotObject)
    ));
    assert!(matches!(row_content_reference(&rows[1]), Err(CoreError::RowNotObject)));
}

#[test]
fn site_paths_stay_below_the_root() {
    assert_eq!(
        resolve_site_path("/srv/site", "./well-known/search-patterns.fon").unwrap(),
        "/srv/site/well-known/search-patterns.fon"
    );
    assert_eq!(resolve_site_path("/srv/site/", "a/b.fon").unwrap(), "/srv/site/a/b.fon");
    assert_eq!(resolve_site_path("root", ".//a/./").unwrap(), "root/a");
    assert_eq!(resolve_site_path("root", "./").unwrap(), "root/");
    assert!(matches!(
        resolve_site_path("root", "/etc/passwd"),
        Err(CoreError::UnsafeSitePath(_))
    ));
    assert!(matches!(
        resolve_site_path("root", "./a/../../b"),
        Err(CoreError::UnsafeSitePath(_))
    ));
    assert!(resolve_site_path("root", "a/..b/c").is_ok());
}

#[test]
fn bare_string_rows_bind_the_single_placeholder() {
    let rows = parse_sitemap_rows("[`101`, `102`, { id = `103` }]", "articles.fon").unwrap();
    assert_eq!(rows.len(), 3);
    let mapping = MappingSpec {
        mapping_id: stable_mapping_id("/article/{id}"),
        pattern: "/article/{id}".to_string(),
        datas: "/articles.fon".to_string(),
    };
    let pages = materialize_row_from_source(
        &mapping,
        &rows[0],
        "https://example.com/c.fon",
        "{ content = `Hello` }",
        "https://example.com/c.fon",
    )
    .unwrap();
    assert_eq!(pages.len(), 1);
    assert_eq!(pages[0].url, "/article/101");
    assert_eq!(pages[0].updated_at, "");
    assert_eq!(
        pages[0].document_id,
        stable_document_id(&mapping.mapping_id, "/article/101")
    );
    let second = materialize_row_from_source(&mapping, &rows[1], "s", "{ content = `x` }", "c")
        .unwrap();
    assert_eq!(second[0].url, "/article/102");
    let two = MappingSpec {
        mapping_id: stable_mapping_id("/{locale}/product/{id}"),
        pattern: "/{locale}/product/{id}".to_string(),
        datas: "/p.fon".to_string(),
    };
    assert!(matches!(
        materialize_row_from_source(&two, &rows[0], "s", "{ content = `x` }", "c"),
        Err(CoreError::RowNotObject)
    ));
    assert!(matches!(row_content_reference(&rows[0]), Err(CoreError::RowNotObject)));
}
