use fetch_spp::catalog::parse_sitemap_rows;
use fetch_spp::error::CoreError;
use fetch_spp::mock::{MappingSpec, choose_title, materialize_row, parse_mappings, row_content_reference};

#[test]
fn single_site_loader_keeps_patterns_as_written() {
    let source = r#"[
      { id = `profile` pattern = `/{username}` params = struct { username: string } datas = ./a.fon }
      { pattern = `/{username}` params = struct { other: string } datas = ./b.fon }
    ]"#;
    let mappings = parse_mappings(source, "mappings.fon").unwrap();
    assert_eq!(mappings.len(), 2);
    assert_eq!(mappings[0].pattern, "/{username}");
    assert_eq!(mappings[1].datas, "./b.fon");
    assert!(matches!(
        parse_mappings("[ { pattern = `/x` params = 1 datas = ./a.fon } ]", "m.fon"),
        Err(CoreError::ParamsNotSchema)
    ));
    assert!(matches!(
        parse_mappings("[ { pattern = `/x` datas = ./a.fon } ]", "m.fon"),
        Err(CoreError::ParamsRequired)
    ));
}

#[test]
fn single_site_rows_expand_leniently() {
    let rows = parse_sitemap_rows(
        "[{ params = { id = `7` } content = `./c.fon` updated-at = `today` }, { content = `./c.fon` }]",
        "s.fon",
    )
    .unwrap();
    assert_eq!(row_content_reference(&rows[0]).unwrap(), "./c.fon");
    assert!(matches!(
        row_content_reference(&rows[1]),
        Err(CoreError::RowParamsNotObject)
    ));
    let mapping = MappingSpec {
        pattern: "/thought/{id}/{}".to_string(),
        datas: "./s.fon".to_string(),
    };
    let pages = materialize_row(
        &mapping,
        &rows[0],
        "{ content = `one two` images = [`x.png`] }",
        "./c.fon",
    )
    .unwrap();
    assert_eq!(pages.len(), 1);
    assert_eq!(pages[0].url, "/thought/7");
    assert_eq!(pages[0].title, "one two");
    assert_eq!(pages[0].updated_at, "today");
    assert_eq!(pages[0].images, ["x.png"]);
    let trailing = MappingSpec {
        pattern: "/a/{id}}".to_string(),
        datas: "./s.fon".to_string(),
    };
    let pages = materialize_row(&trailing, &rows[0], "{ content = `b` }", "./c.fon").unwrap();
    assert_eq!(pages[0].url, "/a/7}");
}

#[test]
fn single_site_titles_match_the_engine() {
    assert_eq!(
        choose_title(None, "# A useful title\n\nBody"),
        "A useful title"
    );
    assert_eq!(choose_title(None, "one two three"), "one two three");
}

#[test]
fn single_site_bare_rows_bind_the_single_placeholder() {
    let rows = parse_sitemap_rows("[`alice`, true]", "s.fon").unwrap();
    let mapping = MappingSpec {
        pattern: "/@{username}".to_string(),
        datas: "./s.fon".to_string(),
    };
    let pages = materialize_row(&mapping, &rows[0], "{ content = `hi` }", "./c.fon").unwrap();
    assert_eq!(pages.len(), 1);
    assert_eq!(pages[0].url, "/@alice");
    assert!(matches!(
        materialize_row(&mapping, &rows[1], "{ content = `hi` }", "./c.fon"),
        Err(CoreError::RowNotObject)
    ));
    assert!(matches!(row_content_reference(&rows[0]), Err(CoreError::RowNotObject)));
}
