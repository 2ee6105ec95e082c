use fetch_spp::pattern::{
    PatternError, canonical_path, canonical_pattern, expand_pattern, percent_encode_segment,
    placeholder_names,
};
use fetch_spp::title::choose_title;
use fetch_spp::value::{ObjectMap, RuntimeValue, debug_text, unquote_string};

#[test]
fn canonical_pattern_rejects_ambiguous_paths() {
    assert!(canonical_pattern("/@{username}//posts").is_err());
    assert!(canonical_pattern("/@{username}?tab=posts").is_err());
    assert!(canonical_pattern("@{username}").is_err());
}

#[test]
fn canonical_pattern_preserves_meaningful_trailing_slash() {
    assert_eq!(canonical_pattern("/posts/").unwrap(), "/posts/");
}

#[test]
fn expands_array_parameters_to_multiple_paths() {
    let mut params = ObjectMap::new();
    params.insert(
        "tab".to_string(),
        RuntimeValue::Array(vec![
            RuntimeValue::Enum("thoughts".to_string()),
            RuntimeValue::Enum("comments".to_string()),
        ]),
    );
    params.insert(
        "username".to_string(),
        RuntimeValue::String("Fuyeor".to_string()),
    );
    let paths = expand_pattern("/@{username}/{tab}", &params).unwrap();
    assert_eq!(paths, ["/@Fuyeor/thoughts", "/@Fuyeor/comments"]);
}

#[test]
fn missing_terminal_parameter_is_optional() {
    let mut params = ObjectMap::new();
    params.insert(
        "username".to_string(),
        RuntimeValue::String("Alice".to_string()),
    );
    assert_eq!(
        expand_pattern("/@{username}/{tab}", &params).unwrap(),
        ["/@Alice"]
    );
}

#[test]
fn missing_non_terminal_parameter_is_rejected() {
    let params = ObjectMap::new();
    assert!(expand_pattern("/@{username}/profile", &params).is_err());
}

#[test]
fn percent_encodes_path_segments() {
    let mut params = ObjectMap::new();
    params.insert(
        "username".to_string(),
        RuntimeValue::String("A B".to_string()),
    );
    assert_eq!(
        expand_pattern("/@{username}", &params).unwrap(),
        ["/@A%20B"]
    );
}

#[test]
fn fon_title_falls_back_to_markdown_heading() {
    assert_eq!(
        choose_title(None, "# A useful title\n\nBody"),
        "A useful title"
    );
}

#[test]
fn fon_title_falls_back_to_first_ten_whitespace_words() {
    assert_eq!(choose_title(None, "one two three"), "one two three");
}

#[test]
fn explicit_title_is_trimmed_and_blank_title_falls_back() {
    assert_eq!(choose_title(Some("  Given  "), "# Heading"), "Given");
    assert_eq!(choose_title(Some("   "), "# Heading\nbody"), "Heading");
    assert_eq!(choose_title(None, "#NoSpace\n#  \n# Real "), "Real");
    assert_eq!(
        choose_title(None, "a b c d e f g h i j k l"),
        "a b c d e f g h i j"
    );
    assert_eq!(choose_title(None, ""), "");
}

#[test]
fn canonicalizing_twice_changes_nothing() {
    let once = canonical_pattern("  /@{username}/{tab}\n").unwrap();
    assert_eq!(once, "/@{username}/{tab}");
    assert_eq!(canonical_pattern(&once).unwrap(), once);
}

#[test]
fn canonical_pattern_errors() {
    assert_eq!(canonical_pattern("   "), Err(PatternError::Empty));
    assert_eq!(canonical_pattern("a/b"), Err(PatternError::NotRooted));
    assert_eq!(canonical_pattern("/a//b"), Err(PatternError::RepeatedSlash));
    assert_eq!(canonical_pattern("/a#b"), Err(PatternError::QueryOrFragment));
    assert_eq!(
        canonical_pattern("/a\u{7}b"),
        Err(PatternError::ControlCharacter)
    );
    assert_eq!(
        canonical_pattern("/a}b"),
        Err(PatternError::UnmatchedClosingBrace)
    );
    assert_eq!(
        canonical_pattern("/{a"),
        Err(PatternError::UnterminatedParameter)
    );
    assert_eq!(
        canonical_pattern("/{a b}"),
        Err(PatternError::InvalidParameterName)
    );
    assert_eq!(
        canonical_pattern("/{a}/{a}"),
        Err(PatternError::DuplicateParameter("a".to_string()))
    );
}

#[test]
fn placeholder_names_are_listed_in_order() {
    assert_eq!(
        placeholder_names("/{locale}/thought/{id}").unwrap(),
        ["locale", "id"]
    );
    assert_eq!(placeholder_names("/plain").unwrap(), Vec::<String>::new());
}

#[test]
fn expansion_of_scalars_and_errors() {
    let mut params = ObjectMap::new();
    params.insert("flag".to_string(), RuntimeValue::Boolean(true));
    params.insert("n".to_string(), RuntimeValue::Number("1.5".to_string()));
    params.insert(
        "nested".to_string(),
        RuntimeValue::Array(vec![RuntimeValue::Array(Vec::new())]),
    );
    assert_eq!(
        expand_pattern("/{flag}/{n}", &params).unwrap(),
        ["/true/1.5"]
    );
    assert_eq!(
        expand_pattern("/{nested}", &params),
        Err(PatternError::NonScalarParameter)
    );
    assert_eq!(
        expand_pattern("/{missing}/x", &params),
        Err(PatternError::MissingNonTerminalParameter("missing".to_string()))
    );
}

#[test]
fn percent_encoding_keeps_unreserved_bytes() {
    let encoded: String = percent_encode_segment("a-b_c.d~e é/").into_iter().collect();
    assert_eq!(encoded, "a-b_c.d~e%20%C3%A9%2F");
    assert_eq!(canonical_path("x/y"), "/x/y");
    assert_eq!(canonical_path("/x"), "/x");
}

#[test]
fn unquote_decodes_the_supported_escapes_only() {
    assert_eq!(unquote_string("`a\\nb\\tc\\`d\\\\e\\qf\\`"), "a\nb\tc`d\\e\\qf\\");
    assert_eq!(unquote_string("plain"), "plain");
    assert_eq!(unquote_string("`"), "`");
}

#[test]
fn runtime_values_render_as_their_debug_text() {
    let mut inner = ObjectMap::new();
    inner.insert("b".to_string(), RuntimeValue::Number("2".to_string()));
    inner.insert("a".to_string(), RuntimeValue::Boolean(true));
    let value = RuntimeValue::Array(vec![
        RuntimeValue::String("x\"y".to_string()),
        RuntimeValue::Object(inner),
        RuntimeValue::Enum("e".to_string()),
        RuntimeValue::Unknown("./p".to_string()),
    ]);
    assert_eq!(
        debug_text(&value),
        "Array([String(\"x\\\"y\"), Object({\"a\": Boolean(true), \"b\": Number(\"2\")}), Enum(\"e\"), Unknown(\"./p\")])"
    );
    assert_eq!(debug_text(&RuntimeValue::Object(ObjectMap::new())), "Object({})");
}

#[test]
fn object_map_keeps_one_value_per_key_in_key_order() {
    let mut map = ObjectMap::new();
    assert!(map.insert("b".to_string(), RuntimeValue::Boolean(false)).is_none());
    assert!(map.insert("a".to_string(), RuntimeValue::Boolean(true)).is_none());
    assert!(map.insert("b".to_string(), RuntimeValue::Boolean(true)).is_some());
    assert_eq!(map.len(), 2);
    assert_eq!(map.entry(0).0, "a");
    assert_eq!(map.entry(1).0, "b");
    assert!(matches!(map.get("b"), Some(RuntimeValue::Boolean(true))));
    assert!(map.get("c").is_none());
    assert_eq!(RuntimeValue::Boolean(false).as_string(), "false");
    assert_eq!(RuntimeValue::Array(Vec::new()).as_string(), "");
    assert!(RuntimeValue::Boolean(true).as_array().is_none());
}

#[test]
fn debug_text_does_not_depend_on_field_insertion_order() {
    let mut first = ObjectMap::new();
    first.insert("title".to_string(), RuntimeValue::String("T".to_string()));
    first.insert("order".to_string(), RuntimeValue::Number("1".to_string()));
    let mut second = ObjectMap::new();
    second.insert("order".to_string(), RuntimeValue::Number("1".to_string()));
    second.insert("title".to_string(), RuntimeValue::String("T".to_string()));
    let a = debug_text(&RuntimeValue::Object(first));
    let b = debug_text(&RuntimeValue::Object(second));
    assert_eq!(a, b);
    assert_eq!(a, "Object({\"order\": Number(\"1\"), \"title\": String(\"T\")})");
}
