use rustman::installed::{parse_installed, parse_search_output, parse_version_desc};
use rustman::registry::{
    classify_doc_page, doc_url, lookup_url, normalize_record, page_url, parse_page, parse_single,
    retries_exhausted,
};
use rustman::text::parse_usize;

#[test]
fn sentinel_version_is_dropped() {
    assert!(normalize_record("foo", "null", "x").is_none());
}

#[test]
fn normalization_lowercases_name_and_description() {
    let c = normalize_record("AbcFoo", "1.0.0", "A Tool").expect("a real version is kept");
    assert_eq!(c.name, "abcfoo");
    assert_eq!(c.version, "1.0.0");
    assert_eq!(c.description, "a tool");
}

#[test]
fn page_drops_sentinel_and_incomplete_records() {
    let page = r#"{"crates":[
        {"name":"foo","max_version":"null","description":"x"},
        {"name":"Bar","max_version":"1.2.3","description":"A Tool"},
        {"name":"nover","description":"missing version"}
    ]}"#;
    let records = parse_page(page).expect("valid JSON parses");
    assert_eq!(records.len(), 1);
    assert_eq!(records[0].name, "bar");
    assert_eq!(records[0].version, "1.2.3");
    assert_eq!(records[0].description, "a tool");
}

#[test]
fn a_page_that_is_not_json_is_rejected() {
    assert!(parse_page("<html>error</html>").is_none());
}

#[test]
fn single_lookup_reads_the_crate_member() {
    let body = r#"{"crate":{"name":"Foo","max_version":"0.3.1","description":"A Thing"}}"#;
    let (name, version, description) = parse_single(body).expect("a full response parses");
    assert_eq!(name, "Foo");
    assert_eq!(version, "0.3.1");
    assert_eq!(description, "A Thing");
}

#[test]
fn single_lookup_rejects_missing_fields() {
    assert!(parse_single(r#"{"crate":{"name":"foo"}}"#).is_none());
    assert!(parse_single(r#"{"error":"not found"}"#).is_none());
    assert!(parse_single("not json").is_none());
}

#[test]
fn classification_needs_the_marker_phrase() {
    assert!(classify_doc_page(&Some(
        "this crate is not a library".to_string()
    )));
    assert!(!classify_doc_page(&Some("ordinary docs page".to_string())));
}

#[test]
fn failed_fetch_classifies_as_not_binary() {
    assert!(!classify_doc_page(&None));
}

#[test]
fn request_urls_are_assembled_exactly() {
    assert_eq!(
        page_url(7),
        "https://crates.io/api/v1/crates?per_page=100&page=7"
    );
    assert_eq!(
        page_url(123),
        "https://crates.io/api/v1/crates?per_page=100&page=123"
    );
    assert_eq!(lookup_url("ripgrep"), "https://crates.io/api/v1/crates/ripgrep");
    assert_eq!(doc_url("ripgrep", "13.0.0"), "https://docs.rs/crate/ripgrep/13.0.0");
}

#[test]
fn retry_bound_is_ten_attempts() {
    assert!(!retries_exhausted(9));
    assert!(retries_exhausted(10));
}

#[test]
fn version_desc_cell_parses() {
    assert_eq!(
        parse_version_desc("\"1.0.0\"    # some desc"),
        Some(("1.0.0".to_string(), "some desc".to_string()))
    );
    assert_eq!(
        parse_version_desc(" \"2.1\""),
        Some(("2.1".to_string(), "".to_string()))
    );
    assert!(parse_version_desc("   ").is_none());
}

#[test]
fn search_output_parses_line_by_line() {
    let out = "ripgrep = \"13.0.0\"    # recursively searches directories\n\
               serde = \"1.0.1\"\n\
               ... and 900 crates more (use --limit N to see more)\n";
    let rows = parse_search_output(out);
    assert_eq!(
        rows,
        vec![
            (
                "ripgrep".to_string(),
                "13.0.0".to_string(),
                "recursively searches directories".to_string()
            ),
            ("serde".to_string(), "1.0.1".to_string(), "".to_string()),
        ]
    );
}

#[test]
fn installed_registry_yields_name_and_version() {
    let text = "[v1]\n\
        \"ripgrep 13.0.0 (registry+https://github.com/rust-lang/crates.io-index)\" = [\"rg\"]\n\
        \"cargo-edit 0.8.0 (registry+https://github.com/rust-lang/crates.io-index)\" = [\"cargo-add\"]\n";
    let entries = parse_installed(text).expect("a v1 table parses");
    assert_eq!(
        entries,
        vec![
            ("ripgrep".to_string(), "13.0.0".to_string()),
            ("cargo-edit".to_string(), "0.8.0".to_string()),
        ]
    );
}

#[test]
fn installed_registry_edge_shapes() {
    let empty = parse_installed("   \n").expect("a blank file holds no entries");
    assert!(empty.is_empty());
    assert!(parse_installed("[v2]\n").is_none());
    assert!(parse_installed("[v1]\nno quote here\n").is_none());
    let skipped = parse_installed("[v1]\n\"loneword\" = []\n").expect("short keys are skipped");
    assert!(skipped.is_empty());
}

#[test]
fn selection_numbers_parse_like_the_standard_reader() {
    assert_eq!(parse_usize(&vec!['4', '2']), Some(42));
    assert_eq!(parse_usize(&vec!['+', '7']), Some(7));
    assert_eq!(parse_usize(&vec!['0']), Some(0));
    assert_eq!(parse_usize(&vec!['4', 'x']), None);
    assert_eq!(parse_usize(&vec![]), None);
    assert_eq!(parse_usize(&vec!['+']), None);
    let huge: Vec<char> = "99999999999999999999999999".chars().collect();
    assert_eq!(parse_usize(&huge), None);
}
