use rustman::cli::{
    accepts_install, join_non_flags, max_name_width, parse_args, select_index,
    update_table_widths, Action,
};
use rustman::database::{apply_denylist, is_stale, needs_rebuild, Crate, Database, LoadState};
use rustman::progress::Progress;
use rustman::reconcile::diff;
use rustman::store::{load_index, parse_denylist, parse_index, serialize_denylist, serialize_index};

fn rec(name: &str, version: &str, description: &str) -> Crate {
    Crate {
        name: name.to_string(),
        version: version.to_string(),
        description: description.to_string(),
    }
}

#[test]
fn search_finds_substring_in_name() {
    let db = Database {
        crates: vec![rec("abcfoo", "1.0.0", "tool one"), rec("bar", "2.0.0", "tool two")],
        blacklist: vec![],
    };
    let hits = db.search("foo");
    assert_eq!(hits.len(), 1);
    assert_eq!(hits[0].name, "abcfoo");
}

#[test]
fn search_is_case_insensitive() {
    let db = Database {
        crates: vec![rec("abcfoo", "1.0.0", "tool one"), rec("bar", "2.0.0", "tool two")],
        blacklist: vec![],
    };
    let hits = db.search("FOO");
    assert_eq!(hits.len(), 1);
    assert_eq!(hits[0].name, "abcfoo");
}

#[test]
fn search_matches_description_too() {
    let db = Database {
        crates: vec![rec("abcfoo", "1.0.0", "a linter"), rec("bar", "2.0.0", "an http client")],
        blacklist: vec![],
    };
    let hits = db.search("http");
    assert_eq!(hits.len(), 1);
    assert_eq!(hits[0].name, "bar");
    assert!(db.search("zzz").is_empty());
}

#[test]
fn search_preserves_storage_order() {
    let db = Database {
        crates: vec![rec("btool", "1", "x"), rec("atool", "1", "x"), rec("ctool", "1", "x")],
        blacklist: vec![],
    };
    let hits = db.search("tool");
    let names: Vec<&str> = hits.iter().map(|c| c.name.as_str()).collect();
    assert_eq!(names, vec!["btool", "atool", "ctool"]);
}

#[test]
fn search_tolerates_duplicate_names() {
    let db = Database {
        crates: vec![rec("dup", "1.0", "first copy"), rec("dup", "2.0", "second copy")],
        blacklist: vec![],
    };
    let hits = db.search("dup");
    assert_eq!(hits.len(), 2);
    assert_eq!(hits[0].version, "1.0");
    assert_eq!(hits[1].version, "2.0");
}

#[test]
fn denylist_removes_exactly_the_listed_names() {
    let records = vec![rec("a", "1", "x"), rec("b", "1", "y")];
    let kept = apply_denylist(records, &vec!["b".to_string()]);
    assert_eq!(kept.len(), 1);
    assert_eq!(kept[0].name, "a");
}

#[test]
fn diff_equal_versions_give_no_entry() {
    let installed = vec![("p".to_string(), "1.0.0".to_string())];
    let indexed = vec![("p".to_string(), "1.0.0".to_string(), "d".to_string())];
    assert!(diff(&installed, &indexed).is_empty());
}

#[test]
fn diff_reports_any_string_difference() {
    let installed = vec![("p".to_string(), "1.0.0".to_string())];
    let indexed = vec![("p".to_string(), "1.0.1".to_string(), "d".to_string())];
    let out = diff(&installed, &indexed);
    assert_eq!(
        out,
        vec![("p".to_string(), "1.0.0".to_string(), "1.0.1".to_string())]
    );
}

#[test]
fn diff_follows_installed_order() {
    let installed = vec![
        ("p".to_string(), "1".to_string()),
        ("q".to_string(), "1".to_string()),
        ("r".to_string(), "1".to_string()),
    ];
    let indexed_one = vec![
        ("r".to_string(), "2".to_string(), "".to_string()),
        ("p".to_string(), "2".to_string(), "".to_string()),
        ("q".to_string(), "1".to_string(), "".to_string()),
    ];
    let indexed_two = vec![
        ("p".to_string(), "2".to_string(), "".to_string()),
        ("q".to_string(), "1".to_string(), "".to_string()),
        ("r".to_string(), "2".to_string(), "".to_string()),
    ];
    let names_one: Vec<String> = diff(&installed, &indexed_one).into_iter().map(|t| t.0).collect();
    let names_two: Vec<String> = diff(&installed, &indexed_two).into_iter().map(|t| t.0).collect();
    assert_eq!(names_one, vec!["p".to_string(), "r".to_string()]);
    assert_eq!(names_one, names_two);
}

#[test]
fn diff_takes_first_entry_with_another_version() {
    let installed = vec![("p".to_string(), "1.0".to_string())];
    let indexed = vec![
        ("p".to_string(), "1.0".to_string(), "".to_string()),
        ("p".to_string(), "2.0".to_string(), "".to_string()),
    ];
    let out = diff(&installed, &indexed);
    assert_eq!(out, vec![("p".to_string(), "1.0".to_string(), "2.0".to_string())]);
}

#[test]
fn serialize_writes_the_canonical_block() {
    let text = serialize_index(&vec![rec("a", "1", "d")]);
    assert_eq!(text, "[[crates]]\nname = \"a\"\nversion = \"1\"\ndescription = \"d\"\n\n");
}

#[test]
fn index_round_trips() {
    let records = vec![
        rec("abcfoo", "1.0.0", "tool one"),
        rec("bar", "2.0.0", ""),
        rec("quoted", "0.1", "says \"hi\" # twice"),
    ];
    let text = serialize_index(&records);
    let back = parse_index(&text).expect("canonical text parses");
    assert_eq!(back.len(), records.len());
    for (b, r) in back.iter().zip(records.iter()) {
        assert_eq!(b.name, r.name);
        assert_eq!(b.version, r.version);
        assert_eq!(b.description, r.description);
    }
}

#[test]
fn index_round_trips_fields_with_newlines_and_backslashes() {
    let records = vec![
        rec("multi", "1.0", "line one\nline two"),
        rec("slashy", "2.0", "a \\ backslash and \\n literal"),
    ];
    let text = serialize_index(&records);
    let back = parse_index(&text).expect("escaped text parses");
    assert_eq!(back.len(), records.len());
    for (b, r) in back.iter().zip(records.iter()) {
        assert_eq!(b.name, r.name);
        assert_eq!(b.version, r.version);
        assert_eq!(b.description, r.description);
    }
}

#[test]
fn serializer_escapes_newlines_in_fields() {
    let text = serialize_index(&vec![rec("a", "1", "x\ny")]);
    assert_eq!(
        text,
        "[[crates]]\nname = \"a\"\nversion = \"1\"\ndescription = \"x\\ny\"\n\n"
    );
}

#[test]
fn malformed_index_is_rejected() {
    assert!(parse_index("garbage").is_none());
    assert!(parse_index("[[crates]]\nname = broken\n").is_none());
}

#[test]
fn empty_index_text_is_an_empty_index() {
    let parsed = parse_index("").expect("empty text is an empty index");
    assert!(parsed.is_empty());
}

#[test]
fn denylist_file_round_trips() {
    let names = vec!["a".to_string(), "b".to_string()];
    let text = serialize_denylist(&names);
    assert_eq!(text, "a\nb\n");
    assert_eq!(parse_denylist(&text), names);
}

#[test]
fn denylist_tolerates_crlf_line_endings() {
    assert_eq!(
        parse_denylist("a\r\nb\n"),
        vec!["a".to_string(), "b".to_string()]
    );
}

#[test]
fn staleness_is_strictly_older_than_the_threshold() {
    assert!(is_stale(2000, 0, 1999));
    assert!(!is_stale(2000, 0, 2000));
    assert!(!is_stale(2000, 1, 1999));
    // A modification time in the future counts as age zero.
    assert!(!is_stale(100, 200, 50));
}

#[test]
fn rebuild_exactly_on_absent_malformed_or_stale() {
    assert!(needs_rebuild(&LoadState::Absent, false));
    assert!(needs_rebuild(&LoadState::Absent, true));
    assert!(needs_rebuild(&LoadState::Malformed, false));
    assert!(needs_rebuild(&LoadState::Malformed, true));
    assert!(needs_rebuild(&LoadState::Loaded, true));
    assert!(!needs_rebuild(&LoadState::Loaded, false));
}

#[test]
fn load_index_classifies_the_file() {
    let (state, records) = load_index(None);
    assert!(matches!(state, LoadState::Absent));
    assert!(records.is_empty());

    let (state, records) = load_index(Some("not an index"));
    assert!(matches!(state, LoadState::Malformed));
    assert!(records.is_empty());

    let text = serialize_index(&vec![rec("a", "1", "d")]);
    let (state, records) = load_index(Some(&text));
    assert!(matches!(state, LoadState::Loaded));
    assert_eq!(records.len(), 1);
    assert_eq!(records[0].name, "a");
}

#[test]
fn add_to_denylist_appends() {
    let mut db = Database::empty();
    db.add_to_denylist("bad");
    assert_eq!(db.blacklist, vec!["bad".to_string()]);
}

#[test]
fn replace_all_is_the_whole_handoff() {
    let mut db = Database {
        crates: vec![rec("old", "1", "x")],
        blacklist: vec!["kept".to_string()],
    };
    db.replace_all(vec![rec("fresh", "2", "y")]);
    assert_eq!(db.crates.len(), 1);
    assert_eq!(db.crates[0].name, "fresh");
    assert_eq!(db.blacklist, vec!["kept".to_string()]);
}

#[test]
fn select_index_maps_the_reverse_numbering() {
    assert_eq!(select_index(5, 1), Ok(4));
    assert_eq!(select_index(5, 5), Ok(0));
    assert!(select_index(5, 6).is_err());
    assert!(select_index(5, 0).is_err());
}

#[test]
fn arguments_select_the_action() {
    assert!(matches!(parse_args(vec![]), Action::FullUpdate));
    match parse_args(vec!["-S".to_string(), "x".to_string()]) {
        Action::InstallPackage(p) => assert_eq!(p, vec!["x".to_string()]),
        _ => panic!("-S installs"),
    }
    match parse_args(vec!["-R".to_string(), "x".to_string()]) {
        Action::RemovePackage(p) => assert_eq!(p, vec!["x".to_string()]),
        _ => panic!("-R removes"),
    }
    assert!(matches!(parse_args(vec!["--list".to_string()]), Action::ShowInstalled));
    assert!(matches!(parse_args(vec!["--refresh".to_string()]), Action::RefreshIndex));
    match parse_args(vec!["serde".to_string()]) {
        Action::SearchByName(p) => assert_eq!(p, vec!["serde".to_string()]),
        _ => panic!("a bare term searches"),
    }
}

#[test]
fn join_skips_option_flags() {
    let joined = join_non_flags(&vec![
        "--force".to_string(),
        "a".to_string(),
        "b".to_string(),
    ]);
    assert_eq!(joined, "a b");
}

#[test]
fn install_confirmation_accepts_enter_and_y() {
    assert!(accepts_install(""));
    assert!(accepts_install("\n"));
    assert!(accepts_install("y\n"));
    assert!(accepts_install("Y"));
    assert!(!accepts_install("n"));
    assert!(!accepts_install("yes"));
}

#[test]
fn name_column_width_is_the_longest_name() {
    let pairs = vec![
        ("ab".to_string(), "1".to_string()),
        ("abcd".to_string(), "2".to_string()),
    ];
    assert_eq!(max_name_width(&pairs), 4);
    assert_eq!(max_name_width(&vec![]), 0);
}

#[test]
fn update_table_widths_fit_headings_and_entries() {
    let rows = vec![(
        "a-rather-long-name".to_string(),
        "1.0".to_string(),
        "2.0".to_string(),
    )];
    assert_eq!(update_table_widths(&rows), (18, 9, 9));
    assert_eq!(update_table_widths(&vec![]), (4, 9, 9));
}

#[test]
fn progress_bar_fills_one_column_per_step() {
    let mut p = Progress::new(4);
    assert_eq!(p.render(), Some("[    ]".to_string()));
    p.advance();
    p.advance();
    assert_eq!(p.render(), Some("[##  ]".to_string()));
    p.advance();
    p.advance();
    assert_eq!(p.render(), Some("[####]".to_string()));
    // More units reported than the bar was made for: nothing to draw.
    p.advance();
    assert_eq!(p.render(), None);
}

#[test]
fn progress_bar_caps_at_thirty_columns() {
    let p = Progress::new(300);
    let bar = p.render().expect("a fresh bar renders");
    assert_eq!(bar.len(), 32);
    let mut q = Progress::new(0);
    assert_eq!(q.render(), Some("[]".to_string()));
    q.advance();
    assert_eq!(q.render(), Some("[]".to_string()));
}
