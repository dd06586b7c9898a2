use repo_index::derived::{
    detect_entrypoints, file_stem, is_http_handler, is_test_path, is_test_symbol, join_reasons, lookup_cochange,
    normalize_module_family, normalize_name, same_module_family, CochangePair, EntrypointSource, FileImport,
    FileInfo, SymbolInfo,
};
use repo_index::test_mapping::{build_file_test_edges, build_symbol_test_edges, TestEdge};

fn files() -> Vec<FileInfo> {
    vec![
        FileInfo {
            id: 1,
            path: "src/parser.rs".to_string(),
            crate_name: Some("mini".to_string()),
            mod_path: Some("parser".to_string()),
        },
        FileInfo {
            id: 2,
            path: "tests/parser_test.rs".to_string(),
            crate_name: Some("mini__tests".to_string()),
            mod_path: Some("tests::parser_test".to_string()),
        },
    ]
}

fn symbols() -> Vec<SymbolInfo> {
    vec![
        SymbolInfo {
            id: 10,
            file_id: 1,
            name: "parse_header".to_string(),
            qualname: "mini::parser::parse_header".to_string(),
            kind: "fn".to_string(),
            is_test: false,
        },
        SymbolInfo {
            id: 11,
            file_id: 1,
            name: "Header".to_string(),
            qualname: "mini::parser::Header".to_string(),
            kind: "struct".to_string(),
            is_test: false,
        },
        SymbolInfo {
            id: 20,
            file_id: 2,
            name: "test_parse_header".to_string(),
            qualname: "mini__tests::parser_test::test_parse_header".to_string(),
            kind: "fn".to_string(),
            is_test: false,
        },
    ]
}

fn imports() -> Vec<FileImport> {
    vec![FileImport { file_id: 2, import_path: "mini::parser::parse_header".to_string() }]
}

fn cochange() -> Vec<CochangePair> {
    vec![CochangePair { file_a: 1, file_b: 2, count: 3 }]
}

fn edge(edges: &[TestEdge], subject: i64, test: i64) -> &TestEdge {
    edges
        .iter()
        .find(|e| e.subject_id == subject && e.test_id == test)
        .unwrap_or_else(|| panic!("no edge {subject} -> {test}"))
}

#[test]
fn symbol_test_edges_add_up_their_evidence() {
    let edges = build_symbol_test_edges(&files(), &symbols(), &imports(), &cochange());
    assert_eq!(edges.len(), 2);
    let direct = edge(&edges, 10, 20);
    // 48 + 26 + 18 + 7.5 points, counted in halves.
    assert_eq!(direct.score, 199);
    assert_eq!(
        direct.reasons,
        vec![
            "test name mentions parse_header".to_string(),
            "test imports parse_header".to_string(),
            "import path references parse_header".to_string(),
            "cochanged 3 times".to_string(),
        ]
    );
    let weak = edge(&edges, 11, 20);
    assert_eq!(weak.score, 111);
    assert_eq!(weak.reasons, vec!["test name mentions Header".to_string(), "cochanged 3 times".to_string()]);
}

#[test]
fn symbol_test_edges_keep_only_strong_links_to_tests() {
    let edges = build_symbol_test_edges(&files(), &symbols(), &imports(), &cochange());
    for e in &edges {
        assert!(e.score >= 48);
        assert_eq!(e.test_id, 20);
    }
    let mut keys: Vec<(i64, i64)> = edges.iter().map(|e| (e.subject_id, e.test_id)).collect();
    keys.sort();
    keys.dedup();
    assert_eq!(keys.len(), edges.len());
    let none = build_symbol_test_edges(&files(), &symbols()[..2].to_vec(), &imports(), &cochange());
    assert!(none.is_empty());
}

#[test]
fn file_test_edges_combine_symbol_and_file_evidence() {
    let symbol_edges = build_symbol_test_edges(&files(), &symbols(), &imports(), &cochange());
    let edges = build_file_test_edges(&files(), &symbols(), &imports(), &cochange(), &symbol_edges);
    assert_eq!(edges.len(), 1);
    let e = edge(&edges, 1, 2);
    // 199 + 111 from symbols, then 36 for the import and 12 for co-changes.
    assert_eq!(e.score, 358);
    assert!(e.reasons.contains(&"test imports src/parser.rs".to_string()));
    assert_eq!(e.reasons.last().map(String::as_str), Some("cochanged 3 times"));
    for e in &edges {
        assert!(e.score >= 40);
    }
}

#[test]
fn test_symbols_are_recognized_by_flag_name_or_file() {
    let fs = files();
    let mut s = symbols()[0].clone();
    assert!(!is_test_symbol(&s, &fs));
    s.is_test = true;
    assert!(is_test_symbol(&s, &fs));
    let mut named = symbols()[0].clone();
    named.name = "should_fail".to_string();
    assert!(is_test_symbol(&named, &fs));
    let mut in_test_file = symbols()[0].clone();
    in_test_file.file_id = 2;
    assert!(is_test_symbol(&in_test_file, &fs));
    in_test_file.kind = "struct".to_string();
    assert!(!is_test_symbol(&in_test_file, &fs));
}

#[test]
fn test_paths_are_recognized() {
    assert!(is_test_path("crates/x/tests/api.rs"));
    assert!(is_test_path("src/Tests.rs"));
    assert!(is_test_path("src/test_utils.rs"));
    assert!(is_test_path("src/parser_test.rs"));
    assert!(!is_test_path("src/parser.rs"));
}

#[test]
fn names_and_module_families_are_normalized() {
    assert_eq!(normalize_name("Parse-Header_2!"), "parseheader_2");
    assert_eq!(normalize_module_family("tests::parser::spec"), "parser");
    assert!(same_module_family(&Some("parser::tests".to_string()), &Some("parser".to_string())));
    assert!(!same_module_family(&Some("parser".to_string()), &None));
    assert_eq!(file_stem("src/db/store.rs"), "store");
    assert_eq!(file_stem("lib.rs"), "lib");
}

#[test]
fn cochange_lookup_is_symmetric_and_skips_self_pairs() {
    let rows = vec![CochangePair { file_a: 2, file_b: 5, count: 4 }];
    assert_eq!(lookup_cochange(&rows, 2, 5), Some(4));
    assert_eq!(lookup_cochange(&rows, 5, 2), Some(4));
    assert_eq!(lookup_cochange(&rows, 2, 2), None);
    assert_eq!(lookup_cochange(&rows, 1, 5), None);
}

#[test]
fn reasons_are_joined_once_each_up_to_four() {
    let rs: Vec<String> = ["a", "b", "a", "c", "d", "e"].iter().map(|s| s.to_string()).collect();
    assert_eq!(join_reasons(&rs), "a; b; c; d");
    assert_eq!(join_reasons(&Vec::new()), "");
}

#[test]
fn http_handlers_are_recognized() {
    assert!(is_http_handler(&"#[get(\"/\")] async fn index()".chars().collect::<Vec<_>>()));
    assert!(is_http_handler(&"fn h(q: query<params>)".chars().collect::<Vec<_>>()));
    assert!(!is_http_handler(&"fn plain()".chars().collect::<Vec<_>>()));
}

#[test]
fn entrypoints_come_from_roots_imports_and_functions() {
    let fs = vec![
        FileInfo { id: 1, path: "src/main.rs".to_string(), crate_name: None, mod_path: None },
        FileInfo { id: 2, path: "crates/core/src/lib.rs".to_string(), crate_name: None, mod_path: None },
    ];
    let imps = vec![FileImport { file_id: 1, import_path: "clap::Parser".to_string() }];
    let fns = vec![
        EntrypointSource {
            symbol_id: 7,
            file_id: 1,
            name: "main".to_string(),
            qualname: "app::main".to_string(),
            signature: "fn main()".to_string(),
            content: "fn main() { let cli = Cli::parse(); tokio::spawn(async {}); }".to_string(),
        },
        EntrypointSource {
            symbol_id: 8,
            file_id: 9,
            name: "main".to_string(),
            qualname: "gone::main".to_string(),
            signature: String::new(),
            content: String::new(),
        },
    ];
    let rows = detect_entrypoints(&fs, &imps, &fns);
    let summary: Vec<(String, Option<i64>, i64, i64)> =
        rows.iter().map(|r| (r.kind.clone(), r.symbol_id, r.file_id, r.score)).collect();
    assert_eq!(
        summary,
        vec![
            ("main".to_string(), None, 1, 80),
            ("cli".to_string(), None, 1, 36),
            ("main".to_string(), None, 2, 42),
            ("main".to_string(), Some(7), 1, 96),
            ("task".to_string(), Some(7), 1, 54),
            ("cli".to_string(), Some(7), 1, 52),
        ]
    );
    assert_eq!(rows[3].reason, "main function entrypoint");
    assert_eq!(rows[5].reason, "CLI entry via clap parsing");
}
