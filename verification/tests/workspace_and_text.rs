use repo_index::cli::{
    dispatch, run, Action, BuildArgs, Cli, Command, IndexLocationArgs, QueryArgs, QueryCommand, QueryPlan,
};
use repo_index::model::{SymbolKind, SymbolRecord};
use repo_index::query::QueryOptions;
use repo_index::scanner::{
    build_explicit_target, classify_crate, infer_module_path, infer_namespace, is_generated_path,
    module_parts_to_path, package_to_crate_info, path_to_module, sanitize_ident, scan_file, should_index_path,
    sibling_module_dir, sort_by_workspace_path, CrateInfo, PackageInfo, ScanResult, TargetInfo,
};
use repo_index::summary::{summarize, summarize_file, summarize_symbol};
use repo_index::extract::trim_start_matches;
use repo_index::text::{collapse_whitespace, decimal_of, parse_i64, split_chars, trim_str, truncate_line};

fn parts(v: &[&str]) -> Vec<String> {
    v.iter().map(|s| s.to_string()).collect()
}

fn package() -> PackageInfo {
    PackageInfo {
        name: "my-pkg".to_string(),
        manifest_path: parts(&["/", "ws", "my-pkg", "Cargo.toml"]),
        targets: vec![
            TargetInfo {
                name: "my-pkg".to_string(),
                kind: parts(&["lib"]),
                src_path: parts(&["/", "ws", "my-pkg", "src", "lib.rs"]),
            },
            TargetInfo {
                name: "tool".to_string(),
                kind: parts(&["bin"]),
                src_path: parts(&["/", "ws", "my-pkg", "src", "bin", "tool.rs"]),
            },
            TargetInfo {
                name: "my-pkg".to_string(),
                kind: parts(&["bin"]),
                src_path: parts(&["/", "ws", "my-pkg", "src", "main.rs"]),
            },
        ],
    }
}

fn member() -> CrateInfo {
    package_to_crate_info(&package())
}

fn scanned(path: &[&str]) -> ScanResult {
    scan_file(&parts(&["/", "ws"]), &vec![member()], &parts(path), &path.join("/"))
}

#[test]
fn packages_become_crate_namespaces() {
    let c = member();
    assert_eq!(c.package_name, "my_pkg");
    assert_eq!(c.root_dir, parts(&["/", "ws", "my-pkg"]));
    assert_eq!(c.default_namespace, "my_pkg");
    assert_eq!(c.explicit_targets.len(), 2);
    assert_eq!(c.explicit_targets[0].namespace, "my_pkg__bin__tool");
    assert_eq!(c.explicit_targets[0].module_dir, Some(parts(&["/", "ws", "my-pkg", "src", "bin", "tool"])));
    assert_eq!(c.explicit_targets[1].namespace, "my_pkg__bin__my_pkg");
    assert_eq!(c.explicit_targets[1].module_dir, None);
}

#[test]
fn a_lone_main_binary_is_no_explicit_target() {
    let main = TargetInfo {
        name: "app".to_string(),
        kind: parts(&["bin"]),
        src_path: parts(&["/", "ws", "app", "src", "main.rs"]),
    };
    assert!(build_explicit_target(&main, "app", false).is_none());
    let t = build_explicit_target(&main, "app", true).unwrap();
    assert_eq!(t.namespace, "app__bin__app");
    let test = TargetInfo {
        name: "api-it".to_string(),
        kind: parts(&["test"]),
        src_path: parts(&["/", "ws", "app", "tests", "api_it.rs"]),
    };
    assert_eq!(build_explicit_target(&test, "app", false).unwrap().namespace, "app__test__api_it");
    let custom = TargetInfo { name: "b".to_string(), kind: parts(&["custom-build"]), src_path: parts(&["build.rs"]) };
    assert!(build_explicit_target(&custom, "app", false).is_none());
}

#[test]
fn files_are_scanned_with_crate_and_module() {
    match scanned(&["/", "ws", "my-pkg", "src", "util", "mod.rs"]) {
        ScanResult::File(f) => {
            assert_eq!(f.workspace_path, "my-pkg/src/util/mod.rs");
            assert_eq!(f.absolute_path, "//ws/my-pkg/src/util/mod.rs");
            assert_eq!(f.crate_name.as_deref(), Some("my_pkg"));
            assert_eq!(f.mod_path.as_deref(), Some("util"));
            assert!(!f.is_generated);
        }
        other => panic!("unexpected {other:?}"),
    }
    match scanned(&["/", "ws", "my-pkg", "src", "bin", "tool.rs"]) {
        ScanResult::File(f) => {
            assert_eq!(f.crate_name.as_deref(), Some("my_pkg__bin__tool"));
            assert_eq!(f.mod_path, None);
        }
        other => panic!("unexpected {other:?}"),
    }
    match scanned(&["/", "ws", "my-pkg", "src", "bin", "tool", "helpers.rs"]) {
        ScanResult::File(f) => {
            assert_eq!(f.crate_name.as_deref(), Some("my_pkg__bin__tool"));
            assert_eq!(f.mod_path.as_deref(), Some("helpers"));
        }
        other => panic!("unexpected {other:?}"),
    }
    match scanned(&["/", "ws", "my-pkg", "tests", "it.rs"]) {
        ScanResult::File(f) => {
            assert_eq!(f.crate_name.as_deref(), Some("my_pkg__tests"));
            assert_eq!(f.mod_path.as_deref(), Some("tests::it"));
        }
        other => panic!("unexpected {other:?}"),
    }
    match scanned(&["/", "ws", "loose", "gen.generated.rs"]) {
        ScanResult::File(f) => {
            assert_eq!(f.crate_name, None);
            assert_eq!(f.mod_path, None);
            assert!(f.is_generated);
        }
        other => panic!("unexpected {other:?}"),
    }
    assert!(matches!(scanned(&["/", "ws", "my-pkg", "README.md"]), ScanResult::Skip));
    assert!(matches!(scanned(&["/", "ws", "target", "debug", "x.rs"]), ScanResult::Skip));
    assert!(matches!(scanned(&["/", "elsewhere", "x.rs"]), ScanResult::OutsideWorkspace));
}

#[test]
fn the_deepest_member_claims_a_file() {
    let outer = member();
    let mut inner = member();
    inner.root_dir = parts(&["/", "ws", "my-pkg", "nested"]);
    inner.package_name = "nested".to_string();
    let members = vec![outer, inner];
    assert_eq!(classify_crate(&members, &parts(&["/", "ws", "my-pkg", "nested", "src", "a.rs"])), Some(1));
    assert_eq!(classify_crate(&members, &parts(&["/", "ws", "my-pkg", "src", "a.rs"])), Some(0));
    assert_eq!(classify_crate(&members, &parts(&["/", "other", "a.rs"])), None);
    let c = member();
    assert_eq!(infer_namespace(&c, &parts(&["/", "ws", "my-pkg", "examples", "demo.rs"])), "my_pkg__examples");
    assert_eq!(
        infer_module_path(&c, &parts(&["/", "ws", "my-pkg", "src", "a", "b.rs"])).as_deref(),
        Some("a::b")
    );
    assert_eq!(infer_module_path(&c, &parts(&["/", "ws", "my-pkg", "src", "lib.rs"])), None);
}

#[test]
fn paths_map_to_modules() {
    assert!(should_index_path(&parts(&["src", "lib.rs"])));
    assert!(!should_index_path(&parts(&["node_modules", "x.rs"])));
    assert!(!should_index_path(&parts(&["src", "lib.rs.txt"])));
    assert!(is_generated_path("bindings.rs"));
    assert!(is_generated_path("src/ffi/bindings.rs"));
    assert!(!is_generated_path("src/mybindings.rs.bak"));
    assert_eq!(sanitize_ident("my-crate-name"), "my_crate_name");
    assert_eq!(module_parts_to_path(parts(&["a", "b", "mod.rs"])).as_deref(), Some("a::b"));
    assert_eq!(module_parts_to_path(parts(&["main.rs"])), None);
    assert_eq!(module_parts_to_path(Vec::new()), None);
    assert_eq!(path_to_module(parts(&["x", "y.rs"])).as_deref(), Some("x::y"));
    assert_eq!(sibling_module_dir(&parts(&["src", "bin", "tool.rs"])), Some(parts(&["src", "bin", "tool"])));
    assert_eq!(sibling_module_dir(&parts(&["src", "lib.rs"])), None);
}

fn record(kind: SymbolKind, name: &str) -> SymbolRecord {
    SymbolRecord {
        id: None,
        file_id: None,
        parent_symbol_id: None,
        kind,
        name: name.to_string(),
        qualname: name.to_string(),
        signature: None,
        docs: None,
        start_line: 1,
        end_line: 1,
        is_async: false,
        is_test: false,
        visibility: None,
        return_type: None,
        summary: String::new(),
    }
}

#[test]
fn summaries_list_what_a_symbol_is() {
    let mut r = record(SymbolKind::Function, "load");
    r.is_async = true;
    r.return_type = Some("Result<Config>".to_string());
    r.signature = Some("pub async fn load(&self) -> Result<Config>".to_string());
    r.docs = Some("  Loads the config.\nMore text.".to_string());
    assert_eq!(summarize_symbol(&r), "fn load; async; returns Result; method-like; Loads the config.");
    let plain = record(SymbolKind::Struct, "Point");
    assert_eq!(summarize_symbol(&plain), "struct Point");
    assert_eq!(summarize(&parts(&[" a ", "", "b"])), "a; b");
}

#[test]
fn file_summaries_count_kinds_by_name() {
    let mut t = record(SymbolKind::Function, "t");
    t.is_test = true;
    let symbols = vec![
        record(SymbolKind::Function, "a"),
        record(SymbolKind::Struct, "S"),
        t,
        record(SymbolKind::Impl, "impl S"),
    ];
    assert_eq!(
        summarize_file(Some("mini"), Some("db"), &symbols),
        "crate mini; module db; contains 2 fn, 1 impl, 1 struct; contains tests; implements behavior blocks"
    );
    assert_eq!(summarize_file(None, None, &[]), "");
}

#[test]
fn text_helpers_follow_std() {
    assert_eq!(collapse_whitespace("  a \t b\n c  "), "a b c");
    assert_eq!(truncate_line("abcdef", 4), "abc...");
    assert_eq!(truncate_line("a  b", 4), "a b");
    assert_eq!(trim_str("  x y \n"), "x y");
    assert_eq!(decimal_of(-42), "-42");
    assert_eq!(decimal_of(i64::MIN), i64::MIN.to_string());
    assert_eq!(parse_i64(&"1700000000".chars().collect::<Vec<_>>()), Some(1700000000));
    assert_eq!(parse_i64(&"-7".chars().collect::<Vec<_>>()), Some(-7));
    assert_eq!(parse_i64(&"12a".chars().collect::<Vec<_>>()), None);
    assert_eq!(parse_i64(&"99999999999999999999".chars().collect::<Vec<_>>()), None);
}

fn location() -> IndexLocationArgs {
    IndexLocationArgs { path: "/ws".to_string(), db: None, json: true }
}

#[test]
fn commands_are_planned() {
    let args = QueryArgs {
        workspace: "/ws".to_string(),
        db: Some("/ws/index.db".to_string()),
        json: true,
        compact: true,
        expand: 1,
        command: QueryCommand::Symbol { query: "add".to_string() },
    };
    match dispatch(args) {
        QueryPlan::Symbol { workspace, db, query, json, options } => {
            assert_eq!(workspace, "/ws");
            assert_eq!(db.as_deref(), Some("/ws/index.db"));
            assert_eq!(query, "add");
            assert!(json);
            assert_eq!(options, QueryOptions::new(true, 1));
        }
        other => panic!("unexpected {other:?}"),
    }
    let snippet = QueryArgs {
        workspace: "/ws".to_string(),
        db: None,
        json: false,
        compact: false,
        expand: 0,
        command: QueryCommand::Snippet { path: "src/lib.rs".to_string(), start: 1, end: 3 },
    };
    assert!(matches!(
        dispatch(snippet),
        QueryPlan::Snippet { start: 1, end: 3, json: false, .. }
    ));
    match run(Cli { command: Command::Build(BuildArgs { location: location() }) }) {
        Action::Build(b) => assert_eq!(b.location.path, "/ws"),
        other => panic!("unexpected {other:?}"),
    }
}

#[test]
fn file_summaries_ignore_the_order_of_symbols() {
    let mut t = record(SymbolKind::Function, "t");
    t.is_test = true;
    let symbols = vec![
        record(SymbolKind::Function, "a"),
        record(SymbolKind::Struct, "S"),
        t.clone(),
        record(SymbolKind::Impl, "impl S"),
    ];
    let reordered = vec![
        record(SymbolKind::Impl, "impl S"),
        t,
        record(SymbolKind::Struct, "S"),
        record(SymbolKind::Function, "a"),
    ];
    assert_eq!(summarize_file(Some("mini"), Some("db"), &symbols), summarize_file(Some("mini"), Some("db"), &reordered));
}

#[test]
fn shortened_lines_stay_as_they_are() {
    for (value, limit) in [("abcdef ghi", 4), ("ab  cd ef", 4), ("  a \t b  ", 10), ("abc", 0), ("abcd", 1)] {
        let once = truncate_line(value, limit);
        assert_eq!(truncate_line(&once, limit), once);
        assert!(once.chars().count() <= (limit + 2).max(3));
    }
    assert_eq!(truncate_line("ab  cd ef", 4), "ab ...");
    assert_eq!(truncate_line("abc", 0), "...");
}

fn chars(s: &str) -> Vec<char> {
    s.chars().collect()
}

#[test]
fn splitting_and_trimming_follow_std_on_every_pattern() {
    for (text, sep) in [("a::b::", "::"), ("rust", ""), ("", ""), ("x", ",")] {
        let ours: Vec<String> = split_chars(&chars(text), &chars(sep)).iter().map(|p| p.iter().collect()).collect();
        let std: Vec<String> = text.split(sep).map(String::from).collect();
        assert_eq!(ours, std);
    }
    for (text, pat) in [("::::a::b", "::"), ("abc", ""), ("", "x")] {
        let ours: String = trim_start_matches(&chars(text), &chars(pat)).iter().collect();
        assert_eq!(ours, text.trim_start_matches(pat));
    }
}

#[test]
fn scanned_files_come_in_path_order() {
    let file = |p: &str| repo_index::scanner::ScannedFile {
        absolute_path: format!("/ws/{p}"),
        workspace_path: p.to_string(),
        crate_name: None,
        mod_path: None,
        is_generated: false,
    };
    let sorted = sort_by_workspace_path(vec![file("src/b.rs"), file("src/a/z.rs"), file("build.rs"), file("src/a.rs")]);
    let paths: Vec<&str> = sorted.iter().map(|f| f.workspace_path.as_str()).collect();
    let mut expected = vec!["src/b.rs", "src/a/z.rs", "build.rs", "src/a.rs"];
    expected.sort();
    assert_eq!(paths, expected);
    assert!(sort_by_workspace_path(Vec::new()).is_empty());
}
