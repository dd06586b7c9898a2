use repo_index::evidence::{label_from_row, pretty_evidence};
use repo_index::extract::ExtractedFile;
use repo_index::git::{parse_git_log, sorted_insert_string, GitCochange, GitFileStat, GitMetrics};
use repo_index::model::SymbolKind;
use repo_index::paths::{normalize_workspace_path, normalized_path, snippet_content};
use repo_index::persist::{
    cochange_rows, fallback_symbol_suffix, find_path_id, is_qualname_conflict, local_id, prepare_file_record,
    retry_qualname, stat_rows,
};
use repo_index::scanner::ScannedFile;
use repo_index::update::{
    classify_file, content_unchanged, stale_file_ids, tally_update, FileAction, IndexedFileState, UpdateOutcome, UpdateReport,
};

const LOG: &str = "COMMIT\u{1f}1700000300\u{1f}bob\nsrc/a.rs\nsrc/b.rs\n\nCOMMIT\u{1f}1700000200\u{1f}alice\nsrc/a.rs\n\nCOMMIT\u{1f}1700000100\u{1f}carol\nsrc/b.rs\nsrc\\c.rs\nsrc/a.rs\n";

fn stat<'a>(m: &'a GitMetrics, path: &str) -> &'a GitFileStat {
    m.file_stats.iter().find(|s| s.path == path).unwrap_or_else(|| panic!("no stats for {path}"))
}

fn pair(m: &GitMetrics, a: &str, b: &str) -> Option<i64> {
    m.cochanges.iter().find(|c| c.path_a == a && c.path_b == b).map(|c| c.cochange_count)
}

#[test]
fn git_log_counts_changes_per_path() {
    let m = parse_git_log(LOG);
    assert_eq!(m.file_stats.len(), 3);
    let a = stat(&m, "src/a.rs");
    assert_eq!(a.commit_count, 3);
    assert_eq!(a.last_modified, Some(1700000300));
    assert_eq!(a.last_author.as_deref(), Some("bob"));
    assert_eq!(a.authors, vec!["alice".to_string(), "bob".to_string(), "carol".to_string()]);
    let b = stat(&m, "src/b.rs");
    assert_eq!(b.commit_count, 2);
    assert_eq!(b.authors, vec!["bob".to_string(), "carol".to_string()]);
    let c = stat(&m, "src/c.rs");
    assert_eq!(c.commit_count, 1);
    assert_eq!(c.last_modified, Some(1700000100));
    assert_eq!(c.last_author.as_deref(), Some("carol"));
}

#[test]
fn git_log_counts_cochanges_per_ordered_pair() {
    let m = parse_git_log(LOG);
    assert_eq!(m.cochanges.len(), 3);
    assert_eq!(pair(&m, "src/a.rs", "src/b.rs"), Some(2));
    assert_eq!(pair(&m, "src/a.rs", "src/c.rs"), Some(1));
    assert_eq!(pair(&m, "src/b.rs", "src/c.rs"), Some(1));
    for c in &m.cochanges {
        assert!(c.path_a < c.path_b);
        assert!(c.cochange_count >= 1);
    }
}

#[test]
fn git_log_laws_hold_on_a_sample() {
    let m = parse_git_log(LOG);
    for s in &m.file_stats {
        assert!(s.commit_count >= 1);
        assert!(s.last_modified.is_some());
        assert!(s.authors.contains(s.last_author.as_ref().unwrap()));
    }
}

#[test]
fn git_log_ignores_paths_before_any_commit_and_bad_times() {
    let m = parse_git_log("orphan.rs\nCOMMIT\u{1f}soon\u{1f}dan\nsrc/x.rs\n");
    assert_eq!(m.file_stats.len(), 1);
    let x = stat(&m, "src/x.rs");
    assert_eq!(x.last_modified, Some(0));
    assert_eq!(x.last_author.as_deref(), Some("dan"));
    assert!(m.cochanges.is_empty());
    let empty = parse_git_log("");
    assert!(empty.file_stats.is_empty() && empty.cochanges.is_empty());
}

#[test]
fn sorted_insert_keeps_order_and_skips_repeats() {
    let mut v = Vec::new();
    for x in ["m", "a", "z", "m", "b"] {
        sorted_insert_string(&mut v, x.to_string());
    }
    assert_eq!(v, vec!["a", "b", "m", "z"]);
}

fn ids() -> Vec<(String, i64)> {
    vec![("src/a.rs".to_string(), 7), ("src/b.rs".to_string(), 3), ("src/c.rs".to_string(), 9)]
}

#[test]
fn cochange_rows_order_ids_and_skip_unknown_paths() {
    let pairs = vec![
        GitCochange { path_a: "src/a.rs".to_string(), path_b: "src/b.rs".to_string(), cochange_count: 4 },
        GitCochange { path_a: "src/a.rs".to_string(), path_b: "gone.rs".to_string(), cochange_count: 1 },
        GitCochange { path_a: "src/a.rs".to_string(), path_b: "src/c.rs".to_string(), cochange_count: 2 },
    ];
    assert_eq!(cochange_rows(&ids(), &pairs), vec![(3, 7, 4), (7, 9, 2)]);
    assert_eq!(find_path_id(&ids(), &"src/c.rs".to_string()), Some(9));
    assert_eq!(find_path_id(&ids(), &"nope".to_string()), None);
}

#[test]
fn stat_rows_carry_authors_as_json() {
    let stats = vec![
        GitFileStat {
            path: "src/b.rs".to_string(),
            commit_count: 2,
            last_modified: Some(10),
            last_author: Some("bob".to_string()),
            authors: vec!["bob".to_string(), "carol \"c\"".to_string()],
        },
        GitFileStat {
            path: "unknown.rs".to_string(),
            commit_count: 1,
            last_modified: None,
            last_author: None,
            authors: vec![],
        },
    ];
    let rows = stat_rows(&ids(), &stats);
    assert_eq!(rows.len(), 1);
    assert_eq!(rows[0].file_id, 3);
    assert_eq!(rows[0].commit_count, 2);
    assert_eq!(rows[0].last_author.as_deref(), Some("bob"));
    assert_eq!(rows[0].authors_json, "[\"bob\",\"carol \\\"c\\\"\"]");
}

#[test]
fn local_ids_map_through_stored_ids() {
    let stored = vec![11, 12, 13];
    assert_eq!(local_id(&stored, Some(1)), Some(12));
    assert_eq!(local_id(&stored, Some(3)), None);
    assert_eq!(local_id(&stored, None), None);
}

#[test]
fn clashing_qualnames_get_a_suffix() {
    let suffix = fallback_symbol_suffix("src/db/store.rs", 42, SymbolKind::Function);
    assert_eq!(suffix, "@src::db::store.rs::L42::Kfn::");
    assert_eq!(retry_qualname("a::b", &suffix, 2), "a::b@src::db::store.rs::L42::Kfn::2");
    assert!(is_qualname_conflict(true, &Some("UNIQUE constraint failed: symbols.qualname".to_string())));
    assert!(!is_qualname_conflict(true, &Some("UNIQUE constraint failed: files.path".to_string())));
    assert!(!is_qualname_conflict(false, &Some("symbols.qualname".to_string())));
    assert!(!is_qualname_conflict(true, &None));
}

#[test]
fn file_records_describe_the_source() {
    let file = ScannedFile {
        absolute_path: "/ws/src/lib.rs".to_string(),
        workspace_path: "src/lib.rs".to_string(),
        crate_name: Some("mini".to_string()),
        mod_path: Some("util".to_string()),
        is_generated: false,
    };
    let extracted = ExtractedFile {
        symbols: Vec::new(),
        chunks: Vec::new(),
        imports: Vec::new(),
        edges: Vec::new(),
        summary: "crate mini".to_string(),
    };
    let record = prepare_file_record(&file, "fn a() {}\nfn b() {}\n", 20, Some(5), 99, &extracted);
    assert_eq!(record.path, "src/lib.rs");
    assert_eq!(record.crate_name.as_deref(), Some("mini"));
    assert_eq!(record.mod_path.as_deref(), Some("util"));
    assert_eq!(record.line_count, 2);
    assert_eq!(record.symbol_count, 0);
    assert!(!record.has_tests);
    assert_eq!(record.size, 20);
    assert_eq!(record.mtime_ns, Some(5));
    assert_eq!(record.indexed_at, 99);
    assert_eq!(record.summary, "crate mini");
    assert_eq!(record.hash, blake3::hash(b"fn a() {}\nfn b() {}\n").to_hex().to_string());
    assert_eq!(record.hash.len(), 64);
    let other = prepare_file_record(&file, "fn a() {}\n", 20, Some(5), 99, &extracted);
    assert_ne!(record.hash, other.hash);
}

#[test]
fn workspace_paths_are_normalized() {
    assert_eq!(normalize_workspace_path("/ws", "/ws/src/lib.rs"), "src/lib.rs");
    assert_eq!(normalize_workspace_path("/ws", "src\\lib.rs"), "src/lib.rs");
    assert_eq!(normalize_workspace_path("/ws", "/other/lib.rs"), "/other/lib.rs");
    assert_eq!(normalized_path("/ws/a.rs", true, Some("a.rs".to_string())), "a.rs");
    assert_eq!(normalized_path("x\\y.rs", false, None), "x/y.rs");
}

#[test]
fn snippets_keep_the_requested_lines() {
    let text = "one\ntwo\nthree\nfour\n";
    assert_eq!(snippet_content(text, 2, 3).as_deref(), Some("two\nthree\n"));
    assert_eq!(snippet_content(text, 4, 10).as_deref(), Some("four\n"));
    assert_eq!(snippet_content(text, 9, 10).as_deref(), Some("\n"));
    assert_eq!(snippet_content(text, 0, 2), None);
    assert_eq!(snippet_content(text, 3, 2), None);
}

#[test]
fn evidence_is_made_readable() {
    assert_eq!(pretty_evidence("{\"callee\":\"helper\",\"line\":7,\"resolved\":true}".to_string()), "callee=helper, line=7");
    assert_eq!(pretty_evidence("{\"import\":\"std::fmt\"}".to_string()), "import=std::fmt");
    assert_eq!(pretty_evidence("{\"resolved\":false,\"target_hint\":\"parse\"}".to_string()), "target_hint=parse");
    assert_eq!(pretty_evidence("{\"resolved\":true,\"trait\":\"Shape\"}".to_string()), "trait=Shape");
    assert_eq!(pretty_evidence("{\"callee\":\"f\"}".to_string()), "{\"callee\":\"f\"}");
    assert_eq!(pretty_evidence("not json".to_string()), "not json");
}

#[test]
fn row_labels_fall_back_to_evidence() {
    assert_eq!(label_from_row(Some("a::b".to_string()), None), "a::b");
    assert_eq!(label_from_row(None, Some("{\"callee\":\"run\",\"line\":3}".to_string())), "run");
    assert_eq!(label_from_row(None, Some("{\"trait\":\"Shape\"}".to_string())), "Shape");
    assert_eq!(label_from_row(None, Some("[1,2]".to_string())), "unknown");
    assert_eq!(label_from_row(None, None), "unknown");
}

fn states() -> Vec<IndexedFileState> {
    vec![
        IndexedFileState { file_id: 1, path: "src/a.rs".to_string(), hash: "h1".to_string(), size: 10, mtime_ns: Some(100) },
        IndexedFileState { file_id: 2, path: "src/b.rs".to_string(), hash: "h2".to_string(), size: 20, mtime_ns: None },
    ]
}

#[test]
fn scanned_files_are_classified_against_the_index() {
    assert_eq!(classify_file(&states(), "src/new.rs", 1, Some(1)), FileAction::Add);
    assert_eq!(classify_file(&states(), "src/a.rs", 10, Some(100)), FileAction::Unchanged);
    assert_eq!(
        classify_file(&states(), "src/a.rs", 11, Some(100)),
        FileAction::Recheck { file_id: 1, hash: "h1".to_string() }
    );
    assert_eq!(
        classify_file(&states(), "src/b.rs", 20, Some(1)),
        FileAction::Recheck { file_id: 2, hash: "h2".to_string() }
    );
    assert!(content_unchanged(&"h1".to_string(), &"h1".to_string()));
    assert!(!content_unchanged(&"h1".to_string(), &"h2".to_string()));
}

#[test]
fn files_gone_from_the_workspace_are_stale() {
    assert_eq!(stale_file_ids(&states(), &vec!["src/b.rs".to_string()]), vec![1]);
    assert!(stale_file_ids(&states(), &vec!["src/a.rs".to_string(), "src/b.rs".to_string()]).is_empty());
}

#[test]
fn update_reports_count_outcomes() {
    let mut report = UpdateReport::empty();
    report.record(UpdateOutcome::Added);
    report.record(UpdateOutcome::Added);
    report.record(UpdateOutcome::Deleted);
    report.record(UpdateOutcome::Unchanged);
    report.record(UpdateOutcome::Skipped);
    assert_eq!(report, UpdateReport { added: 2, updated: 0, deleted: 1, unchanged: 1, skipped: 1 });
    let full = UpdateReport::from_full_build(5, 1);
    assert_eq!(full, UpdateReport { added: 5, updated: 0, deleted: 0, unchanged: 0, skipped: 1 });
}

#[test]
fn update_reports_count_each_file_once() {
    let outcomes = vec![
        UpdateOutcome::Added,
        UpdateOutcome::Unchanged,
        UpdateOutcome::Skipped,
        UpdateOutcome::Unchanged,
        UpdateOutcome::Updated,
    ];
    let report = tally_update(&vec![7, 9], &outcomes);
    assert_eq!(
        report,
        UpdateReport { added: 1, updated: 1, deleted: 2, unchanged: 2, skipped: 1 }
    );
    assert_eq!(report.added + report.updated + report.unchanged + report.skipped, outcomes.len());
    assert_eq!(tally_update(&Vec::new(), &Vec::new()), UpdateReport::empty());
}

#[test]
fn normalising_a_relative_path_twice_changes_nothing() {
    let once = normalize_workspace_path("/ws", "src\\db\\mod.rs");
    assert_eq!(once, "src/db/mod.rs");
    assert_eq!(normalize_workspace_path("/ws", &once), once);
}
