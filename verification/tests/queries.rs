use repo_index::candidates::{
    anchor_ids, anchor_modules, best_anchor_strength, edge_reason, file_identity, last_edge_reason, merge_facts,
    subsequence_matched, symbol_identity, test_key, text_match, CandidateFacts,
};
use repo_index::compactor::{compact_items, file_budget, suggest_budget, symbol_budget, trim_reasons};
use repo_index::model::{NeighborItem, NeighborResult, OutlineResult, QueryBudget};
use repo_index::enrich::{graph_counts, CountReading};
use repo_index::query::{
    compact_hint, explain_tops,
    anchor_strength, compact_neighbors, compact_outline, compose_explain, dedup_items, dedup_reasons, dedup_why,
    flatten_neighbors, full_explain_parts, item, make_fts_query, module_hints_from_query, module_key,
    normalize_text, short_label, suggest_hint, symbol_line, symbol_search_hint, wants_fixture, wants_test,
    CandidateType,
};
use repo_index::ranking::{fixed_score, rank_reasons, RankSignals};
use repo_index::results::{FileHit, SuggestHit, SymbolHit};

fn strings(v: &[&str]) -> Vec<String> {
    v.iter().map(|s| s.to_string()).collect()
}

fn neighbor(label: &str, kind: &str, why: &[&str]) -> NeighborItem {
    NeighborItem { label: label.to_string(), kind: kind.to_string(), detail: None, why: strings(why) }
}

#[test]
fn budgets_grow_with_expansion() {
    let (a, b, c) = (symbol_budget(0), symbol_budget(1), symbol_budget(2));
    assert_eq!((a.max_items, a.max_total_chars, a.max_reasons_per_item), (3, 720, 2));
    assert_eq!((b.max_items, b.max_total_chars, b.max_reasons_per_item), (5, 1300, 3));
    assert_eq!((c.max_items, c.max_total_chars, c.max_reasons_per_item), (8, 2000, 4));
    let f = file_budget(7);
    assert_eq!((f.max_items, f.max_total_chars, f.max_reasons_per_item), (7, 1500, 4));
    let s = suggest_budget(2, 3, 5);
    assert_eq!((s.max_items, s.max_total_chars, s.max_reasons_per_item), (7, 1400, 4));
    for e in 0..3u8 {
        assert!(symbol_budget(e).max_items <= symbol_budget(e + 1).max_items);
        assert!(file_budget(e).max_total_chars <= file_budget(e + 1).max_total_chars);
        assert!(suggest_budget(e, 3, 5).max_items <= suggest_budget(e + 1, 3, 5).max_items);
    }
}

#[test]
fn reasons_are_trimmed_and_deduplicated() {
    let long = "x".repeat(120);
    let rs = vec!["exact".to_string(), "exact".to_string(), long.clone(), "third".to_string()];
    let trimmed = trim_reasons(&rs, 2);
    assert_eq!(trimmed.len(), 2);
    assert_eq!(trimmed[0], "exact");
    assert_eq!(trimmed[1].chars().count(), 98);
    assert!(trimmed[1].ends_with("..."));
    assert_eq!(trim_reasons(&rs, 0), vec!["exact".to_string()]);
}

#[test]
fn top_hit_alone_is_kept_when_one_is_wanted() {
    let raw = vec![
        neighbor("best", "fn", &["exact", "duplicate", "duplicate"]),
        neighbor("second", "fn", &["fuzzy"]),
    ];
    let budget = QueryBudget { max_items: 3, max_total_chars: 200, max_reasons_per_item: 1 };
    let (items, exhaustive) = compact_items(raw, &budget, 1);
    assert_eq!(items.len(), 1);
    assert_eq!(items[0].label, "best");
    assert!(items[0].why.len() <= 1);
    assert!(!exhaustive);
}

#[test]
fn ambiguous_results_are_capped_by_the_budget() {
    let raw = vec![neighbor("a", "fn", &["r"]), neighbor("b", "fn", &["r"]), neighbor("c", "fn", &["r"]), neighbor("d", "fn", &["r"])];
    let budget = QueryBudget { max_items: 3, max_total_chars: 500, max_reasons_per_item: 2 };
    let (items, exhaustive) = compact_items(raw, &budget, 10);
    assert_eq!(items.len(), 3);
    assert!(!exhaustive);
}

#[test]
fn compaction_drops_repeated_keys_and_respects_the_size_budget() {
    let raw = vec![
        neighbor("a", "fn", &["one"]),
        neighbor("a", "fn", &["again"]),
        neighbor("b", "fn", &["two"]),
        neighbor("c", "fn", &["three"]),
    ];
    let budget = QueryBudget { max_items: 10, max_total_chars: 70, max_reasons_per_item: 2 };
    let (items, exhaustive) = compact_items(raw, &budget, 10);
    let labels: Vec<&str> = items.iter().map(|i| i.label.as_str()).collect();
    assert_eq!(labels, vec!["a", "b"]);
    assert!(!exhaustive);
    let budget = QueryBudget { max_items: 10, max_total_chars: 1000, max_reasons_per_item: 2 };
    let (all, exhaustive) = compact_items(vec![neighbor("z", "fn", &["r"])], &budget, 10);
    assert_eq!(all.len(), 1);
    assert!(exhaustive);
}

#[test]
fn neighbor_lists_are_cut_to_the_expansion_level() {
    let many: Vec<NeighborItem> = (0..8).map(|i| neighbor(&format!("m{i}"), "fn", &["r"])).collect();
    let mut result = NeighborResult {
        qualname: "a::b".to_string(),
        file_path: "src/a.rs".to_string(),
        parent_symbol: None,
        methods: many.clone(),
        impl_relations: Vec::new(),
        likely_callees: Vec::new(),
        related_tests: vec![neighbor("t", "test", &["r"])],
        cochanged_files: Vec::new(),
        entrypoints: Vec::new(),
        why: Vec::new(),
    };
    let (exhaustive, hint) = compact_neighbors(&mut result, 0);
    assert_eq!(result.methods.len(), 3);
    assert!(!exhaustive);
    assert!(hint.is_some());
    let flat = flatten_neighbors(&result);
    assert_eq!(flat.len(), 1);
    assert_eq!(flat[0].label, "t");
    let mut small = result.clone();
    let (exhaustive, hint) = compact_neighbors(&mut small, 2);
    assert!(exhaustive);
    assert!(hint.is_none());
}

#[test]
fn outlines_are_cut_to_the_expansion_level() {
    let mut outline = OutlineResult {
        path: "src/a.rs".to_string(),
        imports: strings(&["a", "b", "c", "d", "e"]),
        top_level_symbols: strings(&["fn x [1-2]"]),
        impl_blocks: Vec::new(),
        test_functions: Vec::new(),
        summary: "module a".to_string(),
        why: Vec::new(),
    };
    let (exhaustive, hint) = compact_outline(&mut outline, 0);
    assert_eq!(outline.imports.len(), 4);
    assert!(!exhaustive);
    assert!(hint.is_some());
    assert_eq!(symbol_line("fn", "add", 1, 3), "fn add [1-3]");
}

#[test]
fn items_and_reasons_are_deduplicated() {
    let items = vec![neighbor("a", "fn", &[]), neighbor("a", "fn", &["x"]), neighbor("a", "test", &[])];
    let kept = dedup_items(items);
    assert_eq!(kept.len(), 2);
    assert_eq!(kept[1].kind, "test");
    let mut why = strings(&["a", "b", "a"]);
    dedup_why(&mut why);
    assert_eq!(why, strings(&["a", "b"]));
    assert_eq!(dedup_reasons(strings(&[" ", "x", "x"]), "fallback"), strings(&["x"]));
    assert_eq!(dedup_reasons(strings(&["  "]), "fallback"), strings(&["fallback"]));
    let built = item("l".to_string(), "k".to_string(), Some("d".to_string()), "w".to_string());
    assert_eq!(built.why, strings(&["w"]));
}

#[test]
fn full_text_queries_use_prefix_terms() {
    assert_eq!(make_fts_query("parse header!", false).as_deref(), Some("parse* OR header*"));
    assert_eq!(make_fts_query("src/db.rs", true).as_deref(), Some("src/db* OR rs*"));
    assert_eq!(make_fts_query("src/db.rs", false).as_deref(), Some("src* OR db* OR rs*"));
    assert_eq!(make_fts_query("-- !", false), None);
}

#[test]
fn module_hints_and_keys_come_from_paths_and_names() {
    assert_eq!(module_hints_from_query("crate::db::open"), strings(&["crate::db"]));
    assert_eq!(module_hints_from_query("src/db/store.rs"), strings(&["src::db"]));
    assert!(module_hints_from_query("open").is_empty());
    assert_eq!(module_key(&Some("db".to_string()), &None, "src/db.rs").as_deref(), Some("db"));
    assert_eq!(module_key(&None, &Some("a::b::c".to_string()), "x.rs").as_deref(), Some("a::b"));
    assert_eq!(module_key(&None, &None, "src/db/store.rs").as_deref(), Some("src::db"));
    assert_eq!(module_key(&None, &None, "store.rs"), None);
}

#[test]
fn query_intent_and_text_normalization() {
    assert!(wants_test("Integration flow"));
    assert!(!wants_test("parse header"));
    assert!(wants_fixture("snapshot data"));
    assert_eq!(normalize_text("Crate::Foo-Bar/baz.rs"), "crate::foobar/bazrs");
    assert_eq!(short_label("a::b::c"), "c");
    assert_eq!(anchor_strength(true, false, true, true, false, true), 10);
}

#[test]
fn hints_guide_the_next_query() {
    assert_eq!(suggest_hint(true, true), None);
    assert_eq!(suggest_hint(false, true).as_deref(), Some("expand to related tests"));
    assert_eq!(suggest_hint(false, false).as_deref(), Some("expand to neighbors or file search"));
    assert_eq!(symbol_search_hint(true), "read top symbol snippet or expand to neighbors");
    assert_eq!(symbol_search_hint(false), "expand symbol search");
}

#[test]
fn compact_explanations_name_their_next_steps() {
    let outline = OutlineResult {
        path: "src/a.rs".to_string(),
        imports: Vec::new(),
        top_level_symbols: strings(&["fn add [1-3]", "fn sub [5-7]"]),
        impl_blocks: Vec::new(),
        test_functions: strings(&["t1"]),
        summary: "module a".to_string(),
        why: Vec::new(),
    };
    let neighbors = vec![neighbor("a::t", "test", &["r"])];
    let draft = compose_explain("add flow", 0, 1, true, Some("a::add"), 1, true, Some("src/a.rs"), Some(&outline), neighbors);
    assert_eq!(draft.outline_summary, "module a | top-level: fn add [1-3], fn sub [5-7] | tests: 1");
    assert_eq!(
        draft.next_steps,
        strings(&["read top symbol snippet: a::add", "outline src/a.rs", "expand to related tests"])
    );
    assert!(draft.is_exhaustive);
    assert_eq!(draft.expansion_hint, None);

    let empty = compose_explain("nothing", 0, 0, true, None, 0, true, None, None, Vec::new());
    assert_eq!(empty.outline_summary, "No matching file outline available");
    assert_eq!(empty.next_steps, strings(&["refine the query with a symbol or module name"]));

    let many: Vec<NeighborItem> = (0..6).map(|i| neighbor(&format!("n{i}"), "fn", &[])).collect();
    let cut = compose_explain("add", 0, 1, true, Some("a::add"), 1, true, None, None, many);
    assert_eq!(cut.neighbors.len(), 4);
    assert!(!cut.is_exhaustive);
    assert_eq!(cut.expansion_hint.as_deref(), Some("read top symbol snippet or expand to neighbors"));
}

#[test]
fn full_explanations_show_four_top_level_symbols() {
    let outline = OutlineResult {
        path: "src/a.rs".to_string(),
        imports: Vec::new(),
        top_level_symbols: strings(&["a", "b", "c", "d", "e"]),
        impl_blocks: Vec::new(),
        test_functions: Vec::new(),
        summary: "s".to_string(),
        why: Vec::new(),
    };
    let (summary, steps) = full_explain_parts(Some("x::y"), None, Some(&outline), &vec![neighbor("t", "test", &[])]);
    assert_eq!(summary, "s | top-level: a, b, c, d | tests: 0");
    assert_eq!(steps, strings(&["read x::y", "check related tests"]));
}

#[test]
fn candidates_match_queries_textually() {
    let m = text_match("Parse_Header", "parse_header", "src/parser.rs", &Some("mini::parser::parse_header".to_string()), false);
    assert!(m.exact_name);
    assert!(!m.exact_qualname);
    assert!(!m.exact_path);
    assert!(m.prefix);
    assert!(m.substring);
    assert!(!m.low_signal);
    assert!(!m.is_test);
    let by_file = text_match("parser.rs", "x", "src/parser.rs", &None, false);
    assert!(by_file.exact_name);
    let fixture = text_match("", "x", "crate/tests/fixtures/a.rs", &None, false);
    assert!(!fixture.exact_name && !fixture.prefix && !fixture.substring);
    assert!(fixture.low_signal);
    assert!(fixture.is_test);
    assert_eq!(subsequence_matched("abc", "xaxbxc"), 3);
    assert_eq!(subsequence_matched("abc", "cba"), 1);
    assert_eq!(subsequence_matched("", "abc"), 0);
}

#[test]
fn anchors_are_the_strongest_candidates() {
    assert_eq!(best_anchor_strength(&vec![1, 4, 2]), 4);
    assert_eq!(best_anchor_strength(&Vec::new()), 0);
    let cands = vec![(4, Some("db".to_string())), (2, Some("cli".to_string())), (4, None), (4, Some("db".to_string()))];
    assert_eq!(anchor_modules("crate::api::open", &cands), strings(&["crate::api", "db"]));
    let ids = vec![(3, Some(7)), (3, Some(7)), (1, Some(9)), (3, Some(5))];
    assert_eq!(anchor_ids(&ids), vec![7, 5]);
    assert!(anchor_ids(&vec![(0, Some(1))]).is_empty());
}

#[test]
fn edges_explain_relations() {
    let s = Some("a::b::caller".to_string());
    let t = Some("a::b::callee".to_string());
    assert_eq!(edge_reason(&"calls".to_string(), &s, &t).as_deref(), Some("called by caller"));
    assert_eq!(edge_reason(&"calls".to_string(), &None, &t).as_deref(), Some("calls callee"));
    assert_eq!(edge_reason(&"implements".to_string(), &s, &t).as_deref(), Some("implements callee"));
    assert_eq!(edge_reason(&"tests".to_string(), &s, &t).as_deref(), Some("covered by caller"));
    assert_eq!(edge_reason(&"contains".to_string(), &None, &None), None);
    let rows = vec![
        ("calls".to_string(), s.clone(), None),
        ("contains".to_string(), None, None),
    ];
    assert_eq!(last_edge_reason(&rows).as_deref(), Some("called by caller"));
}

#[test]
fn test_keys_and_candidate_identities() {
    assert_eq!(test_key(&Some("a::t".to_string()), "tests/a.rs"), "symbol:a::t");
    assert_eq!(test_key(&None, "tests/a.rs"), "file:tests/a.rs");
    let (key, name, kind) = file_identity("tests/parser_test.rs");
    assert_eq!(key, "file:tests/parser_test.rs");
    assert_eq!(name, "parser_test.rs");
    assert_eq!(kind, CandidateType::Test);
    assert_eq!(file_identity("src/lib.rs").2, CandidateType::File);
    assert_eq!(symbol_identity("a::b", false), ("symbol:a::b".to_string(), CandidateType::Symbol));
    assert_eq!(symbol_identity("a::t", true).1, CandidateType::Test);
}

fn facts(summary: &str, reasons: &[&str]) -> CandidateFacts {
    CandidateFacts {
        exact_name: false,
        exact_qualname: false,
        exact_path: false,
        prefix: false,
        substring: false,
        low_signal: false,
        is_test: false,
        summary: summary.to_string(),
        signature: None,
        line_range: None,
        symbol_count: None,
        reasons: strings(reasons),
    }
}

#[test]
fn merged_candidates_keep_every_signal_and_reason_once() {
    let mut a = facts("", &["fts", "name"]);
    let mut b = facts("from b", &["name", "graph", "graph"]);
    b.prefix = true;
    b.signature = Some("fn f()".to_string());
    b.line_range = Some((3, 9));
    a.symbol_count = Some(2);
    b.symbol_count = Some(5);
    merge_facts(&mut a, &b);
    assert!(a.prefix);
    assert!(!a.exact_name);
    assert_eq!(a.summary, "from b");
    assert_eq!(a.signature.as_deref(), Some("fn f()"));
    assert_eq!(a.line_range, Some((3, 9)));
    assert_eq!(a.symbol_count, Some(2));
    assert_eq!(a.reasons, strings(&["fts", "name", "graph"]));
}

fn signals(t: CandidateType) -> RankSignals {
    RankSignals {
        candidate_type: t,
        exact_name: false,
        exact_qualname: false,
        exact_path: false,
        prefix: false,
        substring: false,
        fuzzy_strong: false,
        has_fts: false,
        chunk_fts_leads: false,
        same_module: false,
        edge_hits: 0,
        edge_reason: None,
        cochange_count: 0,
        git_hotness: 0,
        test_mapping_count: 0,
        test_reason: None,
        entrypoint_hits: 0,
        entrypoint_reason: None,
        low_signal: false,
        is_test: false,
        reasons: Vec::new(),
    }
}

#[test]
fn ranking_counts_whole_points() {
    let mut s = signals(CandidateType::Symbol);
    s.exact_name = true;
    s.prefix = true;
    s.edge_hits = 9;
    s.test_mapping_count = 2;
    assert_eq!(fixed_score("parse", &s), 1000 + 120 + 36 + 16 + 6);
    let mut t = signals(CandidateType::Test);
    t.is_test = true;
    t.test_mapping_count = 7;
    t.entrypoint_hits = 1;
    t.low_signal = true;
    assert_eq!(fixed_score("parse", &t), 32 + 12 + 12 + 4 - 26 - 24);
    assert_eq!(fixed_score("parse test fixture", &t), 32 + 12 + 12 + 4);
    let mut f = signals(CandidateType::File);
    f.exact_name = true;
    f.exact_path = true;
    assert_eq!(fixed_score("x", &f), 180 + 320);
}

#[test]
fn ranking_explains_itself() {
    let mut s = signals(CandidateType::File);
    s.reasons = strings(&["from fts"]);
    s.exact_name = true;
    s.has_fts = true;
    s.chunk_fts_leads = true;
    s.edge_hits = 1;
    s.cochange_count = 3;
    s.git_hotness = 12;
    s.test_mapping_count = 1;
    s.test_reason = Some("tested by a::t".to_string());
    assert_eq!(
        rank_reasons(&s),
        strings(&[
            "from fts",
            "exact file name match",
            "chunk content full-text match",
            "connected through symbol graph",
            "cochanged 3 times",
            "hot file in git history (12 commits)",
            "tested by a::t",
        ])
    );
    assert_eq!(rank_reasons(&signals(CandidateType::Entrypoint)), strings(&["entrypoint candidate from fallback retrieval"]));
}

#[test]
fn symbol_hits_are_compacted_by_qualified_name() {
    let hit = |rank: usize, q: &str| SymbolHit {
        rank,
        qualname: q.to_string(),
        kind: "fn".to_string(),
        file_path: "src/a.rs".to_string(),
        start_line: 1,
        end_line: 2,
        signature: None,
        summary: "s".repeat(200),
        why: strings(&["exact", "prefix", "graph"]),
    };
    let budget = symbol_budget(0);
    let (items, exhaustive) = compact_items(vec![hit(0, "a::f"), hit(1, "a::f"), hit(2, "a::g")], &budget, 3);
    assert_eq!(items.iter().map(|h| h.rank).collect::<Vec<_>>(), vec![0, 2]);
    assert!(!exhaustive);
    assert_eq!(items[0].summary.chars().count(), 142);
    assert_eq!(items[0].why, strings(&["exact", "prefix"]));

    let file = FileHit {
        rank: 0,
        path: "src/a.rs".to_string(),
        crate_name: None,
        mod_path: None,
        summary: "module a".to_string(),
        symbol_count: 3,
        why: strings(&["r"]),
    };
    let (files, exhaustive) = compact_items(vec![file.clone(), file], &file_budget(0), 3);
    assert_eq!(files.len(), 1);
    assert!(!exhaustive);

    let target = |q: Option<&str>| SuggestHit {
        rank: 0,
        path: "tests/a.rs".to_string(),
        qualname: q.map(|s| s.to_string()),
        summary: None,
        why: strings(&["r"]),
    };
    let (targets, exhaustive) =
        compact_items(vec![target(Some("a::t")), target(None), target(Some("a::t"))], &suggest_budget(0, 3, 5), 3);
    assert_eq!(targets.len(), 2);
    assert!(!exhaustive);
}

#[test]
fn compact_results_hint_only_when_cut() {
    assert_eq!(compact_hint(true), None);
    assert_eq!(compact_hint(false), Some("expand for additional results".to_string()));
}

fn reading(count: i64, reason: Option<&str>) -> Option<CountReading> {
    Some(CountReading { count, reason: reason.map(|r| r.to_string()) })
}

#[test]
fn graph_signals_combine_the_readings() {
    let pairs = vec![(3, 40), (5, 7), (4, 12)];
    let g = graph_counts(Some(3), Some(-2), reading(0, None), &pairs, reading(2, Some("same stem")), reading(1, Some("main")));
    assert_eq!(g.edge_hits, 0);
    assert_eq!(g.cochange_count, 12);
    assert_eq!(g.test_mapping_count, 2);
    assert_eq!(g.test_reason.as_deref(), Some("same stem"));
    assert_eq!(g.entrypoint_hits, 1);
    assert_eq!(g.entrypoint_reason.as_deref(), Some("main"));

    let g = graph_counts(Some(1), Some(4), reading(3, Some("named after")), &pairs, reading(9, Some("file")), reading(0, None));
    assert_eq!(g.edge_hits, 4);
    assert_eq!(g.cochange_count, 40);
    assert_eq!(g.test_mapping_count, 3);
    assert_eq!(g.test_reason.as_deref(), Some("named after"));
    assert_eq!(g.entrypoint_hits, 0);

    let g = graph_counts(None, Some(2), reading(0, None), &Vec::new(), None, None);
    assert_eq!(g.edge_hits, 2);
    assert_eq!(g.cochange_count, 0);
    assert_eq!(g.test_mapping_count, 0);
    assert_eq!(g.test_reason, None);
    assert_eq!(g.entrypoint_reason, None);
}

#[test]
fn explanations_carry_the_query_and_cut_the_top_lists() {
    let draft = compose_explain("add flow", 0, 0, true, None, 0, true, None, None, Vec::new());
    assert_eq!(draft.query, "add flow");
    let (symbols, files) = explain_tops(0, vec![1, 2, 3, 4, 5], vec!["a", "b"]);
    assert_eq!(symbols, vec![1, 2]);
    assert_eq!(files, vec!["a", "b"]);
    let (symbols, files) = explain_tops(1, vec![1, 2, 3, 4, 5], vec!["a", "b", "c", "d"]);
    assert_eq!(symbols, vec![1, 2, 3]);
    assert_eq!(files, vec!["a", "b", "c"]);
    let (symbols, _) = explain_tops(7, vec![1, 2, 3, 4, 5], Vec::<u8>::new());
    assert_eq!(symbols, vec![1, 2, 3, 4]);
}
