use repo_index::extract::{
    extract_docs_before, normalize_call_target, sanitize_namespace_segment, shared_prefix_segments,
    strip_generic_suffix, test_hints_for_name, ExtractedFile,
};
use repo_index::model::{EdgeType, SymbolKind};
use repo_index::parse::parse_source;
use repo_index::scanner::ScannedFile;
use repo_index::syntax::{check_tree, extract_file, SyntaxNode, SyntaxTree};

const SAMPLE: &str = "//! Sample crate.
use std::fmt;
use crate::util::Helper as H;

/// Adds two numbers.
pub fn add(a: i32, b: i32) -> i32 {
    helper(a) + b
}

fn helper(x: i32) -> i32 {
    x
}

pub struct Point {
    x: i32,
}

pub trait Shape {
    fn area(&self) -> i32;
}

impl Shape for Point {
    fn area(&self) -> i32 {
        add(self.x, 1)
    }
}

mod inner {
    pub const LIMIT: u32 = 3;
}

async fn fetch() {}

fn check_add() {
    add(1, 2);
}
";

fn char_offsets(source: &str) -> Vec<usize> {
    let mut at = vec![0usize; source.len() + 1];
    let mut count = 0usize;
    for (byte, ch) in source.char_indices() {
        for k in 0..ch.len_utf8() {
            at[byte + k] = count;
        }
        count += 1;
    }
    at[source.len()] = count;
    at
}

fn visit(node: tree_sitter::Node<'_>, at: &[usize], nodes: &mut Vec<SyntaxNode>) -> usize {
    let index = nodes.len();
    nodes.push(SyntaxNode {
        kind: node.kind().to_string(),
        start: at[node.start_byte()],
        end: at[node.end_byte()],
        start_row: node.start_position().row,
        end_row: node.end_position().row,
        children: Vec::new(),
        named_children: Vec::new(),
        fields: Vec::new(),
    });
    let mut cursor = node.walk();
    let mut children = Vec::new();
    let mut named = Vec::new();
    let mut fields = Vec::new();
    if cursor.goto_first_child() {
        loop {
            let child = cursor.node();
            let field = cursor.field_name();
            let child_index = visit(child, at, nodes);
            children.push(child_index);
            if child.is_named() {
                named.push(child_index);
            }
            if let Some(name) = field {
                fields.push((name.to_string(), child_index));
            }
            if !cursor.goto_next_sibling() {
                break;
            }
        }
    }
    nodes[index].children = children;
    nodes[index].named_children = named;
    nodes[index].fields = fields;
    index
}

fn parse(source: &str) -> SyntaxTree {
    let mut parser = tree_sitter::Parser::new();
    parser.set_language(&tree_sitter_rust::language()).unwrap();
    let tree = parser.parse(source, None).unwrap();
    let at = char_offsets(source);
    let mut nodes = Vec::new();
    visit(tree.root_node(), &at, &mut nodes);
    SyntaxTree { nodes }
}

fn sample_file() -> ScannedFile {
    ScannedFile {
        absolute_path: "/ws/mini/src/lib.rs".to_string(),
        workspace_path: "mini/src/lib.rs".to_string(),
        crate_name: Some("mini".to_string()),
        mod_path: None,
        is_generated: false,
    }
}

fn extract_sample() -> ExtractedFile {
    let tree = parse(SAMPLE);
    extract_file(&tree, SAMPLE, &sample_file()).expect("a parsed tree fits its source")
}

fn index_of(file: &ExtractedFile, qualname: &str) -> usize {
    file.symbols
        .iter()
        .position(|s| s.record.qualname == qualname)
        .unwrap_or_else(|| panic!("no symbol {qualname}"))
}

#[test]
fn extraction_finds_items_with_qualified_names() {
    let file = extract_sample();
    let names: Vec<&str> = file.symbols.iter().map(|s| s.record.qualname.as_str()).collect();
    assert!(names.contains(&"mini::add"));
    assert!(names.contains(&"mini::helper"));
    assert!(names.contains(&"mini::Point"));
    assert!(names.contains(&"mini::Shape"));
    assert!(names.contains(&"mini::Point::impl[Shape]::__impl__"));
    assert!(names.contains(&"mini::Point::Shape::area"));
    assert!(names.contains(&"mini::inner"));
    assert!(names.contains(&"mini::inner::LIMIT"));
    let add = &file.symbols[index_of(&file, "mini::add")].record;
    assert!(matches!(add.kind, SymbolKind::Function));
    assert_eq!(add.name, "add");
    assert_eq!(add.start_line, 6);
    assert_eq!(add.end_line, 8);
    assert_eq!(add.docs.as_deref(), Some("Adds two numbers."));
    assert_eq!(add.visibility.as_deref(), Some("pub"));
    assert_eq!(add.return_type.as_deref(), Some("i32"));
    assert_eq!(add.signature.as_deref(), Some("pub fn add(a: i32, b: i32) -> i32"));
    let fetch = &file.symbols[index_of(&file, "mini::fetch")].record;
    assert!(fetch.is_async);
    let imp = &file.symbols[index_of(&file, "mini::Point::impl[Shape]::__impl__")].record;
    assert!(matches!(imp.kind, SymbolKind::Impl));
    assert_eq!(imp.name, "impl Shape for Point");
}

#[test]
fn extraction_gives_every_symbol_its_chunk() {
    let file = extract_sample();
    assert_eq!(file.chunks.len(), file.symbols.len());
    for (i, chunk) in file.chunks.iter().enumerate() {
        assert_eq!(chunk.symbol_local, Some(i));
        assert_eq!(chunk.record.start_line, file.symbols[i].record.start_line);
        assert_eq!(chunk.record.end_line, file.symbols[i].record.end_line);
        assert_eq!(chunk.record.chunk_kind, file.symbols[i].record.kind.as_str());
    }
    let add = index_of(&file, "mini::add");
    assert!(file.chunks[add].record.content.starts_with("pub fn add"));
}

#[test]
fn extraction_records_imports_and_edges() {
    let file = extract_sample();
    assert_eq!(file.imports.len(), 2);
    assert_eq!(file.imports[0].import_path, "std::fmt");
    assert_eq!(file.imports[0].alias, None);
    assert_eq!(file.imports[1].import_path, "crate::util::Helper as H");
    assert_eq!(file.imports[1].alias.as_deref(), Some("H"));
    let import_edge = file
        .edges
        .iter()
        .find(|e| e.edge_type == EdgeType::Imports)
        .expect("an import edge");
    assert_eq!(import_edge.evidence.as_deref(), Some("{\"import\":\"std::fmt\"}"));

    let add = index_of(&file, "mini::add");
    let helper = index_of(&file, "mini::helper");
    let area = index_of(&file, "mini::Point::Shape::area");
    let imp = index_of(&file, "mini::Point::impl[Shape]::__impl__");
    let shape = index_of(&file, "mini::Shape");
    let inner = index_of(&file, "mini::inner");
    let limit = index_of(&file, "mini::inner::LIMIT");

    let call = file
        .edges
        .iter()
        .find(|e| e.edge_type == EdgeType::Calls && e.from_local == Some(add))
        .expect("add calls helper");
    assert_eq!(call.to_local, Some(helper));
    assert_eq!(call.evidence.as_deref(), Some("{\"callee\":\"helper\",\"line\":7,\"resolved\":true}"));

    let back = file
        .edges
        .iter()
        .find(|e| e.edge_type == EdgeType::Calls && e.from_local == Some(area))
        .expect("area calls add");
    assert_eq!(back.to_local, Some(add));

    assert!(file
        .edges
        .iter()
        .any(|e| e.edge_type == EdgeType::Contains && e.from_local == Some(imp) && e.to_local == Some(area)));
    assert!(file
        .edges
        .iter()
        .any(|e| e.edge_type == EdgeType::Contains && e.from_local == Some(inner) && e.to_local == Some(limit)));
    assert!(file
        .edges
        .iter()
        .any(|e| e.edge_type == EdgeType::DeclaresMod && e.from_local.is_none() && e.to_local == Some(inner)));
    let implements = file
        .edges
        .iter()
        .find(|e| e.edge_type == EdgeType::Implements)
        .expect("an implements edge");
    assert_eq!(implements.from_local, Some(imp));
    assert_eq!(implements.to_local, Some(shape));
    assert_eq!(implements.evidence.as_deref(), Some("{\"resolved\":true,\"trait\":\"Shape\"}"));
}

#[test]
fn extraction_summarizes_the_file() {
    let file = extract_sample();
    assert!(file.summary.starts_with("crate mini; contains "));
    assert!(file.summary.contains("includes async code"));
    assert!(file.summary.contains("defines trait contracts"));
    assert!(file.summary.contains("implements behavior blocks"));
}

#[test]
fn extraction_refuses_a_tree_that_does_not_fit() {
    let tree = parse(SAMPLE);
    assert!(check_tree(&tree, SAMPLE.chars().count()));
    assert!(!check_tree(&tree, 3));
    assert!(extract_file(&tree, "fn", &sample_file()).is_none());
    assert!(extract_file(&SyntaxTree { nodes: Vec::new() }, "", &sample_file()).is_none());
}

#[test]
fn repeated_names_get_line_suffixes() {
    let source = "fn twin() {}\nmod a {}\nfn twin() {}\n";
    let tree = parse(source);
    let file = extract_file(&tree, source, &sample_file()).unwrap();
    let names: Vec<&str> = file.symbols.iter().map(|s| s.record.qualname.as_str()).collect();
    assert_eq!(names, vec!["mini::twin", "mini::a", "mini::twin#L3"]);
}

#[test]
fn generic_suffixes_are_stripped() {
    let stripped: String = strip_generic_suffix(&"Vec<String>".chars().collect::<Vec<_>>()).into_iter().collect();
    assert_eq!(stripped, "Vec");
    let plain: String = strip_generic_suffix(&"Point".chars().collect::<Vec<_>>()).into_iter().collect();
    assert_eq!(plain, "Point");
}

#[test]
fn call_targets_are_normalized() {
    assert_eq!(normalize_call_target("self.store.insert"), vec!["insert".to_string(), "self.store.insert".to_string()]);
    assert_eq!(normalize_call_target("crate::db::open"), vec!["crate::db::open".to_string(), "open".to_string()]);
    assert_eq!(normalize_call_target("Vec::<u8>::new"), vec!["".to_string(), "Vec::".to_string()]);
    assert_eq!(normalize_call_target("helper"), vec!["helper".to_string()]);
}

#[test]
fn namespace_segments_are_sanitized() {
    assert_eq!(sanitize_namespace_segment("Vec<T>"), "Vec");
    assert_eq!(sanitize_namespace_segment("&mut Foo"), "Foo");
    assert_eq!(sanitize_namespace_segment("crate::Foo"), "crate_Foo");
    assert_eq!(sanitize_namespace_segment("(A, B)"), "_A__B_");
}

#[test]
fn shared_prefixes_are_counted_by_segment() {
    assert_eq!(shared_prefix_segments("a::b::c", "a::b::d"), 2);
    assert_eq!(shared_prefix_segments("x::y", "z::y"), 0);
}

#[test]
fn docs_above_an_item_are_collected() {
    let source = "/// First.\n/// Second.\nfn f() {}\n";
    assert_eq!(extract_docs_before(source, 2).as_deref(), Some("First.\nSecond."));
    assert_eq!(extract_docs_before(source, 0), None);
    assert_eq!(extract_docs_before("fn f() {}\n", 1), None);
}

#[test]
fn test_names_hint_at_their_targets() {
    let hints = test_hints_for_name(4, "test_parse_header");
    let targets: Vec<&str> = hints.iter().map(|h| h.target_hint.as_str()).collect();
    assert!(targets.contains(&"parse_header"));
    assert!(hints.iter().all(|h| h.caller_local == 4));
}

#[test]
fn the_library_parser_gives_the_walked_tree() {
    let ours = parse_source(SAMPLE).expect("a tree");
    assert_eq!(format!("{:?}", ours), format!("{:?}", parse(SAMPLE)));
    let wide = "// größe ü\nfn é(x: &str) -> usize { \"ß\".len() }\n";
    let tree = parse_source(wide).expect("a tree");
    assert_eq!(format!("{:?}", tree), format!("{:?}", parse(wide)));
    assert!(check_tree(&tree, wide.chars().count()));
}
