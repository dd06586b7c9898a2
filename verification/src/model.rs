//! Records persisted in the index and payloads returned by queries.

use vstd::prelude::*;

verus! {

/// Supported lightweight relationship types.
#[derive(Debug, Clone, Copy, PartialEq, Eq, Structural)]
pub enum EdgeType {
    Contains,
    Imports,
    DeclaresMod,
    Implements,
    Tests,
    Calls,
}

/// The name under which an edge type is stored.
pub open spec fn edge_type_name(t: EdgeType) -> Seq<char> {
    match t {
        EdgeType::Contains => "contains"@,
        EdgeType::Imports => "imports"@,
        EdgeType::DeclaresMod => "declares_mod"@,
        EdgeType::Implements => "implements"@,
        EdgeType::Tests => "tests"@,
        EdgeType::Calls => "calls"@,
    }
}

impl EdgeType {
    /// The stored name of this edge type.
    pub fn as_str(self) -> (r: &'static str)
        ensures
            r@ == edge_type_name(self),
    {
        match self {
            EdgeType::Contains => "contains",
            EdgeType::Imports => "imports",
            EdgeType::DeclaresMod => "declares_mod",
            EdgeType::Implements => "implements",
            EdgeType::Tests => "tests",
            EdgeType::Calls => "calls",
        }
    }
}

/// Relationship edge persisted in SQLite.
#[derive(Debug, Clone)]
pub struct EdgeRecord {
    pub id: Option<i64>,
    pub from_symbol_id: Option<i64>,
    pub to_symbol_id: Option<i64>,
    pub edge_type: EdgeType,
    pub evidence: Option<String>,
}

/// Supported Rust symbol kinds.
#[derive(Debug, Clone, Copy, PartialEq, Eq, Structural)]
pub enum SymbolKind {
    Function,
    Struct,
    Enum,
    Trait,
    Impl,
    Module,
    Const,
    Static,
    TypeAlias,
}

/// The short keyword under which a symbol kind is stored and displayed.
pub open spec fn symbol_kind_name(k: SymbolKind) -> Seq<char> {
    match k {
        SymbolKind::Function => "fn"@,
        SymbolKind::Struct => "struct"@,
        SymbolKind::Enum => "enum"@,
        SymbolKind::Trait => "trait"@,
        SymbolKind::Impl => "impl"@,
        SymbolKind::Module => "mod"@,
        SymbolKind::Const => "const"@,
        SymbolKind::Static => "static"@,
        SymbolKind::TypeAlias => "type"@,
    }
}

impl SymbolKind {
    /// The short keyword of this symbol kind.
    pub fn as_str(self) -> (r: &'static str)
        ensures
            r@ == symbol_kind_name(self),
    {
        match self {
            SymbolKind::Function => "fn",
            SymbolKind::Struct => "struct",
            SymbolKind::Enum => "enum",
            SymbolKind::Trait => "trait",
            SymbolKind::Impl => "impl",
            SymbolKind::Module => "mod",
            SymbolKind::Const => "const",
            SymbolKind::Static => "static",
            SymbolKind::TypeAlias => "type",
        }
    }
}

/// Indexed symbol metadata.
#[derive(Debug, Clone)]
pub struct SymbolRecord {
    pub id: Option<i64>,
    pub file_id: Option<i64>,
    pub parent_symbol_id: Option<i64>,
    pub kind: SymbolKind,
    pub name: String,
    pub qualname: String,
    pub signature: Option<String>,
    pub docs: Option<String>,
    pub start_line: i64,
    pub end_line: i64,
    pub is_async: bool,
    pub is_test: bool,
    pub visibility: Option<String>,
    pub return_type: Option<String>,
    pub summary: String,
}

/// Indexed file metadata persisted in SQLite.
#[derive(Debug, Clone)]
pub struct FileRecord {
    pub id: Option<i64>,
    pub path: String,
    pub crate_name: Option<String>,
    pub mod_path: Option<String>,
    pub hash: String,
    pub size: i64,
    pub mtime_ns: Option<i64>,
    pub line_count: i64,
    pub symbol_count: i64,
    pub is_generated: bool,
    pub has_tests: bool,
    pub summary: String,
    pub indexed_at: i64,
}

/// Snippet-sized code block used for full-text search and targeted reads.
#[derive(Debug, Clone)]
pub struct ChunkRecord {
    pub id: Option<i64>,
    pub file_id: Option<i64>,
    pub symbol_id: Option<i64>,
    pub chunk_kind: String,
    pub start_line: i64,
    pub end_line: i64,
    pub summary: String,
    pub content: String,
}

/// Imported module or symbol recorded per file.
#[derive(Debug, Clone)]
pub struct FileImportRecord {
    pub id: Option<i64>,
    pub file_id: Option<i64>,
    pub import_path: String,
    pub alias: Option<String>,
    pub is_glob: bool,
}

/// Git hotspot summary for a file.
#[derive(Debug, Clone)]
pub struct GitFileStatRecord {
    pub file_id: i64,
    pub commit_count: i64,
    pub last_modified: Option<i64>,
    pub last_author: Option<String>,
    pub authors_json: String,
}

/// Pairwise co-change metric between files.
#[derive(Debug, Clone)]
pub struct GitCochangeRecord {
    pub file_id_a: i64,
    pub file_id_b: i64,
    pub cochange_count: i64,
}

/// Size budget applied during compact post-processing.
#[derive(Debug, Clone, Copy, PartialEq, Eq, Structural)]
pub struct QueryBudget {
    pub max_items: usize,
    pub max_total_chars: usize,
    pub max_reasons_per_item: usize,
}

/// Outline payload for a single file.
#[derive(Debug, Clone)]
pub struct OutlineResult {
    pub path: String,
    pub imports: Vec<String>,
    pub top_level_symbols: Vec<String>,
    pub impl_blocks: Vec<String>,
    pub test_functions: Vec<String>,
    pub summary: String,
    pub why: Vec<String>,
}

/// Short symbol or file relationship summary.
#[derive(Debug, Clone)]
pub struct NeighborItem {
    pub label: String,
    pub kind: String,
    pub detail: Option<String>,
    pub why: Vec<String>,
}

/// Neighbor payload around a symbol.
#[derive(Debug, Clone)]
pub struct NeighborResult {
    pub qualname: String,
    pub file_path: String,
    pub parent_symbol: Option<String>,
    pub methods: Vec<NeighborItem>,
    pub impl_relations: Vec<NeighborItem>,
    pub likely_callees: Vec<NeighborItem>,
    pub related_tests: Vec<NeighborItem>,
    pub cochanged_files: Vec<NeighborItem>,
    pub entrypoints: Vec<NeighborItem>,
    pub why: Vec<String>,
}

/// Line-based snippet read result.
#[derive(Debug, Clone)]
pub struct SnippetResult {
    pub path: String,
    pub start_line: usize,
    pub end_line: usize,
    pub content: String,
    pub why: Vec<String>,
}

/// High-level database statistics.
#[derive(Debug, Clone, Copy, PartialEq, Eq, Structural)]
pub struct StatsResult {
    pub files: usize,
    pub symbols: usize,
    pub chunks: usize,
    pub edges: usize,
    pub git_stats_files: usize,
    pub git_cochange_pairs: usize,
}

} // verus!
