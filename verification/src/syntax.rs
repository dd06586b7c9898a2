//! Symbol extraction over a parsed Rust file.
//!
//! The parse tree is handed over as plain values: an arena of nodes in
//! pre-order (the root first, every child after its parent), each with its
//! kind, its character range in the source, its rows, its children, its
//! named children and its named fields.

use vstd::prelude::*;

use crate::compactor::string_views;
use crate::derived::opt_view;
use crate::extract::{
    call_target_candidates, CallHint, ExtractedChunk, ExtractedSymbol, ImplHint, PendingEdge,
    QualnameCounter, TestHint,
};
use crate::model::{symbol_kind_name, EdgeType, FileImportRecord, SymbolKind, SymbolRecord};
use crate::scanner::ScannedFile;
use crate::extract::{
    base_prefix, base_prefix_spec, call_edge_v, edge_view, impl_edge_v, resolve_hints, test_edge_v, ExtractedFile,
};
use crate::summary::{file_parts, lemma_file_parts_shape, same_shape, summarize_file, summarize_spec};
use crate::text::{chars_of, collapse, collapse_chars, copy_range, lines, string_of};

verus! {

/// One node of a parse tree.
#[derive(Debug, Clone)]
pub struct SyntaxNode {
    pub kind: String,
    /// Character offsets of the node's text in the source, end excluded.
    pub start: usize,
    pub end: usize,
    /// Zero-based first and last row of the node.
    pub start_row: usize,
    pub end_row: usize,
    /// All children, in order.
    pub children: Vec<usize>,
    /// The named children, in order.
    pub named_children: Vec<usize>,
    /// Field names with the child each names, in order.
    pub fields: Vec<(String, usize)>,
}

/// A parse tree: its nodes in pre-order, the root first.
#[derive(Debug, Clone)]
pub struct SyntaxTree {
    pub nodes: Vec<SyntaxNode>,
}

/// Whether every reference of node `i` points to a later node.
pub open spec fn node_wf(t: Seq<SyntaxNode>, i: int, source_len: nat) -> bool {
    let n = t[i];
    &&& n.start <= n.end <= source_len
    &&& n.start_row < i64::MAX
    &&& n.end_row < i64::MAX
    &&& n.start_row < usize::MAX
    &&& n.end_row < usize::MAX
    &&& forall|k: int| 0 <= k < n.children@.len() ==> i < #[trigger] n.children@[k] < t.len()
    &&& forall|k: int| 0 <= k < n.named_children@.len() ==> i < #[trigger] n.named_children@[k] < t.len()
    &&& forall|k: int| 0 <= k < n.fields@.len() ==> i < (#[trigger] n.fields@[k]).1 < t.len()
    &&& forall|k: int| 0 <= k < n.fields@.len() ==> n.start <= t[(#[trigger] n.fields@[k]).1 as int].start
}

/// Whether a tree is well formed for a source of the given length: it has a
/// root, and every node's range lies in the source and its children come
/// after it.
pub open spec fn tree_wf(t: Seq<SyntaxNode>, source_len: nat) -> bool {
    t.len() > 0 && forall|i: int| 0 <= i < t.len() ==> #[trigger] node_wf(t, i, source_len)
}

/// Whether every reference in a list points after `i` and into the tree.
fn refs_after(v: &Vec<usize>, i: usize, n: usize) -> (r: bool)
    ensures
        r == forall|k: int| 0 <= k < v@.len() ==> i < #[trigger] v@[k] < n,
{
    let mut k: usize = 0;
    while k < v.len()
        invariant
            k <= v@.len(),
            forall|q: int| 0 <= q < k ==> i < #[trigger] v@[q] < n,
        decreases v@.len() - k,
    {
        if !(i < v[k] && v[k] < n) {
            return false;
        }
        k = k + 1;
    }
    true
}

/// Checks that a tree is well formed for a source of `source_len` characters.
pub fn check_tree(tree: &SyntaxTree, source_len: usize) -> (r: bool)
    ensures
        r == tree_wf(tree.nodes@, source_len as nat),
{
    let n = tree.nodes.len();
    if n == 0 {
        return false;
    }
    let mut i: usize = 0;
    while i < n
        invariant
            n == tree.nodes@.len(),
            i <= n,
            forall|q: int| 0 <= q < i ==> #[trigger] node_wf(tree.nodes@, q, source_len as nat),
        decreases n - i,
    {
        let node = &tree.nodes[i];
        let mut ok = node.start <= node.end && node.end <= source_len && (node.start_row as u64)
            < 9223372036854775807u64 && (node.end_row as u64) < 9223372036854775807u64
            && node.start_row < usize::MAX && node.end_row < usize::MAX;
        ok = ok && refs_after(&node.children, i, n) && refs_after(&node.named_children, i, n);
        let mut k: usize = 0;
        let mut fields_ok = true;
        while k < node.fields.len()
            invariant
                k <= node.fields@.len(),
                n == tree.nodes@.len(),
                node == tree.nodes@[i as int],
                fields_ok == forall|q: int|
                    0 <= q < k ==> i < (#[trigger] node.fields@[q]).1 < n && node.start
                        <= tree.nodes@[node.fields@[q].1 as int].start,
            decreases node.fields@.len() - k,
        {
            let c = node.fields[k].1;
            if !(i < c && c < n && node.start <= tree.nodes[c].start) {
                fields_ok = false;
            }
            k = k + 1;
        }
        if !(ok && fields_ok) {
            assert(!node_wf(tree.nodes@, i as int, source_len as nat));
            return false;
        }
        i = i + 1;
    }
    true
}

/// The source text of node `i`.
pub open spec fn text_of(src: Seq<char>, t: Seq<SyntaxNode>, i: int) -> Seq<char> {
    src.subrange(t[i].start as int, t[i].end as int)
}

/// Index in the field list of node `i` of the first field named `name`, or -1.
pub open spec fn field_pos(fields: Seq<(String, usize)>, name: Seq<char>, n: nat) -> int
    decreases n,
{
    if n == 0 {
        -1
    } else {
        let p = field_pos(fields, name, (n - 1) as nat);
        if p >= 0 {
            p
        } else if fields[n - 1].0@ == name {
            n - 1
        } else {
            -1
        }
    }
}

/// The child that field `name` of node `i` names, if any.
pub open spec fn field_of(t: Seq<SyntaxNode>, i: int, name: Seq<char>) -> Option<usize> {
    let f = t[i].fields@;
    let p = field_pos(f, name, f.len());
    if p >= 0 {
        Some(f[p].1)
    } else {
        None
    }
}

proof fn lemma_field_pos_stable(fields: Seq<(String, usize)>, name: Seq<char>, m: nat, n: nat)
    requires
        m <= n,
        field_pos(fields, name, m) >= 0,
    ensures
        field_pos(fields, name, n) == field_pos(fields, name, m),
    decreases n - m,
{
    if m < n {
        lemma_field_pos_stable(fields, name, m, (n - 1) as nat);
    }
}

/// The child named by a field of a node.
pub fn child_by_field(tree: &SyntaxTree, i: usize, name: &str) -> (r: Option<usize>)
    requires
        i < tree.nodes@.len(),
    ensures
        r == field_of(tree.nodes@, i as int, name@),
{
    let fields = &tree.nodes[i].fields;
    let target = chars_of(name);
    let mut k: usize = 0;
    while k < fields.len()
        invariant
            k <= fields@.len(),
            fields@ == tree.nodes@[i as int].fields@,
            target@ == name@,
            field_pos(fields@, name@, k as nat) == -1,
        decreases fields@.len() - k,
    {
        if crate::text::same_chars(chars_of(fields[k].0.as_str()).as_slice(), target.as_slice()) {
            proof {
                lemma_field_pos_stable(fields@, name@, (k + 1) as nat, fields@.len());
            }
            return Some(fields[k].1);
        }
        k = k + 1;
    }
    None
}

/// The source text of a node.
pub fn node_text(tree: &SyntaxTree, src: &Vec<char>, i: usize) -> (r: Vec<char>)
    requires
        i < tree.nodes@.len(),
        tree_wf(tree.nodes@, src@.len()),
    ensures
        r@ == text_of(src@, tree.nodes@, i as int),
{
    assert(node_wf(tree.nodes@, i as int, src@.len()));
    copy_range(src.as_slice(), tree.nodes[i].start, tree.nodes[i].end)
}

/// The whitespace-collapsed text of the child a field names.
pub open spec fn field_text_of(src: Seq<char>, t: Seq<SyntaxNode>, i: int, name: Seq<char>) -> Option<Seq<char>> {
    match field_of(t, i, name) {
        Some(c) => Some(collapse(text_of(src, t, c as int))),
        None => None,
    }
}

/// The whitespace-collapsed text of the child a field names.
pub fn field_text(tree: &SyntaxTree, src: &Vec<char>, i: usize, name: &str) -> (r: Option<String>)
    requires
        i < tree.nodes@.len(),
        tree_wf(tree.nodes@, src@.len()),
    ensures
        opt_view(r) == field_text_of(src@, tree.nodes@, i as int, name@),
{
    match child_by_field(tree, i, name) {
        Some(c) => {
            assert(node_wf(tree.nodes@, i as int, src@.len()));
            let ghost p = field_pos(tree.nodes@[i as int].fields@, name@, tree.nodes@[i as int].fields@.len());
            proof {
                lemma_field_pos_bound(tree.nodes@[i as int].fields@, name@, tree.nodes@[i as int].fields@.len());
            }
            assert(i < tree.nodes@[i as int].fields@[p].1);
            let t = node_text(tree, src, c);
            Some(string_of(collapse_chars(t.as_slice()).as_slice()))
        },
        None => None,
    }
}

proof fn lemma_field_pos_bound(fields: Seq<(String, usize)>, name: Seq<char>, n: nat)
    requires
        n <= fields.len(),
    ensures
        -1 <= field_pos(fields, name, n) < n,
    decreases n,
{
    if n > 0 {
        lemma_field_pos_bound(fields, name, (n - 1) as nat);
    }
}

/// Position in the children of node `i` of the first visibility modifier, or -1.
pub open spec fn vis_pos(t: Seq<SyntaxNode>, kids: Seq<usize>, n: nat) -> int
    decreases n,
{
    if n == 0 {
        -1
    } else {
        let p = vis_pos(t, kids, (n - 1) as nat);
        if p >= 0 {
            p
        } else if t[kids[n - 1] as int].kind@ == "visibility_modifier"@ {
            n - 1
        } else {
            -1
        }
    }
}

proof fn lemma_vis_pos(t: Seq<SyntaxNode>, kids: Seq<usize>, m: nat, n: nat)
    requires
        m <= n <= kids.len(),
        vis_pos(t, kids, m) >= 0,
    ensures
        vis_pos(t, kids, n) == vis_pos(t, kids, m),
    decreases n - m,
{
    if m < n {
        lemma_vis_pos(t, kids, m, (n - 1) as nat);
    }
}

/// The collapsed text of a node's visibility modifier, if it has one.
pub open spec fn visibility_of(src: Seq<char>, t: Seq<SyntaxNode>, i: int) -> Option<Seq<char>> {
    let kids = t[i].children@;
    let p = vis_pos(t, kids, kids.len());
    if p >= 0 {
        Some(collapse(text_of(src, t, kids[p] as int)))
    } else {
        None
    }
}

/// The collapsed text of a node's visibility modifier, if it has one.
pub fn find_visibility(tree: &SyntaxTree, src: &Vec<char>, i: usize) -> (r: Option<String>)
    requires
        i < tree.nodes@.len(),
        tree_wf(tree.nodes@, src@.len()),
    ensures
        opt_view(r) == visibility_of(src@, tree.nodes@, i as int),
{
    assert(node_wf(tree.nodes@, i as int, src@.len()));
    let kids = &tree.nodes[i].children;
    let mut k: usize = 0;
    while k < kids.len()
        invariant
            k <= kids@.len(),
            kids@ == tree.nodes@[i as int].children@,
            vis_pos(tree.nodes@, kids@, k as nat) == -1,
            forall|q: int| 0 <= q < kids@.len() ==> i < #[trigger] kids@[q] < tree.nodes@.len(),
            tree_wf(tree.nodes@, src@.len()),
        decreases kids@.len() - k,
    {
        let c = kids[k];
        if tree.nodes[c].kind == "visibility_modifier".to_owned() {
            proof {
                lemma_vis_pos(tree.nodes@, kids@, (k + 1) as nat, kids@.len());
            }
            let t = node_text(tree, src, c);
            return Some(string_of(collapse_chars(t.as_slice()).as_slice()));
        }
        k = k + 1;
    }
    None
}

/// The collapsed first line of a node's text.
pub open spec fn head_line_of(src: Seq<char>, t: Seq<SyntaxNode>, i: int) -> Seq<char> {
    collapse(crate::summary::first_line(text_of(src, t, i)))
}

/// The collapsed first line of a node's text.
pub fn head_line(tree: &SyntaxTree, src: &Vec<char>, i: usize) -> (r: String)
    requires
        i < tree.nodes@.len(),
        tree_wf(tree.nodes@, src@.len()),
    ensures
        r@ == head_line_of(src@, tree.nodes@, i as int),
{
    let t = node_text(tree, src, i);
    let ls = crate::text::lines_of(t.as_slice());
    if ls.len() > 0 {
        assert(ls@.map_values(|v: Vec<char>| v@)[0] == ls@[0]@);
        string_of(collapse_chars(ls[0].as_slice()).as_slice())
    } else {
        let empty: Vec<char> = Vec::new();
        assert(empty@ =~= Seq::<char>::empty());
        string_of(collapse_chars(empty.as_slice()).as_slice())
    }
}

/// Plain view of an extracted symbol.
pub struct SymView {
    pub id: Option<i64>,
    pub file_id: Option<i64>,
    pub parent_symbol_id: Option<i64>,
    pub kind: SymbolKind,
    pub name: Seq<char>,
    pub qualname: Seq<char>,
    pub signature: Option<Seq<char>>,
    pub docs: Option<Seq<char>>,
    pub start_line: i64,
    pub end_line: i64,
    pub is_async: bool,
    pub is_test: bool,
    pub visibility: Option<Seq<char>>,
    pub return_type: Option<Seq<char>>,
    pub summary: Seq<char>,
    pub parent: Option<usize>,
}

/// The view of an extracted symbol.
pub open spec fn sym_view(s: ExtractedSymbol) -> SymView {
    let r = s.record;
    SymView {
        id: r.id,
        file_id: r.file_id,
        parent_symbol_id: r.parent_symbol_id,
        kind: r.kind,
        name: r.name@,
        qualname: r.qualname@,
        signature: opt_view(r.signature),
        docs: opt_view(r.docs),
        start_line: r.start_line,
        end_line: r.end_line,
        is_async: r.is_async,
        is_test: r.is_test,
        visibility: opt_view(r.visibility),
        return_type: opt_view(r.return_type),
        summary: r.summary@,
        parent: s.parent_local,
    }
}

/// Plain view of an extracted chunk.
pub struct ChunkView {
    pub id: Option<i64>,
    pub file_id: Option<i64>,
    pub symbol_id: Option<i64>,
    pub kind: Seq<char>,
    pub start_line: i64,
    pub end_line: i64,
    pub summary: Seq<char>,
    pub content: Seq<char>,
    pub symbol: Option<usize>,
}

/// The view of an extracted chunk.
pub open spec fn chunk_view(c: ExtractedChunk) -> ChunkView {
    let r = c.record;
    ChunkView {
        id: r.id,
        file_id: r.file_id,
        symbol_id: r.symbol_id,
        kind: r.chunk_kind@,
        start_line: r.start_line,
        end_line: r.end_line,
        summary: r.summary@,
        content: r.content@,
        symbol: c.symbol_local,
    }
}

/// Plain view of a recorded import.
pub struct ImportView {
    pub id: Option<i64>,
    pub file_id: Option<i64>,
    pub path: Seq<char>,
    pub alias: Option<Seq<char>>,
    pub is_glob: bool,
}

/// The view of a recorded import.
pub open spec fn import_view(r: FileImportRecord) -> ImportView {
    ImportView { id: r.id, file_id: r.file_id, path: r.import_path@, alias: opt_view(r.alias), is_glob: r.is_glob }
}

/// A pending edge as plain values.
pub type EdgeV = (Option<usize>, Option<usize>, EdgeType, Option<Seq<char>>);

/// A call hint as plain values: caller, callee text, candidate names, line.
pub type CallV = (usize, Seq<char>, Seq<Seq<char>>, usize);

/// What extraction has produced so far.
#[verifier::ext_equal]
pub struct ExState {
    pub symbols: Seq<SymView>,
    pub chunks: Seq<ChunkView>,
    pub imports: Seq<ImportView>,
    pub edges: Seq<EdgeV>,
    pub calls: Seq<CallV>,
    pub tests: Seq<(usize, Seq<char>)>,
    pub impls: Seq<(usize, Seq<char>)>,
    pub issued: Seq<Seq<char>>,
}

/// Where items are being read: the qualified-name prefix and the enclosing
/// symbol.
pub struct ScopeView {
    pub prefix: Seq<Seq<char>>,
    pub parent: Option<usize>,
}

/// The candidate names of a call target, sorted and without repeats.
pub open spec fn sorted_targets(raw: Seq<char>) -> Seq<Seq<char>> {
    choose|s: Seq<Seq<char>>| crate::git::sorted_strict(s) && s.to_set() == call_target_candidates(raw)
}

/// The calls found in the subtrees on `stack`, visited depth first, the last
/// pushed first, within `fuel` steps.
pub open spec fn dfs_calls(
    t: Seq<SyntaxNode>,
    src: Seq<char>,
    stack: Seq<usize>,
    caller: usize,
    calls: Seq<CallV>,
    fuel: nat,
) -> Seq<CallV>
    decreases fuel,
{
    if fuel == 0 || stack.len() == 0 {
        calls
    } else {
        let cur = stack.last() as int;
        let rest = stack.drop_last();
        let calls2 = if t[cur].kind@ == "call_expression"@ {
            match field_of(t, cur, "function"@) {
                Some(f) => {
                    let raw = collapse(text_of(src, t, f as int));
                    calls.push((caller, raw, sorted_targets(raw), (t[cur].start_row + 1) as usize))
                },
                None => calls,
            }
        } else {
            calls
        };
        dfs_calls(t, src, rest + t[cur].named_children@, caller, calls2, (fuel - 1) as nat)
    }
}

/// The state after adding a symbol: its record, its chunk and, inside
/// another symbol, the containment edge.
pub open spec fn push_symbol_spec(st: ExState, v: SymView, content: Seq<char>) -> ExState {
    let local = st.symbols.len() as usize;
    ExState {
        symbols: st.symbols.push(v),
        chunks: st.chunks.push(
            ChunkView {
                id: None,
                file_id: None,
                symbol_id: None,
                kind: symbol_kind_name(v.kind),
                start_line: v.start_line,
                end_line: v.end_line,
                summary: v.summary,
                content,
                symbol: Some(local),
            },
        ),
        edges: if v.parent is Some {
            st.edges.push((v.parent, Some(local), EdgeType::Contains, None))
        } else {
            st.edges
        },
        ..st
    }
}

/// The record of a symbol read from node `i`.
pub open spec fn record_spec(
    t: Seq<SyntaxNode>,
    src: Seq<char>,
    i: int,
    kind: SymbolKind,
    name: Seq<char>,
    qualname: Seq<char>,
    signature: Option<Seq<char>>,
    is_async: bool,
    is_test: bool,
    return_type: Option<Seq<char>>,
    parent: Option<usize>,
) -> SymView {
    let docs = crate::extract::docs_before_spec(src, t[i].start_row as int);
    SymView {
        id: None,
        file_id: None,
        parent_symbol_id: None,
        kind,
        name,
        qualname,
        signature,
        docs,
        start_line: (t[i].start_row + 1) as i64,
        end_line: (t[i].end_row + 1) as i64,
        is_async,
        is_test,
        visibility: visibility_of(src, t, i),
        return_type,
        summary: crate::summary::summarize_spec(
            crate::summary::symbol_parts_of(kind, name, is_async, is_test, return_type, signature, docs),
        ),
        parent,
    }
}

/// The name a field gives, or a default.
pub open spec fn name_or(t: Seq<SyntaxNode>, src: Seq<char>, i: int, field: Seq<char>, default: Seq<char>) -> Seq<
    char,
> {
    match field_text_of(src, t, i, field) {
        Some(n) => n,
        None => default,
    }
}

/// The state after reading a function item.
pub open spec fn function_spec(t: Seq<SyntaxNode>, src: Seq<char>, i: int, sc: ScopeView, st: ExState) -> ExState {
    let name = name_or(t, src, i, "name"@, "anonymous"@);
    let body = field_of(t, i, "body"@);
    let signature = match body {
        Some(b) => collapse(src.subrange(t[i].start as int, t[b as int].start as int)),
        None => collapse(text_of(src, t, i)),
    };
    let is_async = crate::text::seq_contains(signature, "async fn"@);
    let is_test = crate::text::seq_contains(signature, "#[test]"@) || crate::text::seq_contains(
        signature,
        "::test"@,
    );
    let line = (t[i].start_row + 1) as usize;
    let base = crate::extract::qual_base(sc.prefix, name);
    let qualname = crate::extract::qualname_for(st.issued, base, line);
    let st1 = ExState { issued: st.issued.push(base), ..st };
    let v = record_spec(
        t,
        src,
        i,
        SymbolKind::Function,
        name,
        qualname,
        Some(signature),
        is_async,
        is_test,
        field_text_of(src, t, i, "return_type"@),
        sc.parent,
    );
    let local = st1.symbols.len() as usize;
    let st2 = push_symbol_spec(st1, v, text_of(src, t, i));
    let st3 = match body {
        Some(b) => ExState { calls: dfs_calls(t, src, seq![b], local, st2.calls, t.len()), ..st2 },
        None => st2,
    };
    if is_test {
        ExState {
            tests: st3.tests + crate::extract::test_hint_targets(name).map_values(
                |h: Seq<char>| (local, h),
            ),
            ..st3
        }
    } else {
        st3
    }
}

/// The state after reading a symbol whose signature is its first line: a
/// struct, enum, const, static or type alias (and the head of a trait, module
/// or impl block).
pub open spec fn headed_symbol_spec(
    t: Seq<SyntaxNode>,
    src: Seq<char>,
    i: int,
    sc: ScopeView,
    st: ExState,
    kind: SymbolKind,
    name: Seq<char>,
    prefix: Seq<Seq<char>>,
    leaf: Seq<char>,
) -> ExState {
    let line = (t[i].start_row + 1) as usize;
    let base = crate::extract::qual_base(prefix, leaf);
    let qualname = crate::extract::qualname_for(st.issued, base, line);
    let st1 = ExState { issued: st.issued.push(base), ..st };
    let v = record_spec(
        t,
        src,
        i,
        kind,
        name,
        qualname,
        Some(head_line_of(src, t, i)),
        false,
        false,
        None,
        sc.parent,
    );
    push_symbol_spec(st1, v, text_of(src, t, i))
}

/// The state after reading a simple item of the given kind.
pub open spec fn simple_spec(
    t: Seq<SyntaxNode>,
    src: Seq<char>,
    i: int,
    sc: ScopeView,
    st: ExState,
    kind: SymbolKind,
) -> ExState {
    let name = name_or(t, src, i, "name"@, symbol_kind_name(kind));
    headed_symbol_spec(t, src, i, sc, st, kind, name, sc.prefix, name)
}

/// `s` without every trailing ';' (`str::trim_end_matches(';')`).
pub open spec fn strip_semicolons(s: Seq<char>) -> Seq<char>
    decreases s.len(),
{
    if s.len() > 0 && s.last() == ';' {
        strip_semicolons(s.drop_last())
    } else {
        s
    }
}

/// The path of a `use` declaration's text.
pub open spec fn import_path_of(text: Seq<char>) -> Seq<char> {
    let body = if crate::text::seq_starts_with(text, "use "@) {
        text.subrange(4, text.len() as int)
    } else {
        text
    };
    crate::text::trim(strip_semicolons(body))
}

/// The alias of a `use` declaration's text.
pub open spec fn import_alias_of(text: Seq<char>) -> Option<Seq<char>> {
    let parts = crate::text::split(text, " as "@);
    if parts.len() > 1 {
        Some(crate::text::trim(strip_semicolons(parts[1])))
    } else {
        None
    }
}

/// The state after reading a `use` declaration.
pub open spec fn import_spec(t: Seq<SyntaxNode>, src: Seq<char>, i: int, sc: ScopeView, st: ExState) -> ExState {
    let text = collapse(text_of(src, t, i));
    let path = import_path_of(text);
    ExState {
        imports: st.imports.push(
            ImportView {
                id: None,
                file_id: None,
                path,
                alias: import_alias_of(text),
                is_glob: crate::text::seq_contains(text, "*"@),
            },
        ),
        edges: st.edges.push(
            (
                sc.parent,
                None,
                EdgeType::Imports,
                Some("{\"import\":"@ + crate::extract::json_quoted(path) + "}"@),
            ),
        ),
        ..st
    }
}

/// The state after reading the named children of `node` from the `k`-th on.
pub open spec fn walk_spec(t: Seq<SyntaxNode>, src: Seq<char>, node: int, sc: ScopeView, st: ExState, k: int) -> ExState
    decreases t.len() - node, t[node].named_children@.len() + 1 - k,
{
    if node < 0 || node >= t.len() || k < 0 || k >= t[node].named_children@.len() {
        st
    } else {
        let c = t[node].named_children@[k] as int;
        let st2 = if node < c < t.len() {
            item_spec(t, src, c, sc, st)
        } else {
            st
        };
        walk_spec(t, src, node, sc, st2, k + 1)
    }
}

/// The state after reading the body of node `i` (its "body" field) in the
/// given scope.
pub open spec fn body_spec(t: Seq<SyntaxNode>, src: Seq<char>, i: int, sc: ScopeView, st: ExState) -> ExState
    decreases t.len() - i, t[i].named_children@.len() + 1,
{
    match field_of(t, i, "body"@) {
        Some(b) => if 0 <= i < b < t.len() {
            walk_spec(t, src, b as int, sc, st, 0)
        } else {
            st
        },
        None => st,
    }
}

/// The state after reading item node `c`.
pub open spec fn item_spec(t: Seq<SyntaxNode>, src: Seq<char>, c: int, sc: ScopeView, st: ExState) -> ExState
    decreases t.len() - c, t[c].named_children@.len() + 2,
{
    let kind = t[c].kind@;
    if kind == "function_item"@ {
        function_spec(t, src, c, sc, st)
    } else if kind == "struct_item"@ {
        simple_spec(t, src, c, sc, st, SymbolKind::Struct)
    } else if kind == "enum_item"@ {
        simple_spec(t, src, c, sc, st, SymbolKind::Enum)
    } else if kind == "trait_item"@ {
        let name = name_or(t, src, c, "name"@, "Trait"@);
        let local = st.symbols.len() as usize;
        let st1 = headed_symbol_spec(t, src, c, sc, st, SymbolKind::Trait, name, sc.prefix, name);
        body_spec(t, src, c, ScopeView { prefix: sc.prefix.push(name), parent: Some(local) }, st1)
    } else if kind == "impl_item"@ {
        let type_text = name_or(t, src, c, "type"@, "Type"@);
        let trait_name = field_text_of(src, t, c, "trait"@);
        let impl_name = match trait_name {
            Some(tn) => "impl "@ + tn + " for "@ + type_text,
            None => "impl "@ + type_text,
        };
        let ty = crate::extract::sanitize_segment_spec(type_text);
        let prefix = sc.prefix.push(ty).push(
            match trait_name {
                Some(tn) => "impl["@ + crate::extract::sanitize_segment_spec(tn) + "]"@,
                None => "impl"@,
            },
        );
        let local = st.symbols.len() as usize;
        let st1 = headed_symbol_spec(t, src, c, sc, st, SymbolKind::Impl, impl_name, prefix, "__impl__"@);
        let st2 = match trait_name {
            Some(tn) => ExState {
                impls: st1.impls.push((local, crate::extract::strip_generic_spec(tn))),
                ..st1
            },
            None => st1,
        };
        let method_prefix = match trait_name {
            Some(tn) => sc.prefix.push(ty).push(crate::extract::sanitize_segment_spec(tn)),
            None => sc.prefix.push(ty),
        };
        body_spec(t, src, c, ScopeView { prefix: method_prefix, parent: Some(local) }, st2)
    } else if kind == "mod_item"@ {
        let name = name_or(t, src, c, "name"@, "mod"@);
        let local = st.symbols.len() as usize;
        let st1 = headed_symbol_spec(t, src, c, sc, st, SymbolKind::Module, name, sc.prefix, name);
        let st2 = ExState {
            edges: st1.edges.push((sc.parent, Some(local), EdgeType::DeclaresMod, None)),
            ..st1
        };
        body_spec(t, src, c, ScopeView { prefix: sc.prefix.push(name), parent: Some(local) }, st2)
    } else if kind == "const_item"@ {
        simple_spec(t, src, c, sc, st, SymbolKind::Const)
    } else if kind == "static_item"@ {
        simple_spec(t, src, c, sc, st, SymbolKind::Static)
    } else if kind == "type_item"@ {
        simple_spec(t, src, c, sc, st, SymbolKind::TypeAlias)
    } else if kind == "use_declaration"@ {
        import_spec(t, src, c, sc, st)
    } else if kind == "declaration_list"@ || kind == "source_file"@ {
        walk_spec(t, src, c, sc, st, 0)
    } else {
        st
    }
}

/// Every recorded call is made by a symbol already recorded.
pub open spec fn ex_inv(st: ExState) -> bool {
    forall|i: int| 0 <= i < st.calls.len() ==> (#[trigger] st.calls[i]).0 < st.symbols.len()
}

/// Extraction in progress.
struct Extractor {
    symbols: Vec<ExtractedSymbol>,
    chunks: Vec<ExtractedChunk>,
    imports: Vec<FileImportRecord>,
    edges: Vec<PendingEdge>,
    call_hints: Vec<CallHint>,
    test_hints: Vec<TestHint>,
    impl_hints: Vec<ImplHint>,
    names: QualnameCounter,
}

/// The view of a call hint.
pub open spec fn call_view(h: CallHint) -> CallV {
    (h.caller_local, h.raw_target@, string_views(h.normalized_targets@), h.line)
}

impl Extractor {
    /// What the extractor has produced.
    spec fn view(&self) -> ExState {
        ExState {
            symbols: self.symbols@.map_values(|s: ExtractedSymbol| sym_view(s)),
            chunks: self.chunks@.map_values(|c: ExtractedChunk| chunk_view(c)),
            imports: self.imports@.map_values(|r: FileImportRecord| import_view(r)),
            edges: self.edges@.map_values(|e: PendingEdge| crate::extract::edge_view(e)),
            calls: self.call_hints@.map_values(|h: CallHint| call_view(h)),
            tests: self.test_hints@.map_values(|h: TestHint| (h.caller_local, h.target_hint@)),
            impls: self.impl_hints@.map_values(|h: ImplHint| (h.impl_local, h.trait_name@)),
            issued: self.names.issued(),
        }
    }

    /// Adds a symbol, its chunk and, inside another symbol, the containment
    /// edge; returns its local id.
    fn push_symbol(&mut self, sym: ExtractedSymbol, content: Vec<char>) -> (r: usize)
        requires
        ensures
            ex_inv(old(self).view()) ==> ex_inv(final(self).view()),
            r == old(self).symbols@.len(),
            final(self).view() == push_symbol_spec(old(self).view(), sym_view(sym), content@),
    {
        let local = self.symbols.len();
        let ghost v0 = self.view();
        let ghost sv = sym_view(sym);
        let chunk = crate::extract::chunk_for_symbol(
            sym.record.kind.as_str(),
            sym.record.start_line,
            sym.record.end_line,
            sym.record.summary.clone(),
            string_of(content.as_slice()),
        );
        let ec = ExtractedChunk { record: chunk, symbol_local: Some(local) };
        let parent = sym.parent_local;
        self.symbols.push(sym);
        self.chunks.push(ec);
        if parent.is_some() {
            self.edges.push(
                PendingEdge { from_local: parent, to_local: Some(local), edge_type: EdgeType::Contains, evidence: None },
            );
        }
        proof {
            let v1 = self.view();
            let target = push_symbol_spec(v0, sv, content@);
            assert(v1.symbols =~= target.symbols);
            assert(v1.chunks =~= target.chunks);
            assert(v1.edges =~= target.edges);
            assert(v1.imports =~= target.imports);
            assert(v1.calls =~= target.calls);
            assert(v1.tests =~= target.tests);
            assert(v1.impls =~= target.impls);
        }
        local
    }
}

/// Reads the symbol record of node `i`.
fn make_symbol(
    tree: &SyntaxTree,
    src: &Vec<char>,
    source: &str,
    i: usize,
    kind: SymbolKind,
    name: String,
    qualname: String,
    signature: Option<String>,
    is_async: bool,
    is_test: bool,
    return_type: Option<String>,
    parent: Option<usize>,
) -> (r: ExtractedSymbol)
    requires
        i < tree.nodes@.len(),
        tree_wf(tree.nodes@, src@.len()),
        src@ == source@,
    ensures
        sym_view(r) == record_spec(
            tree.nodes@,
            src@,
            i as int,
            kind,
            name@,
            qualname@,
            opt_view(signature),
            is_async,
            is_test,
            opt_view(return_type),
            parent,
        ),
{
    assert(node_wf(tree.nodes@, i as int, src@.len()));
    let node = &tree.nodes[i];
    let docs = crate::extract::extract_docs_before(source, node.start_row);
    let visibility = find_visibility(tree, src, i);
    let start_line = (node.start_row + 1) as i64;
    let end_line = (node.end_row + 1) as i64;
    let mut record = SymbolRecord {
        id: None,
        file_id: None,
        parent_symbol_id: None,
        kind,
        name,
        qualname,
        signature,
        docs,
        start_line,
        end_line,
        is_async,
        is_test,
        visibility,
        return_type,
        summary: String::new(),
    };
    record.summary = crate::summary::summarize_symbol(&record);
    ExtractedSymbol { record, parent_local: parent }
}

/// The views of a list of strings.
pub(crate) proof fn lemma_views_push(v: Seq<String>, s: String)
    ensures
        string_views(v.push(s)) == string_views(v).push(s@),
{
    assert(string_views(v.push(s)) =~= string_views(v).push(s@));
}

/// A copy of a list of strings.
pub(crate) fn copy_strings(v: &Vec<String>) -> (r: Vec<String>)
    ensures
        string_views(r@) == string_views(v@),
{
    let mut r: Vec<String> = Vec::new();
    let mut i: usize = 0;
    while i < v.len()
        invariant
            i <= v@.len(),
            string_views(r@) == string_views(v@).subrange(0, i as int),
        decreases v@.len() - i,
    {
        let ghost before = r@;
        r.push(v[i].clone());
        proof {
            lemma_views_push(before, v@[i as int]);
        }
        assert(string_views(v@).subrange(0, i + 1) =~= string_views(v@).subrange(0, i as int).push(
            v@[i as int]@,
        ));
        i = i + 1;
    }
    assert(string_views(v@).subrange(0, v@.len() as int) =~= string_views(v@));
    r
}

impl Extractor {
    /// Reads a symbol whose signature is its first line, named `leaf` under
    /// `prefix`; returns its local id.
    fn headed_symbol(
        &mut self,
        tree: &SyntaxTree,
        src: &Vec<char>,
        source: &str,
        i: usize,
        scope_prefix: &Vec<String>,
        parent: Option<usize>,
        kind: SymbolKind,
        name: String,
        prefix: Vec<String>,
        leaf: &str,
    ) -> (r: usize)
        requires
            i < tree.nodes@.len(),
            tree_wf(tree.nodes@, src@.len()),
            src@ == source@,
        ensures
            ex_inv(old(self).view()) ==> ex_inv(final(self).view()),
            r == old(self).symbols@.len(),
            final(self).view() == headed_symbol_spec(
                tree.nodes@,
                src@,
                i as int,
                ScopeView { prefix: string_views(scope_prefix@), parent },
                old(self).view(),
                kind,
                name@,
                string_views(prefix@),
                leaf@,
            ),
    {
        assert(node_wf(tree.nodes@, i as int, src@.len()));
        let line = tree.nodes[i].start_row + 1;
        let ghost v0 = self.view();
        let qualname = self.names.next_qualname(prefix, leaf, line);
        let ghost v1 = self.view();
        assert(v1 =~= ExState { issued: v1.issued, ..v0 });
        let signature = head_line(tree, src, i);
        let sym = make_symbol(
            tree,
            src,
            source,
            i,
            kind,
            name,
            qualname,
            Some(signature),
            false,
            false,
            None,
            parent,
        );
        let content = node_text(tree, src, i);
        self.push_symbol(sym, content)
    }
}

impl Extractor {
    /// Records the calls in the subtree of `body`, made by symbol `caller`.
    fn collect_call_hints(&mut self, tree: &SyntaxTree, src: &Vec<char>, body: usize, caller: usize)
        requires
            caller < old(self).symbols@.len(),
            body < tree.nodes@.len(),
            tree_wf(tree.nodes@, src@.len()),
        ensures
            ex_inv(old(self).view()) ==> ex_inv(final(self).view()),
            final(self).view() == (ExState {
                calls: dfs_calls(tree.nodes@, src@, seq![body], caller, old(self).view().calls, tree.nodes@.len()),
                ..old(self).view()
            }),
    {
        let ghost t = tree.nodes@;
        let ghost v0 = self.view();
        assert(v0.symbols.len() == self.symbols@.len());
        let mut stack: Vec<usize> = Vec::new();
        stack.push(body);
        assert(stack@ =~= seq![body]);
        let mut fuel: usize = tree.nodes.len();
        while fuel > 0 && stack.len() > 0
            invariant
                t == tree.nodes@,
                tree_wf(t, src@.len()),
                forall|q: int| 0 <= q < stack@.len() ==> #[trigger] stack@[q] < t.len(),
                self.view() == (ExState { calls: self.view().calls, ..v0 }),
                caller < v0.symbols.len(),
                ex_inv(v0) ==> ex_inv(self.view()),
                dfs_calls(t, src@, seq![body], caller, v0.calls, t.len()) == dfs_calls(
                    t,
                    src@,
                    stack@,
                    caller,
                    self.view().calls,
                    fuel as nat,
                ),
            decreases fuel,
        {
            let ghost before = self.view();
            let ghost st = stack@;
            let cur = stack.pop().unwrap();
            assert(stack@ =~= st.drop_last());
            assert(cur == st.last());
            assert(node_wf(t, cur as int, src@.len()));
            if tree.nodes[cur].kind == "call_expression".to_owned() {
                match child_by_field(tree, cur, "function") {
                    Some(f) => {
                        proof {
                            lemma_field_pos_bound(t[cur as int].fields@, "function"@, t[cur as int].fields@.len());
                        }
                        let text = node_text(tree, src, f);
                        let raw = string_of(collapse_chars(text.as_slice()).as_slice());
                        let targets = crate::extract::normalize_call_target(raw.as_str());
                        proof {
                            let chosen = sorted_targets(raw@);
                            assert(crate::git::sorted_strict(string_views(targets@))
                                && string_views(targets@).to_set() == call_target_candidates(raw@));
                            crate::git::lemma_sorted_unique(string_views(targets@), chosen);
                        }
                        let line = tree.nodes[cur].start_row + 1;
                        let h = CallHint { caller_local: caller, raw_target: raw, normalized_targets: targets, line };
                        let ghost hv = call_view(h);
                        self.call_hints.push(h);
                        assert(self.view().calls =~= before.calls.push(hv));
                        assert(ex_inv(v0) ==> ex_inv(self.view())) by {
                            if ex_inv(v0) {
                                assert forall|q: int| 0 <= q < self.view().calls.len() implies (#[trigger] self.view().calls[q]).0
                                    < self.view().symbols.len() by {
                                    if q < before.calls.len() {
                                        assert(self.view().calls[q] == before.calls[q]);
                                    }
                                }
                            }
                        }
                    },
                    None => {},
                }
            }
            let ghost calls_now = self.view().calls;
            let kids = &tree.nodes[cur].named_children;
            let ghost base = stack@;
            let mut k: usize = 0;
            while k < kids.len()
                invariant
                    k <= kids@.len(),
                    kids@ == t[cur as int].named_children@,
                    node_wf(t, cur as int, src@.len()),
                    stack@ == base + kids@.subrange(0, k as int),
                    forall|q: int| 0 <= q < base.len() ==> #[trigger] base[q] < t.len(),
                decreases kids@.len() - k,
            {
                stack.push(kids[k]);
                assert(stack@ =~= base + kids@.subrange(0, k + 1));
                k = k + 1;
            }
            assert(kids@.subrange(0, kids@.len() as int) =~= kids@);
            assert forall|q: int| 0 <= q < stack@.len() implies #[trigger] stack@[q] < t.len() by {
                if q >= base.len() {
                    assert(stack@[q] == kids@[q - base.len()]);
                }
            }
            fuel = fuel - 1;
        }
    }
}

/// Drops every trailing ';'.
fn strip_semicolons_exec(s: &Vec<char>) -> (r: Vec<char>)
    ensures
        r@ == strip_semicolons(s@),
{
    let mut n = s.len();
    assert(s@.subrange(0, n as int) =~= s@);
    while n > 0 && s[n - 1] == ';'
        invariant
            n <= s@.len(),
            strip_semicolons(s@) == strip_semicolons(s@.subrange(0, n as int)),
        decreases n,
    {
        assert(s@.subrange(0, n as int).drop_last() =~= s@.subrange(0, n - 1));
        n = n - 1;
    }
    copy_range(s.as_slice(), 0, n)
}

impl Extractor {
    /// Reads a `use` declaration.
    fn capture_import(&mut self, tree: &SyntaxTree, src: &Vec<char>, i: usize, parent: Option<usize>)
        requires
            i < tree.nodes@.len(),
            tree_wf(tree.nodes@, src@.len()),
        ensures
            ex_inv(old(self).view()) ==> ex_inv(final(self).view()),
            final(self).view() == import_spec(
                tree.nodes@,
                src@,
                i as int,
                ScopeView { prefix: Seq::empty(), parent },
                old(self).view(),
            ),
    {
        let ghost v0 = self.view();
        let raw = node_text(tree, src, i);
        let text = collapse_chars(raw.as_slice());
        let as_sep = chars_of(" as ");
        proof {
            reveal_strlit(" as ");
        }
        let parts = crate::text::split_chars(text.as_slice(), as_sep.as_slice());
        let alias = if parts.len() > 1 {
            assert(parts@.map_values(|v: Vec<char>| v@)[1] == parts@[1]@);
            let a = strip_semicolons_exec(&parts[1]);
            Some(string_of(crate::text::trim_chars(a.as_slice()).as_slice()))
        } else {
            None
        };
        let is_glob = crate::text::contains(text.as_slice(), chars_of("*").as_slice());
        let use_kw = chars_of("use ");
        proof {
            reveal_strlit("use ");
        }
        let body = if crate::text::starts_with(text.as_slice(), use_kw.as_slice()) {
            copy_range(text.as_slice(), 4, text.len())
        } else {
            copy_range(text.as_slice(), 0, text.len())
        };
        assert(text@.subrange(0, text@.len() as int) =~= text@);
        let b = strip_semicolons_exec(&body);
        let path = string_of(crate::text::trim_chars(b.as_slice()).as_slice());
        let ev = crate::text::concat3("{\"import\":", crate::extract::json_quote(path.as_str()).as_str(), "}");
        let rec = FileImportRecord { id: None, file_id: None, import_path: path, alias, is_glob };
        let ghost rv = import_view(rec);
        self.imports.push(rec);
        let e = PendingEdge { from_local: parent, to_local: None, edge_type: EdgeType::Imports, evidence: Some(ev) };
        let ghost ecv = crate::extract::edge_view(e);
        self.edges.push(e);
        proof {
            let target = import_spec(
                tree.nodes@,
                src@,
                i as int,
                ScopeView { prefix: Seq::empty(), parent },
                v0,
            );
            let v1 = self.view();
            assert(v1.imports =~= v0.imports.push(rv));
            assert(v1.edges =~= v0.edges.push(ecv));
            assert(v1.imports =~= target.imports);
            assert(v1.edges =~= target.edges);
        }
    }
}

impl Extractor {
    /// Reads a function item.
    fn capture_function(
        &mut self,
        tree: &SyntaxTree,
        src: &Vec<char>,
        source: &str,
        i: usize,
        prefix: &Vec<String>,
        parent: Option<usize>,
    )
        requires
            i < tree.nodes@.len(),
            tree_wf(tree.nodes@, src@.len()),
            src@ == source@,
        ensures
            ex_inv(old(self).view()) ==> ex_inv(final(self).view()),
            final(self).view() == function_spec(
                tree.nodes@,
                src@,
                i as int,
                ScopeView { prefix: string_views(prefix@), parent },
                old(self).view(),
            ),
    {
        let ghost t = tree.nodes@;
        let ghost v0 = self.view();
        assert(node_wf(t, i as int, src@.len()));
        let name = match field_text(tree, src, i, "name") {
            Some(n) => n,
            None => "anonymous".to_owned(),
        };
        let body = child_by_field(tree, i, "body");
        proof {
            lemma_field_pos_bound(t[i as int].fields@, "body"@, t[i as int].fields@.len());
        }
        let sig_chars = match body {
            Some(b) => {
                assert(node_wf(t, b as int, src@.len()));
                collapse_chars(copy_range(src.as_slice(), tree.nodes[i].start, tree.nodes[b].start).as_slice())
            },
            None => collapse_chars(node_text(tree, src, i).as_slice()),
        };
        let is_async = crate::text::contains(sig_chars.as_slice(), chars_of("async fn").as_slice());
        let is_test = crate::text::contains(sig_chars.as_slice(), chars_of("#[test]").as_slice())
            || crate::text::contains(sig_chars.as_slice(), chars_of("::test").as_slice());
        let signature = string_of(sig_chars.as_slice());
        let line = tree.nodes[i].start_row + 1;
        let qualname = self.names.next_qualname(copy_strings(prefix), name.as_str(), line);
        let ghost v1 = self.view();
        assert(v1 =~= ExState { issued: v1.issued, ..v0 });
        let return_type = field_text(tree, src, i, "return_type");
        let sym = make_symbol(
            tree,
            src,
            source,
            i,
            SymbolKind::Function,
            name.clone(),
            qualname,
            Some(signature),
            is_async,
            is_test,
            return_type,
            parent,
        );
        let content = node_text(tree, src, i);
        let local = self.push_symbol(sym, content);
        let ghost v2 = self.view();
        assert(v2.symbols.len() == self.symbols@.len());
        match body {
            Some(b) => {
                self.collect_call_hints(tree, src, b, local);
            },
            None => {},
        }
        let ghost v3 = self.view();
        if is_test {
            let hints = crate::extract::test_hints_for_name(local, name.as_str());
            let ghost targets = crate::extract::test_hint_targets(name@);
            let mut k: usize = 0;
            let mut hints = hints;
            let ghost all = hints@;
            let total = hints.len();
            while hints.len() > 0
                invariant
                    k <= all.len(),
                    all.len() == total,
                    all.len() == targets.len(),
                    forall|q: int| 0 <= q < all.len() ==> (#[trigger] all[q]).caller_local == local
                        && all[q].target_hint@ == targets[q],
                    hints@ == all.subrange(k as int, all.len() as int),
                    self.view() == (ExState {
                        tests: v3.tests + targets.subrange(0, k as int).map_values(
                            |h: Seq<char>| (local, h),
                        ),
                        ..v3
                    }),
                decreases hints@.len(),
            {
                let ghost before = self.view();
                let h = hints.remove(0);
                assert(h == all[k as int]);
                let ghost hv = (h.caller_local, h.target_hint@);
                self.test_hints.push(h);
                assert(self.view().tests =~= before.tests.push(hv));
                assert(targets.subrange(0, k + 1).map_values(|h: Seq<char>| (local, h)) =~= targets.subrange(
                    0,
                    k as int,
                ).map_values(|h: Seq<char>| (local, h)).push(hv));
                k = k + 1;
                assert(hints@ =~= all.subrange(k as int, all.len() as int));
            }
            assert(targets.subrange(0, targets.len() as int) =~= targets);
        }
    }
}

/// `prefix` with one more segment.
fn with_segment(prefix: &Vec<String>, seg: String) -> (r: Vec<String>)
    ensures
        string_views(r@) == string_views(prefix@).push(seg@),
{
    let mut r = copy_strings(prefix);
    let ghost before = r@;
    r.push(seg);
    proof {
        lemma_views_push(before, seg);
    }
    r
}

impl Extractor {
    /// Reads the named children of `node` as items.
    fn walk_items(
        &mut self,
        tree: &SyntaxTree,
        src: &Vec<char>,
        source: &str,
        node: usize,
        prefix: &Vec<String>,
        parent: Option<usize>,
    )
        requires
            node < tree.nodes@.len(),
            tree_wf(tree.nodes@, src@.len()),
            src@ == source@,
        ensures
            ex_inv(old(self).view()) ==> ex_inv(final(self).view()),
            final(self).view() == walk_spec(
                tree.nodes@,
                src@,
                node as int,
                ScopeView { prefix: string_views(prefix@), parent },
                old(self).view(),
                0,
            ),
        decreases tree.nodes@.len() - node, tree.nodes@[node as int].named_children@.len() + 1,
    {
        let ghost t = tree.nodes@;
        let ghost sc = ScopeView { prefix: string_views(prefix@), parent };
        let ghost v0 = self.view();
        assert(node_wf(t, node as int, src@.len()));
        let kids = &tree.nodes[node].named_children;
        let mut k: usize = 0;
        while k < kids.len()
            invariant
                t == tree.nodes@,
                tree_wf(t, src@.len()),
                src@ == source@,
                node < t.len(),
                kids@ == t[node as int].named_children@,
                node_wf(t, node as int, src@.len()),
                sc == (ScopeView { prefix: string_views(prefix@), parent }),
                k <= kids@.len(),
                ex_inv(v0) ==> ex_inv(self.view()),
                walk_spec(t, src@, node as int, sc, v0, 0) == walk_spec(
                    t,
                    src@,
                    node as int,
                    sc,
                    self.view(),
                    k as int,
                ),
            decreases kids@.len() - k,
        {
            let c = kids[k];
            self.capture_item(tree, src, source, c, prefix, parent);
            k = k + 1;
        }
    }

    /// Reads the body of node `i`, if it has one, in the given scope.
    fn walk_body(
        &mut self,
        tree: &SyntaxTree,
        src: &Vec<char>,
        source: &str,
        i: usize,
        prefix: &Vec<String>,
        parent: Option<usize>,
    )
        requires
            i < tree.nodes@.len(),
            tree_wf(tree.nodes@, src@.len()),
            src@ == source@,
        ensures
            ex_inv(old(self).view()) ==> ex_inv(final(self).view()),
            final(self).view() == body_spec(
                tree.nodes@,
                src@,
                i as int,
                ScopeView { prefix: string_views(prefix@), parent },
                old(self).view(),
            ),
        decreases tree.nodes@.len() - i, tree.nodes@[i as int].named_children@.len() + 1,
    {
        assert(node_wf(tree.nodes@, i as int, src@.len()));
        proof {
            lemma_field_pos_bound(tree.nodes@[i as int].fields@, "body"@, tree.nodes@[i as int].fields@.len());
        }
        match child_by_field(tree, i, "body") {
            Some(b) => {
                self.walk_items(tree, src, source, b, prefix, parent);
            },
            None => {},
        }
    }

    /// Reads item node `c`.
    fn capture_item(
        &mut self,
        tree: &SyntaxTree,
        src: &Vec<char>,
        source: &str,
        c: usize,
        prefix: &Vec<String>,
        parent: Option<usize>,
    )
        requires
            c < tree.nodes@.len(),
            tree_wf(tree.nodes@, src@.len()),
            src@ == source@,
        ensures
            ex_inv(old(self).view()) ==> ex_inv(final(self).view()),
            final(self).view() == item_spec(
                tree.nodes@,
                src@,
                c as int,
                ScopeView { prefix: string_views(prefix@), parent },
                old(self).view(),
            ),
        decreases tree.nodes@.len() - c, tree.nodes@[c as int].named_children@.len() + 3,
    {
        let ghost t = tree.nodes@;
        let ghost v0 = self.view();
        let kind = &tree.nodes[c].kind;
        if *kind == "function_item".to_owned() {
            self.capture_function(tree, src, source, c, prefix, parent);
        } else if *kind == "struct_item".to_owned() {
            self.capture_simple(tree, src, source, c, prefix, parent, SymbolKind::Struct);
        } else if *kind == "enum_item".to_owned() {
            self.capture_simple(tree, src, source, c, prefix, parent, SymbolKind::Enum);
        } else if *kind == "trait_item".to_owned() {
            let name = match field_text(tree, src, c, "name") {
                Some(n) => n,
                None => "Trait".to_owned(),
            };
            let local = self.headed_symbol(
                tree,
                src,
                source,
                c,
                prefix,
                parent,
                SymbolKind::Trait,
                name.clone(),
                copy_strings(prefix),
                name.as_str(),
            );
            let inner = with_segment(prefix, name);
            self.walk_body(tree, src, source, c, &inner, Some(local));
        } else if *kind == "impl_item".to_owned() {
            self.capture_impl(tree, src, source, c, prefix, parent);
        } else if *kind == "mod_item".to_owned() {
            let name = match field_text(tree, src, c, "name") {
                Some(n) => n,
                None => "mod".to_owned(),
            };
            let local = self.headed_symbol(
                tree,
                src,
                source,
                c,
                prefix,
                parent,
                SymbolKind::Module,
                name.clone(),
                copy_strings(prefix),
                name.as_str(),
            );
            let ghost v1 = self.view();
            let e = PendingEdge {
                from_local: parent,
                to_local: Some(local),
                edge_type: EdgeType::DeclaresMod,
                evidence: None,
            };
            let ghost ev = crate::extract::edge_view(e);
            self.edges.push(e);
            assert(self.view() =~= ExState { edges: v1.edges.push(ev), ..v1 });
            let inner = with_segment(prefix, name);
            self.walk_body(tree, src, source, c, &inner, Some(local));
        } else if *kind == "const_item".to_owned() {
            self.capture_simple(tree, src, source, c, prefix, parent, SymbolKind::Const);
        } else if *kind == "static_item".to_owned() {
            self.capture_simple(tree, src, source, c, prefix, parent, SymbolKind::Static);
        } else if *kind == "type_item".to_owned() {
            self.capture_simple(tree, src, source, c, prefix, parent, SymbolKind::TypeAlias);
        } else if *kind == "use_declaration".to_owned() {
            self.capture_import(tree, src, c, parent);
        } else if *kind == "declaration_list".to_owned() || *kind == "source_file".to_owned() {
            self.walk_items(tree, src, source, c, prefix, parent);
        }
    }

    /// Reads a struct, enum, const, static or type alias.
    fn capture_simple(
        &mut self,
        tree: &SyntaxTree,
        src: &Vec<char>,
        source: &str,
        i: usize,
        prefix: &Vec<String>,
        parent: Option<usize>,
        kind: SymbolKind,
    )
        requires
            i < tree.nodes@.len(),
            tree_wf(tree.nodes@, src@.len()),
            src@ == source@,
        ensures
            ex_inv(old(self).view()) ==> ex_inv(final(self).view()),
            final(self).view() == simple_spec(
                tree.nodes@,
                src@,
                i as int,
                ScopeView { prefix: string_views(prefix@), parent },
                old(self).view(),
                kind,
            ),
    {
        let name = match field_text(tree, src, i, "name") {
            Some(n) => n,
            None => kind.as_str().to_owned(),
        };
        let _ = self.headed_symbol(
            tree,
            src,
            source,
            i,
            prefix,
            parent,
            kind,
            name.clone(),
            copy_strings(prefix),
            name.as_str(),
        );
    }

    /// Reads an impl block.
    fn capture_impl(
        &mut self,
        tree: &SyntaxTree,
        src: &Vec<char>,
        source: &str,
        c: usize,
        prefix: &Vec<String>,
        parent: Option<usize>,
    )
        requires
            c < tree.nodes@.len(),
            tree_wf(tree.nodes@, src@.len()),
            src@ == source@,
            tree.nodes@[c as int].kind@ == "impl_item"@,
        ensures
            ex_inv(old(self).view()) ==> ex_inv(final(self).view()),
            final(self).view() == item_spec(
                tree.nodes@,
                src@,
                c as int,
                ScopeView { prefix: string_views(prefix@), parent },
                old(self).view(),
            ),
        decreases tree.nodes@.len() - c, tree.nodes@[c as int].named_children@.len() + 2,
    {
        proof {
            reveal_strlit("impl_item");
            reveal_strlit("function_item");
            reveal_strlit("struct_item");
            reveal_strlit("enum_item");
            reveal_strlit("trait_item");
        }
        let ghost v0 = self.view();
        let type_text = match field_text(tree, src, c, "type") {
            Some(n) => n,
            None => "Type".to_owned(),
        };
        let trait_name = field_text(tree, src, c, "trait");
        let impl_name = match &trait_name {
            Some(tn) => crate::text::concat2(
                crate::text::concat3("impl ", tn.as_str(), " for ").as_str(),
                type_text.as_str(),
            ),
            None => crate::text::concat2("impl ", type_text.as_str()),
        };
        let ty = crate::extract::sanitize_namespace_segment(type_text.as_str());
        let p1 = with_segment(prefix, ty.clone());
        let last = match &trait_name {
            Some(tn) => crate::text::concat3(
                "impl[",
                crate::extract::sanitize_namespace_segment(tn.as_str()).as_str(),
                "]",
            ),
            None => "impl".to_owned(),
        };
        let p2 = with_segment(&p1, last);
        let local = self.headed_symbol(
            tree,
            src,
            source,
            c,
            prefix,
            parent,
            SymbolKind::Impl,
            impl_name,
            p2,
            "__impl__",
        );
        match &trait_name {
            Some(tn) => {
                let ghost v1 = self.view();
                let stripped = crate::extract::strip_generic_suffix(chars_of(tn.as_str()).as_slice());
                let h = ImplHint { impl_local: local, trait_name: string_of(stripped.as_slice()) };
                let ghost hv = (h.impl_local, h.trait_name@);
                self.impl_hints.push(h);
                assert(self.view() =~= ExState { impls: v1.impls.push(hv), ..v1 });
            },
            None => {},
        }
        let method_prefix = match &trait_name {
            Some(tn) => with_segment(&p1, crate::extract::sanitize_namespace_segment(tn.as_str())),
            None => p1,
        };
        let ghost t = tree.nodes@;
        let ghost sc = ScopeView { prefix: string_views(prefix@), parent };
        let ghost tt = name_or(t, src@, c as int, "type"@, "Type"@);
        let ghost tr = field_text_of(src@, t, c as int, "trait"@);
        assert(type_text@ == tt);
        assert(opt_view(trait_name) == tr);
        let ghost spec_name = match tr {
            Some(tn) => "impl "@ + tn + " for "@ + tt,
            None => "impl "@ + tt,
        };
        let ghost v_before_walk = self.view();
        self.walk_body(tree, src, source, c, &method_prefix, Some(local));
        proof {
            let sty = crate::extract::sanitize_segment_spec(tt);
            let sprefix = sc.prefix.push(sty).push(
                match tr {
                    Some(tn) => "impl["@ + crate::extract::sanitize_segment_spec(tn) + "]"@,
                    None => "impl"@,
                },
            );
            assert(string_views(p2@) == sprefix);
            let st1 = headed_symbol_spec(t, src@, c as int, sc, v0, SymbolKind::Impl, spec_name, sprefix, "__impl__"@);
            let st2 = match tr {
                Some(tn) => ExState { impls: st1.impls.push((local, crate::extract::strip_generic_spec(tn))), ..st1 },
                None => st1,
            };
            assert(v_before_walk == st2);
            let mp = match tr {
                Some(tn) => sc.prefix.push(sty).push(crate::extract::sanitize_segment_spec(tn)),
                None => sc.prefix.push(sty),
            };
            assert(string_views(method_prefix@) == mp);
            assert(self.view() == body_spec(t, src@, c as int, ScopeView { prefix: mp, parent: Some(local) }, st2));
            assert(t[c as int].kind@[0] == 'i');
            assert("function_item"@[0] == 'f');
            assert("struct_item"@[0] == 's');
        }
    }
}


/// The state before anything is read.
pub open spec fn empty_state() -> ExState {
    ExState {
        symbols: Seq::empty(),
        chunks: Seq::empty(),
        imports: Seq::empty(),
        edges: Seq::empty(),
        calls: Seq::empty(),
        tests: Seq::empty(),
        impls: Seq::empty(),
        issued: Seq::empty(),
    }
}

/// What reading the items of a file yields, before calls, tests and impl
/// blocks are resolved.
pub open spec fn extraction_spec(
    t: Seq<SyntaxNode>,
    src: Seq<char>,
    crate_name: Option<Seq<char>>,
    mod_path: Option<Seq<char>>,
) -> ExState {
    walk_spec(t, src, 0, ScopeView { prefix: base_prefix_spec(crate_name, mod_path), parent: None }, empty_state(), 0)
}

/// The edges of a file: those found while reading, then one per call, per
/// test guess and per trait impl, each resolved against the file's symbols.
pub open spec fn resolved_edges(st: ExState, symbols: Seq<ExtractedSymbol>) -> Seq<EdgeV> {
    st.edges + st.calls.map_values(|c: CallV| call_edge_v(symbols, c.0, c.1, c.2, c.3)) + st.tests.map_values(
        |h: (usize, Seq<char>)| test_edge_v(symbols, h.0, h.1),
    ) + st.impls.map_values(|h: (usize, Seq<char>)| impl_edge_v(symbols, h.0, h.1))
}

fn copy_opt(s: &Option<String>) -> (r: Option<String>)
    ensures
        opt_view(r) == opt_view(*s),
{
    match s {
        Some(v) => Some(v.clone()),
        None => None,
    }
}

/// A field-by-field copy of a symbol record.
fn copy_record(r: &SymbolRecord) -> (c: SymbolRecord)
    ensures
        sym_view(ExtractedSymbol { record: c, parent_local: None }) == sym_view(
            ExtractedSymbol { record: *r, parent_local: None },
        ),
{
    SymbolRecord {
        id: r.id,
        file_id: r.file_id,
        parent_symbol_id: r.parent_symbol_id,
        kind: r.kind,
        name: r.name.clone(),
        qualname: r.qualname.clone(),
        signature: copy_opt(&r.signature),
        docs: copy_opt(&r.docs),
        start_line: r.start_line,
        end_line: r.end_line,
        is_async: r.is_async,
        is_test: r.is_test,
        visibility: copy_opt(&r.visibility),
        return_type: copy_opt(&r.return_type),
        summary: r.summary.clone(),
    }
}

/// Extracts the symbols, chunks, imports and edges of a parsed file, with the
/// file's summary; `None` when the tree does not fit the source.
pub fn extract_file(tree: &SyntaxTree, source: &str, file: &ScannedFile) -> (r: Option<ExtractedFile>)
    ensures
        r is None <==> !tree_wf(tree.nodes@, source@.len()),
        r matches Some(x) ==> {
            let st = extraction_spec(tree.nodes@, source@, opt_view(file.crate_name), opt_view(file.mod_path));
            &&& x.symbols@.map_values(|s: ExtractedSymbol| sym_view(s)) == st.symbols
            &&& x.chunks@.map_values(|c: ExtractedChunk| chunk_view(c)) == st.chunks
            &&& x.imports@.map_values(|i: FileImportRecord| import_view(i)) == st.imports
            &&& x.edges@.map_values(|e: PendingEdge| edge_view(e)) == resolved_edges(st, x.symbols@)
            &&& x.summary@ == summarize_spec(
                file_parts(
                    opt_view(file.crate_name),
                    opt_view(file.mod_path),
                    x.symbols@.map_values(|s: ExtractedSymbol| s.record),
                ),
            )
        },
{
    let src = chars_of(source);
    if !check_tree(tree, src.len()) {
        return None;
    }
    let prefix = base_prefix(file);
    let mut ex = Extractor {
        symbols: Vec::new(),
        chunks: Vec::new(),
        imports: Vec::new(),
        edges: Vec::new(),
        call_hints: Vec::new(),
        test_hints: Vec::new(),
        impl_hints: Vec::new(),
        names: QualnameCounter::new(),
    };
    assert(ex.view() =~= empty_state());
    ex.walk_items(tree, &src, source, 0, &prefix, None);
    let ghost st = ex.view();
    let Extractor { symbols, chunks, imports, mut edges, call_hints, test_hints, impl_hints, names: _ } = ex;
    assert forall|i: int| 0 <= i < call_hints@.len() implies (#[trigger] call_hints@[i]).caller_local
        < symbols@.len() by {
        assert(st.calls[i] == call_view(call_hints@[i]));
    }
    resolve_hints(&symbols, &call_hints, &test_hints, &impl_hints, &mut edges);
    proof {
        assert(call_hints@.map_values(|h: CallHint| crate::extract::call_edge(symbols@, h)) =~= st.calls.map_values(
            |c: CallV| call_edge_v(symbols@, c.0, c.1, c.2, c.3),
        ));
        assert(test_hints@.map_values(|h: TestHint| crate::extract::test_edge(symbols@, h)) =~= st.tests.map_values(
            |h: (usize, Seq<char>)| test_edge_v(symbols@, h.0, h.1),
        ));
        assert(impl_hints@.map_values(|h: ImplHint| crate::extract::impl_edge(symbols@, h)) =~= st.impls.map_values(
            |h: (usize, Seq<char>)| impl_edge_v(symbols@, h.0, h.1),
        ));
    }
    let mut records: Vec<SymbolRecord> = Vec::new();
    let mut i: usize = 0;
    while i < symbols.len()
        invariant
            i <= symbols@.len(),
            records@.len() == i,
            forall|q: int|
                0 <= q < i ==> (#[trigger] records@[q]).kind == symbols@[q].record.kind && records@[q].is_async
                    == symbols@[q].record.is_async && records@[q].is_test == symbols@[q].record.is_test,
        decreases symbols@.len() - i,
    {
        records.push(copy_record(&symbols[i].record));
        i = i + 1;
    }
    let crate_name = match &file.crate_name {
        Some(c) => Some(c.as_str()),
        None => None,
    };
    let mod_path = match &file.mod_path {
        Some(m) => Some(m.as_str()),
        None => None,
    };
    let summary = summarize_file(crate_name, mod_path, records.as_slice());
    proof {
        let recs = symbols@.map_values(|s: ExtractedSymbol| s.record);
        assert(same_shape(records@, recs));
        lemma_file_parts_shape(opt_view(file.crate_name), opt_view(file.mod_path), records@, recs);
        assert(crate::summary::opt_str(crate_name) == opt_view(file.crate_name));
        assert(crate::summary::opt_str(mod_path) == opt_view(file.mod_path));
    }
    Some(ExtractedFile { symbols, chunks, imports, edges, summary })
}


/// Every symbol has one chunk, at the same place: the chunk of symbol `i`
/// points to it and has its kind and lines.
pub open spec fn chunks_match(st: ExState) -> bool {
    &&& st.chunks.len() == st.symbols.len()
    &&& forall|i: int|
        0 <= i < st.chunks.len() ==> (#[trigger] st.chunks[i]).symbol == Some(i as usize) && st.chunks[i].kind
            == symbol_kind_name(st.symbols[i].kind) && st.chunks[i].start_line == st.symbols[i].start_line
            && st.chunks[i].end_line == st.symbols[i].end_line
}

proof fn lemma_push_symbol_chunks(st: ExState, v: SymView, content: Seq<char>)
    requires
        chunks_match(st),
    ensures
        chunks_match(push_symbol_spec(st, v, content)),
{
    let st2 = push_symbol_spec(st, v, content);
    assert forall|i: int| 0 <= i < st2.chunks.len() implies (#[trigger] st2.chunks[i]).symbol == Some(i as usize)
        && st2.chunks[i].kind == symbol_kind_name(st2.symbols[i].kind) && st2.chunks[i].start_line
        == st2.symbols[i].start_line && st2.chunks[i].end_line == st2.symbols[i].end_line by {
        if i < st.chunks.len() {
            assert(st2.chunks[i] == st.chunks[i]);
            assert(st2.symbols[i] == st.symbols[i]);
        }
    }
}

proof fn lemma_headed_chunks(
    t: Seq<SyntaxNode>,
    src: Seq<char>,
    i: int,
    sc: ScopeView,
    st: ExState,
    kind: SymbolKind,
    name: Seq<char>,
    prefix: Seq<Seq<char>>,
    leaf: Seq<char>,
)
    requires
        chunks_match(st),
    ensures
        chunks_match(headed_symbol_spec(t, src, i, sc, st, kind, name, prefix, leaf)),
{
    let line = (t[i].start_row + 1) as usize;
    let base = crate::extract::qual_base(prefix, leaf);
    let qualname = crate::extract::qualname_for(st.issued, base, line);
    let st1 = ExState { issued: st.issued.push(base), ..st };
    let v = record_spec(t, src, i, kind, name, qualname, Some(head_line_of(src, t, i)), false, false, None, sc.parent);
    lemma_push_symbol_chunks(st1, v, text_of(src, t, i));
}

proof fn lemma_function_chunks(t: Seq<SyntaxNode>, src: Seq<char>, i: int, sc: ScopeView, st: ExState)
    requires
        chunks_match(st),
    ensures
        chunks_match(function_spec(t, src, i, sc, st)),
{
    let name = name_or(t, src, i, "name"@, "anonymous"@);
    let body = field_of(t, i, "body"@);
    let signature = match body {
        Some(b) => collapse(src.subrange(t[i].start as int, t[b as int].start as int)),
        None => collapse(text_of(src, t, i)),
    };
    let is_async = crate::text::seq_contains(signature, "async fn"@);
    let is_test = crate::text::seq_contains(signature, "#[test]"@) || crate::text::seq_contains(
        signature,
        "::test"@,
    );
    let line = (t[i].start_row + 1) as usize;
    let base = crate::extract::qual_base(sc.prefix, name);
    let qualname = crate::extract::qualname_for(st.issued, base, line);
    let st1 = ExState { issued: st.issued.push(base), ..st };
    let v = record_spec(
        t,
        src,
        i,
        SymbolKind::Function,
        name,
        qualname,
        Some(signature),
        is_async,
        is_test,
        field_text_of(src, t, i, "return_type"@),
        sc.parent,
    );
    lemma_push_symbol_chunks(st1, v, text_of(src, t, i));
}

proof fn lemma_walk_chunks(t: Seq<SyntaxNode>, src: Seq<char>, node: int, sc: ScopeView, st: ExState, k: int)
    requires
        chunks_match(st),
    ensures
        chunks_match(walk_spec(t, src, node, sc, st, k)),
    decreases t.len() - node, t[node].named_children@.len() + 1 - k,
{
    if node < 0 || node >= t.len() || k < 0 || k >= t[node].named_children@.len() {
    } else {
        let c = t[node].named_children@[k] as int;
        let st2 = if node < c < t.len() {
            lemma_item_chunks(t, src, c, sc, st);
            item_spec(t, src, c, sc, st)
        } else {
            st
        };
        lemma_walk_chunks(t, src, node, sc, st2, k + 1);
    }
}

proof fn lemma_body_chunks(t: Seq<SyntaxNode>, src: Seq<char>, i: int, sc: ScopeView, st: ExState)
    requires
        chunks_match(st),
    ensures
        chunks_match(body_spec(t, src, i, sc, st)),
    decreases t.len() - i, t[i].named_children@.len() + 1,
{
    match field_of(t, i, "body"@) {
        Some(b) => if 0 <= i < b < t.len() {
            lemma_walk_chunks(t, src, b as int, sc, st, 0);
        },
        None => {},
    }
}

proof fn lemma_item_chunks(t: Seq<SyntaxNode>, src: Seq<char>, c: int, sc: ScopeView, st: ExState)
    requires
        chunks_match(st),
    ensures
        chunks_match(item_spec(t, src, c, sc, st)),
    decreases t.len() - c, t[c].named_children@.len() + 2,
{
    let kind = t[c].kind@;
    if kind == "function_item"@ {
        lemma_function_chunks(t, src, c, sc, st);
    } else if kind == "struct_item"@ {
        lemma_simple_chunks(t, src, c, sc, st, SymbolKind::Struct);
    } else if kind == "enum_item"@ {
        lemma_simple_chunks(t, src, c, sc, st, SymbolKind::Enum);
    } else if kind == "trait_item"@ {
        let name = name_or(t, src, c, "name"@, "Trait"@);
        let local = st.symbols.len() as usize;
        lemma_headed_chunks(t, src, c, sc, st, SymbolKind::Trait, name, sc.prefix, name);
        let st1 = headed_symbol_spec(t, src, c, sc, st, SymbolKind::Trait, name, sc.prefix, name);
        lemma_body_chunks(t, src, c, ScopeView { prefix: sc.prefix.push(name), parent: Some(local) }, st1);
    } else if kind == "impl_item"@ {
        let type_text = name_or(t, src, c, "type"@, "Type"@);
        let trait_name = field_text_of(src, t, c, "trait"@);
        let impl_name = match trait_name {
            Some(tn) => "impl "@ + tn + " for "@ + type_text,
            None => "impl "@ + type_text,
        };
        let ty = crate::extract::sanitize_segment_spec(type_text);
        let prefix = sc.prefix.push(ty).push(
            match trait_name {
                Some(tn) => "impl["@ + crate::extract::sanitize_segment_spec(tn) + "]"@,
                None => "impl"@,
            },
        );
        let local = st.symbols.len() as usize;
        lemma_headed_chunks(t, src, c, sc, st, SymbolKind::Impl, impl_name, prefix, "__impl__"@);
        let st1 = headed_symbol_spec(t, src, c, sc, st, SymbolKind::Impl, impl_name, prefix, "__impl__"@);
        let st2 = match trait_name {
            Some(tn) => ExState {
                impls: st1.impls.push((local, crate::extract::strip_generic_spec(tn))),
                ..st1
            },
            None => st1,
        };
        let method_prefix = match trait_name {
            Some(tn) => sc.prefix.push(ty).push(crate::extract::sanitize_segment_spec(tn)),
            None => sc.prefix.push(ty),
        };
        lemma_body_chunks(t, src, c, ScopeView { prefix: method_prefix, parent: Some(local) }, st2);
    } else if kind == "mod_item"@ {
        let name = name_or(t, src, c, "name"@, "mod"@);
        let local = st.symbols.len() as usize;
        lemma_headed_chunks(t, src, c, sc, st, SymbolKind::Module, name, sc.prefix, name);
        let st1 = headed_symbol_spec(t, src, c, sc, st, SymbolKind::Module, name, sc.prefix, name);
        let st2 = ExState {
            edges: st1.edges.push((sc.parent, Some(local), EdgeType::DeclaresMod, None)),
            ..st1
        };
        lemma_body_chunks(t, src, c, ScopeView { prefix: sc.prefix.push(name), parent: Some(local) }, st2);
    } else if kind == "const_item"@ {
        lemma_simple_chunks(t, src, c, sc, st, SymbolKind::Const);
    } else if kind == "static_item"@ {
        lemma_simple_chunks(t, src, c, sc, st, SymbolKind::Static);
    } else if kind == "type_item"@ {
        lemma_simple_chunks(t, src, c, sc, st, SymbolKind::TypeAlias);
    } else if kind == "use_declaration"@ {
    } else if kind == "declaration_list"@ || kind == "source_file"@ {
        lemma_walk_chunks(t, src, c, sc, st, 0);
    }
}

proof fn lemma_simple_chunks(t: Seq<SyntaxNode>, src: Seq<char>, c: int, sc: ScopeView, st: ExState, sk: SymbolKind)
    requires
        chunks_match(st),
    ensures
        chunks_match(simple_spec(t, src, c, sc, st, sk)),
{
    let name = name_or(t, src, c, "name"@, symbol_kind_name(sk));
    lemma_headed_chunks(t, src, c, sc, st, sk, name, sc.prefix, name);
}

/// Extraction gives every symbol exactly one chunk, at the same place: the
/// chunk of symbol `i` points to it and has its kind and lines.
pub proof fn lemma_extraction_chunks(
    t: Seq<SyntaxNode>,
    src: Seq<char>,
    crate_name: Option<Seq<char>>,
    mod_path: Option<Seq<char>>,
)
    ensures
        chunks_match(extraction_spec(t, src, crate_name, mod_path)),
{
    lemma_walk_chunks(
        t,
        src,
        0,
        ScopeView { prefix: base_prefix_spec(crate_name, mod_path), parent: None },
        empty_state(),
        0,
    );
}

} // verus!
