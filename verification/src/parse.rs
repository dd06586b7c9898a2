//! Parsing Rust source with tree-sitter into the plain tree the extractor
//! reads: nodes in pre-order, with character offsets, children, named
//! children and fields.

use vstd::prelude::*;

use crate::syntax::{SyntaxNode, SyntaxTree};
use crate::text::chars_of;

verus! {

/// One node as tree-sitter reports it while its tree is walked in
/// pre-order: its kind, whether it is named, the field it fills in its
/// parent, its depth below the root, its byte range in the UTF-8 source and
/// its first and last rows.
pub struct RawNode {
    pub kind: String,
    pub named: bool,
    pub field: Option<String>,
    pub depth: u32,
    pub start_byte: usize,
    pub end_byte: usize,
    pub start_row: usize,
    pub end_row: usize,
}

/// Plain view of a reported node.
pub struct RawNodeView {
    pub kind: Seq<char>,
    pub named: bool,
    pub field: Option<Seq<char>>,
    pub depth: u32,
    pub start_byte: usize,
    pub end_byte: usize,
    pub start_row: usize,
    pub end_row: usize,
}

/// The view of a reported node.
pub open spec fn raw_view(n: RawNode) -> RawNodeView {
    RawNodeView {
        kind: n.kind@,
        named: n.named,
        field: match n.field {
            Some(f) => Some(f@),
            None => None,
        },
        depth: n.depth,
        start_byte: n.start_byte,
        end_byte: n.end_byte,
        start_row: n.start_row,
        end_row: n.end_row,
    }
}

/// The views of a list of reported nodes, if there is one.
pub open spec fn raw_views(r: Option<Vec<RawNode>>) -> Option<Seq<RawNodeView>> {
    match r {
        Some(v) => Some(v@.map_values(|n: RawNode| raw_view(n))),
        None => None,
    }
}

/// What tree-sitter with the Rust grammar reports for a source: the nodes
/// of its tree in pre-order, or none when no tree comes back.
pub uninterp spec fn rust_syntax(source: Seq<char>) -> Option<Seq<RawNodeView>>;

/// Calls `Parser::parse` with the grammar of `tree_sitter_rust` on the
/// source and walks the tree with a `TreeCursor` in pre-order, reporting
/// each node one for one; none when the grammar cannot be set or no tree
/// comes back. The result is named `rust_syntax(source)`.
#[verifier::external_body]
fn parse_rust(source: &str) -> (r: Option<Vec<RawNode>>)
    ensures
        raw_views(r) == rust_syntax(source@),
{
    let mut p = tree_sitter::Parser::new();
    p.set_language(&tree_sitter_rust::language()).ok()?;
    let tree = p.parse(source, None)?;
    let (mut c, mut out) = (tree.walk(), Vec::new());
    loop {
        let n = c.node();
        out.push(RawNode { kind: n.kind().into(), named: n.is_named(), field: c.field_name().map(Into::into), depth: c.depth(), start_byte: n.start_byte(), end_byte: n.end_byte(), start_row: n.start_position().row, end_row: n.end_position().row });
        if !c.goto_first_child() {
            while !c.goto_next_sibling() {
                if !c.goto_parent() {
                    return Some(out);
                }
            }
        }
    }
}

/// The number of bytes of `c` in UTF-8.
pub open spec fn utf8_width(c: char) -> nat {
    let n = c as u32;
    if n < 0x80 {
        1
    } else if n < 0x800 {
        2
    } else if n < 0x10000 {
        3
    } else {
        4
    }
}

/// Where character `i` of `s` starts in its UTF-8 encoding (for `i ==
/// s.len()`, the length of the encoding).
pub open spec fn byte_offset(s: Seq<char>, i: int) -> nat
    decreases i,
{
    if i <= 0 {
        0
    } else {
        byte_offset(s, i - 1) + utf8_width(s[i - 1])
    }
}

/// The character index at which byte `b` of the UTF-8 encoding of `s`
/// starts a character, or `s.len()` when `b` is the end; none when `b` falls
/// inside a character or past the end.
pub open spec fn char_at_byte(s: Seq<char>, b: int) -> Option<int> {
    if exists|i: int| 0 <= i <= s.len() && byte_offset(s, i) == b {
        Some(choose|i: int| 0 <= i <= s.len() && byte_offset(s, i) == b)
    } else {
        None
    }
}

/// Byte offsets grow with the character index.
proof fn lemma_byte_offset_grows(s: Seq<char>, i: int, j: int)
    requires
        0 <= i < j,
    ensures
        byte_offset(s, i) < byte_offset(s, j),
    decreases j,
{
    if i < j - 1 {
        lemma_byte_offset_grows(s, i, j - 1);
    }
}

/// The character at a byte offset is the one whose offset it is.
proof fn lemma_char_at_byte(s: Seq<char>, i: int)
    requires
        0 <= i <= s.len(),
    ensures
        char_at_byte(s, byte_offset(s, i) as int) == Some(i),
{
    let b = byte_offset(s, i) as int;
    let k = choose|k: int| 0 <= k <= s.len() && byte_offset(s, k) == b;
    if k < i {
        lemma_byte_offset_grows(s, k, i);
    } else if k > i {
        lemma_byte_offset_grows(s, i, k);
    }
}

fn utf8_width_exec(c: char) -> (r: usize)
    ensures
        r == utf8_width(c),
{
    let n = c as u32;
    if n < 0x80 {
        1
    } else if n < 0x800 {
        2
    } else if n < 0x10000 {
        3
    } else {
        4
    }
}

/// For each byte offset up to the end of the UTF-8 encoding of `s`, the
/// character starting there; none when the encoding is too long to index.
fn byte_table(s: &Vec<char>) -> (r: Option<Vec<Option<usize>>>)
    ensures
        r is None <==> byte_offset(s@, s@.len() as int) >= usize::MAX,
        r matches Some(t) ==> t@.len() == byte_offset(s@, s@.len() as int) + 1 && forall|b: int|
            0 <= b < t@.len() ==> t@[b] == (match char_at_byte(s@, b) {
                Some(i) => Some(i as usize),
                None => None,
            }),
{
    let mut total: usize = 0;
    let mut i: usize = 0;
    while i < s.len()
        invariant
            i <= s@.len(),
            total == byte_offset(s@, i as int),
        decreases s@.len() - i,
    {
        let w = utf8_width_exec(s[i]);
        if total >= usize::MAX - w {
            proof {
                if i + 1 < s@.len() {
                    lemma_byte_offset_grows(s@, i + 1, s@.len() as int);
                }
            }
            return None;
        }
        total = total + w;
        i = i + 1;
    }
    if total == usize::MAX {
        return None;
    }
    let mut t: Vec<Option<usize>> = Vec::new();
    let mut b: usize = 0;
    while b <= total
        invariant
            b <= total + 1,
            total < usize::MAX,
            t@.len() == b,
            forall|q: int| 0 <= q < b ==> t@[q] is None,
        decreases total + 1 - b,
    {
        t.push(None);
        b = b + 1;
    }
    let mut off: usize = 0;
    let mut k: usize = 0;
    while k < s.len()
        invariant
            k <= s@.len(),
            total == byte_offset(s@, s@.len() as int),
            total < usize::MAX,
            t@.len() == total + 1,
            off == byte_offset(s@, k as int),
            forall|q: int| 0 <= q < k ==> #[trigger] t@[byte_offset(s@, q) as int] == Some(q as usize),
            forall|c: int|
                0 <= c < t@.len() ==> (#[trigger] t@[c] matches Some(q) ==> q < k && byte_offset(s@, q as int)
                    == c),
        decreases s@.len() - k,
    {
        proof {
            lemma_byte_offset_grows(s@, k as int, s@.len() as int);
            assert forall|q: int| 0 <= q < k implies byte_offset(s@, q) < off by {
                lemma_byte_offset_grows(s@, q, k as int);
            }
            if k + 1 < s@.len() {
                lemma_byte_offset_grows(s@, k + 1, s@.len() as int);
            }
        }
        t.set(off, Some(k));
        off = off + utf8_width_exec(s[k]);
        k = k + 1;
    }
    proof {
        assert forall|q: int| 0 <= q < k implies byte_offset(s@, q) < off by {
            lemma_byte_offset_grows(s@, q, k as int);
        }
    }
    t.set(off, Some(k));
    assert forall|c: int| 0 <= c < t@.len() implies t@[c] == (match char_at_byte(s@, c) {
        Some(i) => Some(i as usize),
        None => None,
    }) by {
        match t@[c] {
            Some(q) => {
                lemma_char_at_byte(s@, q as int);
            },
            None => {
                if exists|i: int| 0 <= i <= s@.len() && byte_offset(s@, i) == c {
                    let i = choose|i: int| 0 <= i <= s@.len() && byte_offset(s@, i) == c;
                    assert(t@[byte_offset(s@, i) as int] == Some(i as usize));
                }
            },
        }
    }
    Some(t)
}

/// Whether the depths describe a walk in pre-order: the first node is the
/// root, at depth 0, and every later node is below the root and at most one
/// level below the node before it.
pub open spec fn depths_ok(raw: Seq<RawNodeView>) -> bool {
    &&& raw.len() > 0 ==> raw[0].depth == 0
    &&& forall|j: int| 0 < j < raw.len() ==> 1 <= #[trigger] raw[j].depth <= raw[j - 1].depth + 1
}

/// The last of the first `n` nodes at depth `d`, or -1.
pub open spec fn last_at_depth(raw: Seq<RawNodeView>, n: int, d: int) -> int
    decreases n,
{
    if n <= 0 {
        -1
    } else if raw[n - 1].depth == d {
        n - 1
    } else {
        last_at_depth(raw, n - 1, d)
    }
}

/// The parent of node `j`: the last node before it one level up.
pub open spec fn parent_of(raw: Seq<RawNodeView>, j: int) -> int {
    last_at_depth(raw, j, raw[j].depth - 1)
}

/// The children of node `p` among the first `n` nodes, in order.
pub open spec fn kids(raw: Seq<RawNodeView>, p: int, n: int) -> Seq<usize>
    decreases n,
{
    if n <= 1 {
        Seq::empty()
    } else if parent_of(raw, n - 1) == p {
        kids(raw, p, n - 1).push((n - 1) as usize)
    } else {
        kids(raw, p, n - 1)
    }
}

/// The named children of node `p` among the first `n` nodes, in order.
pub open spec fn named_kids(raw: Seq<RawNodeView>, p: int, n: int) -> Seq<usize>
    decreases n,
{
    if n <= 1 {
        Seq::empty()
    } else if parent_of(raw, n - 1) == p && raw[n - 1].named {
        named_kids(raw, p, n - 1).push((n - 1) as usize)
    } else {
        named_kids(raw, p, n - 1)
    }
}

/// The children of node `p` among the first `n` nodes that fill a field,
/// with the field's name, in order.
pub open spec fn field_kids(raw: Seq<RawNodeView>, p: int, n: int) -> Seq<(Seq<char>, usize)>
    decreases n,
{
    if n <= 1 {
        Seq::empty()
    } else if parent_of(raw, n - 1) == p && raw[n - 1].field is Some {
        field_kids(raw, p, n - 1).push((raw[n - 1].field->0, (n - 1) as usize))
    } else {
        field_kids(raw, p, n - 1)
    }
}

/// The view of a node's fields.
pub open spec fn fields_view(f: Seq<(String, usize)>) -> Seq<(Seq<char>, usize)> {
    f.map_values(|x: (String, usize)| (x.0@, x.1))
}

/// Whether every reported byte range starts and ends where a character of
/// `s` starts, or at the end.
pub open spec fn ranges_ok(raw: Seq<RawNodeView>, s: Seq<char>) -> bool {
    forall|i: int|
        0 <= i < raw.len() ==> char_at_byte(s, (#[trigger] raw[i]).start_byte as int) is Some && char_at_byte(
            s,
            raw[i].end_byte as int,
        ) is Some
}

/// Whether node `n` carries the kind, rows and byte range (as character
/// offsets) of reported node `i`.
pub open spec fn head_from(raw: Seq<RawNodeView>, s: Seq<char>, n: SyntaxNode, i: int) -> bool {
    let r = raw[i];
    &&& n.kind@ == r.kind
    &&& char_at_byte(s, r.start_byte as int) == Some(n.start as int)
    &&& char_at_byte(s, r.end_byte as int) == Some(n.end as int)
    &&& n.start_row == r.start_row
    &&& n.end_row == r.end_row
}

/// Whether node `n` lists the children, named children and fields of
/// reported node `i` among the first `m` nodes.
pub open spec fn kids_from(raw: Seq<RawNodeView>, n: SyntaxNode, i: int, m: int) -> bool {
    &&& n.children@ == kids(raw, i, m)
    &&& n.named_children@ == named_kids(raw, i, m)
    &&& fields_view(n.fields@) == field_kids(raw, i, m)
}

/// Whether node `n` is reported node `i` among the first `m`: same kind and
/// rows, its byte range as character offsets, and its children, named
/// children and fields among those nodes.
pub open spec fn node_from(raw: Seq<RawNodeView>, s: Seq<char>, n: SyntaxNode, i: int, m: int) -> bool {
    head_from(raw, s, n, i) && kids_from(raw, n, i, m)
}

proof fn lemma_last_at_depth_bound(raw: Seq<RawNodeView>, n: int, d: int)
    requires
        n >= 0,
    ensures
        last_at_depth(raw, n, d) < n,
        -1 <= last_at_depth(raw, n, d),
        last_at_depth(raw, n, d) >= 0 ==> raw[last_at_depth(raw, n, d)].depth == d,
    decreases n,
{
    if n > 0 {
        lemma_last_at_depth_bound(raw, n - 1, d);
    }
}

/// The character found at a byte is within the text and starts there.
proof fn lemma_char_at_byte_found(s: Seq<char>, b: int)
    requires
        char_at_byte(s, b) is Some,
    ensures
        0 <= char_at_byte(s, b)->0 <= s.len(),
        byte_offset(s, char_at_byte(s, b)->0) == b,
{
}

/// A byte that starts a character lies within the encoding.
proof fn lemma_char_at_byte_bound(s: Seq<char>, b: int)
    requires
        char_at_byte(s, b) is Some,
    ensures
        b <= byte_offset(s, s.len() as int),
{
    let i = char_at_byte(s, b)->0;
    if i < s.len() {
        lemma_byte_offset_grows(s, i, s.len() as int);
    }
}

/// Nodes at or after `i` are no children of node `i` yet.
proof fn lemma_no_kids_yet(raw: Seq<RawNodeView>, i: int, n: int)
    requires
        n <= i + 1,
    ensures
        kids(raw, i, n) == Seq::<usize>::empty(),
        named_kids(raw, i, n) == Seq::<usize>::empty(),
        field_kids(raw, i, n) == Seq::<(Seq<char>, usize)>::empty(),
    decreases n,
{
    if n > 1 {
        lemma_no_kids_yet(raw, i, n - 1);
        lemma_last_at_depth_bound(raw, n - 1, raw[n - 1].depth - 1);
    }
}

/// Adds `j` to the children of node `p`, to its named children when it is
/// named, and to its fields when it fills one.
fn link_child(nodes: &mut Vec<SyntaxNode>, p: usize, j: usize, named: bool, field: &Option<String>)
    requires
        p < old(nodes)@.len(),
    ensures
        final(nodes)@.len() == old(nodes)@.len(),
        forall|q: int| 0 <= q < old(nodes)@.len() && q != p ==> final(nodes)@[q] == old(nodes)@[q],
        final(nodes)@[p as int].kind == old(nodes)@[p as int].kind,
        final(nodes)@[p as int].start == old(nodes)@[p as int].start,
        final(nodes)@[p as int].end == old(nodes)@[p as int].end,
        final(nodes)@[p as int].start_row == old(nodes)@[p as int].start_row,
        final(nodes)@[p as int].end_row == old(nodes)@[p as int].end_row,
        final(nodes)@[p as int].children@ == old(nodes)@[p as int].children@.push(j),
        final(nodes)@[p as int].named_children@ == (if named {
            old(nodes)@[p as int].named_children@.push(j)
        } else {
            old(nodes)@[p as int].named_children@
        }),
        fields_view(final(nodes)@[p as int].fields@) == (match field {
            Some(f) => fields_view(old(nodes)@[p as int].fields@).push((f@, j)),
            None => fields_view(old(nodes)@[p as int].fields@),
        }),
{
    nodes[p].children.push(j);
    if named {
        nodes[p].named_children.push(j);
    }
    match field {
        Some(f) => {
            let ghost fv = fields_view(nodes@[p as int].fields@);
            nodes[p].fields.push((f.clone(), j));
            assert(fields_view(nodes@[p as int].fields@) =~= fv.push((f@, j)));
        },
        None => {},
    }
}

/// What reading node `j` adds to the child lists: it joins those of its
/// parent and no others.
proof fn lemma_kids_step(raw: Seq<RawNodeView>, j: int, i: int)
    requires
        0 < j < raw.len(),
    ensures
        kids(raw, i, j + 1) == (if parent_of(raw, j) == i {
            kids(raw, i, j).push(j as usize)
        } else {
            kids(raw, i, j)
        }),
        named_kids(raw, i, j + 1) == (if parent_of(raw, j) == i && raw[j].named {
            named_kids(raw, i, j).push(j as usize)
        } else {
            named_kids(raw, i, j)
        }),
        field_kids(raw, i, j + 1) == (if parent_of(raw, j) == i && raw[j].field is Some {
            field_kids(raw, i, j).push((raw[j].field->0, j as usize))
        } else {
            field_kids(raw, i, j)
        }),
{
}

/// The nodes of the tree, built from the reported ones; none when their
/// depths do not describe a pre-order walk or a byte range does not fall
/// on character boundaries.
#[verifier::rlimit(50)]
fn build_nodes(raw: &Vec<RawNode>, chars: &Vec<char>, table: &Vec<Option<usize>>) -> (r: Option<Vec<SyntaxNode>>)
    requires
        table@.len() == byte_offset(chars@, chars@.len() as int) + 1,
        forall|b: int|
            0 <= b < table@.len() ==> table@[b] == (match char_at_byte(chars@, b) {
                Some(i) => Some(i as usize),
                None => None,
            }),
    ensures
        ({
            let rv = raw@.map_values(|n: RawNode| raw_view(n));
            &&& r is Some <==> depths_ok(rv) && ranges_ok(rv, chars@)
            &&& r matches Some(t) ==> t@.len() == rv.len() && forall|i: int|
                0 <= i < rv.len() ==> node_from(rv, chars@, #[trigger] t@[i], i, rv.len() as int)
        }),
{
    let ghost rv = raw@.map_values(|n: RawNode| raw_view(n));
    let mut nodes: Vec<SyntaxNode> = Vec::new();
    let mut stack: Vec<usize> = Vec::new();
    let mut j: usize = 0;
    while j < raw.len()
        invariant
            j <= raw@.len(),
            rv == raw@.map_values(|n: RawNode| raw_view(n)),
            table@.len() == byte_offset(chars@, chars@.len() as int) + 1,
            forall|b: int|
                0 <= b < table@.len() ==> table@[b] == (match char_at_byte(chars@, b) {
                    Some(i) => Some(i as usize),
                    None => None,
                }),
            nodes@.len() == j,
            j > 0 ==> rv[0].depth == 0,
            forall|q: int| 0 < q < j ==> 1 <= #[trigger] rv[q].depth <= rv[q - 1].depth + 1,
            forall|q: int|
                0 <= q < j ==> char_at_byte(chars@, (#[trigger] rv[q]).start_byte as int) is Some && char_at_byte(
                    chars@,
                    rv[q].end_byte as int,
                ) is Some,
            j == 0 ==> stack@.len() == 0,
            j > 0 ==> stack@.len() == rv[j - 1].depth + 1,
            forall|k: int| 0 <= k < stack@.len() ==> #[trigger] stack@[k] == last_at_depth(rv, j as int, k),
            forall|q: int| 0 <= q < j ==> head_from(rv, chars@, #[trigger] nodes@[q], q),
            forall|q: int| 0 <= q < j ==> kids_from(rv, #[trigger] nodes@[q], q, j as int),
        decreases raw@.len() - j,
    {
        let r = &raw[j];
        assert(raw_view(raw@[j as int]) == rv[j as int]);
        assert(rv[j as int].depth == r.depth);
        if j == 0 {
            if r.depth != 0 {
                return None;
            }
        } else if r.depth == 0 || (r.depth as usize) > stack.len() {
            assert(!(1 <= rv[j as int].depth <= rv[j - 1].depth + 1));
            return None;
        }
        if r.start_byte >= table.len() || r.end_byte >= table.len() {
            proof {
                if char_at_byte(chars@, r.start_byte as int) is Some {
                    lemma_char_at_byte_bound(chars@, r.start_byte as int);
                }
                if char_at_byte(chars@, r.end_byte as int) is Some {
                    lemma_char_at_byte_bound(chars@, r.end_byte as int);
                }
            }
            assert(!(char_at_byte(chars@, rv[j as int].start_byte as int) is Some && char_at_byte(
                chars@,
                rv[j as int].end_byte as int,
            ) is Some));
            return None;
        }
        assert(rv[j as int].start_byte == r.start_byte && rv[j as int].end_byte == r.end_byte);
        let start = match table[r.start_byte] {
            Some(c) => c,
            None => {
                assert(char_at_byte(chars@, rv[j as int].start_byte as int) is None);
                return None;
            },
        };
        let end = match table[r.end_byte] {
            Some(c) => c,
            None => {
                assert(char_at_byte(chars@, rv[j as int].end_byte as int) is None);
                return None;
            },
        };
        proof {
            lemma_char_at_byte_found(chars@, r.start_byte as int);
            lemma_char_at_byte_found(chars@, r.end_byte as int);
            assert(chars@.len() == chars.len());
            let cs = char_at_byte(chars@, r.start_byte as int)->0;
            let ce = char_at_byte(chars@, r.end_byte as int)->0;
            assert(table@[r.start_byte as int] == Some(cs as usize));
            assert(table@[r.end_byte as int] == Some(ce as usize));
            assert(start as int == cs);
            assert(end as int == ce);
        }
        let ghost before = nodes@;
        nodes.push(
            SyntaxNode {
                kind: r.kind.clone(),
                start,
                end,
                start_row: r.start_row,
                end_row: r.end_row,
                children: Vec::new(),
                named_children: Vec::new(),
                fields: Vec::new(),
            },
        );
        proof {
            lemma_no_kids_yet(rv, j as int, j as int);
            assert(fields_view(Seq::<(String, usize)>::empty()) =~= Seq::<(Seq<char>, usize)>::empty());
            assert(nodes@[j as int].kind@ == rv[j as int].kind);
            assert(char_at_byte(chars@, rv[j as int].start_byte as int) == Some(start as int));
            assert(char_at_byte(chars@, rv[j as int].end_byte as int) == Some(end as int));
            assert(head_from(rv, chars@, nodes@[j as int], j as int));
        }
        if j > 0 {
            let p = stack[(r.depth - 1) as usize];
            proof {
                lemma_last_at_depth_bound(rv, j as int, rv[j as int].depth - 1);
                assert(p as int == parent_of(rv, j as int));
            }
            let ghost mid = nodes@;
            link_child(&mut nodes, p, j, r.named, &r.field);
            proof {
                assert forall|q: int| 0 <= q <= j implies #[trigger] kids_from(rv, nodes@[q], q, j + 1) by {
                    lemma_kids_step(rv, j as int, q);
                    if q == j {
                        lemma_no_kids_yet(rv, j as int, j + 1);
                        assert(fields_view(nodes@[q].fields@) =~= Seq::<(Seq<char>, usize)>::empty());
                    }
                }
                assert forall|q: int| 0 <= q <= j implies #[trigger] head_from(rv, chars@, nodes@[q], q) by {
                    assert(head_from(rv, chars@, mid[q], q));
                }
            }
            stack.truncate(r.depth as usize);
        } else {
            proof {
                lemma_no_kids_yet(rv, 0, 1);
                assert(fields_view(nodes@[0].fields@) =~= Seq::<(Seq<char>, usize)>::empty());
                assert(kids_from(rv, nodes@[0], 0, 1));
            }
        }
        stack.push(j);
        j = j + 1;
    }
    assert(depths_ok(rv));
    assert(ranges_ok(rv, chars@));
    Some(nodes)
}

/// Parses Rust source into the tree the extractor reads: each node that
/// tree-sitter reports, in pre-order, with its byte range turned into
/// character offsets and its children, named children and fields listed.
/// None exactly when tree-sitter gives no tree, its depths do not describe
/// a pre-order walk, a byte range does not fall on character boundaries, or
/// the source is too long to index by byte.
pub fn parse_source(source: &str) -> (r: Option<SyntaxTree>)
    ensures
        r is Some <==> (rust_syntax(source@) matches Some(raw) && depths_ok(raw) && ranges_ok(raw, source@)
            && byte_offset(source@, source@.len() as int) < usize::MAX),
        r matches Some(t) ==> (rust_syntax(source@) matches Some(raw) && t.nodes@.len() == raw.len() && forall|
            i: int,
        |
            0 <= i < raw.len() ==> node_from(raw, source@, #[trigger] t.nodes@[i], i, raw.len() as int)),
{
    let chars = chars_of(source);
    let raw = match parse_rust(source) {
        Some(v) => v,
        None => return None,
    };
    let table = match byte_table(&chars) {
        Some(t) => t,
        None => return None,
    };
    match build_nodes(&raw, &chars, &table) {
        Some(nodes) => Some(SyntaxTree { nodes }),
        None => None,
    }
}

} // verus!
