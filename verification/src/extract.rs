//! Text-level steps of symbol extraction: qualified names, doc comments,
//! call-target and test-name hints, and their resolution to symbols.

use vstd::prelude::*;

use crate::git::sorted_strict;
use crate::compactor::string_views;
use crate::model::{ChunkRecord, EdgeType, SymbolRecord};
use crate::scanner::ScannedFile;
use crate::text::{
    chars_of, concat2, copy_range, decimal, decimal_of_usize, find_from, first_from, join,
    join_chars, lemma_first_from, lemma_seq_lt_order, lines, seq_starts_with, split, split_chars,
    starts_with, string_of, trim, trim_chars,
};

verus! {

/// Edge extracted before database ids are assigned.
#[derive(Debug, Clone)]
pub struct PendingEdge {
    pub from_local: Option<usize>,
    pub to_local: Option<usize>,
    pub edge_type: EdgeType,
    pub evidence: Option<String>,
}

/// Symbol plus local parent link before persistence.
#[derive(Debug, Clone)]
pub struct ExtractedSymbol {
    pub record: SymbolRecord,
    pub parent_local: Option<usize>,
}

/// Chunk plus local symbol link before persistence.
#[derive(Debug, Clone)]
pub struct ExtractedChunk {
    pub record: ChunkRecord,
    pub symbol_local: Option<usize>,
}

/// All extracted artifacts for a single Rust file.
#[derive(Debug, Clone)]
pub struct ExtractedFile {
    pub symbols: Vec<ExtractedSymbol>,
    pub chunks: Vec<ExtractedChunk>,
    pub imports: Vec<crate::model::FileImportRecord>,
    pub edges: Vec<PendingEdge>,
    pub summary: String,
}

/// A test function's guess at the symbol it tests.
#[derive(Debug, Clone)]
pub struct TestHint {
    pub caller_local: usize,
    pub target_hint: String,
}

/// A call seen in a function body.
#[derive(Debug, Clone)]
pub struct CallHint {
    pub caller_local: usize,
    pub raw_target: String,
    pub normalized_targets: Vec<String>,
    pub line: usize,
}

/// An `impl Trait for ..` block's trait name.
#[derive(Debug, Clone)]
pub struct ImplHint {
    pub impl_local: usize,
    pub trait_name: String,
}

/// Builds a full-text chunk for a symbol-sized source range.
pub fn chunk_for_symbol(
    chunk_kind: &str,
    start_line: i64,
    end_line: i64,
    summary: String,
    content: String,
) -> (r: ChunkRecord)
    ensures
        r.id is None,
        r.file_id is None,
        r.symbol_id is None,
        r.chunk_kind@ == chunk_kind@,
        r.start_line == start_line,
        r.end_line == end_line,
        r.summary == summary,
        r.content == content,
{
    ChunkRecord {
        id: None,
        file_id: None,
        symbol_id: None,
        chunk_kind: chunk_kind.to_owned(),
        start_line,
        end_line,
        summary,
        content,
    }
}

/// The text before the first '<', or all of it.
pub open spec fn strip_generic_spec(v: Seq<char>) -> Seq<char> {
    let i = first_from(v, seq!['<'], 0);
    if i >= 0 {
        v.subrange(0, i)
    } else {
        v
    }
}

/// Drops a generic argument list and everything after it.
pub fn strip_generic_suffix(value: &[char]) -> (r: Vec<char>)
    ensures
        r@ == strip_generic_spec(value@),
{
    let lt: Vec<char> = vec!['<'];
    assert(lt@ =~= seq!['<']);
    proof {
        lemma_first_from(value@, lt@, 0);
    }
    match find_from(value, lt.as_slice(), 0) {
        Some(i) => copy_range(value, 0, i),
        None => copy_range(value, 0, value.len()),
    }
}

/// How many leading `::` segments two paths share, from segment `i` on.
pub open spec fn shared_from(a: Seq<Seq<char>>, b: Seq<Seq<char>>, i: nat) -> nat
    decreases a.len() - i,
{
    if i < a.len() && i < b.len() && a[i as int] == b[i as int] {
        1 + shared_from(a, b, i + 1)
    } else {
        0
    }
}

/// How many leading `::` segments two qualified names share.
pub open spec fn shared_segments(left: Seq<char>, right: Seq<char>) -> nat {
    shared_from(split(left, "::"@), split(right, "::"@), 0)
}

/// Counts the leading `::` segments two qualified names share.
pub fn shared_prefix_segments(left: &str, right: &str) -> (r: usize)
    ensures
        r as nat == shared_segments(left@, right@),
{
    let sep = chars_of("::");
    proof {
        reveal_strlit("::");
    }
    let a = split_chars(chars_of(left).as_slice(), sep.as_slice());
    let b = split_chars(chars_of(right).as_slice(), sep.as_slice());
    let ghost av = a@.map_values(|v: Vec<char>| v@);
    let ghost bv = b@.map_values(|v: Vec<char>| v@);
    let mut i: usize = 0;
    while i < a.len() && i < b.len() && crate::text::same_chars(a[i].as_slice(), b[i].as_slice())
        invariant
            i <= a@.len(),
            av == a@.map_values(|v: Vec<char>| v@),
            bv == b@.map_values(|v: Vec<char>| v@),
            shared_from(av, bv, 0) == i + shared_from(av, bv, i as nat),
        decreases a@.len() - i,
    {
        assert(av[i as int] == a@[i as int]@);
        assert(bv[i as int] == b@[i as int]@);
        i = i + 1;
    }
    if i < a.len() && i < b.len() {
        assert(av[i as int] == a@[i as int]@);
        assert(bv[i as int] == b@[i as int]@);
    }
    i
}

/// `s` with every leading copy of `p` removed (`str::trim_start_matches`);
/// `s` itself when `p` is empty.
pub open spec fn strip_all_prefix(s: Seq<char>, p: Seq<char>) -> Seq<char>
    decreases s.len(),
{
    if p.len() > 0 && seq_starts_with(s, p) {
        strip_all_prefix(s.subrange(p.len() as int, s.len() as int), p)
    } else {
        s
    }
}

/// Removes every leading copy of `p`; an empty `p` removes nothing.
pub fn trim_start_matches(s: &[char], p: &[char]) -> (r: Vec<char>)
    ensures
        r@ == strip_all_prefix(s@, p@),
{
    if p.len() == 0 {
        return crate::text::copy_range(s, 0, s.len());
    }
    let mut i: usize = 0;
    assert(s@.subrange(0, s@.len() as int) =~= s@);
    let mut go = crate::text::has_at(s, p, 0);
    let n = s.len();
    while go
        invariant
            n == s@.len(),
            i <= s@.len(),
            p@.len() > 0,
            go == crate::text::matches_at(s@, p@, i as int),
            strip_all_prefix(s@, p@) == strip_all_prefix(s@.subrange(i as int, s@.len() as int), p@),
        decreases s@.len() - i,
    {
        let ghost rest = s@.subrange(i as int, s@.len() as int);
        assert(rest.subrange(0, p@.len() as int) =~= s@.subrange(i as int, i + p@.len()));
        assert(rest.subrange(p@.len() as int, rest.len() as int) =~= s@.subrange(
            i + p@.len(),
            s@.len() as int,
        ));
        i = i + p.len();
        go = crate::text::has_at(s, p, i);
    }
    let ghost rest = s@.subrange(i as int, s@.len() as int);
    assert(!seq_starts_with(rest, p@)) by {
        if p@.len() <= rest.len() {
            assert(rest.subrange(0, p@.len() as int) =~= s@.subrange(i as int, i + p@.len()));
        }
    }
    copy_range(s, i, s.len())
}

/// The targets a test name hints at: the name without its leading "test_"
/// and "should_" when that changes it, and that remainder without a leading
/// "it_".
pub open spec fn test_hint_targets(name: Seq<char>) -> Seq<Seq<char>> {
    let raw = strip_all_prefix(strip_all_prefix(name, "test_"@), "should_"@);
    let first = if raw.len() > 0 && raw != name {
        seq![raw]
    } else {
        Seq::empty()
    };
    let second = if seq_starts_with(raw, "it_"@) {
        seq![raw.subrange(3, raw.len() as int)]
    } else {
        Seq::empty()
    };
    first + second
}

/// The symbols a test function probably exercises, judged by its name.
pub fn test_hints_for_name(local: usize, name: &str) -> (r: Vec<TestHint>)
    ensures
        r@.len() == test_hint_targets(name@).len(),
        forall|i: int|
            0 <= i < r@.len() ==> (#[trigger] r@[i]).caller_local == local && r@[i].target_hint@
                == test_hint_targets(name@)[i],
{
    proof {
        reveal_strlit("test_");
        reveal_strlit("should_");
        reveal_strlit("it_");
    }
    let n = chars_of(name);
    let a = trim_start_matches(n.as_slice(), chars_of("test_").as_slice());
    let raw = trim_start_matches(a.as_slice(), chars_of("should_").as_slice());
    let mut hints: Vec<TestHint> = Vec::new();
    if raw.len() > 0 && !crate::text::same_chars(raw.as_slice(), n.as_slice()) {
        hints.push(TestHint { caller_local: local, target_hint: string_of(raw.as_slice()) });
    }
    let it = chars_of("it_");
    if starts_with(raw.as_slice(), it.as_slice()) {
        let rest = copy_range(raw.as_slice(), 3, raw.len());
        hints.push(TestHint { caller_local: local, target_hint: string_of(rest.as_slice()) });
    }
    hints
}

/// The pieces of `s` after removing every space.
pub open spec fn without_spaces(s: Seq<char>) -> Seq<char>
    decreases s.len(),
{
    if s.len() == 0 {
        s
    } else if s.last() == ' ' {
        without_spaces(s.drop_last())
    } else {
        without_spaces(s.drop_last()).push(s.last())
    }
}

/// The candidate names of a call target: the target without spaces and
/// generic arguments, its last `::` segment and its last `.` segment, sorted
/// and without repeats.
pub open spec fn call_target_candidates(raw: Seq<char>) -> Set<Seq<char>> {
    let stripped = strip_generic_spec(without_spaces(raw));
    set![stripped, split(stripped, "::"@).last(), split(stripped, "."@).last()]
}

/// The sorted, distinct candidate names of a call target.
pub fn normalize_call_target(raw: &str) -> (r: Vec<String>)
    ensures
        sorted_strict(string_views(r@)),
        string_views(r@).to_set() == call_target_candidates(raw@),
{
    let chars = chars_of(raw);
    let mut compact: Vec<char> = Vec::new();
    let mut i: usize = 0;
    while i < chars.len()
        invariant
            i <= chars@.len(),
            compact@ == without_spaces(chars@.subrange(0, i as int)),
        decreases chars@.len() - i,
    {
        assert(chars@.subrange(0, i + 1).drop_last() =~= chars@.subrange(0, i as int));
        if chars[i] != ' ' {
            compact.push(chars[i]);
        }
        i = i + 1;
    }
    assert(chars@.subrange(0, chars@.len() as int) =~= chars@);
    let stripped = strip_generic_suffix(compact.as_slice());
    let colons = chars_of("::");
    let dot = chars_of(".");
    proof {
        reveal_strlit("::");
        reveal_strlit(".");
    }
    let by_path = split_chars(stripped.as_slice(), colons.as_slice());
    let by_dot = split_chars(stripped.as_slice(), dot.as_slice());
    proof {
        crate::derived::lemma_split_nonempty(stripped@, colons@);
        crate::derived::lemma_split_nonempty(stripped@, dot@);
    }
    assert(by_path@.map_values(|v: Vec<char>| v@).last() == by_path@[by_path@.len() - 1]@);
    assert(by_dot@.map_values(|v: Vec<char>| v@).last() == by_dot@[by_dot@.len() - 1]@);
    let mut out: Vec<String> = Vec::new();
    assert(sorted_strict(string_views(out@))) by {
        assert(string_views(out@).len() == 0);
    }
    assert(string_views(out@).to_set() =~= Set::<Seq<char>>::empty()) by {
        assert(string_views(out@).len() == 0);
    }
    crate::git::sorted_insert_string(&mut out, string_of(stripped.as_slice()));
    crate::git::sorted_insert_string(
        &mut out,
        string_of(by_path[by_path.len() - 1].as_slice()),
    );
    crate::git::sorted_insert_string(&mut out, string_of(by_dot[by_dot.len() - 1].as_slice()));
    assert(string_views(out@).to_set() =~= call_target_candidates(raw@));
    out
}

/// Every "::" replaced by "_", left to right.
pub open spec fn replace_colons(s: Seq<char>) -> Seq<char>
    decreases s.len(),
{
    if s.len() == 0 {
        s
    } else if seq_starts_with(s, seq![':', ':']) {
        seq!['_'] + replace_colons(s.subrange(2, s.len() as int))
    } else {
        seq![s[0]] + replace_colons(s.drop_first())
    }
}

/// Characters turned into '_' in a namespace segment.
pub open spec fn is_segment_punct(c: char) -> bool {
    c == '<' || c == '>' || c == '(' || c == ')' || c == '[' || c == ']' || c == ',' || c == ' '
}

/// A type or trait name made usable as one qualified-name segment: generic
/// arguments, leading '&' and "mut " and surrounding whitespace removed, "::"
/// and punctuation turned into '_'.
pub open spec fn sanitize_segment_spec(v: Seq<char>) -> Seq<char> {
    let cleaned = trim(strip_all_prefix(strip_all_prefix(strip_generic_spec(v), seq!['&']), "mut "@));
    replace_colons(cleaned).map_values(|c: char| if is_segment_punct(c) { '_' } else { c })
}

/// Makes a type or trait name usable as one qualified-name segment.
pub fn sanitize_namespace_segment(value: &str) -> (r: String)
    ensures
        r@ == sanitize_segment_spec(value@),
{
    let g = strip_generic_suffix(chars_of(value).as_slice());
    let amp: Vec<char> = vec!['&'];
    assert(amp@ =~= seq!['&']);
    let a = trim_start_matches(g.as_slice(), amp.as_slice());
    let mt = chars_of("mut ");
    proof {
        reveal_strlit("mut ");
    }
    let b = trim_start_matches(a.as_slice(), mt.as_slice());
    let c = trim_chars(b.as_slice());
    let colons: Vec<char> = vec![':', ':'];
    assert(colons@ =~= seq![':', ':']);
    let mut out: Vec<char> = Vec::new();
    let mut i: usize = 0;
    let n = c.len();
    assert(c@.subrange(0, n as int) =~= c@);
    while i < n
        invariant
            n == c@.len(),
            i <= n,
            colons@ == seq![':', ':'],
            out@ + replace_colons(c@.subrange(i as int, n as int)) == replace_colons(c@),
        decreases n - i,
    {
        let ghost rest = c@.subrange(i as int, n as int);
        if crate::text::has_at(c.as_slice(), colons.as_slice(), i) {
            assert(rest.subrange(0, 2) =~= c@.subrange(i as int, i + 2));
            assert(rest.subrange(2, rest.len() as int) =~= c@.subrange(i + 2, n as int));
            out.push('_');
            assert(out@ + replace_colons(c@.subrange(i + 2, n as int)) =~= replace_colons(c@));
            i = i + 2;
        } else {
            assert(!seq_starts_with(rest, seq![':', ':'])) by {
                if rest.len() >= 2 {
                    assert(rest.subrange(0, 2) =~= c@.subrange(i as int, i + 2));
                }
            }
            assert(rest.drop_first() =~= c@.subrange(i + 1, n as int));
            out.push(c[i]);
            assert(out@ + replace_colons(c@.subrange(i + 1, n as int)) =~= replace_colons(c@));
            i = i + 1;
        }
    }
    assert(c@.subrange(n as int, n as int) =~= Seq::<char>::empty());
    assert(out@ =~= replace_colons(c@));
    let mut res: Vec<char> = Vec::new();
    let mut j: usize = 0;
    while j < out.len()
        invariant
            j <= out@.len(),
            res@ == out@.subrange(0, j as int).map_values(
                |ch: char| if is_segment_punct(ch) { '_' } else { ch },
            ),
        decreases out@.len() - j,
    {
        let ch = out[j];
        let mapped = if ch == '<' || ch == '>' || ch == '(' || ch == ')' || ch == '[' || ch == ']'
            || ch == ',' || ch == ' ' {
            '_'
        } else {
            ch
        };
        res.push(mapped);
        assert(res@ =~= out@.subrange(0, j + 1).map_values(
            |ch: char| if is_segment_punct(ch) { '_' } else { ch },
        ));
        j = j + 1;
    }
    assert(out@.subrange(0, out@.len() as int) =~= out@);
    string_of(res.as_slice())
}

/// Whether a trimmed line is a doc comment.
pub open spec fn is_doc_line(l: Seq<char>) -> bool {
    seq_starts_with(l, "///"@) || seq_starts_with(l, "//!"@)
}

/// The text of a trimmed doc-comment line.
pub open spec fn doc_text(l: Seq<char>) -> Seq<char> {
    trim(strip_all_prefix(strip_all_prefix(l, "///"@), "//!"@))
}

/// The doc lines right above line index `idx` (blank lines skipped, stopping
/// at the first other line), top to bottom.
pub open spec fn docs_above(ls: Seq<Seq<char>>, idx: int) -> Seq<Seq<char>>
    decreases idx,
{
    if idx <= 0 {
        Seq::empty()
    } else {
        let l = trim(ls[idx - 1]);
        if is_doc_line(l) {
            docs_above(ls, idx - 1).push(doc_text(l))
        } else if l.len() == 0 {
            docs_above(ls, idx - 1)
        } else {
            Seq::empty()
        }
    }
}

/// The doc comment above the item starting on zero-based line `start_row`.
pub open spec fn docs_before_spec(source: Seq<char>, start_row: int) -> Option<Seq<char>> {
    let ls = lines(source);
    if start_row == 0 || start_row > ls.len() {
        None
    } else {
        let d = docs_above(ls, start_row);
        if d.len() == 0 {
            None
        } else {
            Some(join(d, seq!['\n']))
        }
    }
}

/// Reads the doc comment above the item starting on zero-based line
/// `start_row`: the "///" and "//!" lines just above it, blank lines
/// skipped, joined by newlines.
pub fn extract_docs_before(source: &str, start_row: usize) -> (r: Option<String>)
    ensures
        match r {
            Some(d) => docs_before_spec(source@, start_row as int) == Some(d@),
            None => docs_before_spec(source@, start_row as int) is None,
        },
{
    let ls = crate::text::lines_of(chars_of(source).as_slice());
    let ghost lv = ls@.map_values(|v: Vec<char>| v@);
    if start_row == 0 || start_row > ls.len() {
        return None;
    }
    let slash3 = chars_of("///");
    let bang = chars_of("//!");
    proof {
        reveal_strlit("///");
        reveal_strlit("//!");
    }
    let mut rev: Vec<Vec<char>> = Vec::new();
    let mut idx = start_row;
    let mut stopped = false;
    while idx > 0 && !stopped
        invariant
            idx <= start_row <= ls@.len(),
            lv == ls@.map_values(|v: Vec<char>| v@),
            slash3@ == "///"@,
            bang@ == "//!"@,
            slash3@.len() == 3,
            bang@.len() == 3,
            !stopped ==> docs_above(lv, start_row as int) == docs_above(lv, idx as int) + rev@.map_values(
                |v: Vec<char>| v@,
            ).reverse(),
            stopped ==> docs_above(lv, start_row as int) == rev@.map_values(|v: Vec<char>| v@).reverse(),
        decreases idx, (if stopped { 0int } else { 1int }),
    {
        assert(lv[idx - 1] == ls@[idx - 1]@);
        let l = trim_chars(ls[idx - 1].as_slice());
        let ghost old_rev = rev@.map_values(|v: Vec<char>| v@);
        if starts_with(l.as_slice(), slash3.as_slice()) || starts_with(l.as_slice(), bang.as_slice()) {
            let a = trim_start_matches(l.as_slice(), slash3.as_slice());
            let b = trim_start_matches(a.as_slice(), bang.as_slice());
            let t = trim_chars(b.as_slice());
            let ghost tv = t@;
            rev.push(t);
            assert(rev@.map_values(|v: Vec<char>| v@) =~= old_rev.push(tv));
            assert(docs_above(lv, (idx - 1) as int) + old_rev.push(tv).reverse() =~= docs_above(
                lv,
                (idx - 1) as int,
            ).push(tv) + old_rev.reverse());
            idx = idx - 1;
        } else if l.len() == 0 {
            idx = idx - 1;
        } else {
            assert(docs_above(lv, idx as int) =~= Seq::<Seq<char>>::empty());
            assert(Seq::<Seq<char>>::empty() + old_rev.reverse() =~= old_rev.reverse());
            stopped = true;
        }
    }
    let ghost rv = rev@.map_values(|v: Vec<char>| v@);
    assert(docs_above(lv, start_row as int) =~= rv.reverse()) by {
        if !stopped {
            assert(docs_above(lv, 0) =~= Seq::<Seq<char>>::empty());
        }
    }
    if rev.len() == 0 {
        return None;
    }
    let mut docs: Vec<Vec<char>> = Vec::new();
    let mut k = rev.len();
    while k > 0
        invariant
            k <= rev@.len(),
            rv == rev@.map_values(|v: Vec<char>| v@),
            docs@.map_values(|v: Vec<char>| v@) == rv.reverse().subrange(0, (rv.len() - k) as int),
        decreases k,
    {
        let ghost before = docs@.map_values(|v: Vec<char>| v@);
        let item = copy_range(rev[k - 1].as_slice(), 0, rev[k - 1].len());
        assert(rev@[k - 1]@.subrange(0, rev@[k - 1]@.len() as int) =~= rev@[k - 1]@);
        let ghost iv = item@;
        docs.push(item);
        assert(docs@.map_values(|v: Vec<char>| v@) =~= before.push(iv));
        assert(rv.reverse().subrange(0, (rv.len() - k + 1) as int) =~= rv.reverse().subrange(
            0,
            (rv.len() - k) as int,
        ).push(rv[k - 1]));
        k = k - 1;
    }
    assert(rv.reverse().subrange(0, rv.len() as int) =~= rv.reverse());
    let nl: Vec<char> = vec!['\n'];
    assert(nl@ =~= seq!['\n']);
    Some(string_of(join_chars(&docs, nl.as_slice()).as_slice()))
}

/// The qualified-name prefix of a file's items: its crate, then the
/// segments of its module path.
pub open spec fn base_prefix_spec(crate_name: Option<Seq<char>>, mod_path: Option<Seq<char>>) -> Seq<
    Seq<char>,
> {
    (match crate_name {
        Some(c) => seq![c],
        None => Seq::empty(),
    }) + (match mod_path {
        Some(m) => split(m, "::"@),
        None => Seq::empty(),
    })
}

/// The qualified-name prefix of a file's items.
pub fn base_prefix(file: &ScannedFile) -> (r: Vec<String>)
    ensures
        string_views(r@) == base_prefix_spec(
            crate::derived::opt_view(file.crate_name),
            crate::derived::opt_view(file.mod_path),
        ),
{
    let mut prefix: Vec<String> = Vec::new();
    assert(string_views(prefix@) =~= Seq::<Seq<char>>::empty());
    match &file.crate_name {
        Some(c) => {
            prefix.push(c.clone());
            assert(string_views(prefix@) =~= seq![c@]);
        },
        None => {},
    }
    let ghost head = string_views(prefix@);
    match &file.mod_path {
        Some(m) => {
            let sep = chars_of("::");
            proof {
                reveal_strlit("::");
            }
            let parts = split_chars(chars_of(m.as_str()).as_slice(), sep.as_slice());
            let ghost pv = parts@.map_values(|v: Vec<char>| v@);
            let mut i: usize = 0;
            while i < parts.len()
                invariant
                    i <= parts@.len(),
                    pv == parts@.map_values(|v: Vec<char>| v@),
                    string_views(prefix@) == head + pv.subrange(0, i as int),
                decreases parts@.len() - i,
            {
                let ghost before = string_views(prefix@);
                prefix.push(string_of(parts[i].as_slice()));
                assert(string_views(prefix@) =~= before.push(parts@[i as int]@));
                assert(pv.subrange(0, i + 1) =~= pv.subrange(0, i as int).push(pv[i as int]));
                i = i + 1;
            }
            assert(pv.subrange(0, pv.len() as int) =~= pv);
        },
        None => {
            assert(head + Seq::<Seq<char>>::empty() =~= head);
        },
    }
    prefix
}

/// Hands out qualified names, marking a repeated one with its line.
#[derive(Debug, Clone)]
pub struct QualnameCounter {
    issued: Vec<String>,
}

/// The qualified name `prefix::name`.
pub open spec fn qual_base(prefix: Seq<Seq<char>>, name: Seq<char>) -> Seq<char> {
    join(prefix.push(name), "::"@)
}

/// The name handed out for `base` on `line`: the base the first time, else
/// the base followed by "#L" and the line.
pub open spec fn qualname_for(issued: Seq<Seq<char>>, base: Seq<char>, line: usize) -> Seq<char> {
    if issued.contains(base) {
        base + "#L"@ + decimal(line as int)
    } else {
        base
    }
}

impl QualnameCounter {
    /// The names handed out so far, in order.
    pub closed spec fn issued(&self) -> Seq<Seq<char>> {
        string_views(self.issued@)
    }

    /// A counter that has handed out nothing.
    pub fn new() -> (r: QualnameCounter)
        ensures
            r.issued() == Seq::<Seq<char>>::empty(),
    {
        let r = QualnameCounter { issued: Vec::new() };
        assert(r.issued() =~= Seq::<Seq<char>>::empty());
        r
    }

    /// The qualified name for `name` under `prefix`, declared on `line`.
    pub fn next_qualname(&mut self, prefix: Vec<String>, name: &str, line: usize) -> (r: String)
        ensures
            r@ == qualname_for(old(self).issued(), qual_base(string_views(prefix@), name@), line),
            final(self).issued() == old(self).issued().push(qual_base(string_views(prefix@), name@)),
    {
        let mut parts: Vec<Vec<char>> = Vec::new();
        let mut i: usize = 0;
        while i < prefix.len()
            invariant
                i <= prefix@.len(),
                parts@.map_values(|v: Vec<char>| v@) == string_views(prefix@).subrange(0, i as int),
            decreases prefix@.len() - i,
        {
            let ghost before = parts@.map_values(|v: Vec<char>| v@);
            let c = chars_of(prefix[i].as_str());
            let ghost cv = c@;
            parts.push(c);
            assert(parts@.map_values(|v: Vec<char>| v@) =~= before.push(cv));
            assert(string_views(prefix@).subrange(0, i + 1) =~= string_views(prefix@).subrange(
                0,
                i as int,
            ).push(prefix@[i as int]@));
            i = i + 1;
        }
        assert(string_views(prefix@).subrange(0, prefix@.len() as int) =~= string_views(prefix@));
        let ghost before = parts@.map_values(|v: Vec<char>| v@);
        let nc = chars_of(name);
        parts.push(nc);
        assert(parts@.map_values(|v: Vec<char>| v@) =~= before.push(name@));
        assert(parts@.map_values(|v: Vec<char>| v@) =~= string_views(prefix@).push(name@));
        let base = string_of(join_chars(&parts, chars_of("::").as_slice()).as_slice());
        let ghost iv = string_views(self.issued@);
        let mut seen = false;
        let mut k: usize = 0;
        while k < self.issued.len()
            invariant
                k <= self.issued@.len(),
                iv == string_views(self.issued@),
                seen <==> exists|q: int| 0 <= q < k && iv[q] == base@,
            decreases self.issued@.len() - k,
        {
            assert(iv[k as int] == self.issued@[k as int]@);
            if self.issued[k] == base {
                seen = true;
            }
            k = k + 1;
        }
        let r = if seen {
            concat2(concat2(base.as_str(), "#L").as_str(), decimal_of_usize(line).as_str())
        } else {
            base.clone()
        };
        self.issued.push(base);
        assert(string_views(self.issued@) =~= iv.push(qual_base(string_views(prefix@), name@)));
        r
    }
}

/// The lowercase hexadecimal digit of `d`, from 0 to 15.
pub open spec fn hex_digit(d: int) -> char {
    seq!['0', '1', '2', '3', '4', '5', '6', '7', '8', '9', 'a', 'b', 'c', 'd', 'e', 'f'][d]
}

/// How `serde_json` writes one character inside a string: '"' and '\'
/// after a '\'; backspace, form feed, newline, carriage return and tab as
/// `\b`, `\f`, `\n`, `\r`, `\t`; the other characters below U+0020 as
/// `\u00` and two lowercase hexadecimal digits; any other character as
/// itself.
pub open spec fn json_escaped(c: char) -> Seq<char> {
    let n = c as u32;
    if c == '"' {
        seq!['\\', '"']
    } else if c == '\\' {
        seq!['\\', '\\']
    } else if n == 0x8 {
        seq!['\\', 'b']
    } else if n == 0xC {
        seq!['\\', 'f']
    } else if c == '\n' {
        seq!['\\', 'n']
    } else if c == '\r' {
        seq!['\\', 'r']
    } else if c == '\t' {
        seq!['\\', 't']
    } else if n < 0x20 {
        seq!['\\', 'u', '0', '0', hex_digit(n as int / 16), hex_digit(n as int % 16)]
    } else {
        seq![c]
    }
}

/// The JSON text of a string value, as `serde_json` writes it: between
/// double quotes, each character as `json_escaped` gives it.
#[verifier::opaque]
pub open spec fn json_quoted(s: Seq<char>) -> Seq<char> {
    seq!['"'] + s.map_values(|c: char| json_escaped(c)).flatten() + seq!['"']
}

/// Calls `serde_json::to_string` on a string slice, which writes it as
/// `json_quoted(s)`. Serializing a `str` cannot fail.
#[verifier::external_body]
pub(crate) fn json_quote(s: &str) -> (r: String)
    ensures
        r@ == json_quoted(s@),
{
    serde_json::to_string(s).unwrap_or_default()
}

/// Index of the last symbol with qualified name `q`, or -1.
pub open spec fn last_qualname_index(symbols: Seq<ExtractedSymbol>, q: Seq<char>, n: nat) -> int
    decreases n,
{
    if n == 0 {
        -1
    } else if symbols[n - 1].record.qualname@ == q {
        n - 1
    } else {
        last_qualname_index(symbols, q, (n - 1) as nat)
    }
}

/// Among the first `n` symbols accepted by `ok`, the last one sharing the
/// most leading segments with `caller`'s qualified name, or -1.
pub open spec fn best_match(
    symbols: Seq<ExtractedSymbol>,
    caller: Seq<char>,
    ok: spec_fn(int) -> bool,
    n: nat,
) -> int
    decreases n,
{
    if n == 0 {
        -1
    } else {
        let prev = best_match(symbols, caller, ok, (n - 1) as nat);
        let i = n - 1;
        if ok(i) && (prev < 0 || shared_segments(caller, symbols[i].record.qualname@)
            >= shared_segments(caller, symbols[prev].record.qualname@)) {
            i
        } else {
            prev
        }
    }
}

/// Symbols whose qualified name ends with `target`.
pub open spec fn by_suffix_fn(symbols: Seq<ExtractedSymbol>, target: Seq<char>) -> spec_fn(int) -> bool {
    |i: int| crate::text::seq_ends_with(symbols[i].record.qualname@, target)
}

/// The symbol a call resolves to, trying the candidate names from `t` on: a
/// symbol with that qualified name; for a path, the symbol whose qualified
/// name ends with it and is nearest the caller; else the symbol with that
/// name, other than the caller, nearest the caller.
pub open spec fn resolve_from(
    symbols: Seq<ExtractedSymbol>,
    caller: int,
    targets: Seq<Seq<char>>,
    t: nat,
) -> Option<int>
    decreases targets.len() - t,
{
    if t >= targets.len() {
        None
    } else {
        let target = targets[t as int];
        let cq = symbols[caller].record.qualname@;
        let n = symbols.len();
        let q = last_qualname_index(symbols, target, n);
        if q >= 0 {
            Some(q)
        } else {
            let a = if crate::text::seq_contains(target, "::"@) {
                best_match(symbols, cq, by_suffix_fn(symbols, target), n)
            } else {
                -1
            };
            if a >= 0 {
                Some(a)
            } else {
                let b = best_match(symbols, cq, ok_b_spec(symbols, target, caller), n);
                if b >= 0 {
                    Some(b)
                } else {
                    resolve_from(symbols, caller, targets, t + 1)
                }
            }
        }
    }
}

/// `best_match` stays -1 or a valid index accepted by `ok`.
proof fn lemma_best_match(
    symbols: Seq<ExtractedSymbol>,
    caller: Seq<char>,
    ok: spec_fn(int) -> bool,
    n: nat,
)
    requires
        n <= symbols.len(),
    ensures
        -1 <= best_match(symbols, caller, ok, n) < n,
        best_match(symbols, caller, ok, n) >= 0 ==> ok(best_match(symbols, caller, ok, n)),
    decreases n,
{
    if n > 0 {
        lemma_best_match(symbols, caller, ok, (n - 1) as nat);
    }
}

/// The best match among symbols accepted by `ok`; `accept` computes `ok`.
fn find_best(
    symbols: &Vec<ExtractedSymbol>,
    caller_q: &String,
    target: &Vec<char>,
    by_suffix: bool,
    caller: usize,
    Ghost(ok): Ghost<spec_fn(int) -> bool>,
) -> (r: Option<usize>)
    requires
        by_suffix ==> ok == by_suffix_fn(symbols@, target@),
        !by_suffix ==> ok == ok_b_spec(symbols@, target@, caller as int),
    ensures
        match r {
            Some(i) => i as int == best_match(symbols@, caller_q@, ok, symbols@.len() as nat),
            None => best_match(symbols@, caller_q@, ok, symbols@.len() as nat) == -1,
        },
{
    let mut best: Option<usize> = None;
    let mut best_score: usize = 0;
    let mut i: usize = 0;
    while i < symbols.len()
        invariant
            i <= symbols@.len(),
            by_suffix ==> ok == by_suffix_fn(symbols@, target@),
            !by_suffix ==> ok == ok_b_spec(symbols@, target@, caller as int),
            match best {
                Some(b) => b as int == best_match(symbols@, caller_q@, ok, i as nat) && b < i
                    && best_score as nat == shared_segments(caller_q@, symbols@[b as int].record.qualname@),
                None => best_match(symbols@, caller_q@, ok, i as nat) == -1,
            },
        decreases symbols@.len() - i,
    {
        let s = &symbols[i];
        let accepted = if by_suffix {
            crate::text::ends_with(
                chars_of(s.record.qualname.as_str()).as_slice(),
                target.as_slice(),
            )
        } else {
            crate::text::same_chars(chars_of(s.record.name.as_str()).as_slice(), target.as_slice())
                && i != caller
        };
        assert(accepted == ok(i as int));
        if accepted {
            let score = shared_prefix_segments(caller_q.as_str(), s.record.qualname.as_str());
            match best {
                None => {
                    best = Some(i);
                    best_score = score;
                },
                Some(_) => {
                    if score >= best_score {
                        best = Some(i);
                        best_score = score;
                    }
                },
            }
        }
        i = i + 1;
    }
    best
}

/// The symbol a call hint resolves to.
pub fn resolve_call_target(hint: &CallHint, symbols: &Vec<ExtractedSymbol>) -> (r: Option<usize>)
    requires
        hint.caller_local < symbols@.len(),
    ensures
        match r {
            Some(i) => resolve_from(
                symbols@,
                hint.caller_local as int,
                string_views(hint.normalized_targets@),
                0,
            ) == Some(i as int),
            None => resolve_from(
                symbols@,
                hint.caller_local as int,
                string_views(hint.normalized_targets@),
                0,
            ) is None,
        },
{
    let ghost tv = string_views(hint.normalized_targets@);
    let caller = hint.caller_local;
    let caller_q = &symbols[caller].record.qualname;
    let mut t: usize = 0;
    while t < hint.normalized_targets.len()
        invariant
            t <= tv.len(),
            tv == string_views(hint.normalized_targets@),
            caller == hint.caller_local,
            caller < symbols@.len(),
            caller_q@ == symbols@[caller as int].record.qualname@,
            resolve_from(symbols@, caller as int, tv, 0) == resolve_from(
                symbols@,
                caller as int,
                tv,
                t as nat,
            ),
        decreases tv.len() - t,
    {
        let target = chars_of(hint.normalized_targets[t].as_str());
        assert(tv[t as int] == target@);
        let n = symbols.len();
        let mut q = n;
        assert(symbols@.subrange(0, n as int) =~= symbols@);
        let mut found: Option<usize> = None;
        while q > 0 && found.is_none()
            invariant
                q <= n == symbols@.len(),
                found is None ==> last_qualname_index(symbols@, target@, n as nat)
                    == last_qualname_index(symbols@, target@, q as nat),
                found matches Some(f) ==> f as int == last_qualname_index(
                    symbols@,
                    target@,
                    n as nat,
                ),
            decreases q, (if found is None { 1int } else { 0int }),
        {
            if crate::text::same_chars(
                chars_of(symbols[q - 1].record.qualname.as_str()).as_slice(),
                target.as_slice(),
            ) {
                found = Some(q - 1);
            } else {
                q = q - 1;
            }
        }
        proof {
            if found is None {
                assert(last_qualname_index(symbols@, target@, 0) == -1);
            }
        }
        match found {
            Some(f) => {
                proof {
                    lemma_last_qualname_index(symbols@, target@, n as nat);
                }
                return Some(f);
            },
            None => {},
        }
        let colons = chars_of("::");
        let is_path = crate::text::contains(target.as_slice(), colons.as_slice());
        let ghost ok_a = by_suffix_fn(symbols@, target@);
        if is_path {
            match find_best(symbols, caller_q, &target, true, caller, Ghost(ok_a)) {
                Some(i) => {
                    proof {
                        lemma_best_match(symbols@, caller_q@, ok_a, n as nat);
                    }
                    return Some(i);
                },
                None => {},
            }
        }
        let ghost ok_b = ok_b_spec(symbols@, target@, caller as int);
        match find_best(symbols, caller_q, &target, false, caller, Ghost(ok_b)) {
            Some(i) => {
                proof {
                    lemma_best_match(symbols@, caller_q@, ok_b, n as nat);
                }
                return Some(i);
            },
            None => {},
        }
        t = t + 1;
    }
    None
}

/// Symbols named `target`, other than the caller.
pub open spec fn ok_b_spec(symbols: Seq<ExtractedSymbol>, target: Seq<char>, caller: int) -> spec_fn(
    int,
) -> bool {
    |i: int| symbols[i].record.name@ == target && i != caller
}

/// `last_qualname_index` stays -1 or a valid index.
proof fn lemma_last_qualname_index(symbols: Seq<ExtractedSymbol>, q: Seq<char>, n: nat)
    requires
        n <= symbols.len(),
    ensures
        -1 <= last_qualname_index(symbols, q, n) < n,
    decreases n,
{
    if n > 0 {
        lemma_last_qualname_index(symbols, q, (n - 1) as nat);
    }
}

/// Index of the first of the first `n` symbols accepted by `ok`, or -1.
pub open spec fn first_index(ok: spec_fn(int) -> bool, n: nat) -> int
    decreases n,
{
    if n == 0 {
        -1
    } else {
        let p = first_index(ok, (n - 1) as nat);
        if p >= 0 {
            p
        } else if ok(n - 1) {
            n - 1
        } else {
            -1
        }
    }
}

/// Symbols named `target` that are not tests.
pub open spec fn untested_named(symbols: Seq<ExtractedSymbol>, target: Seq<char>) -> spec_fn(int) -> bool {
    |i: int| symbols[i].record.name@ == target && !symbols[i].record.is_test
}

/// Traits named `target`.
pub open spec fn trait_named(symbols: Seq<ExtractedSymbol>, target: Seq<char>) -> spec_fn(int) -> bool {
    |i: int| symbols[i].record.name@ == target && symbols[i].record.kind == crate::model::SymbolKind::Trait
}

/// JSON text of a boolean.
pub open spec fn bool_text(b: bool) -> Seq<char> {
    if b {
        "true"@
    } else {
        "false"@
    }
}

/// Evidence recorded on a call edge.
pub open spec fn call_evidence(raw: Seq<char>, line: usize, resolved: bool) -> Seq<char> {
    "{\"callee\":"@ + json_quoted(raw) + ",\"line\":"@ + decimal(line as int) + ",\"resolved\":"@
        + bool_text(resolved) + "}"@
}

/// Evidence recorded on a test edge.
pub open spec fn test_evidence(hint: Seq<char>, resolved: bool) -> Seq<char> {
    "{\"resolved\":"@ + bool_text(resolved) + ",\"target_hint\":"@ + json_quoted(hint) + "}"@
}

/// Evidence recorded on an implements edge.
pub open spec fn impl_evidence(name: Seq<char>, resolved: bool) -> Seq<char> {
    "{\"resolved\":"@ + bool_text(resolved) + ",\"trait\":"@ + json_quoted(name) + "}"@
}

/// Plain view of a pending edge.
pub open spec fn edge_view(e: PendingEdge) -> (Option<usize>, Option<usize>, EdgeType, Option<Seq<char>>) {
    (e.from_local, e.to_local, e.edge_type, crate::derived::opt_view(e.evidence))
}

/// An index as an optional local id.
pub open spec fn opt_index(i: int) -> Option<usize> {
    if i >= 0 {
        Some(i as usize)
    } else {
        None
    }
}

/// The edge a call with the given caller, callee text, candidate names and
/// line yields.
pub open spec fn call_edge_v(
    symbols: Seq<ExtractedSymbol>,
    caller: usize,
    raw: Seq<char>,
    targets: Seq<Seq<char>>,
    line: usize,
) -> (Option<usize>, Option<usize>, EdgeType, Option<Seq<char>>) {
    let r = resolve_from(symbols, caller as int, targets, 0);
    let to = match r {
        Some(i) => Some(i as usize),
        None => None,
    };
    (Some(caller), to, EdgeType::Calls, Some(call_evidence(raw, line, r is Some)))
}

/// The edge a call hint yields.
pub open spec fn call_edge(symbols: Seq<ExtractedSymbol>, h: CallHint) -> (
    Option<usize>,
    Option<usize>,
    EdgeType,
    Option<Seq<char>>,
) {
    call_edge_v(symbols, h.caller_local, h.raw_target@, string_views(h.normalized_targets@), h.line)
}

/// The edge a test hint with the given caller and target name yields.
pub open spec fn test_edge_v(symbols: Seq<ExtractedSymbol>, caller: usize, target: Seq<char>) -> (
    Option<usize>,
    Option<usize>,
    EdgeType,
    Option<Seq<char>>,
) {
    let i = first_index(untested_named(symbols, target), symbols.len());
    (Some(caller), opt_index(i), EdgeType::Tests, Some(test_evidence(target, i >= 0)))
}

/// The edge a test hint yields.
pub open spec fn test_edge(symbols: Seq<ExtractedSymbol>, h: TestHint) -> (
    Option<usize>,
    Option<usize>,
    EdgeType,
    Option<Seq<char>>,
) {
    test_edge_v(symbols, h.caller_local, h.target_hint@)
}

/// The edge an impl hint with the given impl block and trait name yields.
pub open spec fn impl_edge_v(symbols: Seq<ExtractedSymbol>, local: usize, name: Seq<char>) -> (
    Option<usize>,
    Option<usize>,
    EdgeType,
    Option<Seq<char>>,
) {
    let i = first_index(trait_named(symbols, name), symbols.len());
    (Some(local), opt_index(i), EdgeType::Implements, Some(impl_evidence(name, i >= 0)))
}

/// The edge an impl hint yields.
pub open spec fn impl_edge(symbols: Seq<ExtractedSymbol>, h: ImplHint) -> (
    Option<usize>,
    Option<usize>,
    EdgeType,
    Option<Seq<char>>,
) {
    impl_edge_v(symbols, h.impl_local, h.trait_name@)
}

/// The first symbol named `target` that `want_trait` selects: a trait, or
/// else one that is not a test.
fn find_first_named(symbols: &Vec<ExtractedSymbol>, target: &String, want_trait: bool) -> (r: Option<
    usize,
>)
    ensures
        ({
            let ok = if want_trait {
                trait_named(symbols@, target@)
            } else {
                untested_named(symbols@, target@)
            };
            r == opt_index(first_index(ok, symbols@.len() as nat))
        }),
{
    let ghost ok = if want_trait {
        trait_named(symbols@, target@)
    } else {
        untested_named(symbols@, target@)
    };
    let mut i: usize = 0;
    while i < symbols.len()
        invariant
            i <= symbols@.len(),
            ok == (if want_trait {
                trait_named(symbols@, target@)
            } else {
                untested_named(symbols@, target@)
            }),
            first_index(ok, i as nat) == -1,
        decreases symbols@.len() - i,
    {
        let s = &symbols[i];
        let hit = s.record.name == *target && if want_trait {
            s.record.kind == crate::model::SymbolKind::Trait
        } else {
            !s.record.is_test
        };
        assert(hit == ok(i as int));
        if hit {
            assert(first_index(ok, (i + 1) as nat) == i);
            proof {
                lemma_first_index_stable(ok, (i + 1) as nat, symbols@.len() as nat);
            }
            return Some(i);
        }
        i = i + 1;
    }
    None
}

/// Once found, the first index stays the same.
proof fn lemma_first_index_stable(ok: spec_fn(int) -> bool, m: nat, n: nat)
    requires
        m <= n,
        first_index(ok, m) >= 0,
    ensures
        first_index(ok, n) == first_index(ok, m),
    decreases n - m,
{
    if m < n {
        lemma_first_index_stable(ok, m, (n - 1) as nat);
    }
}

/// Text of a boolean for evidence.
fn bool_str(b: bool) -> (r: &'static str)
    ensures
        r@ == bool_text(b),
{
    if b {
        "true"
    } else {
        "false"
    }
}

/// Resolves call, test and impl hints to edges, appended in that order.
pub fn resolve_hints(
    symbols: &Vec<ExtractedSymbol>,
    call_hints: &Vec<CallHint>,
    test_hints: &Vec<TestHint>,
    impl_hints: &Vec<ImplHint>,
    edges: &mut Vec<PendingEdge>,
)
    requires
        forall|i: int| 0 <= i < call_hints@.len() ==> (#[trigger] call_hints@[i]).caller_local < symbols@.len(),
    ensures
        final(edges)@.map_values(|e: PendingEdge| edge_view(e)) == old(edges)@.map_values(
            |e: PendingEdge| edge_view(e),
        ) + call_hints@.map_values(|h: CallHint| call_edge(symbols@, h)) + test_hints@.map_values(
            |h: TestHint| test_edge(symbols@, h),
        ) + impl_hints@.map_values(|h: ImplHint| impl_edge(symbols@, h)),
{
    let ghost start = edges@.map_values(|e: PendingEdge| edge_view(e));
    let ghost calls = call_hints@.map_values(|h: CallHint| call_edge(symbols@, h));
    let ghost tests = test_hints@.map_values(|h: TestHint| test_edge(symbols@, h));
    let ghost impls = impl_hints@.map_values(|h: ImplHint| impl_edge(symbols@, h));
    let mut i: usize = 0;
    while i < call_hints.len()
        invariant
            i <= call_hints@.len(),
            forall|k: int| 0 <= k < call_hints@.len() ==> (#[trigger] call_hints@[k]).caller_local < symbols@.len(),
            calls == call_hints@.map_values(|h: CallHint| call_edge(symbols@, h)),
            edges@.map_values(|e: PendingEdge| edge_view(e)) == start + calls.subrange(0, i as int),
        decreases call_hints@.len() - i,
    {
        let h = &call_hints[i];
        let resolved = resolve_call_target(h, symbols);
        let line_text = decimal_of_usize(h.line);
        let ev = concat2(
            concat2(
                concat2(
                    concat2(
                        concat2("{\"callee\":", json_quote(h.raw_target.as_str()).as_str()).as_str(),
                        ",\"line\":",
                    ).as_str(),
                    line_text.as_str(),
                ).as_str(),
                ",\"resolved\":",
            ).as_str(),
            concat2(bool_str(resolved.is_some()), "}").as_str(),
        );
        let ghost before = edges@.map_values(|e: PendingEdge| edge_view(e));
        let e = PendingEdge {
            from_local: Some(h.caller_local),
            to_local: resolved,
            edge_type: EdgeType::Calls,
            evidence: Some(ev),
        };
        assert(ev@ =~= call_evidence(h.raw_target@, h.line, resolved is Some));
        assert(edge_view(e) == call_edge(symbols@, *h));
        edges.push(e);
        assert(edges@.map_values(|e: PendingEdge| edge_view(e)) =~= before.push(edge_view(e)));
        assert(calls.subrange(0, i + 1) =~= calls.subrange(0, i as int).push(calls[i as int]));
        i = i + 1;
    }
    assert(calls.subrange(0, calls.len() as int) =~= calls);
    let ghost mid = start + calls;
    let mut j: usize = 0;
    assert(tests.subrange(0, 0) =~= Seq::empty());
    assert(mid + tests.subrange(0, 0) =~= mid);
    while j < test_hints.len()
        invariant
            j <= test_hints@.len(),
            tests == test_hints@.map_values(|h: TestHint| test_edge(symbols@, h)),
            edges@.map_values(|e: PendingEdge| edge_view(e)) == mid + tests.subrange(0, j as int),
        decreases test_hints@.len() - j,
    {
        let h = &test_hints[j];
        let resolved = find_first_named(symbols, &h.target_hint, false);
        let ev = concat2(
            concat2(
                concat2(concat2("{\"resolved\":", bool_str(resolved.is_some())).as_str(), ",\"target_hint\":").as_str(),
                json_quote(h.target_hint.as_str()).as_str(),
            ).as_str(),
            "}",
        );
        let ghost before = edges@.map_values(|e: PendingEdge| edge_view(e));
        let e = PendingEdge {
            from_local: Some(h.caller_local),
            to_local: resolved,
            edge_type: EdgeType::Tests,
            evidence: Some(ev),
        };
        assert(ev@ =~= test_evidence(
            h.target_hint@,
            first_index(untested_named(symbols@, h.target_hint@), symbols@.len() as nat) >= 0,
        ));
        assert(edge_view(e) == test_edge(symbols@, *h));
        edges.push(e);
        assert(edges@.map_values(|e: PendingEdge| edge_view(e)) =~= before.push(edge_view(e)));
        assert(mid + tests.subrange(0, j + 1) =~= (mid + tests.subrange(0, j as int)).push(tests[j as int]));
        j = j + 1;
    }
    assert(tests.subrange(0, tests.len() as int) =~= tests);
    let ghost mid2 = start + calls + tests;
    let mut k: usize = 0;
    assert(mid2 + impls.subrange(0, 0) =~= mid2);
    while k < impl_hints.len()
        invariant
            k <= impl_hints@.len(),
            impls == impl_hints@.map_values(|h: ImplHint| impl_edge(symbols@, h)),
            edges@.map_values(|e: PendingEdge| edge_view(e)) == mid2 + impls.subrange(0, k as int),
        decreases impl_hints@.len() - k,
    {
        let h = &impl_hints[k];
        let resolved = find_first_named(symbols, &h.trait_name, true);
        let ev = concat2(
            concat2(
                concat2(concat2("{\"resolved\":", bool_str(resolved.is_some())).as_str(), ",\"trait\":").as_str(),
                json_quote(h.trait_name.as_str()).as_str(),
            ).as_str(),
            "}",
        );
        let ghost before = edges@.map_values(|e: PendingEdge| edge_view(e));
        let e = PendingEdge {
            from_local: Some(h.impl_local),
            to_local: resolved,
            edge_type: EdgeType::Implements,
            evidence: Some(ev),
        };
        assert(ev@ =~= impl_evidence(
            h.trait_name@,
            first_index(trait_named(symbols@, h.trait_name@), symbols@.len() as nat) >= 0,
        ));
        assert(edge_view(e) == impl_edge(symbols@, *h));
        edges.push(e);
        assert(edges@.map_values(|e: PendingEdge| edge_view(e)) =~= before.push(edge_view(e)));
        assert(mid2 + impls.subrange(0, k + 1) =~= (mid2 + impls.subrange(0, k as int)).push(impls[k as int]));
        k = k + 1;
    }
    assert(impls.subrange(0, impls.len() as int) =~= impls);
}

} // verus!
