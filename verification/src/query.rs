//! Query-side text rules: full-text query terms, path signals, module keys,
//! anchor strength, neighbor lists and reason lists.

use vstd::prelude::*;

use crate::compactor::string_views;
use crate::derived::{is_test_path_spec, opt_view};
use crate::model::{NeighborItem, NeighborResult};
use crate::text::{
    char_is_alphanumeric, chars_of, contains, ends_with, is_alnum, lower, lowercase, seq_contains,
    seq_ends_with, split, split_chars, string_of,
};

verus! {

/// Query-wide output options.
#[derive(Debug, Clone, Copy, PartialEq, Eq, Structural)]
pub struct QueryOptions {
    pub compact: bool,
    pub expand: u8,
}

impl QueryOptions {
    /// Options with the given compaction switch and expansion level.
    pub fn new(compact: bool, expand: u8) -> (r: QueryOptions)
        ensures
            r.compact == compact,
            r.expand == expand,
    {
        QueryOptions { compact, expand }
    }
}

/// Shared candidate kinds routed through the reranker.
#[derive(Debug, Clone, Copy, PartialEq, Eq, Structural)]
pub enum CandidateType {
    Symbol,
    File,
    Test,
    Entrypoint,
}

/// The reason given for an exact name match of a candidate of this type.
pub fn exact_name_reason(t: CandidateType) -> (r: &'static str)
    ensures
        r@ == (match t {
            CandidateType::File => "exact file name match"@,
            CandidateType::Entrypoint => "exact entrypoint name match"@,
            _ => "exact symbol name match"@,
        }),
{
    match t {
        CandidateType::File => "exact file name match",
        CandidateType::Entrypoint => "exact entrypoint name match",
        CandidateType::Symbol | CandidateType::Test => "exact symbol name match",
    }
}

/// The reason given for a candidate of this type found only by fallback
/// retrieval.
pub fn fallback_reason(t: CandidateType) -> (r: &'static str)
    ensures
        r@ == (match t {
            CandidateType::File => "file candidate from fallback retrieval"@,
            CandidateType::Entrypoint => "entrypoint candidate from fallback retrieval"@,
            _ => "symbol candidate from fallback retrieval"@,
        }),
{
    match t {
        CandidateType::File => "file candidate from fallback retrieval",
        CandidateType::Entrypoint => "entrypoint candidate from fallback retrieval",
        CandidateType::Symbol | CandidateType::Test => "symbol candidate from fallback retrieval",
    }
}

/// Whether a query asks for tests.
pub open spec fn wants_test_spec(query: Seq<char>) -> bool {
    let q = lower(query);
    seq_contains(q, "test"@) || seq_contains(q, "spec"@) || seq_contains(q, "integration"@)
}

/// Whether a query asks for tests.
pub fn wants_test(query: &str) -> (r: bool)
    ensures
        r == wants_test_spec(query@),
{
    let q = lowercase(chars_of(query).as_slice());
    contains(q.as_slice(), chars_of("test").as_slice()) || contains(
        q.as_slice(),
        chars_of("spec").as_slice(),
    ) || contains(q.as_slice(), chars_of("integration").as_slice())
}

/// Whether a query asks for fixtures or snapshots (or tests).
pub open spec fn wants_fixture_spec(query: Seq<char>) -> bool {
    let q = lower(query);
    wants_test_spec(q) || seq_contains(q, "fixture"@) || seq_contains(q, "snapshot"@)
}

/// Whether a query asks for fixtures or snapshots (or tests).
pub fn wants_fixture(query: &str) -> (r: bool)
    ensures
        r == wants_fixture_spec(query@),
{
    let q = lowercase(chars_of(query).as_slice());
    let qs = string_of(q.as_slice());
    wants_test(qs.as_str()) || contains(q.as_slice(), chars_of("fixture").as_slice()) || contains(
        q.as_slice(),
        chars_of("snapshot").as_slice(),
    )
}

/// Whether a path looks like fixtures, snapshots or generated bindings.
pub open spec fn is_low_signal_spec(path: Seq<char>) -> bool {
    let l = lower(path);
    seq_contains(l, "fixture"@) || seq_contains(l, "fixtures"@) || seq_contains(l, "snapshot"@)
        || seq_contains(l, "snapshots"@) || seq_ends_with(l, ".generated.rs"@) || seq_ends_with(
        l,
        "/bindings.rs"@,
    )
}

/// Whether a path looks like fixtures, snapshots or generated bindings.
pub fn is_low_signal_path(path: &str) -> (r: bool)
    ensures
        r == is_low_signal_spec(path@),
{
    let l = lowercase(chars_of(path).as_slice());
    contains(l.as_slice(), chars_of("fixture").as_slice()) || contains(
        l.as_slice(),
        chars_of("fixtures").as_slice(),
    ) || contains(l.as_slice(), chars_of("snapshot").as_slice()) || contains(
        l.as_slice(),
        chars_of("snapshots").as_slice(),
    ) || ends_with(l.as_slice(), chars_of(".generated.rs").as_slice()) || ends_with(
        l.as_slice(),
        chars_of("/bindings.rs").as_slice(),
    )
}

/// Characters kept of a query or name when matching: alphanumerics, '_',
/// ':' and '/'.
pub open spec fn text_char() -> spec_fn(char) -> bool {
    |c: char| is_alnum(c) || c == '_' || c == ':' || c == '/'
}

/// The kept characters, ASCII-lowercased.
pub open spec fn normalize_text_spec(s: Seq<char>) -> Seq<char> {
    lower(s.filter(text_char()))
}

/// Keeps alphanumerics, '_', ':' and '/', ASCII-lowercased.
pub fn normalize_text(value: &str) -> (r: String)
    ensures
        r@ == normalize_text_spec(value@),
{
    let chars = chars_of(value);
    let mut kept: Vec<char> = Vec::new();
    let mut i: usize = 0;
    while i < chars.len()
        invariant
            i <= chars@.len(),
            chars@ == value@,
            kept@ == chars@.subrange(0, i as int).filter(text_char()),
        decreases chars@.len() - i,
    {
        let c = chars[i];
        assert(chars@.subrange(0, i + 1).drop_last() =~= chars@.subrange(0, i as int));
        proof {
            reveal(Seq::filter);
        }
        if char_is_alphanumeric(c) || c == '_' || c == ':' || c == '/' {
            kept.push(c);
        }
        i = i + 1;
    }
    assert(chars@.subrange(0, chars@.len() as int) =~= chars@);
    string_of(lowercase(kept.as_slice()).as_slice())
}

/// The last `::` segment of a label.
pub open spec fn short_label_spec(label: Seq<char>) -> Seq<char> {
    split(label, "::"@).last()
}

/// The last `::` segment of a label.
pub fn short_label(label: &str) -> (r: String)
    ensures
        r@ == short_label_spec(label@),
{
    let sep = chars_of("::");
    proof {
        reveal_strlit("::");
    }
    let chars = chars_of(label);
    let parts = split_chars(chars.as_slice(), sep.as_slice());
    proof {
        crate::derived::lemma_split_nonempty(chars@, sep@);
    }
    assert(parts@.map_values(|v: Vec<char>| v@).last() == parts@[parts@.len() - 1]@);
    string_of(parts[parts.len() - 1].as_slice())
}

/// How strongly a candidate matches the query textually: 4 for an exact
/// name, 3 for an exact qualified name or path, 2 for a prefix, 1 for a
/// substring and 1 for a close fuzzy match.
pub open spec fn anchor_strength_spec(
    exact_name: bool,
    exact_qualname: bool,
    exact_path: bool,
    prefix: bool,
    substring: bool,
    fuzzy_close: bool,
) -> nat {
    (if exact_name { 4nat } else { 0nat }) + (if exact_qualname || exact_path { 3nat } else { 0nat })
        + (if prefix { 2nat } else { 0nat }) + (if substring { 1nat } else { 0nat }) + (if fuzzy_close {
        1nat
    } else {
        0nat
    })
}

/// How strongly a candidate matches the query textually; `fuzzy_close` says
/// whether its fuzzy score is above 0.7.
pub fn anchor_strength(
    exact_name: bool,
    exact_qualname: bool,
    exact_path: bool,
    prefix: bool,
    substring: bool,
    fuzzy_close: bool,
) -> (r: usize)
    ensures
        r as nat == anchor_strength_spec(
            exact_name,
            exact_qualname,
            exact_path,
            prefix,
            substring,
            fuzzy_close,
        ),
{
    let mut score: usize = 0;
    if exact_name {
        score = score + 4;
    }
    if exact_qualname || exact_path {
        score = score + 3;
    }
    if prefix {
        score = score + 2;
    }
    if substring {
        score = score + 1;
    }
    if fuzzy_close {
        score = score + 1;
    }
    score
}

/// Plain view of a neighbor item: label, kind, detail, reasons.
pub open spec fn item_view(i: NeighborItem) -> (Seq<char>, Seq<char>, Option<Seq<char>>, Seq<Seq<char>>) {
    (i.label@, i.kind@, opt_view(i.detail), string_views(i.why@))
}

/// Views of a list of neighbor items.
pub open spec fn item_views(v: Seq<NeighborItem>) -> Seq<(Seq<char>, Seq<char>, Option<Seq<char>>, Seq<Seq<char>>)> {
    v.map_values(|i: NeighborItem| item_view(i))
}

/// A neighbor item with one reason.
pub fn item(label: String, kind: String, detail: Option<String>, why: String) -> (r: NeighborItem)
    ensures
        item_view(r) == (label@, kind@, opt_view(detail), seq![why@]),
{
    let mut reasons: Vec<String> = Vec::new();
    reasons.push(why);
    let r = NeighborItem { label, kind, detail, why: reasons };
    assert(string_views(r.why@) =~= seq![r.why@[0]@]);
    r
}

/// A copy of a neighbor item.
pub fn copy_item(x: &NeighborItem) -> (r: NeighborItem)
    ensures
        item_view(r) == item_view(*x),
{
    let mut why: Vec<String> = Vec::new();
    let mut i: usize = 0;
    while i < x.why.len()
        invariant
            i <= x.why@.len(),
            why@ == x.why@.subrange(0, i as int),
        decreases x.why@.len() - i,
    {
        why.push(x.why[i].clone());
        assert(why@ =~= x.why@.subrange(0, i + 1));
        i = i + 1;
    }
    assert(x.why@.subrange(0, x.why@.len() as int) =~= x.why@);
    let detail = match &x.detail {
        Some(d) => Some(d.clone()),
        None => None,
    };
    NeighborItem { label: x.label.clone(), kind: x.kind.clone(), detail, why }
}

/// The first item of each (label, kind) among the first `n`, in order.
pub open spec fn dedup_items_upto(items: Seq<NeighborItem>, n: nat) -> Seq<NeighborItem>
    decreases n,
{
    if n == 0 {
        Seq::empty()
    } else {
        let prev = dedup_items_upto(items, (n - 1) as nat);
        let it = items[n - 1];
        if exists|j: int|
            0 <= j < prev.len() && (#[trigger] prev[j]).label@ == it.label@ && prev[j].kind@
                == it.kind@ {
            prev
        } else {
            prev.push(it)
        }
    }
}

/// Keeps the first item of each (label, kind).
pub fn dedup_items(items: Vec<NeighborItem>) -> (r: Vec<NeighborItem>)
    ensures
        r@ == dedup_items_upto(items@, items@.len() as nat),
{
    let ghost orig = items@;
    let mut rest = items;
    let mut out: Vec<NeighborItem> = Vec::new();
    while rest.len() > 0
        invariant
            rest@.len() <= orig.len(),
            rest@ == orig.subrange(orig.len() - rest@.len(), orig.len() as int),
            out@ == dedup_items_upto(orig, (orig.len() - rest@.len()) as nat),
        decreases rest@.len(),
    {
        let ghost i = orig.len() - rest@.len();
        let it = rest.remove(0);
        assert(it == orig[i]);
        assert(rest@ =~= orig.subrange(orig.len() - rest@.len(), orig.len() as int));
        let mut seen = false;
        let mut j: usize = 0;
        while j < out.len()
            invariant
                j <= out@.len(),
                seen <==> exists|q: int|
                    0 <= q < j && (#[trigger] out@[q]).label@ == it.label@ && out@[q].kind@
                        == it.kind@,
            decreases out@.len() - j,
        {
            if out[j].label == it.label && out[j].kind == it.kind {
                seen = true;
            }
            j = j + 1;
        }
        if !seen {
            out.push(it);
        }
    }
    out
}

/// Cuts a list to at most `max_items`, saying whether anything was cut.
pub fn limit_items<T>(items: &mut Vec<T>, max_items: usize) -> (r: bool)
    ensures
        r == (old(items)@.len() > max_items),
        final(items)@ == (if old(items)@.len() > max_items {
            old(items)@.subrange(0, max_items as int)
        } else {
            old(items)@
        }),
{
    let truncated = items.len() > max_items;
    items.truncate(max_items);
    truncated
}

/// The first eight of the callees, tests, entrypoints and impl relations.
pub open spec fn flattened(r: NeighborResult) -> Seq<(Seq<char>, Seq<char>, Option<Seq<char>>, Seq<Seq<char>>)> {
    let all = item_views(r.likely_callees@) + item_views(r.related_tests@) + item_views(
        r.entrypoints@,
    ) + item_views(r.impl_relations@);
    if all.len() > 8 {
        all.subrange(0, 8)
    } else {
        all
    }
}

/// Appends copies of `src` to `out`.
fn extend_items(out: &mut Vec<NeighborItem>, src: &Vec<NeighborItem>)
    ensures
        item_views(final(out)@) == item_views(old(out)@) + item_views(src@),
{
    let ghost start = item_views(out@);
    let mut i: usize = 0;
    while i < src.len()
        invariant
            i <= src@.len(),
            item_views(out@) == start + item_views(src@).subrange(0, i as int),
        decreases src@.len() - i,
    {
        let c = copy_item(&src[i]);
        let ghost before = item_views(out@);
        let ghost cv = item_view(c);
        out.push(c);
        assert(item_views(out@) =~= before.push(cv));
        assert(item_views(src@).subrange(0, i + 1) =~= item_views(src@).subrange(0, i as int).push(
            item_view(src@[i as int]),
        ));
        i = i + 1;
    }
    assert(item_views(src@).subrange(0, src@.len() as int) =~= item_views(src@));
}

/// Callees, tests, entrypoints and impl relations of a neighborhood, at most
/// eight in all.
pub fn flatten_neighbors(result: &NeighborResult) -> (r: Vec<NeighborItem>)
    ensures
        item_views(r@) == flattened(*result),
{
    let mut items: Vec<NeighborItem> = Vec::new();
    assert(item_views(items@) =~= Seq::empty());
    extend_items(&mut items, &result.likely_callees);
    extend_items(&mut items, &result.related_tests);
    extend_items(&mut items, &result.entrypoints);
    extend_items(&mut items, &result.impl_relations);
    let ghost all = item_views(items@);
    assert(all =~= item_views(result.likely_callees@) + item_views(result.related_tests@)
        + item_views(result.entrypoints@) + item_views(result.impl_relations@));
    items.truncate(8);
    assert(item_views(items@) =~= (if all.len() > 8 {
        all.subrange(0, 8)
    } else {
        all
    }));
    items
}

/// The list limits of a compact neighborhood at an expansion level: methods,
/// impl relations, callees, tests, co-changed files, entrypoints.
pub open spec fn neighbor_limits(expand: u8) -> (usize, usize, usize, usize, usize, usize) {
    if expand == 0 {
        (3, 3, 3, 2, 2, 2)
    } else if expand == 1 {
        (5, 5, 5, 4, 4, 3)
    } else {
        (7, 7, 7, 6, 6, 4)
    }
}

/// A list cut to at most `n` items.
pub open spec fn cut<T>(s: Seq<T>, n: usize) -> Seq<T> {
    if s.len() > n {
        s.subrange(0, n as int)
    } else {
        s
    }
}

/// Cuts every list of a neighborhood to the limits of the expansion level;
/// returns whether the result is exhaustive (nothing was cut) and, if not,
/// the hint to expand.
pub fn compact_neighbors(result: &mut NeighborResult, expand: u8) -> (r: (bool, Option<String>))
    ensures
        ({
            let (a, b, c, d, e, f) = neighbor_limits(expand);
            &&& final(result).methods@ == cut(old(result).methods@, a)
            &&& final(result).impl_relations@ == cut(old(result).impl_relations@, b)
            &&& final(result).likely_callees@ == cut(old(result).likely_callees@, c)
            &&& final(result).related_tests@ == cut(old(result).related_tests@, d)
            &&& final(result).cochanged_files@ == cut(old(result).cochanged_files@, e)
            &&& final(result).entrypoints@ == cut(old(result).entrypoints@, f)
            &&& r.0 == !(old(result).methods@.len() > a || old(result).impl_relations@.len() > b
                || old(result).likely_callees@.len() > c || old(result).related_tests@.len() > d
                || old(result).cochanged_files@.len() > e || old(result).entrypoints@.len() > f)
        }),
        final(result).qualname == old(result).qualname,
        final(result).file_path == old(result).file_path,
        final(result).parent_symbol == old(result).parent_symbol,
        final(result).why == old(result).why,
        r.0 ==> r.1 is None,
        !r.0 ==> (r.1 matches Some(h) && h@ == "expand to neighbors or related tests"@),
{
    let (a, b, c, d, e, f): (usize, usize, usize, usize, usize, usize) = if expand == 0 {
        (3, 3, 3, 2, 2, 2)
    } else if expand == 1 {
        (5, 5, 5, 4, 4, 3)
    } else {
        (7, 7, 7, 6, 6, 4)
    };
    let mut truncated = false;
    truncated = limit_items(&mut result.methods, a) || truncated;
    truncated = limit_items(&mut result.impl_relations, b) || truncated;
    truncated = limit_items(&mut result.likely_callees, c) || truncated;
    truncated = limit_items(&mut result.related_tests, d) || truncated;
    truncated = limit_items(&mut result.cochanged_files, e) || truncated;
    truncated = limit_items(&mut result.entrypoints, f) || truncated;
    let hint = if truncated {
        Some("expand to neighbors or related tests".to_owned())
    } else {
        None
    };
    (!truncated, hint)
}

/// The first occurrence of each reason among the first `n`, in order.
pub open spec fn unique_upto(rs: Seq<Seq<char>>, n: nat) -> Seq<Seq<char>>
    decreases n,
{
    if n == 0 {
        Seq::empty()
    } else {
        let prev = unique_upto(rs, (n - 1) as nat);
        if prev.contains(rs[n - 1]) {
            prev
        } else {
            prev.push(rs[n - 1])
        }
    }
}

/// Whether a list of strings holds `s`.
fn holds(v: &Vec<String>, s: &String) -> (r: bool)
    ensures
        r == string_views(v@).contains(s@),
{
    let mut i: usize = 0;
    while i < v.len()
        invariant
            i <= v@.len(),
            forall|k: int| 0 <= k < i ==> v@[k]@ != s@,
        decreases v@.len() - i,
    {
        if v[i] == *s {
            assert(string_views(v@)[i as int] == s@);
            return true;
        }
        i = i + 1;
    }
    assert forall|k: int| 0 <= k < string_views(v@).len() implies string_views(v@)[k] != s@ by {
        assert(string_views(v@)[k] == v@[k]@);
    }
    false
}

/// Keeps the first occurrence of each reason.
pub fn dedup_why(reasons: &mut Vec<String>)
    ensures
        string_views(final(reasons)@) == unique_upto(
            string_views(old(reasons)@),
            old(reasons)@.len() as nat,
        ),
{
    let ghost orig = string_views(reasons@);
    let mut unique: Vec<String> = Vec::new();
    let mut i: usize = 0;
    assert(string_views(unique@) =~= Seq::<Seq<char>>::empty());
    while i < reasons.len()
        invariant
            i <= reasons@.len(),
            orig == string_views(reasons@),
            string_views(unique@) == unique_upto(orig, i as nat),
        decreases reasons@.len() - i,
    {
        assert(orig[i as int] == reasons@[i as int]@);
        if !holds(&unique, &reasons[i]) {
            let ghost before = string_views(unique@);
            unique.push(reasons[i].clone());
            assert(string_views(unique@) =~= before.push(orig[i as int]));
        }
        i = i + 1;
    }
    *reasons = unique;
}

/// The non-blank reasons, first occurrences only, or the fallback when none
/// is left.
pub open spec fn dedup_reasons_spec(rs: Seq<Seq<char>>, fallback: Seq<char>) -> Seq<Seq<char>> {
    let kept = unique_upto(nonblank(rs, rs.len()), nonblank(rs, rs.len()).len());
    if kept.len() == 0 {
        seq![fallback]
    } else {
        kept
    }
}

/// The reasons among the first `n` that are not blank.
pub open spec fn nonblank(rs: Seq<Seq<char>>, n: nat) -> Seq<Seq<char>>
    decreases n,
{
    if n == 0 {
        Seq::empty()
    } else if crate::text::trim(rs[n - 1]).len() == 0 {
        nonblank(rs, (n - 1) as nat)
    } else {
        nonblank(rs, (n - 1) as nat).push(rs[n - 1])
    }
}

/// Drops blank and repeated reasons; falls back to `fallback` when none is
/// left.
pub fn dedup_reasons(reasons: Vec<String>, fallback: &str) -> (r: Vec<String>)
    ensures
        string_views(r@) == dedup_reasons_spec(string_views(reasons@), fallback@),
{
    let ghost rs = string_views(reasons@);
    let mut kept: Vec<String> = Vec::new();
    let mut i: usize = 0;
    assert(string_views(kept@) =~= Seq::<Seq<char>>::empty());
    while i < reasons.len()
        invariant
            i <= reasons@.len(),
            rs == string_views(reasons@),
            string_views(kept@) == nonblank(rs, i as nat),
        decreases reasons@.len() - i,
    {
        assert(rs[i as int] == reasons@[i as int]@);
        let t = crate::text::trim_chars(chars_of(reasons[i].as_str()).as_slice());
        if t.len() > 0 {
            let ghost before = string_views(kept@);
            kept.push(reasons[i].clone());
            assert(string_views(kept@) =~= before.push(rs[i as int]));
        }
        i = i + 1;
    }
    dedup_why(&mut kept);
    if kept.len() == 0 {
        kept.push(fallback.to_owned());
        assert(string_views(kept@) =~= seq![fallback@]);
    }
    kept
}

/// Characters that make up a full-text query term.
pub open spec fn term_char(allow_slash: bool) -> spec_fn(char) -> bool {
    |c: char| is_alnum(c) || c == '_' || (allow_slash && c == '/')
}

/// The maximal runs of characters accepted by `keep`, in order.
pub open spec fn runs(s: Seq<char>, keep: spec_fn(char) -> bool) -> Seq<Seq<char>>
    decreases s.len(),
{
    if s.len() == 0 {
        Seq::empty()
    } else {
        let w = runs(s.drop_last(), keep);
        let c = s.last();
        if !keep(c) {
            w
        } else if s.len() >= 2 && keep(s[s.len() - 2]) {
            w.update(w.len() - 1, w.last().push(c))
        } else {
            w.push(seq![c])
        }
    }
}

/// The full-text query for a search string: each term followed by '*',
/// joined with " OR "; none when the string has no term.
pub open spec fn fts_query_spec(query: Seq<char>, allow_slash: bool) -> Option<Seq<char>> {
    let terms = runs(query, term_char(allow_slash));
    if terms.len() == 0 {
        None
    } else {
        Some(crate::text::join(terms.map_values(|t: Seq<char>| t.push('*')), " OR "@))
    }
}

/// Builds the full-text prefix query for a search string.
pub fn make_fts_query(query: &str, allow_slash: bool) -> (r: Option<String>)
    ensures
        match r {
            Some(q) => fts_query_spec(query@, allow_slash) == Some(q@),
            None => fts_query_spec(query@, allow_slash) is None,
        },
{
    let s = chars_of(query);
    let ghost keep = term_char(allow_slash);
    let mut done: Vec<Vec<char>> = Vec::new();
    let mut current: Vec<char> = Vec::new();
    let mut in_term = false;
    let mut i: usize = 0;
    while i < s.len()
        invariant
            i <= s@.len(),
            s@ == query@,
            keep == term_char(allow_slash),
            in_term == (i > 0 && keep(s@[i - 1])),
            !in_term ==> done@.map_values(|v: Vec<char>| v@) == runs(s@.subrange(0, i as int), keep),
            in_term ==> done@.map_values(|v: Vec<char>| v@).push(current@) == runs(
                s@.subrange(0, i as int),
                keep,
            ),
        decreases s@.len() - i,
    {
        let c = s[i];
        let ghost pre = s@.subrange(0, i as int);
        let ghost next = s@.subrange(0, i + 1);
        assert(next.drop_last() =~= pre);
        assert(next.last() == c);
        let ghost before = done@.map_values(|v: Vec<char>| v@);
        let kept = char_is_alphanumeric(c) || c == '_' || (allow_slash && c == '/');
        assert(kept == keep(c));
        if !kept {
            if in_term {
                let word = current;
                current = Vec::new();
                done.push(word);
                assert(done@.map_values(|v: Vec<char>| v@) =~= before.push(word@));
            }
            in_term = false;
        } else {
            if in_term {
                assert(next[next.len() - 2] == s@[i - 1]);
                let ghost w = runs(pre, keep);
                assert(w =~= before.push(current@));
                current.push(c);
                assert(w.update(w.len() - 1, w.last().push(c)) =~= before.push(current@));
            } else {
                current = Vec::new();
                current.push(c);
                if i > 0 {
                    assert(next[next.len() - 2] == s@[i - 1]);
                }
                assert(current@ =~= seq![c]);
            }
            in_term = true;
        }
        i = i + 1;
    }
    assert(s@.subrange(0, s@.len() as int) =~= s@);
    if in_term {
        let ghost before = done@.map_values(|v: Vec<char>| v@);
        done.push(current);
        assert(done@.map_values(|v: Vec<char>| v@) =~= before.push(current@));
    }
    let ghost terms = done@.map_values(|v: Vec<char>| v@);
    if done.len() == 0 {
        return None;
    }
    let mut starred: Vec<Vec<char>> = Vec::new();
    let mut k: usize = 0;
    while k < done.len()
        invariant
            k <= done@.len(),
            terms == done@.map_values(|v: Vec<char>| v@),
            starred@.map_values(|v: Vec<char>| v@) == terms.subrange(0, k as int).map_values(
                |t: Seq<char>| t.push('*'),
            ),
        decreases done@.len() - k,
    {
        let mut t = crate::text::copy_range(done[k].as_slice(), 0, done[k].len());
        assert(done@[k as int]@.subrange(0, done@[k as int]@.len() as int) =~= done@[k as int]@);
        t.push('*');
        let ghost before = starred@.map_values(|v: Vec<char>| v@);
        let ghost tv = t@;
        starred.push(t);
        assert(starred@.map_values(|v: Vec<char>| v@) =~= before.push(tv));
        assert(terms.subrange(0, k + 1).map_values(|t: Seq<char>| t.push('*')) =~= terms.subrange(
            0,
            k as int,
        ).map_values(|t: Seq<char>| t.push('*')).push(tv));
        k = k + 1;
    }
    assert(terms.subrange(0, terms.len() as int) =~= terms);
    let joined = crate::text::join_chars(&starred, chars_of(" OR ").as_slice());
    Some(string_of(joined.as_slice()))
}

/// Every '/' turned into "::".
pub open spec fn slashes_to_colons(s: Seq<char>) -> Seq<char>
    decreases s.len(),
{
    if s.len() == 0 {
        s
    } else {
        slashes_to_colons(s.drop_last()) + (if s.last() == '/' {
            seq![':', ':']
        } else {
            seq![s.last()]
        })
    }
}

/// Turns every '/' into "::".
pub(crate) fn slashes_to_colons_exec(s: &[char]) -> (r: Vec<char>)
    ensures
        r@ == slashes_to_colons(s@),
{
    let mut r: Vec<char> = Vec::new();
    let mut i: usize = 0;
    while i < s.len()
        invariant
            i <= s@.len(),
            r@ == slashes_to_colons(s@.subrange(0, i as int)),
        decreases s@.len() - i,
    {
        assert(s@.subrange(0, i + 1).drop_last() =~= s@.subrange(0, i as int));
        let ghost before = r@;
        if s[i] == '/' {
            r.push(':');
            r.push(':');
        } else {
            r.push(s[i]);
        }
        assert(r@ =~= slashes_to_colons(s@.subrange(0, i + 1)));
        i = i + 1;
    }
    assert(s@.subrange(0, s@.len() as int) =~= s@);
    r
}

/// The text before the last occurrence of `sep`, if it occurs.
pub open spec fn before_last(s: Seq<char>, sep: Seq<char>) -> Option<Seq<char>> {
    let i = crate::text::last_index(s, sep);
    if i >= 0 {
        Some(s.subrange(0, i))
    } else {
        None
    }
}

/// The text before the last occurrence of `sep`, if it occurs.
fn before_last_exec(s: &[char], sep: &[char]) -> (r: Option<Vec<char>>)
    ensures
        match r {
            Some(v) => before_last(s@, sep@) == Some(v@),
            None => before_last(s@, sep@) is None,
        },
{
    match crate::text::rfind(s, sep) {
        Some(i) => {
            proof {
                crate::text::lemma_last_before(s@, sep@, s@.len() as int + 1);
            }
            Some(crate::text::copy_range(s, 0, i))
        },
        None => None,
    }
}

/// The module prefixes a query names: the part before its last "::", and
/// the part before its last '/' written with "::".
pub open spec fn module_hints_spec(query: Seq<char>) -> Set<Seq<char>> {
    let a = match before_last(query, "::"@) {
        Some(p) => set![p],
        None => Set::empty(),
    };
    let b = match before_last(query, "/"@) {
        Some(p) => set![slashes_to_colons(p)],
        None => Set::empty(),
    };
    a.union(b)
}

/// The module prefixes a query names, sorted and without repeats.
pub fn module_hints_from_query(query: &str) -> (r: Vec<String>)
    ensures
        crate::git::sorted_strict(string_views(r@)),
        string_views(r@).to_set() == module_hints_spec(query@),
{
    let q = chars_of(query);
    let mut out: Vec<String> = Vec::new();
    assert(crate::git::sorted_strict(string_views(out@))) by {
        assert(string_views(out@).len() == 0);
    }
    assert(string_views(out@).to_set() =~= Set::<Seq<char>>::empty()) by {
        assert(string_views(out@).len() == 0);
    }
    let colons = chars_of("::");
    let slash = chars_of("/");
    let ghost q0 = string_views(out@).to_set();
    match before_last_exec(q.as_slice(), colons.as_slice()) {
        Some(p) => crate::git::sorted_insert_string(&mut out, string_of(p.as_slice())),
        None => {},
    }
    let ghost a = match before_last(q@, "::"@) {
        Some(p) => set![p],
        None => Set::<Seq<char>>::empty(),
    };
    assert(string_views(out@).to_set() =~= a);
    match before_last_exec(q.as_slice(), slash.as_slice()) {
        Some(p) => {
            let c = slashes_to_colons_exec(p.as_slice());
            crate::git::sorted_insert_string(&mut out, string_of(c.as_slice()));
        },
        None => {},
    }
    assert(string_views(out@).to_set() =~= module_hints_spec(query@));
    out
}

/// The module a candidate belongs to: its module path, else the prefix of
/// its qualified name, else its directory written with "::".
pub open spec fn module_key_spec(
    mod_path: Option<Seq<char>>,
    qualname: Option<Seq<char>>,
    path: Seq<char>,
) -> Option<Seq<char>> {
    match mod_path {
        Some(m) => Some(m),
        None => {
            let from_q = match qualname {
                Some(q) => before_last(q, "::"@),
                None => None,
            };
            match from_q {
                Some(p) => Some(p),
                None => match before_last(path, "/"@) {
                    Some(d) => Some(slashes_to_colons(d)),
                    None => None,
                },
            }
        },
    }
}

/// The module a candidate belongs to.
pub fn module_key(mod_path: &Option<String>, qualname: &Option<String>, path: &str) -> (r: Option<
    String,
>)
    ensures
        match r {
            Some(k) => module_key_spec(opt_view(*mod_path), opt_view(*qualname), path@) == Some(k@),
            None => module_key_spec(opt_view(*mod_path), opt_view(*qualname), path@) is None,
        },
{
    match mod_path {
        Some(m) => return Some(m.clone()),
        None => {},
    }
    match qualname {
        Some(q) => match before_last_exec(chars_of(q.as_str()).as_slice(), chars_of("::").as_slice()) {
            Some(p) => return Some(string_of(p.as_slice())),
            None => {},
        },
        None => {},
    }
    match before_last_exec(chars_of(path).as_slice(), chars_of("/").as_slice()) {
        Some(d) => Some(string_of(slashes_to_colons_exec(d.as_slice()).as_slice())),
        None => None,
    }
}

/// Cuts a list of strings to at most `max_items`, saying whether anything
/// was cut.
pub fn truncate_strings(items: &mut Vec<String>, max_items: usize) -> (r: bool)
    ensures
        r == (old(items)@.len() > max_items),
        final(items)@ == cut(old(items)@, max_items),
{
    limit_items(items, max_items)
}

/// The list limits of a compact outline at an expansion level: imports,
/// top-level symbols, impl blocks, tests.
pub open spec fn outline_limits(expand: u8) -> (usize, usize, usize, usize) {
    if expand == 0 {
        (4, 5, 3, 2)
    } else if expand == 1 {
        (6, 8, 5, 4)
    } else {
        (10, 12, 8, 6)
    }
}

/// Cuts every list of an outline to the limits of the expansion level;
/// returns whether it is exhaustive and, if not, the hint to expand.
pub fn compact_outline(outline: &mut crate::model::OutlineResult, expand: u8) -> (r: (
    bool,
    Option<String>,
))
    ensures
        ({
            let (a, b, c, d) = outline_limits(expand);
            &&& final(outline).imports@ == cut(old(outline).imports@, a)
            &&& final(outline).top_level_symbols@ == cut(old(outline).top_level_symbols@, b)
            &&& final(outline).impl_blocks@ == cut(old(outline).impl_blocks@, c)
            &&& final(outline).test_functions@ == cut(old(outline).test_functions@, d)
            &&& r.0 == !(old(outline).imports@.len() > a || old(outline).top_level_symbols@.len() > b
                || old(outline).impl_blocks@.len() > c || old(outline).test_functions@.len() > d)
        }),
        final(outline).path == old(outline).path,
        final(outline).summary == old(outline).summary,
        final(outline).why == old(outline).why,
        r.0 ==> r.1 is None,
        !r.0 ==> (r.1 matches Some(h) && h@ == "expand outline or read top symbol snippet"@),
{
    let (a, b, c, d): (usize, usize, usize, usize) = if expand == 0 {
        (4, 5, 3, 2)
    } else if expand == 1 {
        (6, 8, 5, 4)
    } else {
        (10, 12, 8, 6)
    };
    let mut truncated = false;
    truncated = truncate_strings(&mut outline.imports, a) || truncated;
    truncated = truncate_strings(&mut outline.top_level_symbols, b) || truncated;
    truncated = truncate_strings(&mut outline.impl_blocks, c) || truncated;
    truncated = truncate_strings(&mut outline.test_functions, d) || truncated;
    let hint = if truncated {
        Some("expand outline or read top symbol snippet".to_owned())
    } else {
        None
    };
    (!truncated, hint)
}

/// One outline line for a symbol: kind, name and line range.
pub open spec fn symbol_line_spec(kind: Seq<char>, name: Seq<char>, start: usize, end: usize) -> Seq<
    char,
> {
    kind + " "@ + name + " ["@ + crate::text::decimal(start as int) + "-"@ + crate::text::decimal(
        end as int,
    ) + "]"@
}

/// One outline line for a symbol: "kind name [start-end]".
pub fn symbol_line(kind: &str, name: &str, start: usize, end: usize) -> (r: String)
    ensures
        r@ == symbol_line_spec(kind@, name@, start, end),
{
    let a = crate::text::concat3(kind, " ", name);
    let b = crate::text::concat3(a.as_str(), " [", crate::text::decimal_of_usize(start).as_str());
    let c = crate::text::concat3(b.as_str(), "-", crate::text::decimal_of_usize(end).as_str());
    let r = crate::text::concat2(c.as_str(), "]");
    assert(r@ =~= symbol_line_spec(kind@, name@, start, end));
    r
}

/// The hint of a compacted result list: none when it is exhaustive, else
/// "expand for additional results".
pub fn compact_hint(is_exhaustive: bool) -> (r: Option<String>)
    ensures
        r is None <==> is_exhaustive,
        r matches Some(h) ==> h@ == "expand for additional results"@,
{
    if is_exhaustive {
        None
    } else {
        Some("expand for additional results".to_owned())
    }
}

/// The hint of a compact symbol search that is not exhaustive.
pub fn symbol_search_hint(has_items: bool) -> (r: String)
    ensures
        r@ == (if has_items {
            "read top symbol snippet or expand to neighbors"@
        } else {
            "expand symbol search"@
        }),
{
    if has_items {
        "read top symbol snippet or expand to neighbors".to_owned()
    } else {
        "expand symbol search".to_owned()
    }
}

/// The hint of a compact file search that is not exhaustive.
pub fn file_search_hint(has_items: bool) -> (r: String)
    ensures
        r@ == (if has_items {
            "read top file outline or expand file search"@
        } else {
            "expand file search"@
        }),
{
    if has_items {
        "read top file outline or expand file search".to_owned()
    } else {
        "expand file search".to_owned()
    }
}

/// The hint of compact suggestions: none when exhaustive, else related tests
/// when some test was suggested, else neighbors or file search.
pub fn suggest_hint(is_exhaustive: bool, has_tests: bool) -> (r: Option<String>)
    ensures
        is_exhaustive ==> r is None,
        !is_exhaustive && has_tests ==> (r matches Some(h) && h@ == "expand to related tests"@),
        !is_exhaustive && !has_tests ==> (r matches Some(h) && h@
            == "expand to neighbors or file search"@),
{
    if is_exhaustive {
        None
    } else if has_tests {
        Some("expand to related tests".to_owned())
    } else {
        Some("expand to neighbors or file search".to_owned())
    }
}

/// The limits of a compact explanation at an expansion level: symbols,
/// files, neighbors, next steps.
pub open spec fn explain_limits(expand: u8) -> (usize, usize, usize, usize) {
    if expand == 0 {
        (2, 2, 4, 3)
    } else if expand == 1 {
        (3, 3, 6, 4)
    } else {
        (4, 4, 8, 5)
    }
}

/// The limits of a compact explanation at an expansion level.
pub fn explain_limits_of(expand: u8) -> (r: (usize, usize, usize, usize))
    ensures
        r == explain_limits(expand),
{
    if expand == 0 {
        (2, 2, 4, 3)
    } else if expand == 1 {
        (3, 3, 6, 4)
    } else {
        (4, 4, 8, 5)
    }
}

/// What a compact explanation says beyond its search results.
#[derive(Debug, Clone)]
pub struct ExplainDraft {
    pub query: String,
    pub outline_summary: String,
    pub neighbors: Vec<NeighborItem>,
    pub next_steps: Vec<String>,
    pub is_exhaustive: bool,
    pub expansion_hint: Option<String>,
}

/// The one-line outline summary of the top file.
pub open spec fn outline_line(o: Option<crate::model::OutlineResult>) -> Seq<char> {
    match o {
        Some(x) => x.summary@ + " | top-level: "@ + crate::text::join(
            string_views(x.top_level_symbols@),
            ", "@,
        ) + " | tests: "@ + crate::text::decimal(x.test_functions@.len() as int),
        None => "No matching file outline available"@,
    }
}

/// Whether some neighbor is a test or a test file.
pub open spec fn has_test_neighbor(v: Seq<(Seq<char>, Seq<char>, Option<Seq<char>>, Seq<Seq<char>>)>) -> bool {
    exists|i: int| 0 <= i < v.len() && ((#[trigger] v[i]).1 == "test"@ || v[i].1 == "test_file"@)
}

/// The suggested next steps before the limit: read the top symbol, outline
/// the top file, then related tests or neighbors; a refinement hint when
/// there is nothing else.
pub open spec fn next_steps_spec(top_symbol: Option<Seq<char>>, top_file: Option<Seq<char>>, has_test: bool) -> Seq<
    Seq<char>,
> {
    let a = match top_symbol {
        Some(q) => seq!["read top symbol snippet: "@ + q],
        None => Seq::empty(),
    };
    let b = match top_file {
        Some(p) => seq!["outline "@ + p],
        None => Seq::empty(),
    };
    let c = if has_test {
        seq!["expand to related tests"@]
    } else if top_symbol is Some {
        seq!["expand to neighbors"@]
    } else {
        Seq::empty()
    };
    let all = a + b + c;
    if all.len() == 0 {
        seq!["refine the query with a symbol or module name"@]
    } else {
        all
    }
}

/// The view of an optional string slice.
pub open spec fn opt_str_view(s: Option<&str>) -> Option<Seq<char>> {
    match s {
        Some(t) => Some(t@),
        None => None,
    }
}

/// Composes a compact explanation of a query from the compact symbol and
/// file searches (their sizes, whether each was exhaustive, and their first
/// results), the compact outline of the top file and the flattened neighbors
/// of the top symbol.
pub fn compose_explain(
    query: &str,
    expand: u8,
    symbol_count: usize,
    symbols_exhaustive: bool,
    top_symbol: Option<&str>,
    file_count: usize,
    files_exhaustive: bool,
    top_file: Option<&str>,
    outline: Option<&crate::model::OutlineResult>,
    neighbors: Vec<NeighborItem>,
) -> (r: ExplainDraft)
    requires
        top_symbol is Some <==> symbol_count > 0,
    ensures
        ({
            let (sl, fl, nl, tl) = explain_limits(expand);
            let nv = cut(item_views(neighbors@), nl);
            let steps = next_steps_spec(opt_str_view(top_symbol), opt_str_view(top_file), has_test_neighbor(nv));
            &&& r.query@ == query@
            &&& r.outline_summary@ == outline_line(match outline { Some(o) => Some(*o), None => None })
            &&& item_views(r.neighbors@) == nv
            &&& string_views(r.next_steps@) == cut(steps, tl)
            &&& r.is_exhaustive == (symbols_exhaustive && files_exhaustive && symbol_count <= sl
                && file_count <= fl && neighbors@.len() <= nl && steps.len() <= tl)
            &&& r.is_exhaustive ==> r.expansion_hint is None
            &&& !r.is_exhaustive && has_test_neighbor(nv) ==> (r.expansion_hint matches Some(h) && h@
                == "expand to related tests"@)
            &&& !r.is_exhaustive && !has_test_neighbor(nv) ==> (r.expansion_hint matches Some(h) && h@
                == "read top symbol snippet or expand to neighbors"@)
        }),
{
    let (sl, fl, nl, tl) = explain_limits_of(expand);
    let outline_summary = match outline {
        Some(o) => {
            let mut tops: Vec<Vec<char>> = Vec::new();
            let mut i: usize = 0;
            while i < o.top_level_symbols.len()
                invariant
                    i <= o.top_level_symbols@.len(),
                    tops@.map_values(|v: Vec<char>| v@) == string_views(o.top_level_symbols@).subrange(
                        0,
                        i as int,
                    ),
                decreases o.top_level_symbols@.len() - i,
            {
                let ghost before = tops@.map_values(|v: Vec<char>| v@);
                let c = chars_of(o.top_level_symbols[i].as_str());
                let ghost cv = c@;
                tops.push(c);
                assert(tops@.map_values(|v: Vec<char>| v@) =~= before.push(cv));
                assert(string_views(o.top_level_symbols@).subrange(0, i + 1) =~= string_views(
                    o.top_level_symbols@,
                ).subrange(0, i as int).push(o.top_level_symbols@[i as int]@));
                i = i + 1;
            }
            assert(string_views(o.top_level_symbols@).subrange(0, o.top_level_symbols@.len() as int)
                =~= string_views(o.top_level_symbols@));
            let joined = string_of(crate::text::join_chars(&tops, chars_of(", ").as_slice()).as_slice());
            let a = crate::text::concat3(o.summary.as_str(), " | top-level: ", joined.as_str());
            let r = crate::text::concat3(
                a.as_str(),
                " | tests: ",
                crate::text::decimal_of_usize(o.test_functions.len()).as_str(),
            );
            assert(r@ =~= outline_line(Some(*o)));
            r
        },
        None => "No matching file outline available".to_owned(),
    };
    let neighbor_count = neighbors.len();
    let mut kept = neighbors;
    kept.truncate(nl);
    let ghost nv = item_views(kept@);
    assert(nv =~= cut(item_views(neighbors@), nl));
    let mut has_test = false;
    let mut k: usize = 0;
    while k < kept.len()
        invariant
            k <= kept@.len(),
            nv == item_views(kept@),
            has_test <==> exists|q: int| 0 <= q < k && ((#[trigger] nv[q]).1 == "test"@ || nv[q].1 == "test_file"@),
        decreases kept@.len() - k,
    {
        assert(nv[k as int].1 == kept@[k as int].kind@);
        let kc = chars_of(kept[k].kind.as_str());
        if crate::text::same_chars(kc.as_slice(), chars_of("test").as_slice()) || crate::text::same_chars(
            kc.as_slice(),
            chars_of("test_file").as_slice(),
        ) {
            has_test = true;
        }
        k = k + 1;
    }
    assert(has_test == has_test_neighbor(nv));
    let mut steps: Vec<String> = Vec::new();
    assert(string_views(steps@) =~= Seq::<Seq<char>>::empty());
    match top_symbol {
        Some(q) => {
            steps.push(crate::text::concat2("read top symbol snippet: ", q));
            assert(string_views(steps@) =~= seq!["read top symbol snippet: "@ + q@]);
        },
        None => {},
    }
    let ghost s1 = string_views(steps@);
    match top_file {
        Some(p) => {
            steps.push(crate::text::concat2("outline ", p));
            assert(string_views(steps@) =~= s1.push("outline "@ + p@));
        },
        None => {},
    }
    let ghost s2 = string_views(steps@);
    if has_test {
        steps.push("expand to related tests".to_owned());
        assert(string_views(steps@) =~= s2.push("expand to related tests"@));
    } else if top_symbol.is_some() {
        steps.push("expand to neighbors".to_owned());
        assert(string_views(steps@) =~= s2.push("expand to neighbors"@));
    }
    if steps.len() == 0 {
        steps.push("refine the query with a symbol or module name".to_owned());
        assert(string_views(steps@) =~= seq!["refine the query with a symbol or module name"@]);
    }
    let ghost all_steps = string_views(steps@);
    assert(all_steps =~= next_steps_spec(opt_str_view(top_symbol), opt_str_view(top_file), has_test));
    let steps_count = steps.len();
    steps.truncate(tl);
    assert(string_views(steps@) =~= cut(all_steps, tl));
    let is_exhaustive = symbols_exhaustive && files_exhaustive && symbol_count <= sl && file_count <= fl
        && neighbor_count <= nl && steps_count <= tl;
    let expansion_hint = if is_exhaustive {
        None
    } else if has_test {
        Some("expand to related tests".to_owned())
    } else {
        Some("read top symbol snippet or expand to neighbors".to_owned())
    };
    ExplainDraft { query: query.to_owned(), outline_summary, neighbors: kept, next_steps: steps, is_exhaustive, expansion_hint }
}

/// The top symbols and top files of a compact explanation: the search
/// results cut to the limits of the expansion level (2, 3 or 4 each).
pub fn explain_tops<S, F>(expand: u8, symbols: Vec<S>, files: Vec<F>) -> (r: (Vec<S>, Vec<F>))
    ensures
        ({
            let (sl, fl, nl, tl) = explain_limits(expand);
            &&& r.0@ == cut(symbols@, sl)
            &&& r.1@ == cut(files@, fl)
        }),
{
    let (sl, fl, _nl, _tl) = explain_limits_of(expand);
    let mut top_symbols = symbols;
    let mut top_files = files;
    limit_items(&mut top_symbols, sl);
    limit_items(&mut top_files, fl);
    (top_symbols, top_files)
}


/// The one-line outline summary of the top file in a full explanation: at
/// most four top-level symbols.
pub open spec fn full_outline_line(o: Option<crate::model::OutlineResult>) -> Seq<char> {
    match o {
        Some(x) => x.summary@ + " | top-level: "@ + crate::text::join(
            cut(string_views(x.top_level_symbols@), 4),
            ", "@,
        ) + " | tests: "@ + crate::text::decimal(x.test_functions@.len() as int),
        None => "No matching file outline available"@,
    }
}

/// Whether some neighbor is a test.
pub open spec fn has_test_item(v: Seq<(Seq<char>, Seq<char>, Option<Seq<char>>, Seq<Seq<char>>)>) -> bool {
    exists|i: int| 0 <= i < v.len() && (#[trigger] v[i]).1 == "test"@
}

/// The next steps of a full explanation: read the top symbol, outline the
/// top file, check related tests when a neighbor is a test; a refinement
/// hint when there is nothing else.
pub open spec fn full_next_steps(top_symbol: Option<Seq<char>>, top_file: Option<Seq<char>>, has_test: bool) -> Seq<
    Seq<char>,
> {
    let a = match top_symbol {
        Some(q) => seq!["read "@ + q],
        None => Seq::empty(),
    };
    let b = match top_file {
        Some(p) => seq!["outline "@ + p],
        None => Seq::empty(),
    };
    let c = if has_test {
        seq!["check related tests"@]
    } else {
        Seq::empty()
    };
    let all = a + b + c;
    if all.len() == 0 {
        seq!["refine the query with a symbol or module name"@]
    } else {
        all
    }
}

/// The outline summary and next steps of a full explanation, from the top
/// symbol and file, the outline of the top file and the flattened neighbors
/// of the top symbol.
pub fn full_explain_parts(
    top_symbol: Option<&str>,
    top_file: Option<&str>,
    outline: Option<&crate::model::OutlineResult>,
    neighbors: &Vec<NeighborItem>,
) -> (r: (String, Vec<String>))
    ensures
        r.0@ == full_outline_line(
            match outline {
                Some(o) => Some(*o),
                None => None,
            },
        ),
        string_views(r.1@) == full_next_steps(
            opt_str_view(top_symbol),
            opt_str_view(top_file),
            has_test_item(item_views(neighbors@)),
        ),
{
    let outline_summary = match outline {
        Some(o) => {
            let n = if o.top_level_symbols.len() < 4 {
                o.top_level_symbols.len()
            } else {
                4
            };
            let mut tops: Vec<Vec<char>> = Vec::new();
            let mut i: usize = 0;
            while i < n
                invariant
                    n <= o.top_level_symbols@.len(),
                    i <= n,
                    tops@.map_values(|v: Vec<char>| v@) == string_views(o.top_level_symbols@).subrange(
                        0,
                        i as int,
                    ),
                decreases n - i,
            {
                let ghost before = tops@.map_values(|v: Vec<char>| v@);
                let c = chars_of(o.top_level_symbols[i].as_str());
                let ghost cv = c@;
                tops.push(c);
                assert(tops@.map_values(|v: Vec<char>| v@) =~= before.push(cv));
                assert(string_views(o.top_level_symbols@).subrange(0, i + 1) =~= string_views(
                    o.top_level_symbols@,
                ).subrange(0, i as int).push(o.top_level_symbols@[i as int]@));
                i = i + 1;
            }
            assert(string_views(o.top_level_symbols@).subrange(0, n as int) =~= cut(
                string_views(o.top_level_symbols@),
                4,
            ));
            let joined = string_of(crate::text::join_chars(&tops, chars_of(", ").as_slice()).as_slice());
            let a = crate::text::concat3(o.summary.as_str(), " | top-level: ", joined.as_str());
            let r = crate::text::concat3(
                a.as_str(),
                " | tests: ",
                crate::text::decimal_of_usize(o.test_functions.len()).as_str(),
            );
            assert(r@ =~= full_outline_line(Some(*o)));
            r
        },
        None => "No matching file outline available".to_owned(),
    };
    let ghost nv = item_views(neighbors@);
    let mut has_test = false;
    let mut k: usize = 0;
    while k < neighbors.len()
        invariant
            k <= neighbors@.len(),
            nv == item_views(neighbors@),
            has_test <==> exists|q: int| 0 <= q < k && (#[trigger] nv[q]).1 == "test"@,
        decreases neighbors@.len() - k,
    {
        assert(nv[k as int].1 == neighbors@[k as int].kind@);
        let kc = chars_of(neighbors[k].kind.as_str());
        if crate::text::same_chars(kc.as_slice(), chars_of("test").as_slice()) {
            has_test = true;
        }
        k = k + 1;
    }
    let mut steps: Vec<String> = Vec::new();
    assert(string_views(steps@) =~= Seq::<Seq<char>>::empty());
    match top_symbol {
        Some(q) => {
            steps.push(crate::text::concat2("read ", q));
            assert(string_views(steps@) =~= seq!["read "@ + q@]);
        },
        None => {},
    }
    let ghost s1 = string_views(steps@);
    match top_file {
        Some(p) => {
            steps.push(crate::text::concat2("outline ", p));
            assert(string_views(steps@) =~= s1.push("outline "@ + p@));
        },
        None => {},
    }
    let ghost s2 = string_views(steps@);
    if has_test {
        steps.push("check related tests".to_owned());
        assert(string_views(steps@) =~= s2.push("check related tests"@));
    }
    if steps.len() == 0 {
        steps.push("refine the query with a symbol or module name".to_owned());
        assert(string_views(steps@) =~= seq!["refine the query with a symbol or module name"@]);
    }
    assert(string_views(steps@) =~= full_next_steps(opt_str_view(top_symbol), opt_str_view(top_file), has_test));
    (outline_summary, steps)
}


/// Progressive expansion only widens: at a higher expansion level every
/// budget and every list limit is at least as large as at a lower one.
pub proof fn lemma_expansion_widens(e1: u8, e2: u8, minimal_items: nat, expanded_items: nat)
    requires
        e1 <= e2,
        minimal_items <= expanded_items,
    ensures
        ({
            let (a, b) = (crate::compactor::symbol_budget_spec(e1), crate::compactor::symbol_budget_spec(e2));
            a.max_items <= b.max_items && a.max_total_chars <= b.max_total_chars && a.max_reasons_per_item
                <= b.max_reasons_per_item
        }),
        ({
            let (a, b) = (crate::compactor::file_budget_spec(e1), crate::compactor::file_budget_spec(e2));
            a.max_items <= b.max_items && a.max_total_chars <= b.max_total_chars && a.max_reasons_per_item
                <= b.max_reasons_per_item
        }),
        ({
            let a = crate::compactor::suggest_budget_spec(e1, minimal_items, expanded_items);
            let b = crate::compactor::suggest_budget_spec(e2, minimal_items, expanded_items);
            a.0 <= b.0 && a.1 <= b.1 && a.2 <= b.2
        }),
        ({
            let (a, b) = (neighbor_limits(e1), neighbor_limits(e2));
            a.0 <= b.0 && a.1 <= b.1 && a.2 <= b.2 && a.3 <= b.3 && a.4 <= b.4 && a.5 <= b.5
        }),
        ({
            let (a, b) = (outline_limits(e1), outline_limits(e2));
            a.0 <= b.0 && a.1 <= b.1 && a.2 <= b.2 && a.3 <= b.3
        }),
        ({
            let (a, b) = (explain_limits(e1), explain_limits(e2));
            a.0 <= b.0 && a.1 <= b.1 && a.2 <= b.2 && a.3 <= b.3
        }),
{
}

} // verus!
