//! How search candidates are matched against a query textually, which of
//! them anchor the search, and how related tests and edges are described.

use vstd::prelude::*;

use crate::compactor::string_views;
use crate::derived::{is_test_path, is_test_path_spec, lemma_split_nonempty, opt_view};
use crate::git::{sorted_insert_string, sorted_strict};
use crate::query::{
    CandidateType, is_low_signal_path, is_low_signal_spec, module_hints_from_query, module_hints_spec, normalize_text,
    normalize_text_spec, short_label, short_label_spec,
};
use crate::text::{chars_of, concat2, contains, seq_contains, seq_starts_with, split, split_chars, starts_with, string_of};

verus! {

/// The key under which suggested tests are merged: "symbol:" and the
/// qualified name when there is one, else "file:" and the path.
pub open spec fn test_key_spec(qualname: Option<Seq<char>>, path: Seq<char>) -> Seq<char> {
    match qualname {
        Some(q) => "symbol:"@ + q,
        None => "file:"@ + path,
    }
}

/// The key under which suggested tests are merged.
pub fn test_key(qualname: &Option<String>, path: &str) -> (r: String)
    ensures
        r@ == test_key_spec(opt_view(*qualname), path@),
{
    match qualname {
        Some(q) => concat2("symbol:", q.as_str()),
        None => concat2("file:", path),
    }
}

/// The first of two optional labels that is present.
pub open spec fn first_of(a: Option<Seq<char>>, b: Option<Seq<char>>) -> Option<Seq<char>> {
    if a is Some {
        a
    } else {
        b
    }
}

/// A label with a lead-in before its last "::" segment.
pub open spec fn labelled(lead: Seq<char>, l: Option<Seq<char>>) -> Option<Seq<char>> {
    match l {
        Some(x) => Some(lead + short_label_spec(x)),
        None => None,
    }
}

/// Why a symbol is related to the anchors, from one of its edges: its type
/// and the qualified names of its two ends.
pub open spec fn edge_reason_spec(edge_type: Seq<char>, source: Option<Seq<char>>, target: Option<Seq<char>>) -> Option<
    Seq<char>,
> {
    if edge_type == "calls"@ {
        if source is Some {
            labelled("called by "@, source)
        } else {
            labelled("calls "@, target)
        }
    } else if edge_type == "implements"@ {
        labelled("implements "@, first_of(target, source))
    } else if edge_type == "tests"@ {
        labelled("covered by "@, first_of(source, target))
    } else {
        labelled("related to "@, first_of(source, target))
    }
}

fn labelled_exec(lead: &str, l: &Option<String>) -> (r: Option<String>)
    ensures
        opt_view(r) == labelled(lead@, opt_view(*l)),
{
    match l {
        Some(x) => {
            let s = short_label(x.as_str());
            Some(concat2(lead, s.as_str()))
        },
        None => None,
    }
}

fn first_of_exec(a: &Option<String>, b: &Option<String>) -> (r: Option<String>)
    ensures
        opt_view(r) == first_of(opt_view(*a), opt_view(*b)),
{
    match a {
        Some(x) => Some(x.clone()),
        None => match b {
            Some(y) => Some(y.clone()),
            None => None,
        },
    }
}

/// Why a symbol is related to the anchors, from one of its edges.
pub fn edge_reason(edge_type: &String, source: &Option<String>, target: &Option<String>) -> (r: Option<String>)
    ensures
        opt_view(r) == edge_reason_spec(edge_type@, opt_view(*source), opt_view(*target)),
{
    if *edge_type == "calls".to_owned() {
        if source.is_some() {
            labelled_exec("called by ", source)
        } else {
            labelled_exec("calls ", target)
        }
    } else if *edge_type == "implements".to_owned() {
        labelled_exec("implements ", &first_of_exec(target, source))
    } else if *edge_type == "tests".to_owned() {
        labelled_exec("covered by ", &first_of_exec(source, target))
    } else {
        labelled_exec("related to ", &first_of_exec(source, target))
    }
}

/// An edge row as plain values: type, source and target.
pub type EdgeRowView = (Seq<char>, Option<Seq<char>>, Option<Seq<char>>);

/// The view of an edge row.
pub open spec fn edge_row_view(r: (String, Option<String>, Option<String>)) -> EdgeRowView {
    (r.0@, opt_view(r.1), opt_view(r.2))
}

/// The reason given by the last row that yields one.
pub open spec fn last_reason(rows: Seq<EdgeRowView>) -> Option<Seq<char>>
    decreases rows.len(),
{
    if rows.len() == 0 {
        None
    } else {
        let r = rows.last();
        match edge_reason_spec(r.0, r.1, r.2) {
            Some(x) => Some(x),
            None => last_reason(rows.drop_last()),
        }
    }
}

/// The reason a symbol is related to the anchors, from its edges in the
/// order they were read: the last one that yields a reason.
pub fn last_edge_reason(rows: &Vec<(String, Option<String>, Option<String>)>) -> (r: Option<String>)
    ensures
        opt_view(r) == last_reason(rows@.map_values(|x: (String, Option<String>, Option<String>)| edge_row_view(x))),
{
    let ghost views = rows@.map_values(|x: (String, Option<String>, Option<String>)| edge_row_view(x));
    let mut found: Option<String> = None;
    let mut i: usize = 0;
    while i < rows.len()
        invariant
            i <= rows@.len(),
            views == rows@.map_values(|x: (String, Option<String>, Option<String>)| edge_row_view(x)),
            opt_view(found) == last_reason(views.subrange(0, i as int)),
        decreases rows@.len() - i,
    {
        assert(views.subrange(0, i + 1).drop_last() =~= views.subrange(0, i as int));
        let row = &rows[i];
        let reason = edge_reason(&row.0, &row.1, &row.2);
        if reason.is_some() {
            found = reason;
        }
        i = i + 1;
    }
    assert(views.subrange(0, rows@.len() as int) =~= views);
    found
}

/// The greatest of a list of strengths, 0 for none.
pub open spec fn max_strength(s: Seq<usize>) -> nat
    decreases s.len(),
{
    if s.len() == 0 {
        0
    } else {
        let m = max_strength(s.drop_last());
        if s.last() > m {
            s.last() as nat
        } else {
            m
        }
    }
}

/// The strongest textual match among candidates, 0 when there are none.
pub fn best_anchor_strength(strengths: &Vec<usize>) -> (r: usize)
    ensures
        r == max_strength(strengths@),
{
    let mut best: usize = 0;
    let mut i: usize = 0;
    while i < strengths.len()
        invariant
            i <= strengths@.len(),
            best == max_strength(strengths@.subrange(0, i as int)),
        decreases strengths@.len() - i,
    {
        assert(strengths@.subrange(0, i + 1).drop_last() =~= strengths@.subrange(0, i as int));
        if strengths[i] > best {
            best = strengths[i];
        }
        i = i + 1;
    }
    assert(strengths@.subrange(0, strengths@.len() as int) =~= strengths@);
    best
}

/// Whether a candidate of the given strength anchors the search: it is of
/// the best strength, and that strength is not 0.
pub open spec fn anchors(strength: usize, best: nat) -> bool {
    strength == best && best > 0
}

/// The modules of the anchoring candidates.
pub open spec fn anchor_module_set(a: Seq<(usize, Option<String>)>) -> Set<Seq<char>> {
    let best = max_strength(a.map_values(|x: (usize, Option<String>)| x.0));
    Set::new(
        |m: Seq<char>|
            exists|i: int| 0 <= i < a.len() && anchors(#[trigger] a[i].0, best) && opt_view(a[i].1) == Some(m),
    )
}

/// The modules that anchor a search: those the query names, and those of the
/// candidates (strength and module) that match it most strongly; sorted,
/// without repeats.
pub fn anchor_modules(query: &str, candidates: &Vec<(usize, Option<String>)>) -> (r: Vec<String>)
    ensures
        sorted_strict(string_views(r@)),
        string_views(r@).to_set() == module_hints_spec(query@).union(anchor_module_set(candidates@)),
{
    let ghost a = candidates@;
    let mut strengths: Vec<usize> = Vec::new();
    let mut i: usize = 0;
    while i < candidates.len()
        invariant
            i <= candidates@.len(),
            strengths@ == candidates@.subrange(0, i as int).map_values(|x: (usize, Option<String>)| x.0),
        decreases candidates@.len() - i,
    {
        strengths.push(candidates[i].0);
        assert(candidates@.subrange(0, i + 1).map_values(|x: (usize, Option<String>)| x.0) =~= strengths@);
        i = i + 1;
    }
    assert(candidates@.subrange(0, candidates@.len() as int) =~= candidates@);
    let best = best_anchor_strength(&strengths);
    let mut out = module_hints_from_query(query);
    let mut k: usize = 0;
    while k < candidates.len()
        invariant
            k <= candidates@.len(),
            best == max_strength(candidates@.map_values(|x: (usize, Option<String>)| x.0)),
            sorted_strict(string_views(out@)),
            string_views(out@).to_set() == module_hints_spec(query@).union(
                Set::new(
                    |m: Seq<char>|
                        exists|j: int|
                            0 <= j < k && anchors(#[trigger] candidates@[j].0, best as nat) && opt_view(
                                candidates@[j].1,
                            ) == Some(m),
                ),
            ),
        decreases candidates@.len() - k,
    {
        let ghost before = string_views(out@).to_set();
        let c = &candidates[k];
        if c.0 == best && best > 0 {
            match &c.1 {
                Some(m) => {
                    sorted_insert_string(&mut out, m.clone());
                },
                None => {},
            }
        }
        assert(string_views(out@).to_set() =~= module_hints_spec(query@).union(
            Set::new(
                |m: Seq<char>|
                    exists|j: int|
                        0 <= j < k + 1 && anchors(#[trigger] candidates@[j].0, best as nat) && opt_view(
                            candidates@[j].1,
                        ) == Some(m),
            ),
        ));
        k = k + 1;
    }
    assert(string_views(out@).to_set() =~= module_hints_spec(query@).union(anchor_module_set(candidates@)));
    out
}

/// The ids of the anchoring candidates.
pub open spec fn anchor_id_set(a: Seq<(usize, Option<i64>)>) -> Set<i64> {
    let best = max_strength(a.map_values(|x: (usize, Option<i64>)| x.0));
    Set::new(|id: i64| exists|i: int| 0 <= i < a.len() && anchors(#[trigger] a[i].0, best) && a[i].1 == Some(id))
}

/// The file or symbol ids of the candidates (strength and id) that match the
/// query most strongly, each once.
pub fn anchor_ids(candidates: &Vec<(usize, Option<i64>)>) -> (r: Vec<i64>)
    ensures
        r@.no_duplicates(),
        r@.to_set() == anchor_id_set(candidates@),
{
    let mut strengths: Vec<usize> = Vec::new();
    let mut i: usize = 0;
    while i < candidates.len()
        invariant
            i <= candidates@.len(),
            strengths@ == candidates@.subrange(0, i as int).map_values(|x: (usize, Option<i64>)| x.0),
        decreases candidates@.len() - i,
    {
        strengths.push(candidates[i].0);
        assert(candidates@.subrange(0, i + 1).map_values(|x: (usize, Option<i64>)| x.0) =~= strengths@);
        i = i + 1;
    }
    assert(candidates@.subrange(0, candidates@.len() as int) =~= candidates@);
    let best = best_anchor_strength(&strengths);
    let mut out: Vec<i64> = Vec::new();
    let mut k: usize = 0;
    while k < candidates.len()
        invariant
            k <= candidates@.len(),
            best == max_strength(candidates@.map_values(|x: (usize, Option<i64>)| x.0)),
            out@.no_duplicates(),
            out@.to_set() == Set::new(
                |id: i64|
                    exists|j: int|
                        0 <= j < k && anchors(#[trigger] candidates@[j].0, best as nat) && candidates@[j].1 == Some(
                            id,
                        ),
            ),
        decreases candidates@.len() - k,
    {
        let ghost before = out@;
        let ghost prev_set = Set::new(
            |id: i64|
                exists|j: int|
                    0 <= j < k && anchors(#[trigger] candidates@[j].0, best as nat) && candidates@[j].1 == Some(id),
        );
        let ghost next_set = Set::new(
            |id: i64|
                exists|j: int|
                    0 <= j < k + 1 && anchors(#[trigger] candidates@[j].0, best as nat) && candidates@[j].1 == Some(
                        id,
                    ),
        );
        let c = &candidates[k];
        if c.0 == best && best > 0 {
            match c.1 {
                Some(id) => {
                    let mut present = false;
                    let mut q: usize = 0;
                    while q < out.len()
                        invariant
                            q <= out@.len(),
                            present == exists|p: int| 0 <= p < q && out@[p] == id,
                        decreases out@.len() - q,
                    {
                        if out[q] == id {
                            present = true;
                        }
                        q = q + 1;
                    }
                    if !present {
                        out.push(id);
                        assert(out@[before.len() as int] == id);
                    } else {
                        proof {
                            let p = choose|p: int| 0 <= p < out@.len() && out@[p] == id;
                            assert(out@[p] == id);
                        }
                    }
                    assert(out@.contains(id));
                },
                None => {},
            }
        }
        assert(anchors(candidates@[k as int].0, best as nat) && candidates@[k as int].1 is Some ==> out@.contains(
            candidates@[k as int].1->0,
        ));
        assert(!(anchors(candidates@[k as int].0, best as nat) && candidates@[k as int].1 is Some) ==> out@ == before);
        assert(out@.len() == before.len() || out@ == before.push(candidates@[k as int].1->0));
        assert forall|x: i64| out@.to_set().contains(x) <==> next_set.contains(x) by {
            if next_set.contains(x) {
                let j = choose|j: int|
                    0 <= j < k + 1 && anchors(#[trigger] candidates@[j].0, best as nat) && candidates@[j].1 == Some(x);
                if j < k {
                    assert(prev_set.contains(x));
                    assert(before.to_set().contains(x));
                    assert(before.contains(x));
                    let p = choose|p: int| 0 <= p < before.len() && before[p] == x;
                    assert(out@[p] == x);
                } else {
                    assert(out@.contains(x));
                }
            }
            if out@.to_set().contains(x) {
                assert(out@.contains(x));
                let p = choose|p: int| 0 <= p < out@.len() && out@[p] == x;
                if p < before.len() {
                    assert(before[p] == x);
                    assert(before.to_set().contains(x));
                    assert(prev_set.contains(x));
                    let j = choose|j: int|
                        0 <= j < k && anchors(#[trigger] candidates@[j].0, best as nat) && candidates@[j].1 == Some(x);
                    assert(next_set.contains(x));
                } else {
                    assert(anchors(candidates@[k as int].0, best as nat) && candidates@[k as int].1 == Some(x));
                    assert(next_set.contains(x));
                }
            }
        }
        assert(out@.to_set() =~= next_set);
        k = k + 1;
    }
    assert(out@.to_set() =~= anchor_id_set(candidates@));
    out
}


/// How a candidate's name, qualified name, path and file name match a query
/// once all are normalized, with what its path says of it.
#[derive(Debug, Clone, Copy, PartialEq, Eq)]
pub struct TextMatch {
    pub exact_name: bool,
    pub exact_qualname: bool,
    pub exact_path: bool,
    pub prefix: bool,
    pub substring: bool,
    pub low_signal: bool,
    pub is_test: bool,
}

/// The file name of a path: what follows its last '/'.
pub open spec fn base_name(path: Seq<char>) -> Seq<char> {
    split(path, "/"@).last()
}

/// The textual match of a candidate against a query; `is_test` is whether
/// the candidate was already known to be a test.
pub open spec fn text_match_spec(
    query: Seq<char>,
    name: Seq<char>,
    path: Seq<char>,
    qualname: Option<Seq<char>>,
    is_test: bool,
) -> TextMatch {
    let q = normalize_text_spec(query);
    let n = normalize_text_spec(name);
    let p = normalize_text_spec(path);
    let qn = match qualname {
        Some(x) => normalize_text_spec(x),
        None => Seq::empty(),
    };
    let b = normalize_text_spec(base_name(path));
    let any = q.len() > 0;
    TextMatch {
        exact_name: any && (q == n || q == b),
        exact_qualname: any && q == qn,
        exact_path: any && q == p,
        prefix: any && (seq_starts_with(n, q) || seq_starts_with(qn, q) || seq_starts_with(p, q)
            || seq_starts_with(b, q)),
        substring: any && (seq_contains(n, q) || seq_contains(qn, q) || seq_contains(p, q) || seq_contains(b, q)),
        low_signal: is_low_signal_spec(path),
        is_test: is_test || is_test_path_spec(path),
    }
}

/// Matches a candidate against a query textually.
pub fn text_match(query: &str, name: &str, path: &str, qualname: &Option<String>, is_test: bool) -> (r: TextMatch)
    ensures
        r == text_match_spec(query@, name@, path@, opt_view(*qualname), is_test),
{
    let q = normalize_text(query);
    let n = normalize_text(name);
    let p = normalize_text(path);
    let qn = match qualname {
        Some(x) => normalize_text(x.as_str()),
        None => String::new(),
    };
    let slash = chars_of("/");
    proof {
        reveal_strlit("/");
    }
    let parts = split_chars(chars_of(path).as_slice(), slash.as_slice());
    proof {
        lemma_split_nonempty(path@, "/"@);
    }
    assert(parts@.map_values(|v: Vec<char>| v@).last() == parts@[parts@.len() - 1]@);
    let base = string_of(parts[parts.len() - 1].as_slice());
    let b = normalize_text(base.as_str());
    let qc = chars_of(q.as_str());
    let nc = chars_of(n.as_str());
    let pc = chars_of(p.as_str());
    let qnc = chars_of(qn.as_str());
    let bc = chars_of(b.as_str());
    let any = qc.len() > 0;
    TextMatch {
        exact_name: any && (q == n || q == b),
        exact_qualname: any && q == qn,
        exact_path: any && q == p,
        prefix: any && (starts_with(nc.as_slice(), qc.as_slice()) || starts_with(qnc.as_slice(), qc.as_slice())
            || starts_with(pc.as_slice(), qc.as_slice()) || starts_with(bc.as_slice(), qc.as_slice())),
        substring: any && (contains(nc.as_slice(), qc.as_slice()) || contains(qnc.as_slice(), qc.as_slice())
            || contains(pc.as_slice(), qc.as_slice()) || contains(bc.as_slice(), qc.as_slice())),
        low_signal: is_low_signal_path(path),
        is_test: is_test || is_test_path(path),
    }
}

/// How many characters of `query`, in order, a left-to-right scan of
/// `haystack` meets: each character of the haystack that equals the next
/// unmatched character of the query matches it.
pub open spec fn subsequence_matched_spec(query: Seq<char>, haystack: Seq<char>) -> nat
    decreases haystack.len(),
{
    if query.len() == 0 || haystack.len() == 0 {
        0
    } else if haystack[0] == query[0] {
        1 + subsequence_matched_spec(query.drop_first(), haystack.drop_first())
    } else {
        subsequence_matched_spec(query, haystack.drop_first())
    }
}

/// How many characters of `query`, in order, a scan of `haystack` meets;
/// the fuzzy score of a candidate divides it by the query's length.
pub fn subsequence_matched(query: &str, haystack: &str) -> (r: usize)
    ensures
        r == subsequence_matched_spec(query@, haystack@),
{
    let q = chars_of(query);
    let h = chars_of(haystack);
    let mut qi: usize = 0;
    let mut hi: usize = 0;
    let mut matched: usize = 0;
    proof {
        assert(q@.subrange(0, q@.len() as int) =~= q@);
        assert(h@.subrange(0, h@.len() as int) =~= h@);
    }
    while hi < h.len() && qi < q.len()
        invariant
            qi <= q@.len(),
            hi <= h@.len(),
            matched == qi,
            q@ == query@,
            h@ == haystack@,
            matched + subsequence_matched_spec(q@.subrange(qi as int, q@.len() as int), h@.subrange(hi as int, h@.len() as int))
                == subsequence_matched_spec(query@, haystack@),
        decreases h@.len() - hi,
    {
        let ghost qs = q@.subrange(qi as int, q@.len() as int);
        let ghost hs = h@.subrange(hi as int, h@.len() as int);
        assert(qs.drop_first() =~= q@.subrange(qi + 1, q@.len() as int));
        assert(hs.drop_first() =~= h@.subrange(hi + 1, h@.len() as int));
        if h[hi] == q[qi] {
            matched = matched + 1;
            qi = qi + 1;
        }
        hi = hi + 1;
    }
    proof {
        assert(q@.subrange(0, q@.len() as int) =~= q@);
        assert(h@.subrange(0, h@.len() as int) =~= h@);
    }
    matched
}


/// The key, file name and type of a file candidate: "file:" and its path,
/// what follows the path's last '/', and a test when the path looks like
/// test code.
pub open spec fn file_identity_spec(path: Seq<char>) -> (Seq<char>, Seq<char>, CandidateType) {
    (
        "file:"@ + path,
        base_name(path),
        if is_test_path_spec(path) {
            CandidateType::Test
        } else {
            CandidateType::File
        },
    )
}

/// The key, file name and type of a file candidate.
pub fn file_identity(path: &str) -> (r: (String, String, CandidateType))
    ensures
        (r.0@, r.1@, r.2) == file_identity_spec(path@),
{
    let slash = chars_of("/");
    proof {
        reveal_strlit("/");
    }
    let parts = split_chars(chars_of(path).as_slice(), slash.as_slice());
    proof {
        lemma_split_nonempty(path@, "/"@);
    }
    assert(parts@.map_values(|v: Vec<char>| v@).last() == parts@[parts@.len() - 1]@);
    let name = string_of(parts[parts.len() - 1].as_slice());
    let t = if is_test_path(path) {
        CandidateType::Test
    } else {
        CandidateType::File
    };
    (concat2("file:", path), name, t)
}

/// The key and type of a symbol candidate: "symbol:" and its qualified name,
/// and a test when the symbol is one.
pub fn symbol_identity(qualname: &str, is_test: bool) -> (r: (String, CandidateType))
    ensures
        r.0@ == "symbol:"@ + qualname@,
        r.1 == (if is_test {
            CandidateType::Test
        } else {
            CandidateType::Symbol
        }),
{
    (concat2("symbol:", qualname), if is_test {
        CandidateType::Test
    } else {
        CandidateType::Symbol
    })
}

/// What two retrievals of one candidate agree on when they are merged,
/// beside its scores.
pub struct CandidateFacts {
    pub exact_name: bool,
    pub exact_qualname: bool,
    pub exact_path: bool,
    pub prefix: bool,
    pub substring: bool,
    pub low_signal: bool,
    pub is_test: bool,
    pub summary: String,
    pub signature: Option<String>,
    pub line_range: Option<(usize, usize)>,
    pub symbol_count: Option<usize>,
    pub reasons: Vec<String>,
}

/// `have` with each of `more`, in order, that it does not yet hold.
pub open spec fn add_missing(have: Seq<Seq<char>>, more: Seq<Seq<char>>) -> Seq<Seq<char>>
    decreases more.len(),
{
    if more.len() == 0 {
        have
    } else {
        let prev = add_missing(have, more.drop_last());
        if prev.contains(more.last()) {
            prev
        } else {
            prev.push(more.last())
        }
    }
}

/// The merge of two retrievals of one candidate: every flag set by either,
/// the first summary, signature, line range and symbol count present, and
/// the reasons of the first followed by those of the second it lacks.
pub open spec fn merged_facts(a: CandidateFacts, b: CandidateFacts) -> (
    bool,
    bool,
    bool,
    bool,
    bool,
    bool,
    bool,
    Seq<char>,
    Option<Seq<char>>,
    Option<(usize, usize)>,
    Option<usize>,
    Seq<Seq<char>>,
) {
    (
        a.exact_name || b.exact_name,
        a.exact_qualname || b.exact_qualname,
        a.exact_path || b.exact_path,
        a.prefix || b.prefix,
        a.substring || b.substring,
        a.low_signal || b.low_signal,
        a.is_test || b.is_test,
        if a.summary@.len() == 0 {
            b.summary@
        } else {
            a.summary@
        },
        if a.signature is Some {
            opt_view(a.signature)
        } else {
            opt_view(b.signature)
        },
        if a.line_range is Some {
            a.line_range
        } else {
            b.line_range
        },
        if a.symbol_count is Some {
            a.symbol_count
        } else {
            b.symbol_count
        },
        add_missing(string_views(a.reasons@), string_views(b.reasons@)),
    )
}

/// The plain values of candidate facts, in the order of `merged_facts`.
pub open spec fn facts_view(f: CandidateFacts) -> (
    bool,
    bool,
    bool,
    bool,
    bool,
    bool,
    bool,
    Seq<char>,
    Option<Seq<char>>,
    Option<(usize, usize)>,
    Option<usize>,
    Seq<Seq<char>>,
) {
    (
        f.exact_name,
        f.exact_qualname,
        f.exact_path,
        f.prefix,
        f.substring,
        f.low_signal,
        f.is_test,
        f.summary@,
        opt_view(f.signature),
        f.line_range,
        f.symbol_count,
        string_views(f.reasons@),
    )
}

fn holds_string(v: &Vec<String>, s: &String) -> (r: bool)
    ensures
        r == string_views(v@).contains(s@),
{
    let mut i: usize = 0;
    while i < v.len()
        invariant
            i <= v@.len(),
            forall|q: int| 0 <= q < i ==> v@[q]@ != s@,
        decreases v@.len() - i,
    {
        if v[i] == *s {
            assert(string_views(v@)[i as int] == s@);
            return true;
        }
        i = i + 1;
    }
    assert forall|q: int| 0 <= q < string_views(v@).len() implies string_views(v@)[q] != s@ by {
        assert(string_views(v@)[q] == v@[q]@);
    }
    false
}

/// Adds to `have` each of `more`, in order, that it does not yet hold.
fn add_missing_reasons(have: &mut Vec<String>, more: &Vec<String>)
    ensures
        string_views(final(have)@) == add_missing(string_views(old(have)@), string_views(more@)),
{
    let ghost start = string_views(have@);
    let ghost mv = string_views(more@);
    let mut i: usize = 0;
    while i < more.len()
        invariant
            i <= more@.len(),
            mv == string_views(more@),
            string_views(have@) == add_missing(start, mv.subrange(0, i as int)),
        decreases more@.len() - i,
    {
        assert(mv.subrange(0, i + 1).drop_last() =~= mv.subrange(0, i as int));
        assert(mv[i as int] == more@[i as int]@);
        let r = &more[i];
        if !holds_string(have, r) {
            let ghost before = have@;
            have.push(r.clone());
            proof {
                crate::syntax::lemma_views_push(before, *r);
            }
        }
        i = i + 1;
    }
    assert(mv.subrange(0, mv.len() as int) =~= mv);
}

/// Merges a second retrieval of a candidate into the first.
pub fn merge_facts(existing: &mut CandidateFacts, incoming: &CandidateFacts)
    ensures
        facts_view(*final(existing)) == merged_facts(*old(existing), *incoming),
{
    existing.exact_name = existing.exact_name || incoming.exact_name;
    existing.exact_qualname = existing.exact_qualname || incoming.exact_qualname;
    existing.exact_path = existing.exact_path || incoming.exact_path;
    existing.prefix = existing.prefix || incoming.prefix;
    existing.substring = existing.substring || incoming.substring;
    existing.low_signal = existing.low_signal || incoming.low_signal;
    existing.is_test = existing.is_test || incoming.is_test;
    if chars_of(existing.summary.as_str()).len() == 0 {
        existing.summary = incoming.summary.clone();
    }
    if existing.signature.is_none() {
        existing.signature = match &incoming.signature {
            Some(s) => Some(s.clone()),
            None => None,
        };
    }
    if existing.line_range.is_none() {
        existing.line_range = incoming.line_range;
    }
    if existing.symbol_count.is_none() {
        existing.symbol_count = incoming.symbol_count;
    }
    add_missing_reasons(&mut existing.reasons, &incoming.reasons);
}


/// Merging reasons keeps those already held, in order, in front; adds every
/// new one; and repeats none when none was repeated before.
pub proof fn lemma_add_missing(have: Seq<Seq<char>>, more: Seq<Seq<char>>)
    ensures
        add_missing(have, more).len() >= have.len(),
        add_missing(have, more).subrange(0, have.len() as int) == have,
        add_missing(have, more).to_set() == have.to_set().union(more.to_set()),
        have.no_duplicates() ==> add_missing(have, more).no_duplicates(),
    decreases more.len(),
{
    if more.len() > 0 {
        lemma_add_missing(have, more.drop_last());
        let prev = add_missing(have, more.drop_last());
        let x = more.last();
        assert(more.to_set() =~= more.drop_last().to_set().insert(x)) by {
            assert forall|y: Seq<char>| more.to_set().contains(y) implies more.drop_last().to_set().insert(x).contains(
                y,
            ) by {
                let k = choose|k: int| 0 <= k < more.len() && more[k] == y;
                if k < more.len() - 1 {
                    assert(more.drop_last()[k] == y);
                }
            }
            assert forall|y: Seq<char>| more.drop_last().to_set().insert(x).contains(y) implies more.to_set().contains(
                y,
            ) by {
                if y != x {
                    let k = choose|k: int| 0 <= k < more.drop_last().len() && more.drop_last()[k] == y;
                    assert(more[k] == y);
                } else {
                    assert(more[more.len() - 1] == y);
                }
            }
        }
        if prev.contains(x) {
            assert(prev.to_set().contains(x));
            assert(add_missing(have, more).to_set() =~= have.to_set().union(more.to_set()));
        } else {
            let r = prev.push(x);
            assert(r.subrange(0, have.len() as int) =~= prev.subrange(0, have.len() as int));
            assert(r.to_set() =~= prev.to_set().insert(x)) by {
                assert forall|y: Seq<char>| r.to_set().contains(y) implies prev.to_set().insert(x).contains(y) by {
                    let k = choose|k: int| 0 <= k < r.len() && r[k] == y;
                    if k < prev.len() {
                        assert(prev[k] == y);
                    }
                }
                assert forall|y: Seq<char>| prev.to_set().insert(x).contains(y) implies r.to_set().contains(y) by {
                    if y == x {
                        assert(r[prev.len() as int] == y);
                    } else {
                        let k = choose|k: int| 0 <= k < prev.len() && prev[k] == y;
                        assert(r[k] == y);
                    }
                }
            }
            assert(add_missing(have, more).to_set() =~= have.to_set().union(more.to_set()));
            if have.no_duplicates() {
                assert forall|a: int, b: int| 0 <= a < r.len() && 0 <= b < r.len() && a != b implies r[a] != r[b] by {
                    if a < prev.len() && b < prev.len() {
                    } else if a == prev.len() {
                        assert(r[b] == prev[b]);
                        assert(prev.contains(prev[b]));
                    } else {
                        assert(r[a] == prev[a]);
                        assert(prev.contains(prev[a]));
                    }
                }
            }
        }
    } else {
        assert(more.to_set() =~= Set::<Seq<char>>::empty());
        assert(have.to_set().union(more.to_set()) =~= have.to_set());
        assert(have.subrange(0, have.len() as int) =~= have);
    }
}

/// Test keys tell symbols and files apart, and each names one qualified name
/// or path: equal keys come from equal inputs.
pub proof fn lemma_test_key_injective(q1: Option<Seq<char>>, p1: Seq<char>, q2: Option<Seq<char>>, p2: Seq<char>)
    requires
        test_key_spec(q1, p1) == test_key_spec(q2, p2),
    ensures
        q1 == q2,
        q1 is None ==> p1 == p2,
{
    reveal_strlit("symbol:");
    reveal_strlit("file:");
    let k = test_key_spec(q1, p1);
    match (q1, q2) {
        (Some(a), Some(b)) => {
            assert(a =~= k.subrange(7, k.len() as int));
            assert(b =~= k.subrange(7, k.len() as int));
        },
        (None, None) => {
            assert(p1 =~= k.subrange(5, k.len() as int));
            assert(p2 =~= k.subrange(5, k.len() as int));
        },
        (Some(a), None) => {
            assert(k[0] == 's');
            assert(("file:"@ + p2)[0] == 'f');
        },
        (None, Some(b)) => {
            assert(k[0] == 'f');
            assert(("symbol:"@ + b)[0] == 's');
        },
    }
}

} // verus!
verus! {

/// A text matches itself from its start.
proof fn lemma_self_match(s: Seq<char>)
    ensures
        seq_starts_with(s, s),
        seq_contains(s, s),
{
    assert(s.subrange(0, s.len() as int) =~= s);
    assert(crate::text::matches_at(s, s, 0));
}

/// What the textual match reports, in terms of the normalized query: a
/// path, name, file name or qualified name equal to it is an exact match of
/// that kind, and only then; every exact match is also a prefix and a
/// substring match; an empty query matches nothing; a candidate known to be
/// a test stays one.
pub proof fn lemma_text_match_laws(
    query: Seq<char>,
    name: Seq<char>,
    path: Seq<char>,
    qualname: Option<Seq<char>>,
    is_test: bool,
)
    ensures
        ({
            let r = text_match_spec(query, name, path, qualname, is_test);
            let q = normalize_text_spec(query);
            &&& r.exact_path <==> q.len() > 0 && q == normalize_text_spec(path)
            &&& r.exact_name <==> q.len() > 0 && (q == normalize_text_spec(name) || q == normalize_text_spec(
                base_name(path),
            ))
            &&& r.exact_qualname <==> (qualname matches Some(x) && q.len() > 0 && q == normalize_text_spec(x))
            &&& (r.exact_name || r.exact_qualname || r.exact_path) ==> r.prefix && r.substring
            &&& q.len() == 0 ==> !r.exact_name && !r.exact_qualname && !r.exact_path && !r.prefix && !r.substring
            &&& is_test ==> r.is_test
        }),
{
    let q = normalize_text_spec(query);
    lemma_self_match(q);
}

} // verus!
