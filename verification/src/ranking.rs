//! The signals a search candidate carries into ranking: the points they are
//! worth in whole numbers and the reasons they give.
//!
//! A candidate's score is the sum of its fixed points and of the fractional
//! contributions of its fuzzy, full-text, co-change and git-history signals,
//! which are computed by the caller.

use vstd::prelude::*;

use crate::compactor::string_views;
use crate::query::{
    dedup_reasons, dedup_reasons_spec, exact_name_reason, fallback_reason, wants_fixture, wants_fixture_spec,
    wants_test, wants_test_spec, CandidateType,
};
use crate::text::{concat3, decimal, decimal_of};

verus! {

/// What ranking reads of a candidate.
pub struct RankSignals {
    pub candidate_type: CandidateType,
    pub exact_name: bool,
    pub exact_qualname: bool,
    pub exact_path: bool,
    pub prefix: bool,
    pub substring: bool,
    /// The fuzzy score is at least 0.35.
    pub fuzzy_strong: bool,
    /// The capped full-text scores add up to more than 0.
    pub has_fts: bool,
    /// The chunk full-text score exceeds the symbol or file one.
    pub chunk_fts_leads: bool,
    pub same_module: bool,
    pub edge_hits: usize,
    pub edge_reason: Option<String>,
    pub cochange_count: i64,
    pub git_hotness: i64,
    pub test_mapping_count: usize,
    pub test_reason: Option<String>,
    pub entrypoint_hits: usize,
    pub entrypoint_reason: Option<String>,
    pub low_signal: bool,
    pub is_test: bool,
    /// Reasons the candidate already carries.
    pub reasons: Vec<String>,
}

/// The reason given for an exact name match.
pub open spec fn exact_name_text(t: CandidateType) -> Seq<char> {
    match t {
        CandidateType::File => "exact file name match"@,
        CandidateType::Entrypoint => "exact entrypoint name match"@,
        _ => "exact symbol name match"@,
    }
}

/// The reason given when nothing else is.
pub open spec fn fallback_text(t: CandidateType) -> Seq<char> {
    match t {
        CandidateType::File => "file candidate from fallback retrieval"@,
        CandidateType::Entrypoint => "entrypoint candidate from fallback retrieval"@,
        _ => "symbol candidate from fallback retrieval"@,
    }
}

/// Points for an exact name match.
pub open spec fn exact_name_points(t: CandidateType) -> int {
    match t {
        CandidateType::File => 180,
        CandidateType::Entrypoint => 150,
        _ => 1000,
    }
}

/// The smaller of two counts.
pub open spec fn min_int(a: int, b: int) -> int {
    if a < b {
        a
    } else {
        b
    }
}

/// `p` points when `b` holds.
pub open spec fn points_if(b: bool, p: int) -> int {
    if b {
        p
    } else {
        0
    }
}

/// Points for mapped tests: 32 for a test, else 16, plus 3 each up to 4.
pub open spec fn test_points(t: CandidateType, count: usize) -> int {
    points_if(
        count > 0,
        (match t {
            CandidateType::Test => 32int,
            _ => 16int,
        }) + min_int(count as int, 4) * 3,
    )
}

/// The points a candidate earns for textual matches: exact name (by type),
/// exact qualified name 420, exact path 320, prefix 120, substring 32.
pub open spec fn text_points(s: RankSignals) -> int {
    points_if(s.exact_name, exact_name_points(s.candidate_type)) + points_if(s.exact_qualname, 420)
        + points_if(s.exact_path, 320) + points_if(s.prefix, 120) + points_if(s.substring, 32)
}

/// The points a candidate earns for its place in the code: same module 42,
/// 6 per graph edge up to 6, mapped tests 32 for a test or else 16 plus 3
/// each up to 4, entrypoints 12 plus 4 each up to 3.
pub open spec fn graph_points(s: RankSignals) -> int {
    points_if(s.same_module, 42) + points_if(s.edge_hits > 0, min_int(s.edge_hits as int, 6) * 6) + test_points(
        s.candidate_type,
        s.test_mapping_count,
    ) + points_if(s.entrypoint_hits > 0, 12 + min_int(s.entrypoint_hits as int, 3) * 4)
}

/// The points a candidate earns.
pub open spec fn earned_points(s: RankSignals) -> int {
    text_points(s) + graph_points(s)
}

/// The points a candidate loses: 26 for a test the query does not ask for,
/// 24 for a fixture-like path it does not ask for.
pub open spec fn lost_points(query: Seq<char>, s: RankSignals) -> int {
    points_if(s.is_test && !wants_test_spec(query), 26) + points_if(s.low_signal && !wants_fixture_spec(query), 24)
}

/// The whole-number points of a candidate for a query.
pub open spec fn fixed_score_spec(query: Seq<char>, s: RankSignals) -> int {
    earned_points(s) - lost_points(query, s)
}

fn points(b: bool, p: i64) -> (r: i64)
    requires
        0 <= p <= 2000,
    ensures
        r == points_if(b, p as int),
        0 <= r <= p,
{
    if b {
        p
    } else {
        0
    }
}

fn capped(n: usize, cap: i64) -> (r: i64)
    requires
        0 <= cap <= 100,
    ensures
        r == min_int(n as int, cap as int),
        0 <= r <= cap,
{
    if (n as u64) < (cap as u64) {
        n as i64
    } else {
        cap
    }
}

fn earned_text(s: &RankSignals) -> (r: i64)
    ensures
        r == text_points(*s),
        0 <= r <= 2000,
{
    let name_points: i64 = match s.candidate_type {
        CandidateType::File => 180,
        CandidateType::Entrypoint => 150,
        CandidateType::Symbol | CandidateType::Test => 1000,
    };
    let a = points(s.exact_name, name_points);
    let b = points(s.exact_qualname, 420);
    let c = points(s.exact_path, 320);
    let d = points(s.prefix, 120);
    let e = points(s.substring, 32);
    a + b + c + d + e
}

fn earned_graph(s: &RankSignals) -> (r: i64)
    ensures
        r == graph_points(*s),
        0 <= r <= 200,
{
    let f = points(s.same_module, 42);
    let g0 = capped(s.edge_hits, 6);
    let g = points(s.edge_hits > 0, g0 * 6);
    let base: i64 = match s.candidate_type {
        CandidateType::Test => 32,
        _ => 16,
    };
    let h0 = capped(s.test_mapping_count, 4);
    let h = points(s.test_mapping_count > 0, base + h0 * 3);
    let k0 = capped(s.entrypoint_hits, 3);
    let k = points(s.entrypoint_hits > 0, 12 + k0 * 4);
    f + g + h + k
}

fn earned(s: &RankSignals) -> (r: i64)
    ensures
        r == earned_points(*s),
        0 <= r <= 3000,
{
    earned_text(s) + earned_graph(s)
}

fn lost(query: &str, s: &RankSignals) -> (r: i64)
    ensures
        r == lost_points(query@, *s),
        0 <= r <= 50,
{
    let m = points(s.is_test && !wants_test(query), 26);
    let n = points(s.low_signal && !wants_fixture(query), 24);
    m + n
}

/// The whole-number points of a candidate for a query.
pub fn fixed_score(query: &str, s: &RankSignals) -> (r: i64)
    ensures
        r == fixed_score_spec(query@, *s),
{
    earned(s) - lost(query, s)
}

/// One reason when `b` holds, none otherwise.
pub open spec fn reason_if(b: bool, s: Seq<char>) -> Seq<Seq<char>> {
    if b {
        seq![s]
    } else {
        Seq::empty()
    }
}

/// A candidate's own reason, or a default.
pub open spec fn reason_or(o: Option<String>, d: Seq<char>) -> Seq<char> {
    match o {
        Some(x) => x@,
        None => d,
    }
}

/// The reasons given by textual signals, in order.
pub open spec fn text_reasons(s: RankSignals) -> Seq<Seq<char>> {
    reason_if(s.exact_name, exact_name_text(s.candidate_type)) + reason_if(
        s.exact_qualname,
        "exact qualified name match"@,
    ) + reason_if(s.exact_path, "exact file path match"@) + reason_if(s.prefix, "prefix lexical match"@)
        + reason_if(s.substring, "substring lexical match"@) + reason_if(s.fuzzy_strong, "fuzzy match"@)
        + reason_if(
        s.has_fts,
        if s.chunk_fts_leads {
            "chunk content full-text match"@
        } else {
            "full-text match"@
        },
    )
}

/// The reasons given by structural signals, in order.
pub open spec fn graph_reasons(s: RankSignals) -> Seq<Seq<char>> {
    reason_if(s.same_module, "same module as query"@) + reason_if(
        s.edge_hits > 0,
        reason_or(s.edge_reason, "connected through symbol graph"@),
    ) + reason_if(s.cochange_count > 0, "cochanged "@ + decimal(s.cochange_count as int) + " times"@)
        + reason_if(
        s.git_hotness > 0,
        "hot file in git history ("@ + decimal(s.git_hotness as int) + " commits)"@,
    ) + reason_if(s.test_mapping_count > 0, reason_or(s.test_reason, "has mapped tests"@)) + reason_if(
        s.entrypoint_hits > 0,
        reason_or(s.entrypoint_reason, "reachable from indexed entrypoint"@),
    )
}

/// The reasons of a candidate in the order the signals are read, before
/// blanks and repeats are dropped.
pub open spec fn raw_reasons(s: RankSignals) -> Seq<Seq<char>> {
    string_views(s.reasons@) + text_reasons(s) + graph_reasons(s)
}

fn push_reason(v: &mut Vec<String>, b: bool, s: String)
    ensures
        string_views(final(v)@) == string_views(old(v)@) + reason_if(b, s@),
{
    let ghost before = string_views(v@);
    if b {
        v.push(s);
        assert(string_views(v@) =~= before + seq![s@]);
    } else {
        assert(string_views(v@) =~= before + Seq::<Seq<char>>::empty());
    }
}

fn reason_or_exec(o: &Option<String>, d: &str) -> (r: String)
    ensures
        r@ == reason_or(*o, d@),
{
    match o {
        Some(x) => x.clone(),
        None => d.to_owned(),
    }
}

fn text_reason_list(s: &RankSignals) -> (r: Vec<String>)
    ensures
        string_views(r@) == text_reasons(*s),
{
    let mut v: Vec<String> = Vec::new();
    let ghost e = string_views(v@);
    assert(e =~= Seq::<Seq<char>>::empty());
    push_reason(&mut v, s.exact_name, exact_name_reason(s.candidate_type).to_owned());
    push_reason(&mut v, s.exact_qualname, "exact qualified name match".to_owned());
    push_reason(&mut v, s.exact_path, "exact file path match".to_owned());
    push_reason(&mut v, s.prefix, "prefix lexical match".to_owned());
    push_reason(&mut v, s.substring, "substring lexical match".to_owned());
    push_reason(&mut v, s.fuzzy_strong, "fuzzy match".to_owned());
    let fts = if s.chunk_fts_leads {
        "chunk content full-text match".to_owned()
    } else {
        "full-text match".to_owned()
    };
    push_reason(&mut v, s.has_fts, fts);
    assert(string_views(v@) =~= text_reasons(*s));
    v
}

fn graph_reason_list(s: &RankSignals) -> (r: Vec<String>)
    ensures
        string_views(r@) == graph_reasons(*s),
{
    let mut v: Vec<String> = Vec::new();
    let ghost e = string_views(v@);
    assert(e =~= Seq::<Seq<char>>::empty());
    push_reason(&mut v, s.same_module, "same module as query".to_owned());
    push_reason(&mut v, s.edge_hits > 0, reason_or_exec(&s.edge_reason, "connected through symbol graph"));
    let co = concat3("cochanged ", decimal_of(s.cochange_count).as_str(), " times");
    push_reason(&mut v, s.cochange_count > 0, co);
    let hot = concat3("hot file in git history (", decimal_of(s.git_hotness).as_str(), " commits)");
    push_reason(&mut v, s.git_hotness > 0, hot);
    push_reason(&mut v, s.test_mapping_count > 0, reason_or_exec(&s.test_reason, "has mapped tests"));
    push_reason(
        &mut v,
        s.entrypoint_hits > 0,
        reason_or_exec(&s.entrypoint_reason, "reachable from indexed entrypoint"),
    );
    assert(string_views(v@) =~= graph_reasons(*s));
    v
}

fn append_strings(dst: &mut Vec<String>, src: Vec<String>)
    ensures
        string_views(final(dst)@) == string_views(old(dst)@) + string_views(src@),
{
    let ghost start = string_views(dst@);
    let mut i: usize = 0;
    while i < src.len()
        invariant
            i <= src@.len(),
            string_views(dst@) == start + string_views(src@).subrange(0, i as int),
        decreases src@.len() - i,
    {
        let ghost before = dst@;
        dst.push(src[i].clone());
        proof {
            crate::syntax::lemma_views_push(before, src@[i as int]);
        }
        assert(string_views(src@).subrange(0, i + 1) =~= string_views(src@).subrange(0, i as int).push(
            src@[i as int]@,
        ));
        i = i + 1;
    }
    assert(string_views(src@).subrange(0, src@.len() as int) =~= string_views(src@));
}

/// The reasons a candidate is ranked: those it carries, then one per signal
/// present, blanks and repeats dropped; a fallback by type when none is left.
pub fn rank_reasons(s: &RankSignals) -> (r: Vec<String>)
    ensures
        string_views(r@) == dedup_reasons_spec(raw_reasons(*s), fallback_text(s.candidate_type)),
{
    let mut v = crate::syntax::copy_strings(&s.reasons);
    append_strings(&mut v, text_reason_list(s));
    append_strings(&mut v, graph_reason_list(s));
    dedup_reasons(v, fallback_reason(s.candidate_type))
}

/// The points lost depend only on the query and the test and fixture flags.
proof fn lemma_lost_same(query: Seq<char>, a: RankSignals, b: RankSignals)
    requires
        a.is_test == b.is_test,
        a.low_signal == b.low_signal,
    ensures
        lost_points(query, a) == lost_points(query, b),
{
}

/// A candidate whose qualified name exactly matches the query scores 420
/// points more than the same candidate without that match.
pub proof fn lemma_exact_qualname_points(query: Seq<char>, s: RankSignals)
    ensures
        fixed_score_spec(query, RankSignals { exact_qualname: true, ..s }) == fixed_score_spec(
            query,
            RankSignals { exact_qualname: false, ..s },
        ) + 420,
{
    lemma_lost_same(query, RankSignals { exact_qualname: true, ..s }, RankSignals { exact_qualname: false, ..s });
}

/// A candidate whose path exactly matches the query scores 320 points more
/// than the same candidate without that match.
pub proof fn lemma_exact_path_points(query: Seq<char>, s: RankSignals)
    ensures
        fixed_score_spec(query, RankSignals { exact_path: true, ..s }) == fixed_score_spec(
            query,
            RankSignals { exact_path: false, ..s },
        ) + 320,
{
    lemma_lost_same(query, RankSignals { exact_path: true, ..s }, RankSignals { exact_path: false, ..s });
}

/// A query that is a prefix of the candidate adds 120 points, all else equal.
pub proof fn lemma_prefix_points(query: Seq<char>, s: RankSignals)
    ensures
        fixed_score_spec(query, RankSignals { prefix: true, ..s }) == fixed_score_spec(
            query,
            RankSignals { prefix: false, ..s },
        ) + 120,
{
    lemma_lost_same(query, RankSignals { prefix: true, ..s }, RankSignals { prefix: false, ..s });
}

/// A query contained in the candidate adds 32 points, all else equal.
pub proof fn lemma_substring_points(query: Seq<char>, s: RankSignals)
    ensures
        fixed_score_spec(query, RankSignals { substring: true, ..s }) == fixed_score_spec(
            query,
            RankSignals { substring: false, ..s },
        ) + 32,
{
    lemma_lost_same(query, RankSignals { substring: true, ..s }, RankSignals { substring: false, ..s });
}

/// Sharing a module with the anchors of the search adds 42 points, all else
/// equal.
pub proof fn lemma_same_module_points(query: Seq<char>, s: RankSignals)
    ensures
        fixed_score_spec(query, RankSignals { same_module: true, ..s }) == fixed_score_spec(
            query,
            RankSignals { same_module: false, ..s },
        ) + 42,
{
    lemma_lost_same(query, RankSignals { same_module: true, ..s }, RankSignals { same_module: false, ..s });
}

/// An exact name match adds 1000 points for a symbol or a test, 180 for a
/// file and 150 for an entrypoint, all else equal.
#[verifier::spinoff_prover]
#[verifier::rlimit(60)]
pub proof fn lemma_exact_name_points(query: Seq<char>, s: RankSignals)
    ensures
        fixed_score_spec(query, RankSignals { exact_name: true, ..s }) == fixed_score_spec(
            query,
            RankSignals { exact_name: false, ..s },
        ) + (match s.candidate_type {
            CandidateType::File => 180int,
            CandidateType::Entrypoint => 150int,
            _ => 1000int,
        }),
{
    let a = RankSignals { exact_name: true, ..s };
    let b = RankSignals { exact_name: false, ..s };
    lemma_lost_same(query, a, b);
    lemma_exact_name_earned(a, b);
}

proof fn lemma_exact_name_earned(a: RankSignals, b: RankSignals)
    requires
        a == (RankSignals { exact_name: true, ..b }),
        !b.exact_name,
    ensures
        earned_points(a) == earned_points(b) + exact_name_points(b.candidate_type),
{
    assert(graph_points(a) == graph_points(b));
}

/// A test loses 26 points when the query does not ask for tests, and none
/// when it does, all else equal.
pub proof fn lemma_test_penalty(query: Seq<char>, s: RankSignals)
    ensures
        fixed_score_spec(query, RankSignals { is_test: true, ..s }) == fixed_score_spec(
            query,
            RankSignals { is_test: false, ..s },
        ) - (if wants_test_spec(query) {
            0int
        } else {
            26int
        }),
{
}

/// A fixture-like path loses 24 points when the query does not ask for
/// fixtures, and none when it does, all else equal.
pub proof fn lemma_fixture_penalty(query: Seq<char>, s: RankSignals)
    ensures
        fixed_score_spec(query, RankSignals { low_signal: true, ..s }) == fixed_score_spec(
            query,
            RankSignals { low_signal: false, ..s },
        ) - (if wants_fixture_spec(query) {
            0int
        } else {
            24int
        }),
{
}

/// More graph edges, mapped tests or entrypoint hits never lower the score.
#[verifier::spinoff_prover]
#[verifier::rlimit(60)]
pub proof fn lemma_more_links_never_lower(query: Seq<char>, s: RankSignals, more: usize)
    ensures
        more >= s.edge_hits ==> fixed_score_spec(query, RankSignals { edge_hits: more, ..s })
            >= fixed_score_spec(query, s),
        more >= s.test_mapping_count ==> fixed_score_spec(query, RankSignals { test_mapping_count: more, ..s })
            >= fixed_score_spec(query, s),
        more >= s.entrypoint_hits ==> fixed_score_spec(query, RankSignals { entrypoint_hits: more, ..s })
            >= fixed_score_spec(query, s),
{
    lemma_lost_same(query, RankSignals { edge_hits: more, ..s }, s);
    lemma_lost_same(query, RankSignals { test_mapping_count: more, ..s }, s);
    lemma_lost_same(query, RankSignals { entrypoint_hits: more, ..s }, s);
}

} // verus!
