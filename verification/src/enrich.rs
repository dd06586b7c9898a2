//! The graph, history, test and entrypoint signals of a search candidate,
//! combined from what was read from the index for it.

use vstd::prelude::*;

use crate::derived::opt_view;

verus! {

/// A count read from the index with the reason of its best row.
#[derive(Debug, Clone)]
pub struct CountReading {
    pub count: i64,
    pub reason: Option<String>,
}

/// The graph, history, test and entrypoint signals of one candidate.
#[derive(Debug, Clone)]
pub struct GraphCounts {
    pub edge_hits: usize,
    pub cochange_count: i64,
    pub test_mapping_count: usize,
    pub test_reason: Option<String>,
    pub entrypoint_hits: usize,
    pub entrypoint_reason: Option<String>,
}

/// A count read from the index as a non-negative `usize`: negative counts
/// are 0, counts past `usize::MAX` are held there.
pub open spec fn clamp_count(c: i64) -> int {
    if c <= 0 {
        0
    } else if c >= usize::MAX {
        usize::MAX as int
    } else {
        c as int
    }
}

fn clamp_count_exec(c: i64) -> (r: usize)
    ensures
        r == clamp_count(c),
{
    if c <= 0 {
        0
    } else if (c as u64) >= (usize::MAX as u64) {
        usize::MAX
    } else {
        c as usize
    }
}

/// The largest co-change count of `file` with an anchor file other than
/// itself, 0 when there is none; `pairs` holds each anchor with its count.
pub open spec fn best_cochange(file: i64, pairs: Seq<(i64, i64)>) -> i64
    decreases pairs.len(),
{
    if pairs.len() == 0 {
        0
    } else {
        let prev = best_cochange(file, pairs.drop_last());
        let (anchor, value) = pairs.last();
        if anchor == file || value <= prev {
            prev
        } else {
            value
        }
    }
}

/// The count of an optional reading, held as a `usize`; 0 when nothing was read.
pub open spec fn reading_count(r: Option<CountReading>) -> int {
    match r {
        Some(x) => clamp_count(x.count),
        None => 0,
    }
}

/// The reason of an optional reading.
pub open spec fn reading_reason(r: Option<CountReading>) -> Option<Seq<char>> {
    match r {
        Some(x) => opt_view(x.reason),
        None => None,
    }
}

/// The first of two optional reasons that is present.
pub open spec fn first_reason(a: Option<Seq<char>>, b: Option<Seq<char>>) -> Option<Seq<char>> {
    match a {
        Some(x) => Some(x),
        None => b,
    }
}

fn reading_parts(r: Option<CountReading>) -> (p: (usize, Option<String>))
    ensures
        p.0 == reading_count(r),
        opt_view(p.1) == reading_reason(r),
{
    match r {
        Some(x) => (clamp_count_exec(x.count), x.reason),
        None => (0, None),
    }
}

/// Combines what was read from the index for one candidate into its signals.
/// The symbol readings are present when the candidate has a symbol, and
/// `file_id` when it has a file. Edges and mapped tests come from the symbol;
/// the co-change count is the best one with an anchor file other than the
/// candidate's own; when the symbol maps to no test, the file's test mappings
/// stand in, the symbol's reason kept first; entrypoints come with the file.
pub fn graph_counts(
    file_id: Option<i64>,
    symbol_edges: Option<i64>,
    symbol_tests: Option<CountReading>,
    cochange: &Vec<(i64, i64)>,
    file_tests: Option<CountReading>,
    entrypoints: Option<CountReading>,
) -> (r: GraphCounts)
    ensures
        r.edge_hits == (match symbol_edges {
            Some(c) => clamp_count(c),
            None => 0,
        }),
        r.cochange_count == (match file_id {
            Some(f) => best_cochange(f, cochange@),
            None => 0,
        }),
        file_id is Some && reading_count(symbol_tests) == 0 ==> r.test_mapping_count == reading_count(file_tests)
            && opt_view(r.test_reason) == first_reason(reading_reason(symbol_tests), reading_reason(file_tests)),
        !(file_id is Some && reading_count(symbol_tests) == 0) ==> r.test_mapping_count == reading_count(
            symbol_tests,
        ) && opt_view(r.test_reason) == reading_reason(symbol_tests),
        file_id is Some ==> r.entrypoint_hits == reading_count(entrypoints) && opt_view(r.entrypoint_reason)
            == reading_reason(entrypoints),
        file_id is None ==> r.entrypoint_hits == 0 && r.entrypoint_reason is None,
{
    let edge_hits = match symbol_edges {
        Some(c) => clamp_count_exec(c),
        None => 0,
    };
    let (mut test_mapping_count, mut test_reason) = reading_parts(symbol_tests);
    let mut cochange_count: i64 = 0;
    let mut entrypoint_hits: usize = 0;
    let mut entrypoint_reason: Option<String> = None;
    match file_id {
        Some(f) => {
            let mut i: usize = 0;
            while i < cochange.len()
                invariant
                    i <= cochange@.len(),
                    cochange_count == best_cochange(f, cochange@.subrange(0, i as int)),
                decreases cochange@.len() - i,
            {
                let ghost next = cochange@.subrange(0, i + 1);
                assert(next.drop_last() =~= cochange@.subrange(0, i as int));
                let (anchor, value) = cochange[i];
                if anchor != f && value > cochange_count {
                    cochange_count = value;
                }
                i = i + 1;
            }
            assert(cochange@.subrange(0, cochange@.len() as int) =~= cochange@);
            if test_mapping_count == 0 {
                let (count, reason) = reading_parts(file_tests);
                test_mapping_count = count;
                test_reason = match test_reason {
                    Some(x) => Some(x),
                    None => reason,
                };
            }
            let (count, reason) = reading_parts(entrypoints);
            entrypoint_hits = count;
            entrypoint_reason = reason;
        },
        None => {},
    }
    GraphCounts {
        edge_hits,
        cochange_count,
        test_mapping_count,
        test_reason,
        entrypoint_hits,
        entrypoint_reason,
    }
}

} // verus!
