//! Hotspot and co-change metrics read from the text of
//! `git log --format=COMMIT%x1f%ct%x1f%an --name-only --no-renames`.
//!
//! The log lists commits newest first: a header line `COMMIT`, unit
//! separator, commit time, unit separator, author name, then the paths that
//! the commit touched, one per line.

use vstd::prelude::*;

use crate::compactor::string_views;
use crate::derived::opt_view;
use crate::text::{
    chars_lt, chars_of, copy_range, lemma_lines_len, lemma_seq_lt_order, lemma_seq_lt_trans, lines,
    lines_of, parse_i64, parse_i64_spec, replace_char, replace_chars, seq_lt, seq_starts_with,
    split, split_chars, starts_with, string_of, trim, trim_chars,
};

verus! {

/// Git-derived hotspot summary keyed by workspace-relative path.
#[derive(Debug, Clone)]
pub struct GitFileStat {
    pub path: String,
    pub commit_count: i64,
    pub last_modified: Option<i64>,
    pub last_author: Option<String>,
    pub authors: Vec<String>,
}

/// Pairwise file co-change count keyed by workspace-relative paths.
#[derive(Debug, Clone)]
pub struct GitCochange {
    pub path_a: String,
    pub path_b: String,
    pub cochange_count: i64,
}

/// Combined git-derived metrics.
#[derive(Debug, Clone)]
pub struct GitMetrics {
    pub file_stats: Vec<GitFileStat>,
    pub cochanges: Vec<GitCochange>,
}

/// Statistics of one path: how many listed changes, the time and author of
/// the newest commit that touched it, and every author who did.
pub struct FileStatView {
    pub count: int,
    pub last_modified: Option<i64>,
    pub last_author: Option<Seq<char>>,
    pub authors: Set<Seq<char>>,
}

/// What has been read of a log: the current commit (time, author), the set
/// of paths it touched so far, per-path statistics and per-pair co-change
/// counts of the commits already finished.
pub struct LogState {
    pub commit: Option<(i64, Seq<char>)>,
    pub files: Set<Seq<char>>,
    pub stats: Map<Seq<char>, FileStatView>,
    pub cochanges: Map<(Seq<char>, Seq<char>), int>,
}

/// Strictly increasing in lexicographic order (hence without repeats).
pub open spec fn sorted_strict(s: Seq<Seq<char>>) -> bool {
    forall|i: int, j: int| 0 <= i < j < s.len() ==> seq_lt(#[trigger] s[i], #[trigger] s[j])
}

/// Dropping the first element of a strictly sorted list removes exactly it
/// from the set of elements.
proof fn lemma_sorted_drop_first(a: Seq<Seq<char>>)
    requires
        sorted_strict(a),
        a.len() > 0,
    ensures
        sorted_strict(a.drop_first()),
        a.drop_first().to_set() == a.to_set().remove(a[0]),
{
    let d = a.drop_first();
    assert forall|i: int, j: int| 0 <= i < j < d.len() implies seq_lt(#[trigger] d[i], #[trigger] d[j]) by {
        assert(d[i] == a[i + 1]);
        assert(d[j] == a[j + 1]);
    }
    assert forall|x: Seq<char>| d.to_set().contains(x) <==> a.to_set().remove(a[0]).contains(x) by {
        if d.to_set().contains(x) {
            let k = choose|k: int| 0 <= k < d.len() && d[k] == x;
            assert(a[k + 1] == x);
            assert(seq_lt(a[0], a[k + 1]));
            lemma_seq_lt_order(x, x);
        }
        if a.to_set().remove(a[0]).contains(x) {
            let k = choose|k: int| 0 <= k < a.len() && a[k] == x;
            assert(k != 0);
            assert(d[k - 1] == x);
        }
    }
    assert(d.to_set() =~= a.to_set().remove(a[0]));
}

/// Two strictly sorted lists with the same elements are equal.
pub proof fn lemma_sorted_unique(a: Seq<Seq<char>>, b: Seq<Seq<char>>)
    requires
        sorted_strict(a),
        sorted_strict(b),
        a.to_set() == b.to_set(),
    ensures
        a == b,
    decreases a.len(),
{
    if a.len() == 0 {
        if b.len() > 0 {
            assert(b.to_set().contains(b[0]));
        }
        assert(a =~= b);
    } else {
        assert(a.to_set().contains(a[0]));
        let j = choose|j: int| 0 <= j < b.len() && b[j] == a[0];
        assert(b.to_set().contains(b[0]));
        let i = choose|i: int| 0 <= i < a.len() && a[i] == b[0];
        if j > 0 {
            assert(seq_lt(b[0], b[j]));
            lemma_seq_lt_order(a[0], a[0]);
            if i > 0 {
                assert(seq_lt(a[0], a[i]));
                lemma_seq_lt_order(a[0], a[i]);
            }
        }
        assert(a[0] == b[0]);
        lemma_sorted_drop_first(a);
        lemma_sorted_drop_first(b);
        lemma_sorted_unique(a.drop_first(), b.drop_first());
        assert(a =~= seq![a[0]] + a.drop_first());
        assert(b =~= seq![b[0]] + b.drop_first());
    }
}

/// The prefix of a commit header line.
pub open spec fn commit_prefix() -> Seq<char> {
    seq!['C', 'O', 'M', 'M', 'I', 'T', '\u{1f}']
}

/// The commit time and author of a header line; a time that does not parse
/// counts as 0, a missing author as empty.
pub open spec fn header_of(line: Seq<char>) -> Option<(i64, Seq<char>)> {
    if seq_starts_with(line, commit_prefix()) {
        let parts = split(line.subrange(7, line.len() as int), seq!['\u{1f}']);
        let ts = match parse_i64_spec(parts[0]) {
            Some(v) => v,
            None => 0,
        };
        let author = if parts.len() > 1 {
            parts[1]
        } else {
            Seq::empty()
        };
        Some((ts, author))
    } else {
        None
    }
}

/// The path named by a file line: trimmed, with '\\' turned into '/'.
pub open spec fn log_path(line: Seq<char>) -> Seq<char> {
    replace_char(trim(line), '\\', '/')
}

/// A path's statistics after one more listed change by `author` at `ts`.
pub open spec fn bump(old: Option<FileStatView>, ts: i64, author: Seq<char>) -> FileStatView {
    match old {
        None => FileStatView {
            count: 1,
            last_modified: Some(ts),
            last_author: Some(author),
            authors: set![author],
        },
        Some(v) => FileStatView {
            count: v.count + 1,
            last_modified: if v.last_modified is None {
                Some(ts)
            } else {
                v.last_modified
            },
            last_author: if v.last_modified is None {
                Some(author)
            } else {
                v.last_author
            },
            authors: v.authors.insert(author),
        },
    }
}

/// Whether `k` is an ordered pair of two paths of `files`.
pub open spec fn is_pair_of(files: Set<Seq<char>>, k: (Seq<char>, Seq<char>)) -> bool {
    files.contains(k.0) && files.contains(k.1) && seq_lt(k.0, k.1)
}

/// Co-change counts after a commit with the paths `files`: every ordered pair
/// of its paths counts one more.
pub open spec fn flush(files: Set<Seq<char>>, m: Map<(Seq<char>, Seq<char>), int>) -> Map<
    (Seq<char>, Seq<char>),
    int,
> {
    Map::new(
        |k: (Seq<char>, Seq<char>)| m.dom().contains(k) || is_pair_of(files, k),
        |k: (Seq<char>, Seq<char>)|
            (if m.dom().contains(k) {
                m[k]
            } else {
                0
            }) + (if is_pair_of(files, k) {
                1int
            } else {
                0int
            }),
    )
}

/// The state after reading one more line.
pub open spec fn log_step(st: LogState, line: Seq<char>) -> LogState {
    match header_of(line) {
        Some(h) => LogState {
            commit: Some(h),
            files: Set::empty(),
            stats: st.stats,
            cochanges: flush(st.files, st.cochanges),
        },
        None => if trim(line).len() == 0 {
            st
        } else {
            match st.commit {
                None => st,
                Some(c) => {
                    let p = log_path(line);
                    let old = if st.stats.dom().contains(p) {
                        Some(st.stats[p])
                    } else {
                        None
                    };
                    LogState {
                        commit: st.commit,
                        files: st.files.insert(p),
                        stats: st.stats.insert(p, bump(old, c.0, c.1)),
                        cochanges: st.cochanges,
                    }
                }
            }
        },
    }
}

/// The state after the first `n` lines.
pub open spec fn log_fold(ls: Seq<Seq<char>>, n: nat) -> LogState
    decreases n,
{
    if n == 0 {
        LogState {
            commit: None,
            files: Set::empty(),
            stats: Map::empty(),
            cochanges: Map::empty(),
        }
    } else {
        log_step(log_fold(ls, (n - 1) as nat), ls[n - 1])
    }
}

/// Per-path statistics of a whole log.
pub open spec fn log_stats(text: Seq<char>) -> Map<Seq<char>, FileStatView> {
    log_fold(lines(text), lines(text).len()).stats
}

/// Per-pair co-change counts of a whole log, the last commit included.
pub open spec fn log_cochanges(text: Seq<char>) -> Map<(Seq<char>, Seq<char>), int> {
    let st = log_fold(lines(text), lines(text).len());
    flush(st.files, st.cochanges)
}

/// Inserts `x` into a strictly sorted list of strings unless present.
pub fn sorted_insert_string(v: &mut Vec<String>, x: String)
    requires
        sorted_strict(string_views(old(v)@)),
    ensures
        sorted_strict(string_views(final(v)@)),
        string_views(final(v)@).to_set() == string_views(old(v)@).to_set().insert(x@),
{
    let ghost before = string_views(v@);
    let xs = chars_of(x.as_str());
    let mut i: usize = 0;
    let mut stop = false;
    while i < v.len() && !stop
        invariant
            i <= v@.len(),
            v@ == old(v)@,
            before == string_views(v@),
            xs@ == x@,
            sorted_strict(before),
            forall|k: int| 0 <= k < i ==> seq_lt(#[trigger] before[k], x@),
            stop ==> i < v@.len() && !seq_lt(before[i as int], x@),
        decreases v@.len() - i, (if stop { 0int } else { 1int }),
    {
        let cur = chars_of(v[i].as_str());
        assert(before[i as int] == v@[i as int]@);
        if !chars_lt(cur.as_slice(), xs.as_slice()) {
            stop = true;
        } else {
            i = i + 1;
        }
    }
    proof {
        lemma_seq_lt_order(x@, x@);
    }
    if i < v.len() && v[i] == x {
        assert(before.to_set().insert(x@) =~= before.to_set()) by {
            assert(before.to_set().contains(before[i as int]));
        }
        return;
    }
    proof {
        if i < v@.len() {
            lemma_seq_lt_order(before[i as int], x@);
            assert(seq_lt(x@, before[i as int]));
            assert forall|k: int| i <= k < before.len() implies seq_lt(x@, #[trigger] before[k]) by {
                if k > i {
                    lemma_seq_lt_trans(x@, before[i as int], before[k]);
                }
            }
        }
    }
    let ghost xv = x@;
    v.insert(i, x);
    let ghost after = string_views(v@);
    assert(after =~= before.insert(i as int, xv));
    assert forall|a: int, b: int| 0 <= a < b < after.len() implies seq_lt(
        #[trigger] after[a],
        #[trigger] after[b],
    ) by {
        if b < i {
        } else if a < i && b == i {
        } else if a < i {
            assert(after[b] == before[b - 1]);
            lemma_seq_lt_trans(after[a], xv, after[b]);
        } else if a == i {
            assert(after[b] == before[b - 1]);
        } else {
            assert(after[a] == before[a - 1]);
            assert(after[b] == before[b - 1]);
        }
    }
    assert forall|y: Seq<char>| after.to_set().contains(y) <==> before.to_set().insert(xv).contains(y) by {
        if after.to_set().contains(y) {
            let q = choose|q: int| 0 <= q < after.len() && after[q] == y;
            if q < i {
                assert(before[q] == y);
            } else if q > i {
                assert(before[q - 1] == y);
            }
        }
        if before.to_set().contains(y) {
            let q = choose|q: int| 0 <= q < before.len() && before[q] == y;
            if q < i {
                assert(after[q] == y);
            } else {
                assert(after[q + 1] == y);
            }
        }
        if y == xv {
            assert(after[i as int] == y);
        }
    }
    assert(after.to_set() =~= before.to_set().insert(xv));
}

/// The statistics a `GitFileStat` holds.
pub open spec fn stat_view(s: GitFileStat) -> FileStatView {
    FileStatView {
        count: s.commit_count as int,
        last_modified: s.last_modified,
        last_author: opt_view(s.last_author),
        authors: string_views(s.authors@).to_set(),
    }
}

/// Per-path statistics held by a list, a later entry replacing an earlier one.
pub open spec fn stats_map(v: Seq<GitFileStat>) -> Map<Seq<char>, FileStatView>
    decreases v.len(),
{
    if v.len() == 0 {
        Map::empty()
    } else {
        stats_map(v.drop_last()).insert(v.last().path@, stat_view(v.last()))
    }
}

/// Paths are unique and each author list is strictly sorted.
pub open spec fn stats_wf(v: Seq<GitFileStat>) -> bool {
    &&& forall|i: int, j: int| 0 <= i < j < v.len() ==> (#[trigger] v[i]).path@ != (#[trigger] v[j]).path@
    &&& forall|i: int| 0 <= i < v.len() ==> sorted_strict(string_views((#[trigger] v[i]).authors@))
}

/// Every count of a statistics map is at most `bound`.
pub open spec fn stats_bounded(m: Map<Seq<char>, FileStatView>, bound: int) -> bool {
    forall|k: Seq<char>| m.dom().contains(k) ==> #[trigger] m[k].count <= bound
}

/// The entry of a list with unique paths is what the map holds for its path.
proof fn lemma_stats_map_at(v: Seq<GitFileStat>, i: int)
    requires
        0 <= i < v.len(),
        stats_wf(v),
    ensures
        stats_map(v).dom().contains(v[i].path@),
        stats_map(v)[v[i].path@] == stat_view(v[i]),
    decreases v.len(),
{
    if i < v.len() - 1 {
        assert(stats_wf(v.drop_last()));
        lemma_stats_map_at(v.drop_last(), i);
        assert(v.drop_last()[i] == v[i]);
    }
}

/// A path that no entry has is not in the map.
proof fn lemma_stats_map_absent(v: Seq<GitFileStat>, p: Seq<char>)
    requires
        forall|i: int| 0 <= i < v.len() ==> (#[trigger] v[i]).path@ != p,
    ensures
        !stats_map(v).dom().contains(p),
    decreases v.len(),
{
    if v.len() > 0 {
        assert forall|i: int| 0 <= i < v.drop_last().len() implies (#[trigger] v.drop_last()[i]).path@
            != p by {
            assert(v.drop_last()[i] == v[i]);
        }
        lemma_stats_map_absent(v.drop_last(), p);
    }
}

/// Replacing the entry for a path updates that path in the map.
proof fn lemma_stats_map_update(v: Seq<GitFileStat>, idx: int, e: GitFileStat)
    requires
        0 <= idx < v.len(),
        stats_wf(v),
        v[idx].path@ == e.path@,
    ensures
        stats_map(v.update(idx, e)) == stats_map(v).insert(e.path@, stat_view(e)),
    decreases v.len(),
{
    let u = v.update(idx, e);
    if idx == v.len() - 1 {
        assert(u.drop_last() =~= v.drop_last());
        assert(stats_map(u) =~= stats_map(v).insert(e.path@, stat_view(e)));
    } else {
        assert(u.drop_last() =~= v.drop_last().update(idx, e));
        assert(stats_wf(v.drop_last()));
        lemma_stats_map_update(v.drop_last(), idx, e);
        assert(v.last().path@ != e.path@);
        assert(stats_map(u) =~= stats_map(v).insert(e.path@, stat_view(e)));
    }
}

/// Records one listed change of `path` in a commit by `author` at `ts`.
fn record_change(
    stats: &mut Vec<GitFileStat>,
    path: String,
    ts: i64,
    author: &String,
    Ghost(bound): Ghost<int>,
)
    requires
        stats_wf(old(stats)@),
        stats_bounded(stats_map(old(stats)@), bound),
        0 <= bound < i64::MAX,
    ensures
        stats_wf(final(stats)@),
        stats_bounded(stats_map(final(stats)@), bound + 1),
        stats_map(final(stats)@) == stats_map(old(stats)@).insert(
            path@,
            bump(
                if stats_map(old(stats)@).dom().contains(path@) {
                    Some(stats_map(old(stats)@)[path@])
                } else {
                    None
                },
                ts,
                author@,
            ),
        ),
{
    let ghost m0 = stats_map(stats@);
    let mut i: usize = 0;
    while i < stats.len()
        invariant
            i <= stats@.len(),
            stats@ == old(stats)@,
            stats_wf(old(stats)@),
            stats_bounded(m0, bound),
            m0 == stats_map(old(stats)@),
            0 <= bound < i64::MAX,
            forall|q: int| 0 <= q < i ==> (#[trigger] stats@[q]).path@ != path@,
        decreases stats@.len() - i,
    {
        if stats[i].path == path {
            proof {
                lemma_stats_map_at(stats@, i as int);
            }
            assert(m0[path@].count <= bound);
            let mut entry = stats.remove(i);
            assert(entry == old(stats)@[i as int]);
            assert(entry.commit_count as int <= bound);
            let first = entry.last_modified.is_none();
            entry.commit_count = entry.commit_count + 1;
            if first {
                entry.last_modified = Some(ts);
                entry.last_author = Some(author.clone());
            }
            let ghost before_authors = string_views(entry.authors@);
            sorted_insert_string(&mut entry.authors, author.clone());
            stats.insert(i, entry);
            proof {
                let u = old(stats)@.update(i as int, entry);
                assert(stats@ =~= u);
                lemma_stats_map_update(old(stats)@, i as int, entry);
                assert forall|a: int, b: int| 0 <= a < b < stats@.len() implies (#[trigger] stats@[a]).path@
                    != (#[trigger] stats@[b]).path@ by {
                    assert(old(stats)@[a].path@ != old(stats)@[b].path@);
                }
                assert forall|a: int| 0 <= a < stats@.len() implies sorted_strict(
                    string_views((#[trigger] stats@[a]).authors@),
                ) by {
                    if a != i {
                        assert(stats@[a] == old(stats)@[a]);
                    }
                }
                assert(stat_view(entry) == bump(Some(m0[path@]), ts, author@));
                assert forall|k: Seq<char>| stats_map(stats@).dom().contains(k) implies #[trigger] stats_map(
                    stats@,
                )[k].count <= bound + 1 by {
                    if k != path@ {
                        assert(m0.dom().contains(k));
                    }
                }
            }
            return;
        }
        i = i + 1;
    }
    proof {
        lemma_stats_map_absent(stats@, path@);
    }
    let mut authors: Vec<String> = Vec::new();
    authors.push(author.clone());
    let entry = GitFileStat {
        path,
        commit_count: 1,
        last_modified: Some(ts),
        last_author: Some(author.clone()),
        authors,
    };
    let ghost ev = entry;
    stats.push(entry);
    proof {
        assert(stats@.drop_last() =~= old(stats)@);
        assert(string_views(ev.authors@) =~= seq![author@]);
        assert(seq![author@].to_set() =~= set![author@]) by {
            assert(seq![author@][0] == author@);
        }
        assert(stat_view(ev) == bump(None, ts, author@));
        assert(sorted_strict(string_views(ev.authors@)));
        assert forall|k: Seq<char>| stats_map(stats@).dom().contains(k) implies #[trigger] stats_map(
            stats@,
        )[k].count <= bound + 1 by {
            if k != path@ {
                assert(m0.dom().contains(k));
            }
        }
        assert forall|a: int, b: int| 0 <= a < b < stats@.len() implies (#[trigger] stats@[a]).path@
            != (#[trigger] stats@[b]).path@ by {
            if b == stats@.len() - 1 {
                assert(old(stats)@[a].path@ != path@);
            }
        }
        assert forall|a: int| 0 <= a < stats@.len() implies sorted_strict(
            string_views((#[trigger] stats@[a]).authors@),
        ) by {
            if a < stats@.len() - 1 {
                assert(stats@[a] == old(stats)@[a]);
            }
        }
    }
}

/// The ordered pair of paths of a co-change entry.
pub open spec fn pair_key(c: GitCochange) -> (Seq<char>, Seq<char>) {
    (c.path_a@, c.path_b@)
}

/// Co-change counts held by a list, a later entry replacing an earlier one.
pub open spec fn cochange_map(v: Seq<GitCochange>) -> Map<(Seq<char>, Seq<char>), int>
    decreases v.len(),
{
    if v.len() == 0 {
        Map::empty()
    } else {
        cochange_map(v.drop_last()).insert(pair_key(v.last()), v.last().cochange_count as int)
    }
}

/// No two entries share a pair.
pub open spec fn pairs_unique(v: Seq<GitCochange>) -> bool {
    forall|i: int, j: int| 0 <= i < j < v.len() ==> pair_key(#[trigger] v[i]) != pair_key(#[trigger] v[j])
}

/// Every count of a co-change map is at most `bound`.
pub open spec fn pairs_bounded(m: Map<(Seq<char>, Seq<char>), int>, bound: int) -> bool {
    forall|k: (Seq<char>, Seq<char>)| m.dom().contains(k) ==> #[trigger] m[k] <= bound
}

/// The count a map holds for a pair, 0 when absent.
pub open spec fn count_of(m: Map<(Seq<char>, Seq<char>), int>, k: (Seq<char>, Seq<char>)) -> int {
    if m.dom().contains(k) {
        m[k]
    } else {
        0
    }
}

proof fn lemma_cochange_map_at(v: Seq<GitCochange>, i: int)
    requires
        0 <= i < v.len(),
        pairs_unique(v),
    ensures
        cochange_map(v).dom().contains(pair_key(v[i])),
        cochange_map(v)[pair_key(v[i])] == v[i].cochange_count as int,
    decreases v.len(),
{
    if i < v.len() - 1 {
        lemma_cochange_map_at(v.drop_last(), i);
        assert(v.drop_last()[i] == v[i]);
    }
}

proof fn lemma_cochange_map_absent(v: Seq<GitCochange>, k: (Seq<char>, Seq<char>))
    requires
        forall|i: int| 0 <= i < v.len() ==> pair_key(#[trigger] v[i]) != k,
    ensures
        !cochange_map(v).dom().contains(k),
    decreases v.len(),
{
    if v.len() > 0 {
        assert forall|i: int| 0 <= i < v.drop_last().len() implies pair_key(
            #[trigger] v.drop_last()[i],
        ) != k by {
            assert(v.drop_last()[i] == v[i]);
        }
        lemma_cochange_map_absent(v.drop_last(), k);
    }
}

proof fn lemma_cochange_map_update(v: Seq<GitCochange>, idx: int, e: GitCochange)
    requires
        0 <= idx < v.len(),
        pairs_unique(v),
        pair_key(v[idx]) == pair_key(e),
    ensures
        cochange_map(v.update(idx, e)) == cochange_map(v).insert(pair_key(e), e.cochange_count as int),
    decreases v.len(),
{
    let u = v.update(idx, e);
    if idx == v.len() - 1 {
        assert(u.drop_last() =~= v.drop_last());
        assert(cochange_map(u) =~= cochange_map(v).insert(pair_key(e), e.cochange_count as int));
    } else {
        assert(u.drop_last() =~= v.drop_last().update(idx, e));
        lemma_cochange_map_update(v.drop_last(), idx, e);
        assert(pair_key(v.last()) != pair_key(e));
        assert(cochange_map(u) =~= cochange_map(v).insert(pair_key(e), e.cochange_count as int));
    }
}

/// Counts one more co-change of the pair `(a, b)`.
fn add_cochange(v: &mut Vec<GitCochange>, a: &String, b: &String)
    requires
        pairs_unique(old(v)@),
        count_of(cochange_map(old(v)@), (a@, b@)) < i64::MAX,
    ensures
        pairs_unique(final(v)@),
        cochange_map(final(v)@) == cochange_map(old(v)@).insert(
            (a@, b@),
            count_of(cochange_map(old(v)@), (a@, b@)) + 1,
        ),
{
    let ghost k = (a@, b@);
    let mut i: usize = 0;
    while i < v.len()
        invariant
            i <= v@.len(),
            v@ == old(v)@,
            pairs_unique(old(v)@),
            count_of(cochange_map(old(v)@), k) < i64::MAX,
            k == (a@, b@),
            forall|q: int| 0 <= q < i ==> pair_key(#[trigger] v@[q]) != k,
        decreases v@.len() - i,
    {
        if v[i].path_a == *a && v[i].path_b == *b {
            proof {
                lemma_cochange_map_at(v@, i as int);
            }
            let count = v[i].cochange_count;
            let e = GitCochange { path_a: a.clone(), path_b: b.clone(), cochange_count: count + 1 };
            proof {
                lemma_cochange_map_update(v@, i as int, e);
            }
            v.set(i, e);
            assert forall|x: int, y: int| 0 <= x < y < v@.len() implies pair_key(#[trigger] v@[x])
                != pair_key(#[trigger] v@[y]) by {
                assert(pair_key(old(v)@[x]) != pair_key(old(v)@[y]));
            }
            return;
        }
        i = i + 1;
    }
    proof {
        lemma_cochange_map_absent(v@, k);
    }
    let e = GitCochange { path_a: a.clone(), path_b: b.clone(), cochange_count: 1 };
    v.push(e);
    assert(v@.drop_last() =~= old(v)@);
    assert forall|x: int, y: int| 0 <= x < y < v@.len() implies pair_key(#[trigger] v@[x]) != pair_key(
        #[trigger] v@[y],
    ) by {
        if y == v@.len() - 1 {
            assert(pair_key(old(v)@[x]) != k);
        }
    }
}

/// The pairs `(fs[a], fs[b])`, `a < b`, that come before position `(i, j)`.
pub open spec fn pairs_before(fs: Seq<Seq<char>>, i: int, j: int) -> Set<(Seq<char>, Seq<char>)> {
    Set::new(
        |k: (Seq<char>, Seq<char>)|
            exists|a: int, b: int|
                0 <= a < b < fs.len() && (a < i || (a == i && b < j)) && k == (
                    #[trigger] fs[a],
                    #[trigger] fs[b],
                ),
    )
}

/// `m` with one more for every pair of `ps`.
pub open spec fn add_pairs(m: Map<(Seq<char>, Seq<char>), int>, ps: Set<(Seq<char>, Seq<char>)>) -> Map<
    (Seq<char>, Seq<char>),
    int,
> {
    Map::new(
        |k: (Seq<char>, Seq<char>)| m.dom().contains(k) || ps.contains(k),
        |k: (Seq<char>, Seq<char>)|
            count_of(m, k) + (if ps.contains(k) {
                1int
            } else {
                0int
            }),
    )
}

/// In a strictly sorted list, equal entries sit at one position.
proof fn lemma_sorted_injective(fs: Seq<Seq<char>>, a: int, b: int)
    requires
        sorted_strict(fs),
        0 <= a < fs.len(),
        0 <= b < fs.len(),
        fs[a] == fs[b],
    ensures
        a == b,
{
    lemma_seq_lt_order(fs[a], fs[a]);
    if a < b {
        assert(seq_lt(fs[a], fs[b]));
    } else if b < a {
        assert(seq_lt(fs[b], fs[a]));
    }
}

/// Counts one co-change for every ordered pair of the sorted paths `files`.
fn flush_files(files: &Vec<String>, cochanges: &mut Vec<GitCochange>, Ghost(bound): Ghost<int>)
    requires
        sorted_strict(string_views(files@)),
        pairs_unique(old(cochanges)@),
        pairs_bounded(cochange_map(old(cochanges)@), bound),
        0 <= bound < i64::MAX,
    ensures
        pairs_unique(final(cochanges)@),
        pairs_bounded(cochange_map(final(cochanges)@), bound + 1),
        cochange_map(final(cochanges)@) == flush(
            string_views(files@).to_set(),
            cochange_map(old(cochanges)@),
        ),
{
    let ghost fs = string_views(files@);
    let ghost m0 = cochange_map(cochanges@);
    let n = files.len();
    let mut i: usize = 0;
    assert(add_pairs(m0, pairs_before(fs, 0, 0)) =~= m0) by {
        assert(pairs_before(fs, 0, 0) =~= Set::empty());
    }
    while i < n
        invariant
            n == files@.len(),
            fs == string_views(files@),
            sorted_strict(fs),
            i <= n,
            pairs_unique(cochanges@),
            pairs_bounded(m0, bound),
            0 <= bound < i64::MAX,
            cochange_map(cochanges@) == add_pairs(m0, pairs_before(fs, i as int, 0)),
        decreases n - i,
    {
        let mut j: usize = i + 1;
        assert(pairs_before(fs, i as int, (i + 1) as int) =~= pairs_before(fs, i as int, 0));
        while j < n
            invariant
                n == files@.len(),
                fs == string_views(files@),
                sorted_strict(fs),
                i < j <= n,
                pairs_unique(cochanges@),
                pairs_bounded(m0, bound),
                0 <= bound < i64::MAX,
                cochange_map(cochanges@) == add_pairs(m0, pairs_before(fs, i as int, j as int)),
            decreases n - j,
        {
            let ghost k = (fs[i as int], fs[j as int]);
            let ghost before = pairs_before(fs, i as int, j as int);
            assert(!before.contains(k)) by {
                if before.contains(k) {
                    let (a, b) = choose|a: int, b: int|
                        0 <= a < b < fs.len() && (a < i || (a == i && b < j)) && k == (
                            #[trigger] fs[a],
                            #[trigger] fs[b],
                        );
                    lemma_sorted_injective(fs, a, i as int);
                    lemma_sorted_injective(fs, b, j as int);
                }
            }
            assert(fs[i as int] == files@[i as int]@);
            assert(fs[j as int] == files@[j as int]@);
            add_cochange(cochanges, &files[i], &files[j]);
            assert(pairs_before(fs, i as int, j + 1) =~= before.insert(k));
            assert(cochange_map(cochanges@) =~= add_pairs(m0, pairs_before(fs, i as int, j + 1)));
            j = j + 1;
        }
        assert(pairs_before(fs, i + 1, 0) =~= pairs_before(fs, i as int, n as int));
        i = i + 1;
    }
    let ghost set = fs.to_set();
    assert(pairs_before(fs, n as int, 0) =~= Set::new(|k: (Seq<char>, Seq<char>)| is_pair_of(set, k))) by {
        assert forall|k: (Seq<char>, Seq<char>)| is_pair_of(set, k) implies pairs_before(
            fs,
            n as int,
            0,
        ).contains(k) by {
            let a = choose|a: int| 0 <= a < fs.len() && fs[a] == k.0;
            let b = choose|b: int| 0 <= b < fs.len() && fs[b] == k.1;
            lemma_seq_lt_order(k.0, k.1);
            if b < a {
                assert(seq_lt(fs[b], fs[a]));
            }
            if a == b {
                lemma_seq_lt_order(k.0, k.0);
            }
            assert(0 <= a < b < fs.len() && a < n && k == (fs[a], fs[b]));
        }
        assert forall|k: (Seq<char>, Seq<char>)| pairs_before(fs, n as int, 0).contains(k) implies is_pair_of(
            set,
            k,
        ) by {
            let (a, b) = choose|a: int, b: int|
                0 <= a < b < fs.len() && (a < n || (a == n && b < 0)) && k == (
                    #[trigger] fs[a],
                    #[trigger] fs[b],
                );
            assert(set.contains(fs[a]));
            assert(set.contains(fs[b]));
        }
    }
    assert(cochange_map(cochanges@) =~= flush(set, m0));
    assert forall|k: (Seq<char>, Seq<char>)| cochange_map(cochanges@).dom().contains(k) implies #[trigger] cochange_map(
        cochanges@,
    )[k] <= bound + 1 by {
        if m0.dom().contains(k) {
            assert(m0[k] <= bound);
        }
    }
}

/// Reads a commit header line.
fn parse_header(line: &Vec<char>) -> (r: Option<(i64, String)>)
    ensures
        match r {
            Some((t, a)) => header_of(line@) == Some((t, a@)),
            None => header_of(line@) is None,
        },
{
    let prefix: Vec<char> = vec!['C', 'O', 'M', 'M', 'I', 'T', '\u{1f}'];
    assert(prefix@ =~= commit_prefix());
    if !starts_with(line.as_slice(), prefix.as_slice()) {
        return None;
    }
    let meta = copy_range(line.as_slice(), 7, line.len());
    let sep: Vec<char> = vec!['\u{1f}'];
    assert(sep@ =~= seq!['\u{1f}']);
    let parts = split_chars(meta.as_slice(), sep.as_slice());
    proof {
        crate::derived::lemma_split_nonempty(meta@, sep@);
    }
    let ghost pv = parts@.map_values(|v: Vec<char>| v@);
    assert(pv[0] == parts@[0]@);
    let ts = match parse_i64(parts[0].as_slice()) {
        Some(v) => v,
        None => 0,
    };
    let author = if parts.len() > 1 {
        assert(pv[1] == parts@[1]@);
        string_of(parts[1].as_slice())
    } else {
        String::new()
    };
    Some((ts, author))
}

/// The time and author of an optional current commit.
pub open spec fn commit_view(c: Option<(i64, String)>) -> Option<(i64, Seq<char>)> {
    match c {
        Some((t, a)) => Some((t, a@)),
        None => None,
    }
}

/// Hotspot and co-change metrics of a `git log` listing.
///
/// Each path line after a commit header counts one change of that path;
/// the newest commit that touched a path gives its time and author; each
/// commit counts one co-change for every pair of distinct paths it lists.
pub fn parse_git_log(text: &str) -> (m: GitMetrics)
    requires
        text@.len() < i64::MAX,
    ensures
        stats_wf(m.file_stats@),
        stats_map(m.file_stats@) == log_stats(text@),
        pairs_unique(m.cochanges@),
        cochange_map(m.cochanges@) == log_cochanges(text@),
{
    let chars = chars_of(text);
    let ls = lines_of(chars.as_slice());
    let ghost lv = ls@.map_values(|v: Vec<char>| v@);
    proof {
        lemma_lines_len(text@);
    }
    let n = ls.len();
    let mut commit: Option<(i64, String)> = None;
    let mut files: Vec<String> = Vec::new();
    let mut stats: Vec<GitFileStat> = Vec::new();
    let mut cochanges: Vec<GitCochange> = Vec::new();
    let mut i: usize = 0;
    assert(string_views(files@).to_set() =~= Set::<Seq<char>>::empty());
    assert(stats_map(stats@) =~= Map::empty());
    assert(cochange_map(cochanges@) =~= Map::empty());
    while i < n
        invariant
            n == ls@.len(),
            lv == ls@.map_values(|v: Vec<char>| v@),
            lv == lines(text@),
            n <= text@.len() < i64::MAX,
            i <= n,
            commit_view(commit) == log_fold(lv, i as nat).commit,
            sorted_strict(string_views(files@)),
            string_views(files@).to_set() == log_fold(lv, i as nat).files,
            stats_wf(stats@),
            stats_map(stats@) == log_fold(lv, i as nat).stats,
            stats_bounded(stats_map(stats@), i as int),
            pairs_unique(cochanges@),
            cochange_map(cochanges@) == log_fold(lv, i as nat).cochanges,
            pairs_bounded(cochange_map(cochanges@), i as int),
        decreases n - i,
    {
        let line = &ls[i];
        assert(lv[i as int] == line@);
        let ghost st = log_fold(lv, i as nat);
        match parse_header(line) {
            Some((ts, author)) => {
                flush_files(&files, &mut cochanges, Ghost(i as int));
                files = Vec::new();
                assert(string_views(files@).to_set() =~= Set::<Seq<char>>::empty());
                commit = Some((ts, author));
            },
            None => {
                let t = trim_chars(line.as_slice());
                if t.len() > 0 {
                    match &commit {
                        None => {},
                        Some((ts, author)) => {
                            let path = string_of(replace_chars(t.as_slice(), '\\', '/').as_slice());
                            record_change(&mut stats, path.clone(), *ts, author, Ghost(i as int));
                            sorted_insert_string(&mut files, path);
                        },
                    }
                }
            },
        }
        assert(stats_bounded(stats_map(stats@), i + 1)) by {
            assert forall|k: Seq<char>| stats_map(stats@).dom().contains(k) implies #[trigger] stats_map(
                stats@,
            )[k].count <= i + 1 by {}
        }
        assert(pairs_bounded(cochange_map(cochanges@), i + 1)) by {
            assert forall|k: (Seq<char>, Seq<char>)| cochange_map(cochanges@).dom().contains(k) implies #[trigger] cochange_map(
                cochanges@,
            )[k] <= i + 1 by {}
        }
        i = i + 1;
    }
    flush_files(&files, &mut cochanges, Ghost(n as int));
    GitMetrics { file_stats: stats, cochanges }
}

/// What every state reached while reading a log satisfies.
pub open spec fn log_state_ok(st: LogState) -> bool {
    &&& forall|p: Seq<char>|
        st.stats.dom().contains(p) ==> {
            let v = #[trigger] st.stats[p];
            &&& v.count >= 1
            &&& v.last_modified is Some
            &&& v.last_author matches Some(a) && v.authors.contains(a)
        }
    &&& pairs_ok(st.cochanges)
}

/// Whether every pair of a co-change map is ordered and counted at least once.
pub open spec fn pairs_ok(m: Map<(Seq<char>, Seq<char>), int>) -> bool {
    forall|k: (Seq<char>, Seq<char>)|
        #![trigger m.dom().contains(k)]
        m.dom().contains(k) ==> seq_lt(k.0, k.1) && m[k] >= 1
}

/// Flushing a commit keeps every pair ordered and counted at least once.
proof fn lemma_flush_ok(files: Set<Seq<char>>, m: Map<(Seq<char>, Seq<char>), int>)
    requires
        pairs_ok(m),
    ensures
        pairs_ok(flush(files, m)),
{
    let f = flush(files, m);
    assert forall|k: (Seq<char>, Seq<char>)| f.dom().contains(k) implies seq_lt(k.0, k.1) && f[k] >= 1 by {
        if m.dom().contains(k) {
            assert(m[k] >= 1);
        }
    }
}

/// One more line keeps a state consistent.
proof fn lemma_log_step_ok(st: LogState, line: Seq<char>)
    requires
        log_state_ok(st),
    ensures
        log_state_ok(log_step(st, line)),
{
    lemma_flush_ok(st.files, st.cochanges);
    let nx = log_step(st, line);
    if header_of(line) is None && trim(line).len() != 0 && st.commit is Some {
        let c = st.commit->Some_0;
        let p = log_path(line);
        assert forall|q: Seq<char>| nx.stats.dom().contains(q) implies {
            let v = #[trigger] nx.stats[q];
            &&& v.count >= 1
            &&& v.last_modified is Some
            &&& v.last_author matches Some(a) && v.authors.contains(a)
        } by {
            if q != p {
                assert(nx.stats[q] == st.stats[q]);
            } else if st.stats.dom().contains(p) {
                let v = st.stats[p];
                assert(v.last_author matches Some(a) && v.authors.contains(a));
            }
        }
    }
}

/// Every state reached while reading a log is consistent.
proof fn lemma_log_fold_ok(ls: Seq<Seq<char>>, n: nat)
    requires
        n <= ls.len(),
    ensures
        log_state_ok(log_fold(ls, n)),
    decreases n,
{
    if n > 0 {
        lemma_log_fold_ok(ls, (n - 1) as nat);
        lemma_log_step_ok(log_fold(ls, (n - 1) as nat), ls[n - 1]);
    }
}

/// Laws of the metrics of any log: every path with statistics was changed at
/// least once and has a newest commit time and author, that author being one
/// of its authors; every co-change pair is ordered, the first path before the
/// second, and was counted at least once.
pub proof fn lemma_git_log_laws(text: Seq<char>)
    ensures
        forall|p: Seq<char>|
            log_stats(text).dom().contains(p) ==> {
                let v = #[trigger] log_stats(text)[p];
                &&& v.count >= 1
                &&& v.last_modified is Some
                &&& v.last_author matches Some(a) && v.authors.contains(a)
            },
        pairs_ok(log_cochanges(text)),
{
    let ls = lines(text);
    lemma_log_fold_ok(ls, ls.len());
    let st = log_fold(ls, ls.len());
    lemma_flush_ok(st.files, st.cochanges);
}

} // verus!
