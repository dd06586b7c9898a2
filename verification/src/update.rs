//! Decisions of an incremental index update: which recorded files are gone,
//! and what to do with each scanned file given its recorded state.

use vstd::prelude::*;

use crate::text::{chars_of, same_chars};

verus! {

/// Minimal file state needed for incremental updates.
#[derive(Debug, Clone)]
pub struct IndexedFileState {
    pub file_id: i64,
    pub path: String,
    pub hash: String,
    pub size: i64,
    pub mtime_ns: Option<i64>,
}

/// Index of the state recorded last for a path, or -1 (a map built from the
/// rows keeps the last one).
pub open spec fn state_index(existing: Seq<IndexedFileState>, path: Seq<char>) -> int
    decreases existing.len(),
{
    if existing.len() == 0 {
        -1
    } else if existing.last().path@ == path {
        existing.len() - 1
    } else {
        state_index(existing.drop_last(), path)
    }
}

/// `state_index` is -1 or a position with that path, the last one.
pub proof fn lemma_state_index(existing: Seq<IndexedFileState>, path: Seq<char>)
    ensures
        -1 <= state_index(existing, path) < existing.len(),
        state_index(existing, path) >= 0 ==> existing[state_index(existing, path)].path@ == path,
        forall|j: int|
            state_index(existing, path) < j < existing.len() ==> existing[j].path@ != path,
    decreases existing.len(),
{
    if existing.len() > 0 && existing.last().path@ != path {
        lemma_state_index(existing.drop_last(), path);
        assert forall|j: int| state_index(existing, path) < j < existing.len() implies existing[j].path@
            != path by {
            if j < existing.len() - 1 {
                assert(existing.drop_last()[j] == existing[j]);
            }
        }
    }
}

/// Finds the state recorded last for a path.
pub fn find_state(existing: &Vec<IndexedFileState>, path: &str) -> (r: Option<usize>)
    ensures
        r matches Some(i) ==> i as int == state_index(existing@, path@),
        r is None ==> state_index(existing@, path@) == -1,
{
    let target = chars_of(path);
    let mut i = existing.len();
    assert(existing@.subrange(0, i as int) =~= existing@);
    while i > 0
        invariant
            i <= existing@.len(),
            target@ == path@,
            state_index(existing@, path@) == state_index(existing@.subrange(0, i as int), path@),
        decreases i,
    {
        assert(existing@.subrange(0, i as int).drop_last() =~= existing@.subrange(0, i - 1));
        assert(existing@.subrange(0, i as int).last() == existing@[i - 1]);
        let p = chars_of(existing[i - 1].path.as_str());
        if same_chars(p.as_slice(), target.as_slice()) {
            return Some(i - 1);
        }
        i = i - 1;
    }
    None
}

/// Whether `paths` holds `p`.
pub open spec fn has_path(paths: Seq<Seq<char>>, p: Seq<char>) -> bool {
    exists|i: int| 0 <= i < paths.len() && paths[i] == p
}

/// The files to delete: the recorded states (one per path, the last) whose
/// path was not scanned, in recorded order.
pub open spec fn stale_ids_upto(existing: Seq<IndexedFileState>, current: Seq<Seq<char>>, n: nat) -> Seq<
    i64,
>
    decreases n,
{
    if n == 0 {
        Seq::empty()
    } else {
        let prev = stale_ids_upto(existing, current, (n - 1) as nat);
        let s = existing[n - 1];
        if state_index(existing, s.path@) == n - 1 && !has_path(current, s.path@) {
            prev.push(s.file_id)
        } else {
            prev
        }
    }
}

/// Whether `paths` holds `p`.
fn has_path_exec(paths: &Vec<String>, p: &String) -> (r: bool)
    ensures
        r == has_path(paths@.map_values(|s: String| s@), p@),
{
    let ghost pv = paths@.map_values(|s: String| s@);
    let mut i: usize = 0;
    while i < paths.len()
        invariant
            i <= paths@.len(),
            pv == paths@.map_values(|s: String| s@),
            forall|k: int| 0 <= k < i ==> pv[k] != p@,
        decreases paths@.len() - i,
    {
        assert(pv[i as int] == paths@[i as int]@);
        if paths[i] == *p {
            return true;
        }
        i = i + 1;
    }
    false
}

/// Ids of the recorded files whose path is no longer among the scanned ones.
pub fn stale_file_ids(existing: &Vec<IndexedFileState>, current: &Vec<String>) -> (r: Vec<i64>)
    ensures
        r@ == stale_ids_upto(
            existing@,
            current@.map_values(|s: String| s@),
            existing@.len() as nat,
        ),
{
    let ghost cv = current@.map_values(|s: String| s@);
    let mut r: Vec<i64> = Vec::new();
    let mut i: usize = 0;
    while i < existing.len()
        invariant
            i <= existing@.len(),
            cv == current@.map_values(|s: String| s@),
            r@ == stale_ids_upto(existing@, cv, i as nat),
        decreases existing@.len() - i,
    {
        let s = &existing[i];
        let idx = find_state(existing, s.path.as_str());
        let last = match idx {
            Some(k) => k == i,
            None => false,
        };
        proof {
            lemma_state_index(existing@, s.path@);
        }
        if last && !has_path_exec(current, &s.path) {
            r.push(s.file_id);
        }
        i = i + 1;
    }
    r
}

/// What an update does with one scanned file.
#[derive(Debug, Clone, PartialEq, Eq)]
pub enum FileAction {
    /// Not recorded yet: index it.
    Add,
    /// Recorded with the same size and modification time: keep it.
    Unchanged,
    /// Recorded with another size or time: re-read it and compare its hash.
    Recheck { file_id: i64, hash: String },
}

/// The action for a scanned file with the given size and modification time.
pub open spec fn file_action_spec(
    existing: Seq<IndexedFileState>,
    path: Seq<char>,
    size: i64,
    mtime_ns: Option<i64>,
) -> FileAction {
    let i = state_index(existing, path);
    if i < 0 {
        FileAction::Add
    } else if existing[i].size == size && existing[i].mtime_ns == mtime_ns {
        FileAction::Unchanged
    } else {
        FileAction::Recheck { file_id: existing[i].file_id, hash: existing[i].hash }
    }
}

/// Decides what to do with a scanned file.
pub fn classify_file(
    existing: &Vec<IndexedFileState>,
    path: &str,
    size: i64,
    mtime_ns: Option<i64>,
) -> (r: FileAction)
    ensures
        r == file_action_spec(existing@, path@, size, mtime_ns),
{
    proof {
        lemma_state_index(existing@, path@);
    }
    match find_state(existing, path) {
        None => FileAction::Add,
        Some(i) => {
            let s = &existing[i];
            let same_time = match (s.mtime_ns, mtime_ns) {
                (Some(a), Some(b)) => a == b,
                (None, None) => true,
                _ => false,
            };
            if s.size == size && same_time {
                FileAction::Unchanged
            } else {
                FileAction::Recheck { file_id: s.file_id, hash: s.hash.clone() }
            }
        },
    }
}

/// After a re-read: whether the content is the recorded one (only the
/// metadata is refreshed) or changed (the file is re-indexed).
pub fn content_unchanged(recorded_hash: &String, new_hash: &String) -> (r: bool)
    ensures
        r == (recorded_hash@ == new_hash@),
{
    *recorded_hash == *new_hash
}

/// How one file of an update ended.
#[derive(Debug, Clone, Copy, PartialEq, Eq)]
pub enum UpdateOutcome {
    Added,
    Updated,
    Deleted,
    Unchanged,
    Skipped,
}

/// Counts of an update.
#[derive(Debug, Clone, Copy, PartialEq, Eq)]
pub struct UpdateReport {
    pub added: usize,
    pub updated: usize,
    pub deleted: usize,
    pub unchanged: usize,
    pub skipped: usize,
}

impl UpdateReport {
    /// A report with every count zero.
    pub fn empty() -> (r: UpdateReport)
        ensures
            r == (UpdateReport { added: 0, updated: 0, deleted: 0, unchanged: 0, skipped: 0 }),
    {
        UpdateReport { added: 0, updated: 0, deleted: 0, unchanged: 0, skipped: 0 }
    }

    /// The report of an update that had to build the whole index.
    pub fn from_full_build(files_indexed: usize, skipped_files: usize) -> (r: UpdateReport)
        ensures
            r == (UpdateReport {
                added: files_indexed,
                updated: 0,
                deleted: 0,
                unchanged: 0,
                skipped: skipped_files,
            }),
    {
        UpdateReport { added: files_indexed, updated: 0, deleted: 0, unchanged: 0, skipped: skipped_files }
    }

    /// The count an outcome adds to.
    pub open spec fn count_of(self, o: UpdateOutcome) -> usize {
        match o {
            UpdateOutcome::Added => self.added,
            UpdateOutcome::Updated => self.updated,
            UpdateOutcome::Deleted => self.deleted,
            UpdateOutcome::Unchanged => self.unchanged,
            UpdateOutcome::Skipped => self.skipped,
        }
    }

    /// Counts one more file with the given outcome.
    pub fn record(&mut self, o: UpdateOutcome)
        requires
            old(self).count_of(o) < usize::MAX,
        ensures
            final(self).count_of(o) == old(self).count_of(o) + 1,
            forall|p: UpdateOutcome| p != o ==> final(self).count_of(p) == old(self).count_of(p),
    {
        match o {
            UpdateOutcome::Added => self.added = self.added + 1,
            UpdateOutcome::Updated => self.updated = self.updated + 1,
            UpdateOutcome::Deleted => self.deleted = self.deleted + 1,
            UpdateOutcome::Unchanged => self.unchanged = self.unchanged + 1,
            UpdateOutcome::Skipped => self.skipped = self.skipped + 1,
        }
    }
}

/// How many of `outcomes` are `o`.
pub open spec fn outcome_count(outcomes: Seq<UpdateOutcome>, o: UpdateOutcome) -> nat
    decreases outcomes.len(),
{
    if outcomes.len() == 0 {
        0
    } else {
        outcome_count(outcomes.drop_last(), o) + if outcomes.last() == o {
            1nat
        } else {
            0nat
        }
    }
}

/// The report of an incremental update: one deletion per stale id, and each
/// scanned file counted once under how it ended.
pub fn tally_update(stale_ids: &Vec<i64>, outcomes: &Vec<UpdateOutcome>) -> (r: UpdateReport)
    requires
        forall|i: int| 0 <= i < outcomes.len() ==> outcomes[i] != UpdateOutcome::Deleted,
    ensures
        r.deleted == stale_ids.len(),
        r.added == outcome_count(outcomes@, UpdateOutcome::Added),
        r.updated == outcome_count(outcomes@, UpdateOutcome::Updated),
        r.unchanged == outcome_count(outcomes@, UpdateOutcome::Unchanged),
        r.skipped == outcome_count(outcomes@, UpdateOutcome::Skipped),
        r.added + r.updated + r.unchanged + r.skipped == outcomes.len(),
{
    let mut r = UpdateReport { added: 0, updated: 0, deleted: stale_ids.len(), unchanged: 0, skipped: 0 };
    let mut i: usize = 0;
    while i < outcomes.len()
        invariant
            i <= outcomes@.len(),
            forall|j: int| 0 <= j < outcomes.len() ==> outcomes[j] != UpdateOutcome::Deleted,
            r.deleted == stale_ids.len(),
            r.added == outcome_count(outcomes@.subrange(0, i as int), UpdateOutcome::Added),
            r.updated == outcome_count(outcomes@.subrange(0, i as int), UpdateOutcome::Updated),
            r.unchanged == outcome_count(outcomes@.subrange(0, i as int), UpdateOutcome::Unchanged),
            r.skipped == outcome_count(outcomes@.subrange(0, i as int), UpdateOutcome::Skipped),
            r.added + r.updated + r.unchanged + r.skipped == i,
        decreases outcomes@.len() - i,
    {
        let ghost prev = outcomes@.subrange(0, i as int);
        let ghost next = outcomes@.subrange(0, i + 1);
        assert(next.drop_last() =~= prev);
        assert(next.last() == outcomes@[i as int]);
        match outcomes[i] {
            UpdateOutcome::Added => r.added = r.added + 1,
            UpdateOutcome::Updated => r.updated = r.updated + 1,
            UpdateOutcome::Deleted => {},
            UpdateOutcome::Unchanged => r.unchanged = r.unchanged + 1,
            UpdateOutcome::Skipped => r.skipped = r.skipped + 1,
        }
        i = i + 1;
    }
    assert(outcomes@.subrange(0, outcomes@.len() as int) =~= outcomes@);
    r
}

/// A recorded state is deleted exactly when it is the one kept for its path
/// and that path is no longer scanned.
pub proof fn lemma_stale_ids_exact(
    existing: Seq<IndexedFileState>,
    current: Seq<Seq<char>>,
    n: nat,
    id: i64,
)
    requires
        n <= existing.len(),
    ensures
        stale_ids_upto(existing, current, n).contains(id) <==> exists|i: int|
            0 <= i < n && state_index(existing, (#[trigger] existing[i]).path@) == i && !has_path(
                current,
                existing[i].path@,
            ) && existing[i].file_id == id,
    decreases n,
{
    if n > 0 {
        lemma_stale_ids_exact(existing, current, (n - 1) as nat, id);
        let prev = stale_ids_upto(existing, current, (n - 1) as nat);
        let s = existing[n - 1];
        if state_index(existing, s.path@) == n - 1 && !has_path(current, s.path@) {
            let now = prev.push(s.file_id);
            if now.contains(id) {
                let q = choose|q: int| 0 <= q < now.len() && now[q] == id;
                if q < prev.len() {
                    assert(prev[q] == id);
                }
            }
            if prev.contains(id) {
                let q = choose|q: int| 0 <= q < prev.len() && prev[q] == id;
                assert(now[q] == id);
            }
            if s.file_id == id {
                assert(now[prev.len() as int] == id);
            }
        }
    }
}

/// What happens to a scanned file, in terms of the recorded states: a file
/// with no state for its path is added; otherwise the state recorded last
/// for it decides. The file is unchanged exactly when that state has the
/// scanned size and the scanned modification time (both absent, or both
/// present and equal); else it is rechecked against that state's id and hash.
pub proof fn lemma_file_action_laws(
    existing: Seq<IndexedFileState>,
    path: Seq<char>,
    size: i64,
    mtime_ns: Option<i64>,
    i: int,
)
    ensures
        (forall|j: int| 0 <= j < existing.len() ==> (#[trigger] existing[j]).path@ != path) ==> file_action_spec(
            existing,
            path,
            size,
            mtime_ns,
        ) == FileAction::Add,
        0 <= i < existing.len() && existing[i].path@ == path && (forall|j: int|
            i < j < existing.len() ==> (#[trigger] existing[j]).path@ != path) ==> {
            let r = file_action_spec(existing, path, size, mtime_ns);
            &&& (r == FileAction::Unchanged <==> existing[i].size == size && existing[i].mtime_ns == mtime_ns)
            &&& r != FileAction::Unchanged ==> r == FileAction::Recheck {
                file_id: existing[i].file_id,
                hash: existing[i].hash,
            }
        },
{
    lemma_state_index(existing, path);
    let k = state_index(existing, path);
    if k >= 0 {
        assert(existing[k].path@ == path);
    }
    if 0 <= i < existing.len() && existing[i].path@ == path && (forall|j: int|
        i < j < existing.len() ==> (#[trigger] existing[j]).path@ != path) {
        assert(k >= i);
        if k > i {
            assert(existing[k].path@ != path);
        }
    }
}

} // verus!
