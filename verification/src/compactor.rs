//! Compact post-processing of ranked results: size budgets, per-item trimming,
//! key deduplication and a cap on the number of items returned.

use vstd::prelude::*;
use vstd::utf8::encode_utf8;

use crate::model::{NeighborItem, QueryBudget};
use crate::text::{truncate_line, truncate_line_spec};

verus! {

/// Characters kept of an item's summary.
pub const SUMMARY_LIMIT: usize = 140;

/// Characters kept of each reason.
pub const REASON_LIMIT: usize = 96;

/// Budget for symbol queries at the given expansion level.
pub open spec fn symbol_budget_spec(expand: u8) -> QueryBudget {
    if expand == 0 {
        QueryBudget { max_items: 3, max_total_chars: 720, max_reasons_per_item: 2 }
    } else if expand == 1 {
        QueryBudget { max_items: 5, max_total_chars: 1300, max_reasons_per_item: 3 }
    } else {
        QueryBudget { max_items: 8, max_total_chars: 2000, max_reasons_per_item: 4 }
    }
}

/// Budget for file queries at the given expansion level.
pub open spec fn file_budget_spec(expand: u8) -> QueryBudget {
    if expand == 0 {
        QueryBudget { max_items: 3, max_total_chars: 560, max_reasons_per_item: 2 }
    } else if expand == 1 {
        QueryBudget { max_items: 5, max_total_chars: 1000, max_reasons_per_item: 3 }
    } else {
        QueryBudget { max_items: 7, max_total_chars: 1500, max_reasons_per_item: 4 }
    }
}

/// Budget for suggestion lists: `minimal_items` at level 0, `expanded_items`
/// at level 1, two more than that beyond.
pub open spec fn suggest_budget_spec(expand: u8, minimal_items: nat, expanded_items: nat) -> (
    nat,
    nat,
    nat,
) {
    if expand == 0 {
        (minimal_items, 520, 2)
    } else if expand == 1 {
        (expanded_items, 960, 3)
    } else {
        (expanded_items + 2, 1400, 4)
    }
}

/// Budget for symbol queries.
pub fn symbol_budget(expand: u8) -> (b: QueryBudget)
    ensures
        b == symbol_budget_spec(expand),
{
    match expand {
        0 => QueryBudget { max_items: 3, max_total_chars: 720, max_reasons_per_item: 2 },
        1 => QueryBudget { max_items: 5, max_total_chars: 1_300, max_reasons_per_item: 3 },
        _ => QueryBudget { max_items: 8, max_total_chars: 2_000, max_reasons_per_item: 4 },
    }
}

/// Budget for file queries.
pub fn file_budget(expand: u8) -> (b: QueryBudget)
    ensures
        b == file_budget_spec(expand),
{
    match expand {
        0 => QueryBudget { max_items: 3, max_total_chars: 560, max_reasons_per_item: 2 },
        1 => QueryBudget { max_items: 5, max_total_chars: 1_000, max_reasons_per_item: 3 },
        _ => QueryBudget { max_items: 7, max_total_chars: 1_500, max_reasons_per_item: 4 },
    }
}

/// Budget for one list of edit-target suggestions.
pub fn suggest_budget(expand: u8, minimal_items: usize, expanded_items: usize) -> (b: QueryBudget)
    requires
        expand >= 2 ==> expanded_items + 2 <= usize::MAX,
    ensures
        (b.max_items as nat, b.max_total_chars as nat, b.max_reasons_per_item as nat)
            == suggest_budget_spec(expand, minimal_items as nat, expanded_items as nat),
{
    match expand {
        0 => QueryBudget {
            max_items: minimal_items,
            max_total_chars: 520,
            max_reasons_per_item: 2,
        },
        1 => QueryBudget {
            max_items: expanded_items,
            max_total_chars: 960,
            max_reasons_per_item: 3,
        },
        _ => QueryBudget {
            max_items: expanded_items + 2,
            max_total_chars: 1_400,
            max_reasons_per_item: 4,
        },
    }
}

/// The length that `str::len` reports for a text: its UTF-8 byte count.
pub open spec fn byte_len(s: Seq<char>) -> nat {
    (encode_utf8(s).len() as usize) as nat
}

/// Bytes of an optional text, 0 when absent.
pub open spec fn opt_bytes(s: Option<Seq<char>>) -> nat {
    match s {
        Some(t) => byte_len(t),
        None => 0,
    }
}

/// Total bytes of a list of texts.
pub open spec fn bytes_sum(rs: Seq<Seq<char>>) -> nat
    decreases rs.len(),
{
    if rs.len() == 0 {
        0
    } else {
        bytes_sum(rs.drop_last()) + byte_len(rs.last())
    }
}

/// Total bytes of an optional list of texts, 0 when absent.
pub open spec fn opt_bytes_sum(rs: Option<Seq<Seq<char>>>) -> nat {
    match rs {
        Some(t) => bytes_sum(t),
        None => 0,
    }
}

/// A count, held at `usize::MAX` when larger.
pub open spec fn clamp_usize(n: nat) -> int {
    if n > usize::MAX {
        usize::MAX as int
    } else {
        n as int
    }
}

/// The views of a list of strings.
pub open spec fn string_views(v: Seq<String>) -> Seq<Seq<char>> {
    v.map_values(|s: String| s@)
}

/// An item that the compactor can deduplicate, measure and trim.
///
/// The estimated size of an item is a fixed part plus the bytes of its summary
/// and of its reasons; trimming changes only the summary and the reasons.
pub trait CompactItem: Sized {
    /// Key under which duplicates are recognized.
    spec fn key_view(&self) -> Seq<char>;

    /// Part of the estimated size that trimming leaves unchanged.
    spec fn fixed_chars(&self) -> nat;

    /// The trimmable summary, if the item has one.
    spec fn summary_view(&self) -> Option<Seq<char>>;

    /// The trimmable reasons, if the item has them.
    spec fn reasons_view(&self) -> Option<Seq<Seq<char>>>;

    /// Key under which duplicates are recognized.
    fn dedupe_key(&self) -> (key: String)
        ensures
            key@ == self.key_view(),
    ;

    /// Estimated rendered size of the item.
    fn estimated_chars(&self) -> (n: usize)
        ensures
            n as int == clamp_usize(
                self.fixed_chars() + opt_bytes(self.summary_view()) + opt_bytes_sum(
                    self.reasons_view(),
                ),
            ),
    ;

    /// Mutable access to the summary, if any.
    fn summary_mut(&mut self) -> (r: Option<&mut String>)
        ensures
            r is Some <==> old(self).summary_view() is Some,
            r matches Some(s) ==> {
                &&& (*s)@ == old(self).summary_view()->0
                &&& final(self).summary_view() == Some((*final(s))@)
                &&& final(self).key_view() == old(self).key_view()
                &&& final(self).fixed_chars() == old(self).fixed_chars()
                &&& final(self).reasons_view() == old(self).reasons_view()
            },
            r is None ==> *final(self) == *old(self),
    ;

    /// Mutable access to the reasons, if any.
    fn reasons_mut(&mut self) -> (r: Option<&mut Vec<String>>)
        ensures
            r is Some <==> old(self).reasons_view() is Some,
            r matches Some(v) ==> {
                &&& string_views((*v)@) == old(self).reasons_view()->0
                &&& final(self).reasons_view() == Some(string_views((*final(v))@))
                &&& final(self).key_view() == old(self).key_view()
                &&& final(self).fixed_chars() == old(self).fixed_chars()
                &&& final(self).summary_view() == old(self).summary_view()
            },
            r is None ==> *final(self) == *old(self),
    ;
}

/// Reasons after trimming, looking at the first `n` of them: each is cut to
/// the reason limit, repeats are skipped, and the walk stops once
/// `max(max_reasons, 1)` reasons are kept.
pub open spec fn trim_reasons_upto(rs: Seq<Seq<char>>, max_reasons: nat, n: nat) -> Seq<Seq<char>>
    decreases n,
{
    if n == 0 {
        Seq::empty()
    } else {
        let prev = trim_reasons_upto(rs, max_reasons, (n - 1) as nat);
        let stop = if max_reasons == 0 { 1 } else { max_reasons };
        if prev.len() >= stop {
            prev
        } else {
            let t = truncate_line_spec(rs[n - 1], REASON_LIMIT as nat);
            if prev.contains(t) {
                prev
            } else {
                prev.push(t)
            }
        }
    }
}

/// All reasons after trimming.
pub open spec fn trimmed_reasons(rs: Seq<Seq<char>>, max_reasons: nat) -> Seq<Seq<char>> {
    trim_reasons_upto(rs, max_reasons, rs.len())
}

/// Summary of an item after trimming.
pub open spec fn trimmed_summary_of(s: Option<Seq<char>>) -> Option<Seq<char>> {
    match s {
        Some(t) => Some(truncate_line_spec(t, SUMMARY_LIMIT as nat)),
        None => None,
    }
}

/// Reasons of an item after trimming.
pub open spec fn trimmed_reasons_of(rs: Option<Seq<Seq<char>>>, max_reasons: nat) -> Option<
    Seq<Seq<char>>,
> {
    match rs {
        Some(t) => Some(trimmed_reasons(t, max_reasons)),
        None => None,
    }
}

/// Estimated size of an item after trimming.
pub open spec fn trimmed_chars<T: CompactItem>(x: T, max_reasons: nat) -> int {
    clamp_usize(
        x.fixed_chars() + opt_bytes(trimmed_summary_of(x.summary_view())) + opt_bytes_sum(
            trimmed_reasons_of(x.reasons_view(), max_reasons),
        ),
    )
}

/// Whether `y` is `x` after trimming.
pub open spec fn is_trimmed<T: CompactItem>(y: T, x: T, max_reasons: nat) -> bool {
    &&& y.key_view() == x.key_view()
    &&& y.fixed_chars() == x.fixed_chars()
    &&& y.summary_view() == trimmed_summary_of(x.summary_view())
    &&& y.reasons_view() == trimmed_reasons_of(x.reasons_view(), max_reasons)
}

/// Progress of the compactor over a prefix of the ranked items.
pub struct CompactState {
    pub seen: Set<Seq<char>>,
    pub kept: Seq<int>,
    pub total: int,
    pub dropped: bool,
}

/// How many items may be returned: the wanted count, at most the budget's
/// item limit, that limit being at least one.
pub open spec fn item_cap(budget: QueryBudget, wanted: nat) -> nat {
    let limit = if budget.max_items == 0 { 1 } else { budget.max_items as nat };
    if wanted < limit {
        wanted
    } else {
        limit
    }
}

/// The compactor after looking at the first `n` ranked items: an item whose
/// key was seen before is dropped; otherwise its key is recorded, and it is kept
/// when fewer than `cap` items are kept and its trimmed size fits in what is
/// left of the character budget, else dropped.
pub open spec fn compact_state<T: CompactItem>(
    raw: Seq<T>,
    budget: QueryBudget,
    cap: nat,
    n: nat,
) -> CompactState
    decreases n,
{
    if n == 0 {
        CompactState { seen: Set::empty(), kept: Seq::empty(), total: 0, dropped: false }
    } else {
        let st = compact_state(raw, budget, cap, (n - 1) as nat);
        let x = raw[n - 1];
        if st.seen.contains(x.key_view()) {
            CompactState { dropped: true, ..st }
        } else {
            let size = trimmed_chars(x, budget.max_reasons_per_item as nat);
            let seen = st.seen.insert(x.key_view());
            if st.kept.len() >= cap || st.total + size > budget.max_total_chars {
                CompactState { seen, kept: st.kept, total: st.total, dropped: true }
            } else {
                CompactState { seen, kept: st.kept.push(n - 1), total: st.total + size, dropped: st.dropped }
            }
        }
    }
}

/// Whether `v` holds a string with the view `s`.
fn has_string(v: &Vec<String>, s: &String) -> (r: bool)
    ensures
        r == string_views(v@).contains(s@),
{
    let mut i: usize = 0;
    while i < v.len()
        invariant
            i <= v@.len(),
            forall|j: int| 0 <= j < i ==> v@[j]@ != s@,
        decreases v@.len() - i,
    {
        if v[i] == *s {
            assert(string_views(v@)[i as int] == s@);
            return true;
        }
        i = i + 1;
    }
    assert forall|j: int| 0 <= j < string_views(v@).len() implies string_views(v@)[j] != s@ by {
        assert(string_views(v@)[j] == v@[j]@);
    }
    false
}

/// Trims reasons: each cut to the reason limit, repeats skipped, at most
/// `max(max_reasons, 1)` kept.
pub fn trim_reasons(reasons: &Vec<String>, max_reasons: usize) -> (r: Vec<String>)
    ensures
        string_views(r@) == trimmed_reasons(string_views(reasons@), max_reasons as nat),
{
    let ghost rs = string_views(reasons@);
    let mut trimmed: Vec<String> = Vec::new();
    let mut i: usize = 0;
    while i < reasons.len()
        invariant
            i <= reasons@.len(),
            rs == string_views(reasons@),
            string_views(trimmed@) == trim_reasons_upto(rs, max_reasons as nat, i as nat),
        decreases reasons@.len() - i,
    {
        let stop: usize = if max_reasons == 0 { 1 } else { max_reasons };
        if trimmed.len() >= stop {
            proof {
                lemma_trim_reasons_stopped(rs, max_reasons as nat, i as nat, rs.len());
            }
            assert(rs.len() == reasons@.len());
            return trimmed;
        }
        let reason = truncate_line(reasons[i].as_str(), REASON_LIMIT);
        assert(rs[i as int] == reasons@[i as int]@);
        if !has_string(&trimmed, &reason) {
            let ghost before = string_views(trimmed@);
            trimmed.push(reason);
            assert(string_views(trimmed@) =~= before.push(reason@));
        }
        i = i + 1;
    }
    trimmed
}

/// Once the stop count is reached, later reasons change nothing.
pub proof fn lemma_trim_reasons_stopped(rs: Seq<Seq<char>>, max_reasons: nat, i: nat, n: nat)
    requires
        i <= n,
        trim_reasons_upto(rs, max_reasons, i).len() >= (if max_reasons == 0 { 1 } else { max_reasons }),
    ensures
        trim_reasons_upto(rs, max_reasons, n) == trim_reasons_upto(rs, max_reasons, i),
    decreases n - i,
{
    if n > i {
        lemma_trim_reasons_stopped(rs, max_reasons, i, (n - 1) as nat);
    }
}

/// Trims an item's summary and reasons under the budget.
pub fn trim_item<T: CompactItem>(item: &mut T, budget: &QueryBudget)
    ensures
        is_trimmed(*final(item), *old(item), budget.max_reasons_per_item as nat),
{
    if let Some(summary) = item.summary_mut() {
        let cut = truncate_line(summary.as_str(), SUMMARY_LIMIT);
        *summary = cut;
    }
    if let Some(reasons) = item.reasons_mut() {
        let trimmed = trim_reasons(reasons, budget.max_reasons_per_item);
        *reasons = trimmed;
    }
}

/// Keeps, in rank order, the items that fit: a repeated key is dropped, and an
/// item is kept only while fewer than `item_cap(budget, wanted)` items are kept
/// and its trimmed size fits the character budget. Returns the kept items,
/// trimmed, and whether no item was dropped.
pub fn compact_items<T: CompactItem>(raw: Vec<T>, budget: &QueryBudget, wanted: usize) -> (r: (
    Vec<T>,
    bool,
))
    ensures
        ({
            let st = compact_state(raw@, *budget, item_cap(*budget, wanted as nat), raw@.len());
            &&& r.0@.len() == st.kept.len()
            &&& forall|k: int|
                0 <= k < r.0@.len() ==> is_trimmed(
                    #[trigger] r.0@[k],
                    raw@[st.kept[k]],
                    budget.max_reasons_per_item as nat,
                )
            &&& r.1 == !st.dropped
        }),
{
    let ghost all = raw@;
    let ghost cap = item_cap(*budget, wanted as nat);
    let limit: usize = if budget.max_items == 0 { 1 } else { budget.max_items };
    let requested: usize = if wanted < limit { wanted } else { limit };
    let raw_len = raw.len();
    let mut rest = raw;
    let mut seen: Vec<String> = Vec::new();
    let mut items: Vec<T> = Vec::new();
    let mut total_chars: usize = 0;
    let mut dropped = false;
    let mut n: usize = 0;
    while rest.len() > 0
        invariant
            requested == cap,
            raw_len == all.len(),
            n + rest@.len() == all.len(),
            rest@ == all.subrange(n as int, all.len() as int),
            ({
                let st = compact_state(all, *budget, cap, n as nat);
                &&& string_views(seen@).to_set() == st.seen
                &&& items@.len() == st.kept.len()
                &&& total_chars == st.total
                &&& dropped == st.dropped
                &&& forall|k: int|
                    0 <= k < items@.len() ==> is_trimmed(
                        #[trigger] items@[k],
                        all[st.kept[k]],
                        budget.max_reasons_per_item as nat,
                    )
                &&& st.total <= budget.max_total_chars
            }),
        decreases rest@.len(),
    {
        let ghost st = compact_state(all, *budget, cap, n as nat);
        let mut item = rest.remove(0);
        assert(item == all[n as int]);
        let key = item.dedupe_key();
        if has_string(&seen, &key) {
            assert(string_views(seen@).to_set().contains(key@));
            dropped = true;
        } else {
            let ghost before = string_views(seen@);
            seen.push(key);
            assert(string_views(seen@) =~= before.push(key@));
            assert(string_views(seen@).to_set() =~= before.to_set().insert(key@)) by {
                assert forall|x: Seq<char>| string_views(seen@).to_set().contains(x) implies before.to_set().insert(key@).contains(x) by {
                    let j = choose|j: int| 0 <= j < string_views(seen@).len() && string_views(seen@)[j] == x;
                    if j < before.len() {
                        assert(before[j] == x);
                    }
                }
                assert forall|x: Seq<char>| before.to_set().insert(key@).contains(x) implies string_views(seen@).to_set().contains(x) by {
                    if x == key@ {
                        assert(string_views(seen@)[before.len() as int] == x);
                    } else {
                        let j = choose|j: int| 0 <= j < before.len() && before[j] == x;
                        assert(string_views(seen@)[j] == x);
                    }
                }
            }
            assert(!before.to_set().contains(key@));
            trim_item(&mut item, budget);
            let item_chars = item.estimated_chars();
            assert(item_chars == trimmed_chars(all[n as int], budget.max_reasons_per_item as nat));
            if items.len() >= requested || item_chars > budget.max_total_chars - total_chars {
                dropped = true;
            } else {
                total_chars = total_chars + item_chars;
                let ghost before_items = items@;
                items.push(item);
                assert(forall|k: int| 0 <= k < before_items.len() ==> items@[k] == before_items[k]);
            }
        }
        assert(rest@ =~= all.subrange(n + 1, all.len() as int));
        n = n + 1;
    }
    assert(n == all.len());
    (items, !dropped)
}

/// Whether the kept indices are strictly increasing and below `n`.
pub open spec fn increasing_below(kept: Seq<int>, n: int) -> bool {
    &&& forall|i: int, j: int| 0 <= i < j < kept.len() ==> kept[i] < kept[j]
    &&& forall|i: int| 0 <= i < kept.len() ==> 0 <= #[trigger] kept[i] < n
}

/// The sum of the trimmed sizes of the kept items.
pub open spec fn kept_total<T: CompactItem>(raw: Seq<T>, kept: Seq<int>, max_reasons: nat) -> int
    decreases kept.len(),
{
    if kept.len() == 0 {
        0
    } else {
        kept_total(raw, kept.drop_last(), max_reasons) + trimmed_chars(raw[kept.last()], max_reasons)
    }
}

/// What compaction promises of any ranked list: at most `cap` items are kept,
/// in rank order, with pairwise distinct keys and a total trimmed size within
/// the character budget; the result is exhaustive exactly when every item was
/// kept; every key met is remembered.
pub proof fn lemma_compact_laws<T: CompactItem>(raw: Seq<T>, budget: QueryBudget, cap: nat, n: nat)
    requires
        n <= raw.len(),
    ensures
        ({
            let st = compact_state(raw, budget, cap, n);
            &&& st.kept.len() <= cap
            &&& st.kept.len() <= n
            &&& increasing_below(st.kept, n as int)
            &&& forall|i: int, j: int|
                0 <= i < j < st.kept.len() ==> raw[st.kept[i]].key_view() != raw[st.kept[j]].key_view()
            &&& st.total == kept_total(raw, st.kept, budget.max_reasons_per_item as nat)
            &&& st.total <= budget.max_total_chars
            &&& st.dropped == (st.kept.len() < n)
            &&& forall|i: int| 0 <= i < n ==> st.seen.contains(#[trigger] raw[i].key_view())
            &&& forall|i: int| 0 <= i < st.kept.len() ==> st.seen.contains(#[trigger] raw[st.kept[i]].key_view())
        }),
    decreases n,
{
    if n > 0 {
        lemma_compact_laws(raw, budget, cap, (n - 1) as nat);
        let prev = compact_state(raw, budget, cap, (n - 1) as nat);
        let st = compact_state(raw, budget, cap, n);
        let x = raw[n - 1];
        if !prev.seen.contains(x.key_view()) {
            let size = trimmed_chars(x, budget.max_reasons_per_item as nat);
            if !(prev.kept.len() >= cap || prev.total + size > budget.max_total_chars) {
                assert(st.kept.drop_last() =~= prev.kept);
                assert forall|i: int, j: int|
                    0 <= i < j < st.kept.len() implies raw[st.kept[i]].key_view() != raw[st.kept[j]].key_view() by {
                    if j == st.kept.len() - 1 {
                        assert(prev.seen.contains(raw[prev.kept[i]].key_view()));
                    }
                }
            }
        }
    }
}

/// A non-empty list whose first item fits the character budget never comes
/// back empty: the best-ranked item is always kept.
pub proof fn lemma_compact_keeps_first<T: CompactItem>(raw: Seq<T>, budget: QueryBudget, cap: nat, n: nat)
    requires
        1 <= n <= raw.len(),
        cap >= 1,
        trimmed_chars(raw[0], budget.max_reasons_per_item as nat) <= budget.max_total_chars,
    ensures
        compact_state(raw, budget, cap, n).kept.len() >= 1,
        compact_state(raw, budget, cap, n).kept[0] == 0,
    decreases n,
{
    if n > 1 {
        lemma_compact_keeps_first(raw, budget, cap, (n - 1) as nat);
        let prev = compact_state(raw, budget, cap, (n - 1) as nat);
        let st = compact_state(raw, budget, cap, n);
        assert(st.kept.len() >= prev.kept.len());
        assert(st.kept[0] == prev.kept[0]);
    } else {
        assert(compact_state(raw, budget, cap, 0).kept.len() == 0);
    }
}

/// Holding a sum at `usize::MAX` before adding more changes nothing.
pub proof fn lemma_clamp_add(a: nat, b: nat)
    ensures
        clamp_usize((clamp_usize(a) + b) as nat) == clamp_usize(a + b),
{
}

/// Adding a held value to a held value is the held sum.
pub proof fn lemma_clamp_add2(a: nat, b: nat)
    ensures
        clamp_usize((clamp_usize(a) + clamp_usize(b)) as nat) == clamp_usize(a + b),
{
}

/// Total bytes of a list of strings, held at `usize::MAX`.
pub(crate) fn strings_bytes(v: &Vec<String>) -> (n: usize)
    ensures
        n as int == clamp_usize(bytes_sum(string_views(v@))),
{
    let mut total: usize = 0;
    let mut i: usize = 0;
    while i < v.len()
        invariant
            i <= v@.len(),
            total as int == clamp_usize(bytes_sum(string_views(v@).subrange(0, i as int))),
        decreases v@.len() - i,
    {
        let item = v[i].as_str();
        let len = item.len();
        assert(item@ == v@[i as int]@);
        assert(len as nat == byte_len(v@[i as int]@));
        assert(string_views(v@).subrange(0, i + 1).drop_last() =~= string_views(v@).subrange(0, i as int));
        assert(string_views(v@)[i as int] == v@[i as int]@);
        assert(string_views(v@).subrange(0, i + 1).last() == v@[i as int]@);
        proof {
            lemma_clamp_add(bytes_sum(string_views(v@).subrange(0, i as int)), len as nat);
        }
        total = total.saturating_add(len);
        i = i + 1;
    }
    assert(string_views(v@).subrange(0, v@.len() as int) =~= string_views(v@));
    total
}

impl CompactItem for NeighborItem {
    open spec fn key_view(&self) -> Seq<char> {
        self.kind@ + seq![':'] + self.label@
    }

    open spec fn fixed_chars(&self) -> nat {
        byte_len(self.label@) + byte_len(self.kind@) + 24
    }

    open spec fn summary_view(&self) -> Option<Seq<char>> {
        match self.detail {
            Some(d) => Some(d@),
            None => None,
        }
    }

    open spec fn reasons_view(&self) -> Option<Seq<Seq<char>>> {
        Some(string_views(self.why@))
    }

    fn dedupe_key(&self) -> (key: String) {
        let mut key = self.kind.clone();
        key.push(':');
        let label = crate::text::chars_of(self.label.as_str());
        let mut i: usize = 0;
        while i < label.len()
            invariant
                i <= label@.len(),
                label@ == self.label@,
                key@ == self.kind@ + seq![':'] + label@.subrange(0, i as int),
            decreases label@.len() - i,
        {
            key.push(label[i]);
            assert(label@.subrange(0, i + 1) =~= label@.subrange(0, i as int).push(label@[i as int]));
            i = i + 1;
        }
        assert(label@.subrange(0, label@.len() as int) =~= label@);
        key
    }

    fn estimated_chars(&self) -> (n: usize) {
        let detail = match &self.detail {
            Some(d) => d.as_str().len(),
            None => 0,
        };
        let why = strings_bytes(&self.why);
        let label = self.label.as_str().len();
        let kind = self.kind.as_str().len();
        let ghost a = byte_len(self.label@);
        let ghost b = byte_len(self.kind@);
        let ghost c = opt_bytes(self.summary_view());
        let ghost d = opt_bytes_sum(self.reasons_view());
        assert(label as nat == a);
        assert(kind as nat == b);
        assert(detail as nat == c);
        let x1 = label.saturating_add(kind);
        let x2 = x1.saturating_add(detail);
        proof {
            lemma_clamp_add(a + b, c);
        }
        let x3 = x2.saturating_add(why);
        proof {
            lemma_clamp_add2(a + b + c, d);
        }
        let x4 = x3.saturating_add(24);
        proof {
            lemma_clamp_add(a + b + c + d, 24);
        }
        x4
    }

    fn summary_mut(&mut self) -> (r: Option<&mut String>) {
        self.detail.as_mut()
    }

    fn reasons_mut(&mut self) -> (r: Option<&mut Vec<String>>) {
        Some(&mut self.why)
    }
}

} // verus!
