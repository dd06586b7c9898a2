//! Character-level text primitives shared by the indexer and the query layer.
//!
//! Text is handled as `Vec<char>`, whose view is the same `Seq<char>` that a
//! `String` or `&str` views to, so every contract here speaks of plain
//! character sequences.

use vstd::prelude::*;

verus! {

/// `String::push` appends one character.
pub assume_specification[ String::push ](s: &mut String, ch: char)
    ensures
        final(s)@ == old(s)@.push(ch),
;

/// Whether `p` occurs in `s` starting at index `i`.
pub open spec fn matches_at(s: Seq<char>, p: Seq<char>, i: int) -> bool {
    0 <= i && i + p.len() <= s.len() && s.subrange(i, i + p.len()) == p
}

/// Whether `p` occurs anywhere in `s` (an empty `p` occurs everywhere).
pub open spec fn seq_contains(s: Seq<char>, p: Seq<char>) -> bool {
    exists|i: int| matches_at(s, p, i)
}

/// Whether `s` begins with `p`.
pub open spec fn seq_starts_with(s: Seq<char>, p: Seq<char>) -> bool {
    matches_at(s, p, 0)
}

/// Whether `s` ends with `p`.
pub open spec fn seq_ends_with(s: Seq<char>, p: Seq<char>) -> bool {
    p.len() <= s.len() && matches_at(s, p, s.len() - p.len())
}

/// Index of the first occurrence of `p` in `s` at or after `from`, or -1.
pub open spec fn first_from(s: Seq<char>, p: Seq<char>, from: int) -> int
    decreases s.len() + 1 - from,
{
    if from < 0 || from + p.len() > s.len() {
        -1
    } else if matches_at(s, p, from) {
        from
    } else {
        first_from(s, p, from + 1)
    }
}

/// `first_from` finds the earliest match at or after `from`.
pub proof fn lemma_first_from(s: Seq<char>, p: Seq<char>, from: int)
    requires
        0 <= from,
    ensures
        first_from(s, p, from) == -1 || (from <= first_from(s, p, from) && matches_at(
            s,
            p,
            first_from(s, p, from),
        )),
        first_from(s, p, from) == -1 ==> forall|k: int| from <= k ==> !matches_at(s, p, k),
        forall|k: int| from <= k < first_from(s, p, from) ==> !matches_at(s, p, k),
    decreases s.len() + 1 - from,
{
    if from + p.len() > s.len() {
    } else if matches_at(s, p, from) {
    } else {
        lemma_first_from(s, p, from + 1);
    }
}

/// `last_before` finds the latest match that starts before `end`.
pub proof fn lemma_last_before(s: Seq<char>, p: Seq<char>, end: int)
    ensures
        last_before(s, p, end) == -1 || (last_before(s, p, end) < end && matches_at(
            s,
            p,
            last_before(s, p, end),
        )),
        last_before(s, p, end) == -1 ==> forall|k: int| k < end ==> !matches_at(s, p, k),
        forall|k: int| last_before(s, p, end) < k < end ==> !matches_at(s, p, k),
    decreases end,
{
    if end <= 0 {
    } else if matches_at(s, p, end - 1) {
    } else {
        lemma_last_before(s, p, end - 1);
    }
}

/// Index of the last occurrence of `p` in `s` that starts before `end`, or -1.
pub open spec fn last_before(s: Seq<char>, p: Seq<char>, end: int) -> int
    decreases end,
{
    if end <= 0 {
        -1
    } else if matches_at(s, p, end - 1) {
        end - 1
    } else {
        last_before(s, p, end - 1)
    }
}

/// Index of the last occurrence of `p` in `s`, or -1.
pub open spec fn last_index(s: Seq<char>, p: Seq<char>) -> int {
    last_before(s, p, s.len() as int + 1)
}

/// `str::to_ascii_lowercase` on one character.
pub open spec fn lower_char(c: char) -> char {
    if 'A' <= c && c <= 'Z' {
        ((c as u32) + 32) as char
    } else {
        c
    }
}

/// `str::to_ascii_lowercase` on a whole sequence.
pub open spec fn lower(s: Seq<char>) -> Seq<char> {
    s.map_values(|c: char| lower_char(c))
}

/// Joins `parts` with `sep` between neighbours.
pub open spec fn join(parts: Seq<Seq<char>>, sep: Seq<char>) -> Seq<char>
    decreases parts.len(),
{
    if parts.len() == 0 {
        Seq::empty()
    } else if parts.len() == 1 {
        parts[0]
    } else {
        join(parts.drop_last(), sep) + sep + parts.last()
    }
}

/// The pieces of `str::split` with the empty pattern, which separates every
/// character along with the beginning and the end: an empty piece, each
/// character on its own, an empty piece.
pub open spec fn split_each(s: Seq<char>) -> Seq<Seq<char>> {
    seq![Seq::<char>::empty()] + s.map_values(|c: char| seq![c]) + seq![Seq::<char>::empty()]
}

/// Splits `s` at every occurrence of `sep`, left to right, keeping empty
/// pieces (`str::split` with a string pattern).
pub open spec fn split(s: Seq<char>, sep: Seq<char>) -> Seq<Seq<char>>
    decreases s.len(),
{
    let i = first_from(s, sep, 0);
    if sep.len() == 0 {
        split_each(s)
    } else if i < 0 {
        seq![s]
    } else {
        proof {
            lemma_first_from(s, sep, 0);
        }
        seq![s.subrange(0, i)] + split(s.subrange(i + sep.len(), s.len() as int), sep)
    }
}

/// Character-by-character copy of a string slice.
pub fn chars_of(s: &str) -> (v: Vec<char>)
    ensures
        v@ == s@,
{
    let mut v: Vec<char> = Vec::new();
    for c in it: s.chars()
        invariant
            v@ == it.seq().subrange(0, it.index()),
            it.seq() == s@,
    {
        v.push(c);
    }
    v
}

/// Builds a `String` holding exactly the given characters.
pub fn string_of(v: &[char]) -> (s: String)
    ensures
        s@ == v@,
{
    let mut s = String::new();
    let mut i: usize = 0;
    while i < v.len()
        invariant
            i <= v@.len(),
            s@ == v@.subrange(0, i as int),
        decreases v@.len() - i,
    {
        s.push(v[i]);
        assert(v@.subrange(0, i as int).push(v@[i as int]) =~= v@.subrange(0, i + 1));
        i = i + 1;
    }
    assert(v@.subrange(0, v@.len() as int) =~= v@);
    s
}


/// Whether `c` has the Unicode `White_Space` property (the test behind
/// `str::split_whitespace`). PropList.txt gives it to U+0009..U+000D,
/// U+0020, U+0085, U+00A0, U+1680, U+2000..U+200A, U+2028, U+2029, U+202F,
/// U+205F and U+3000.
#[verifier::opaque]
pub open spec fn is_ws(c: char) -> bool {
    let n = c as u32;
    (0x9 <= n <= 0xD) || n == 0x20 || n == 0x85 || n == 0xA0 || n == 0x1680 || (0x2000 <= n <= 0x200A) || n
        == 0x2028 || n == 0x2029 || n == 0x202F || n == 0x205F || n == 0x3000
}

/// Whether `c` is alphabetic or numeric in the Unicode sense.
pub uninterp spec fn is_alnum(c: char) -> bool;

/// Calls `char::is_whitespace`, which tests the `White_Space` property:
/// `is_ws(c)`.
#[verifier::external_body]
pub(crate) fn char_is_whitespace(c: char) -> (r: bool)
    ensures
        r == is_ws(c),
{
    c.is_whitespace()
}

/// Calls `char::is_alphanumeric`; the result is named `is_alnum(c)`.
#[verifier::external_body]
pub(crate) fn char_is_alphanumeric(c: char) -> (r: bool)
    ensures
        r == is_alnum(c),
{
    c.is_alphanumeric()
}

/// Whether `p` occurs in `s` at index `i`.
pub fn has_at(s: &[char], p: &[char], i: usize) -> (r: bool)
    ensures
        r == matches_at(s@, p@, i as int),
{
    if i > s.len() || p.len() > s.len() - i {
        return false;
    }
    let mut k: usize = 0;
    while k < p.len()
        invariant
            i + p.len() <= s.len(),
            k <= p@.len(),
            forall|j: int| 0 <= j < k ==> s@[i + j] == p@[j],
        decreases p@.len() - k,
    {
        if s[i + k] != p[k] {
            assert(s@.subrange(i as int, i + p@.len())[k as int] != p@[k as int]);
            return false;
        }
        k = k + 1;
    }
    assert(s@.subrange(i as int, i + p@.len()) =~= p@);
    true
}

/// First occurrence of `p` in `s` at or after `from`.
pub fn find_from(s: &[char], p: &[char], from: usize) -> (r: Option<usize>)
    ensures
        r matches Some(i) ==> i as int == first_from(s@, p@, from as int),
        r is None ==> first_from(s@, p@, from as int) == -1,
{
    let mut i = from;
    while i <= s.len() && p.len() <= s.len() - i
        invariant
            from <= i,
            first_from(s@, p@, from as int) == first_from(s@, p@, i as int),
        decreases s@.len() + 1 - i,
    {
        if has_at(s, p, i) {
            return Some(i);
        }
        if i == s.len() {
            assert(first_from(s@, p@, i as int + 1) == -1);
            return None;
        }
        i = i + 1;
    }
    None
}

/// Whether `p` occurs anywhere in `s` (`str::contains`).
pub fn contains(s: &[char], p: &[char]) -> (r: bool)
    ensures
        r == seq_contains(s@, p@),
{
    proof {
        lemma_first_from(s@, p@, 0);
    }
    find_from(s, p, 0).is_some()
}

/// `str::starts_with`.
pub fn starts_with(s: &[char], p: &[char]) -> (r: bool)
    ensures
        r == seq_starts_with(s@, p@),
{
    has_at(s, p, 0)
}

/// `str::ends_with`.
pub fn ends_with(s: &[char], p: &[char]) -> (r: bool)
    ensures
        r == seq_ends_with(s@, p@),
{
    if p.len() > s.len() {
        false
    } else {
        has_at(s, p, s.len() - p.len())
    }
}

/// Last occurrence of `p` in `s` (`str::rfind`).
pub fn rfind(s: &[char], p: &[char]) -> (r: Option<usize>)
    ensures
        r matches Some(i) ==> i as int == last_index(s@, p@),
        r is None ==> last_index(s@, p@) == -1,
{
    if p.len() > s.len() {
        assert(last_index(s@, p@) == -1) by {
            lemma_no_match_last(s@, p@, s@.len() as int + 1);
        }
        return None;
    }
    if p.len() == 0 {
        assert(matches_at(s@, p@, s@.len() as int)) by {
            assert(s@.subrange(s@.len() as int, s@.len() as int) =~= p@);
        }
        return Some(s.len());
    }
    let mut end = s.len() - p.len() + 1;
    proof {
        lemma_skip_tail(s@, p@, s@.len() as int + 1, end as int);
    }
    while end > 0
        invariant
            end <= s@.len() + 1,
            last_index(s@, p@) == last_before(s@, p@, end as int),
        decreases end,
    {
        if has_at(s, p, end - 1) {
            return Some(end - 1);
        }
        end = end - 1;
    }
    None
}

/// No match before `end` means `last_before` reports none.
pub proof fn lemma_no_match_last(s: Seq<char>, p: Seq<char>, end: int)
    requires
        forall|k: int| k < end ==> !matches_at(s, p, k),
    ensures
        last_before(s, p, end) == -1,
    decreases end,
{
    if end > 0 {
        lemma_no_match_last(s, p, end - 1);
    }
}

/// Start positions past `s.len() - p.len()` cannot match.
pub proof fn lemma_skip_tail(s: Seq<char>, p: Seq<char>, end: int, stop: int)
    requires
        p.len() <= s.len(),
        stop == s.len() - p.len() + 1,
        stop <= end,
    ensures
        last_before(s, p, end) == last_before(s, p, stop),
    decreases end - stop,
{
    if end > stop {
        lemma_skip_tail(s, p, end - 1, stop);
    }
}

/// ASCII lowercase copy (`str::to_ascii_lowercase`).
pub fn lowercase(s: &[char]) -> (r: Vec<char>)
    ensures
        r@ == lower(s@),
{
    let mut r: Vec<char> = Vec::new();
    let mut i: usize = 0;
    while i < s.len()
        invariant
            i <= s@.len(),
            r@ == lower(s@.subrange(0, i as int)),
        decreases s@.len() - i,
    {
        let c = s[i];
        let l = if 'A' <= c && c <= 'Z' {
            char_from_u32_ascii((c as u32) + 32)
        } else {
            c
        };
        r.push(l);
        assert(lower(s@.subrange(0, i + 1)) =~= lower(s@.subrange(0, i as int)).push(lower_char(c)));
        i = i + 1;
    }
    assert(s@.subrange(0, s@.len() as int) =~= s@);
    r
}

/// The ASCII character with code `n`.
fn char_from_u32_ascii(n: u32) -> (c: char)
    requires
        n < 128,
    ensures
        c == n as char,
{
    let b: u8 = n as u8;
    b as char
}

/// Appends all of `src` to `dst`.
pub fn extend_chars(dst: &mut Vec<char>, src: &[char])
    ensures
        final(dst)@ == old(dst)@ + src@,
{
    let mut i: usize = 0;
    while i < src.len()
        invariant
            i <= src@.len(),
            dst@ == old(dst)@ + src@.subrange(0, i as int),
        decreases src@.len() - i,
    {
        dst.push(src[i]);
        assert(old(dst)@ + src@.subrange(0, i + 1) =~= (old(dst)@ + src@.subrange(0, i as int)).push(src@[i as int]));
        i = i + 1;
    }
    assert(src@.subrange(0, src@.len() as int) =~= src@);
}

/// Joins the pieces with `sep` between neighbours (`[String]::join`).
pub fn join_chars(parts: &Vec<Vec<char>>, sep: &[char]) -> (r: Vec<char>)
    ensures
        r@ == join(parts@.map_values(|v: Vec<char>| v@), sep@),
{
    let ghost views = parts@.map_values(|v: Vec<char>| v@);
    let mut r: Vec<char> = Vec::new();
    let mut i: usize = 0;
    while i < parts.len()
        invariant
            i <= parts@.len(),
            views == parts@.map_values(|v: Vec<char>| v@),
            r@ == join(views.subrange(0, i as int), sep@),
        decreases parts@.len() - i,
    {
        if i > 0 {
            extend_chars(&mut r, sep);
        }
        extend_chars(&mut r, parts[i].as_slice());
        assert(views.subrange(0, i + 1).drop_last() =~= views.subrange(0, i as int));
        if i == 0 {
            assert(r@ =~= views.subrange(0, 1)[0]);
        }
        i = i + 1;
    }
    assert(views.subrange(0, parts@.len() as int) =~= views);
    r
}

/// The pieces of `str::split` with the empty pattern.
fn split_each_chars(s: &[char]) -> (r: Vec<Vec<char>>)
    ensures
        r@.map_values(|v: Vec<char>| v@) == split_each(s@),
{
    let mut r: Vec<Vec<char>> = Vec::new();
    r.push(Vec::new());
    let mut i: usize = 0;
    while i < s.len()
        invariant
            i <= s@.len(),
            r@.map_values(|v: Vec<char>| v@) == seq![Seq::<char>::empty()] + s@.subrange(0, i as int).map_values(
                |c: char| seq![c],
            ),
        decreases s@.len() - i,
    {
        let ghost before = r@.map_values(|v: Vec<char>| v@);
        let mut one: Vec<char> = Vec::new();
        one.push(s[i]);
        r.push(one);
        assert(r@.map_values(|v: Vec<char>| v@) =~= before.push(seq![s@[i as int]]));
        assert(s@.subrange(0, i + 1).map_values(|c: char| seq![c]) =~= s@.subrange(0, i as int).map_values(
            |c: char| seq![c],
        ).push(seq![s@[i as int]]));
        i = i + 1;
    }
    let ghost before = r@.map_values(|v: Vec<char>| v@);
    r.push(Vec::new());
    assert(r@.map_values(|v: Vec<char>| v@) =~= before.push(Seq::<char>::empty()));
    assert(s@.subrange(0, s@.len() as int) =~= s@);
    r
}

/// Splits at every occurrence of `sep` (`str::split`).
pub fn split_chars(s: &[char], sep: &[char]) -> (r: Vec<Vec<char>>)
    ensures
        r@.map_values(|v: Vec<char>| v@) == split(s@, sep@),
{
    if sep.len() == 0 {
        return split_each_chars(s);
    }
    let mut r: Vec<Vec<char>> = Vec::new();
    let mut start: usize = 0;
    assert(s@.subrange(0, s@.len() as int) =~= s@);
    assert(r@.map_values(|v: Vec<char>| v@) =~= Seq::<Seq<char>>::empty());
    assert(Seq::<Seq<char>>::empty() + split(s@, sep@) =~= split(s@, sep@));
    loop
        invariant
            sep@.len() > 0,
            start <= s@.len(),
            r@.map_values(|v: Vec<char>| v@) + split(s@.subrange(start as int, s@.len() as int), sep@)
                == split(s@, sep@),
        decreases s@.len() - start,
    {
        let ghost rest = s@.subrange(start as int, s@.len() as int);
        let found = find_from(s, sep, start);
        proof {
            lemma_first_from(s@, sep@, start as int);
            lemma_first_from(rest, sep@, 0);
            lemma_first_from_shift(s@, sep@, start as int);
        }
        match found {
            None => {
                let piece = copy_range(s, start, s.len());
                assert(split(rest, sep@) == seq![rest]);
                let ghost before = r@.map_values(|v: Vec<char>| v@);
                r.push(piece);
                assert(r@.map_values(|v: Vec<char>| v@) =~= before.push(rest));
                assert(before + seq![rest] =~= before.push(rest));
                return r;
            },
            Some(i) => {
                assert(matches_at(s@, sep@, i as int));
                assert(i as int + sep@.len() <= s@.len());
                assert(sep@.len() == sep.len());
                assert(s@.len() == s.len());
                let piece = copy_range(s, start, i);
                let ghost before = r@.map_values(|v: Vec<char>| v@);
                r.push(piece);
                assert(r@.map_values(|v: Vec<char>| v@) =~= before.push(s@.subrange(start as int, i as int)));
                let ghost j = i - start;
                assert(rest.subrange(0, j) =~= s@.subrange(start as int, i as int));
                assert(rest.subrange(j + sep@.len(), rest.len() as int) =~= s@.subrange(i + sep@.len(), s@.len() as int));
                assert(before + split(rest, sep@) =~= before.push(s@.subrange(start as int, i as int)) + split(s@.subrange(i + sep@.len(), s@.len() as int), sep@));
                start = i + sep.len();
            },
        }
    }
}

/// Searching a suffix equals searching the whole from its start.
pub proof fn lemma_first_from_shift(s: Seq<char>, p: Seq<char>, start: int)
    requires
        0 <= start <= s.len(),
    ensures
        first_from(s.subrange(start, s.len() as int), p, 0) == if first_from(s, p, start) < 0 {
            -1
        } else {
            first_from(s, p, start) - start
        },
{
    let t = s.subrange(start, s.len() as int);
    lemma_first_from(s, p, start);
    lemma_first_from(t, p, 0);
    assert forall|k: int| 0 <= k implies matches_at(t, p, k) == matches_at(s, p, start + k) by {
        if k + p.len() <= t.len() {
            assert(t.subrange(k, k + p.len()) =~= s.subrange(start + k, start + k + p.len()));
        }
    }
    let a = first_from(t, p, 0);
    let b = first_from(s, p, start);
    if a >= 0 {
        assert(matches_at(s, p, start + a));
        if b >= 0 && b < start + a {
            assert(matches_at(t, p, b - start));
        }
    } else {
        if b >= 0 {
            assert(matches_at(t, p, b - start));
        }
    }
}

/// Copy of `s[from..to]`.
pub fn copy_range(s: &[char], from: usize, to: usize) -> (r: Vec<char>)
    requires
        from <= to <= s@.len(),
    ensures
        r@ == s@.subrange(from as int, to as int),
{
    let mut r: Vec<char> = Vec::new();
    let mut i = from;
    while i < to
        invariant
            from <= i <= to <= s@.len(),
            r@ == s@.subrange(from as int, i as int),
        decreases to - i,
    {
        r.push(s[i]);
        assert(s@.subrange(from as int, i + 1) =~= s@.subrange(from as int, i as int).push(s@[i as int]));
        i = i + 1;
    }
    r
}

/// The words of `s`: its maximal runs of non-whitespace characters, in order
/// (`str::split_whitespace`).
pub open spec fn words(s: Seq<char>) -> Seq<Seq<char>>
    decreases s.len(),
{
    if s.len() == 0 {
        Seq::empty()
    } else {
        let w = words(s.drop_last());
        let c = s.last();
        if is_ws(c) {
            w
        } else if s.len() >= 2 && !is_ws(s[s.len() - 2]) {
            w.update(w.len() - 1, w.last().push(c))
        } else {
            w.push(seq![c])
        }
    }
}

/// The words of `s` joined by single spaces.
pub open spec fn collapse(s: Seq<char>) -> Seq<char> {
    join(words(s), seq![' '])
}

/// The words of `s` (`str::split_whitespace`).
pub fn split_words(s: &[char]) -> (r: Vec<Vec<char>>)
    ensures
        r@.map_values(|v: Vec<char>| v@) == words(s@),
{
    let mut done: Vec<Vec<char>> = Vec::new();
    let mut current: Vec<char> = Vec::new();
    let mut in_word = false;
    let mut i: usize = 0;
    while i < s.len()
        invariant
            i <= s@.len(),
            in_word == (i > 0 && !is_ws(s@[i - 1])),
            !in_word ==> done@.map_values(|v: Vec<char>| v@) == words(s@.subrange(0, i as int)),
            in_word ==> done@.map_values(|v: Vec<char>| v@).push(current@) == words(
                s@.subrange(0, i as int),
            ),
        decreases s@.len() - i,
    {
        let c = s[i];
        let ghost pre = s@.subrange(0, i as int);
        let ghost next = s@.subrange(0, i + 1);
        assert(next.drop_last() =~= pre);
        assert(next.last() == c);
        let ghost before = done@.map_values(|v: Vec<char>| v@);
        if char_is_whitespace(c) {
            if in_word {
                let word = current;
                current = Vec::new();
                done.push(word);
                assert(done@.map_values(|v: Vec<char>| v@) =~= before.push(word@));
            }
            in_word = false;
        } else {
            if in_word {
                assert(next[next.len() - 2] == s@[i - 1]);
                let ghost w = words(pre);
                assert(w =~= before.push(current@));
                current.push(c);
                assert(w.update(w.len() - 1, w.last().push(c)) =~= before.push(current@));
            } else {
                current = Vec::new();
                current.push(c);
                if i > 0 {
                    assert(next[next.len() - 2] == s@[i - 1]);
                }
                assert(current@ =~= seq![c]);
            }
            in_word = true;
        }
        i = i + 1;
    }
    assert(s@.subrange(0, s@.len() as int) =~= s@);
    if in_word {
        let ghost before = done@.map_values(|v: Vec<char>| v@);
        done.push(current);
        assert(done@.map_values(|v: Vec<char>| v@) =~= before.push(current@));
    }
    done
}

/// The words of `text` joined by single spaces.
pub fn collapse_chars(text: &[char]) -> (r: Vec<char>)
    ensures
        r@ == collapse(text@),
{
    let words = split_words(text);
    let space: Vec<char> = vec![' '];
    assert(space@ =~= seq![' ']);
    join_chars(&words, space.as_slice())
}

/// The words of `text` joined by single spaces.
pub fn collapse_whitespace(text: &str) -> (r: String)
    ensures
        r@ == collapse(text@),
{
    let chars = chars_of(text);
    let collapsed = collapse_chars(chars.as_slice());
    string_of(collapsed.as_slice())
}

/// A character-count limit applied to one line of text: over the limit it keeps
/// `limit - 1` characters (none when `limit` is 0) and appends "...".
pub open spec fn truncated(s: Seq<char>, limit: nat) -> Seq<char> {
    if s.len() <= limit {
        s
    } else {
        s.subrange(0, if limit == 0 { 0 } else { limit - 1 }) + seq!['.', '.', '.']
    }
}

/// Collapses whitespace, then shortens the line to `limit` characters.
pub open spec fn truncate_line_spec(value: Seq<char>, limit: nat) -> Seq<char> {
    truncated(collapse(value), limit)
}

/// Collapses whitespace, then cuts the line to at most `limit - 1` characters
/// followed by "..." when it is longer than `limit`.
pub fn truncate_line(value: &str, limit: usize) -> (r: String)
    ensures
        r@ == truncate_line_spec(value@, limit as nat),
{
    let chars = chars_of(value);
    let normalized = collapse_chars(chars.as_slice());
    if normalized.len() <= limit {
        return string_of(normalized.as_slice());
    }
    let keep = limit.saturating_sub(1);
    let mut out = copy_range(normalized.as_slice(), 0, keep);
    out.push('.');
    out.push('.');
    out.push('.');
    assert(out@ =~= normalized@.subrange(0, keep as int) + seq!['.', '.', '.']);
    string_of(out.as_slice())
}

/// Whitespace in `s` only separates: each whitespace character is a ' '
/// strictly inside `s`, between two characters that are not whitespace.
spec fn tidy(s: Seq<char>) -> bool {
    forall|i: int|
        0 <= i < s.len() && is_ws(#[trigger] s[i]) ==> s[i] == ' ' && 0 < i < s.len() - 1 && !is_ws(s[i - 1])
            && !is_ws(s[i + 1])
}

/// Every word is non-empty and holds no whitespace; a text that ends in a
/// non-whitespace character has a word.
proof fn lemma_words_clean(s: Seq<char>)
    ensures
        forall|k: int|
            0 <= k < words(s).len() ==> (#[trigger] words(s)[k]).len() > 0 && forall|j: int|
                0 <= j < words(s)[k].len() ==> !is_ws(#[trigger] words(s)[k][j]),
        s.len() > 0 && !is_ws(s.last()) ==> words(s).len() > 0,
    decreases s.len(),
{
    if s.len() > 0 {
        let sp = s.drop_last();
        lemma_words_clean(sp);
        let w = words(sp);
        let c = s.last();
        if is_ws(c) {
        } else if s.len() >= 2 && !is_ws(s[s.len() - 2]) {
            assert(sp.last() == s[s.len() - 2]);
            let nw = w.update(w.len() - 1, w.last().push(c));
            assert(words(s) == nw);
            assert forall|k: int| 0 <= k < nw.len() implies (#[trigger] nw[k]).len() > 0 && forall|j: int|
                0 <= j < nw[k].len() ==> !is_ws(#[trigger] nw[k][j]) by {
                if k < w.len() - 1 {
                    assert(nw[k] == w[k]);
                } else {
                    assert(nw[k] == w[w.len() - 1].push(c));
                    assert forall|j: int| 0 <= j < nw[k].len() implies !is_ws(#[trigger] nw[k][j]) by {
                        if j < w[w.len() - 1].len() {
                            assert(nw[k][j] == w[w.len() - 1][j]);
                        }
                    }
                }
            }
        } else {
            let nw = w.push(seq![c]);
            assert(words(s) == nw);
            assert forall|k: int| 0 <= k < nw.len() implies (#[trigger] nw[k]).len() > 0 && forall|j: int|
                0 <= j < nw[k].len() ==> !is_ws(#[trigger] nw[k][j]) by {
                if k < w.len() {
                    assert(nw[k] == w[k]);
                }
            }
        }
    }
}

/// Joining clean words with single spaces gives a tidy text, non-empty when
/// there is a word.
proof fn lemma_join_tidy(ws: Seq<Seq<char>>)
    requires
        forall|k: int|
            0 <= k < ws.len() ==> (#[trigger] ws[k]).len() > 0 && forall|j: int|
                0 <= j < ws[k].len() ==> !is_ws(#[trigger] ws[k][j]),
    ensures
        tidy(join(ws, seq![' '])),
        ws.len() > 0 ==> join(ws, seq![' ']).len() > 0,
    decreases ws.len(),
{
    if ws.len() == 1 {
        assert(join(ws, seq![' ']) == ws[0]);
    } else if ws.len() >= 2 {
        let d = ws.drop_last();
        let l = ws.last();
        assert forall|k: int| 0 <= k < d.len() implies (#[trigger] d[k]).len() > 0 && forall|j: int|
            0 <= j < d[k].len() ==> !is_ws(#[trigger] d[k][j]) by {
            assert(d[k] == ws[k]);
        }
        lemma_join_tidy(d);
        let jd = join(d, seq![' ']);
        let jj = join(ws, seq![' ']);
        assert(jj == jd + seq![' '] + l);
        let n = jd.len() as int;
        assert(!is_ws(jd[n - 1]));
        assert(l.len() > 0 && !is_ws(l[0])) by {
            assert(ws[ws.len() - 1] == l);
        }
        assert forall|i: int| 0 <= i < jj.len() && is_ws(#[trigger] jj[i]) implies jj[i] == ' ' && 0 < i < jj.len()
            - 1 && !is_ws(jj[i - 1]) && !is_ws(jj[i + 1]) by {
            if i < n {
                assert(jj[i] == jd[i]);
                assert(i < n - 1);
                assert(jj[i - 1] == jd[i - 1]);
                assert(jj[i + 1] == jd[i + 1]);
            } else if i == n {
                assert(jj[i - 1] == jd[n - 1]);
                assert(jj[i + 1] == l[0]);
            } else {
                assert(jj[i] == l[i - n - 1]);
                assert(ws[ws.len() - 1] == l);
            }
        }
    }
}

/// Adding a character to the last part adds it to the end of the join.
proof fn lemma_join_extend_last(parts: Seq<Seq<char>>, c: char, sep: Seq<char>)
    requires
        parts.len() > 0,
    ensures
        join(parts.update(parts.len() - 1, parts.last().push(c)), sep) == join(parts, sep).push(c),
{
    let u = parts.update(parts.len() - 1, parts.last().push(c));
    if parts.len() >= 2 {
        assert(u.drop_last() =~= parts.drop_last());
        assert(u.last() == parts.last().push(c));
        assert(join(u, sep) =~= join(parts, sep).push(c));
    }
}

/// Collapsing a tidy text gives it back.
proof fn lemma_tidy_collapse(s: Seq<char>)
    requires
        tidy(s),
    ensures
        collapse(s) == s,
    decreases s.len(),
{
    if s.len() == 0 {
        assert(collapse(s) =~= s);
    } else {
        let n = s.len() as int;
        let c = s.last();
        assert(!is_ws(s[n - 1]));
        let sp = s.drop_last();
        if n == 1 {
            assert(words(sp) =~= Seq::<Seq<char>>::empty());
            assert(words(s) =~= seq![seq![c]]);
            assert(collapse(s) =~= s);
        } else if !is_ws(s[n - 2]) {
            assert forall|i: int| 0 <= i < sp.len() && is_ws(#[trigger] sp[i]) implies sp[i] == ' ' && 0 < i
                < sp.len() - 1 && !is_ws(sp[i - 1]) && !is_ws(sp[i + 1]) by {
                assert(sp[i] == s[i]);
                assert(is_ws(s[i]));
                assert(i != n - 2);
            }
            lemma_tidy_collapse(sp);
            lemma_words_clean(sp);
            assert(sp.last() == s[n - 2]);
            let w = words(sp);
            assert(words(s) == w.update(w.len() - 1, w.last().push(c)));
            lemma_join_extend_last(w, c, seq![' ']);
            assert(collapse(s) =~= s);
        } else {
            assert(s[n - 2] == ' ' && n >= 3 && !is_ws(s[n - 3]));
            let spp = sp.drop_last();
            assert(sp.last() == s[n - 2]);
            assert(words(sp) == words(spp));
            assert forall|i: int| 0 <= i < spp.len() && is_ws(#[trigger] spp[i]) implies spp[i] == ' ' && 0 < i
                < spp.len() - 1 && !is_ws(spp[i - 1]) && !is_ws(spp[i + 1]) by {
                assert(spp[i] == s[i]);
                assert(is_ws(s[i]));
                assert(i != n - 3);
            }
            lemma_tidy_collapse(spp);
            lemma_words_clean(spp);
            assert(spp.last() == s[n - 3]);
            let w = words(spp);
            assert(words(s) == w.push(seq![c]));
            assert(w.push(seq![c]).drop_last() =~= w);
            assert(collapse(s) == join(w, seq![' ']) + seq![' '] + seq![c]);
            assert(collapse(s) =~= s);
        }
    }
}

/// Shortening a line twice shortens it once: `truncate_line` is idempotent.
/// Its result has at most `limit + 2` characters, and at most 3 when `limit`
/// is 0.
pub proof fn lemma_truncate_line_stable(value: Seq<char>, limit: nat)
    ensures
        truncate_line_spec(truncate_line_spec(value, limit), limit) == truncate_line_spec(value, limit),
        truncate_line_spec(value, limit).len() <= (if limit >= 1 {
            limit + 2
        } else {
            3
        }),
{
    let c = collapse(value);
    lemma_words_clean(value);
    lemma_join_tidy(words(value));
    let r = truncated(c, limit);
    if c.len() <= limit {
        lemma_tidy_collapse(c);
    } else {
        let k: int = if limit == 0 {
            0
        } else {
            limit - 1
        };
        let dots = seq!['.', '.', '.'];
        assert(r == c.subrange(0, k) + dots);
        assert(!is_ws('.')) by {
            reveal(is_ws);
        }
        assert forall|i: int| 0 <= i < r.len() && is_ws(#[trigger] r[i]) implies r[i] == ' ' && 0 < i < r.len() - 1
            && !is_ws(r[i - 1]) && !is_ws(r[i + 1]) by {
            if i < k {
                assert(r[i] == c[i]);
                assert(is_ws(c[i]));
                assert(r[i - 1] == c[i - 1]);
                if i + 1 < k {
                    assert(r[i + 1] == c[i + 1]);
                } else {
                    assert(r[i + 1] == '.');
                }
            } else {
                assert(r[i] == '.');
            }
        }
        lemma_tidy_collapse(r);
        assert(r.subrange(0, k) =~= c.subrange(0, k));
        assert(truncated(r, limit) =~= r);
    }
}

/// `a` followed by `b`.
pub fn concat2(a: &str, b: &str) -> (r: String)
    ensures
        r@ == a@ + b@,
{
    let mut v = chars_of(a);
    let w = chars_of(b);
    extend_chars(&mut v, w.as_slice());
    string_of(v.as_slice())
}

/// `a`, then `b`, then `c`.
pub fn concat3(a: &str, b: &str, c: &str) -> (r: String)
    ensures
        r@ == a@ + b@ + c@,
{
    let ab = concat2(a, b);
    concat2(ab.as_str(), c)
}

/// The decimal digit for `d < 10`.
pub open spec fn digit_char(d: nat) -> char {
    ((d + 48) as u32) as char
}

/// Decimal digits of a natural number, without leading zeros ("0" for zero).
pub open spec fn digits(n: nat) -> Seq<char>
    decreases n,
{
    if n < 10 {
        seq![digit_char(n)]
    } else {
        digits(n / 10) + seq![digit_char(n % 10)]
    }
}

/// Decimal text of an integer, as `Display` writes it: a leading '-' for
/// negatives, then the digits.
pub open spec fn decimal(n: int) -> Seq<char> {
    if n < 0 {
        seq!['-'] + digits((-n) as nat)
    } else {
        digits(n as nat)
    }
}

/// Decimal digits of `n`.
fn digits_of(n: u128) -> (r: Vec<char>)
    ensures
        r@ == digits(n as nat),
    decreases n,
{
    if n < 10 {
        let c = char_from_u32_ascii((n as u32) + 48);
        let mut r = Vec::new();
        r.push(c);
        assert(r@ =~= seq![digit_char(n as nat)]);
        r
    } else {
        let mut r = digits_of(n / 10);
        let d = (n % 10) as u32;
        let c = char_from_u32_ascii(d + 48);
        r.push(c);
        r
    }
}

/// Decimal text of an integer (`i64`'s `Display`).
pub fn decimal_of(n: i64) -> (r: String)
    ensures
        r@ == decimal(n as int),
{
    let wide: i128 = n as i128;
    if wide < 0 {
        let mut v: Vec<char> = Vec::new();
        v.push('-');
        let d = digits_of((-wide) as u128);
        extend_chars(&mut v, d.as_slice());
        string_of(v.as_slice())
    } else {
        let d = digits_of(wide as u128);
        string_of(d.as_slice())
    }
}

/// Decimal text of a count (`usize`'s `Display`).
pub fn decimal_of_usize(n: usize) -> (r: String)
    ensures
        r@ == decimal(n as int),
{
    let d = digits_of(n as u128);
    string_of(d.as_slice())
}

/// Whether two character sequences are equal.
pub fn same_chars(a: &[char], b: &[char]) -> (r: bool)
    ensures
        r == (a@ == b@),
{
    if a.len() != b.len() {
        return false;
    }
    let r = has_at(a, b, 0);
    assert(r == (a@ == b@)) by {
        assert(a@.subrange(0, b@.len() as int) =~= a@);
    }
    r
}

/// `s` without its leading whitespace.
pub open spec fn trim_start(s: Seq<char>) -> Seq<char>
    decreases s.len(),
{
    if s.len() > 0 && is_ws(s[0]) {
        trim_start(s.drop_first())
    } else {
        s
    }
}

/// `s` without its trailing whitespace.
pub open spec fn trim_end(s: Seq<char>) -> Seq<char>
    decreases s.len(),
{
    if s.len() > 0 && is_ws(s.last()) {
        trim_end(s.drop_last())
    } else {
        s
    }
}

/// `s` without leading and trailing whitespace (`str::trim`).
pub open spec fn trim(s: Seq<char>) -> Seq<char> {
    trim_end(trim_start(s))
}

/// `str::trim` on characters.
pub fn trim_chars(s: &[char]) -> (r: Vec<char>)
    ensures
        r@ == trim(s@),
{
    let mut a: usize = 0;
    assert(s@.subrange(0, s@.len() as int) =~= s@);
    while a < s.len() && char_is_whitespace(s[a])
        invariant
            a <= s@.len(),
            trim_start(s@) == trim_start(s@.subrange(a as int, s@.len() as int)),
        decreases s@.len() - a,
    {
        assert(s@.subrange(a as int, s@.len() as int).drop_first() =~= s@.subrange(
            a + 1,
            s@.len() as int,
        ));
        a = a + 1;
    }
    let ghost front = s@.subrange(a as int, s@.len() as int);
    assert(trim_start(s@) == front);
    let mut b: usize = s.len();
    assert(front.subrange(0, (b - a) as int) =~= front);
    while b > a && char_is_whitespace(s[b - 1])
        invariant
            a <= b <= s@.len(),
            front == s@.subrange(a as int, s@.len() as int),
            trim_end(front) == trim_end(s@.subrange(a as int, b as int)),
        decreases b,
    {
        assert(s@.subrange(a as int, b as int).drop_last() =~= s@.subrange(a as int, b - 1));
        b = b - 1;
    }
    copy_range(s, a, b)
}

/// `str::trim` on a string slice.
pub fn trim_str(s: &str) -> (r: String)
    ensures
        r@ == trim(s@),
{
    let chars = chars_of(s);
    string_of(trim_chars(chars.as_slice()).as_slice())
}

/// One line of `str::lines` before its terminator: a trailing carriage
/// return is dropped.
pub open spec fn strip_cr(s: Seq<char>) -> Seq<char> {
    if s.len() > 0 && s.last() == '\r' {
        s.drop_last()
    } else {
        s
    }
}

/// The lines of `s` (`str::lines`): split at '\n', a "\r\n" ending counts as
/// one terminator, and a final empty piece is not a line.
pub open spec fn lines(s: Seq<char>) -> Seq<Seq<char>> {
    let pieces = split(s, seq!['\n']);
    let n = pieces.len();
    let body = Seq::new((n - 1) as nat, |i: int| strip_cr(pieces[i]));
    if pieces.last().len() == 0 {
        body
    } else {
        body.push(pieces.last())
    }
}

/// Splitting leaves at most one more piece than characters, counting the
/// length of the last piece.
pub proof fn lemma_split_len(s: Seq<char>, sep: Seq<char>)
    requires
        sep.len() > 0,
    ensures
        split(s, sep).len() >= 1,
        split(s, sep).len() + split(s, sep).last().len() <= s.len() + 1,
    decreases s.len(),
{
    let i = first_from(s, sep, 0);
    if i >= 0 {
        lemma_first_from(s, sep, 0);
        let rest = s.subrange(i + sep.len(), s.len() as int);
        lemma_split_len(rest, sep);
        assert((seq![s.subrange(0, i)] + split(rest, sep)).last() == split(rest, sep).last());
    }
}

/// A text has at most as many lines as characters.
pub proof fn lemma_lines_len(s: Seq<char>)
    ensures
        lines(s).len() <= s.len(),
{
    lemma_split_len(s, seq!['\n']);
}

/// The lines of a text (`str::lines`).
pub fn lines_of(s: &[char]) -> (r: Vec<Vec<char>>)
    ensures
        r@.map_values(|v: Vec<char>| v@) == lines(s@),
{
    let nl: Vec<char> = vec!['\n'];
    assert(nl@ =~= seq!['\n']);
    let pieces = split_chars(s, nl.as_slice());
    let ghost pv = pieces@.map_values(|v: Vec<char>| v@);
    proof {
        lemma_split_len(s@, nl@);
    }
    let n = pieces.len();
    let mut r: Vec<Vec<char>> = Vec::new();
    let mut i: usize = 0;
    while i + 1 < n
        invariant
            n == pieces@.len(),
            n >= 1,
            pv == pieces@.map_values(|v: Vec<char>| v@),
            i < n,
            r@.map_values(|v: Vec<char>| v@) == Seq::new(i as nat, |k: int| strip_cr(pv[k])),
        decreases n - i,
    {
        let piece = &pieces[i];
        let line = if piece.len() > 0 && piece[piece.len() - 1] == '\r' {
            copy_range(piece.as_slice(), 0, piece.len() - 1)
        } else {
            copy_range(piece.as_slice(), 0, piece.len())
        };
        assert(pv[i as int] == piece@);
        assert(piece@.subrange(0, piece@.len() as int) =~= piece@);
        assert(piece@.drop_last() =~= piece@.subrange(0, piece@.len() - 1));
        assert(line@ == strip_cr(pv[i as int]));
        let ghost before = r@.map_values(|v: Vec<char>| v@);
        let ghost lv = line@;
        r.push(line);
        assert(r@.map_values(|v: Vec<char>| v@) =~= before.push(lv));
        assert(before.push(lv) =~= Seq::new((i + 1) as nat, |k: int| strip_cr(pv[k])));
        i = i + 1;
    }
    let last = &pieces[n - 1];
    assert(pv.last() == last@);
    if last.len() > 0 {
        let ghost before = r@.map_values(|v: Vec<char>| v@);
        r.push(copy_range(last.as_slice(), 0, last.len()));
        assert(last@.subrange(0, last@.len() as int) =~= last@);
        assert(r@.map_values(|v: Vec<char>| v@) =~= before.push(pv.last()));
    }
    r
}

/// Every `from` character replaced by `to` (`str::replace` with characters).
pub open spec fn replace_char(s: Seq<char>, from: char, to: char) -> Seq<char> {
    s.map_values(|c: char| if c == from { to } else { c })
}

/// Replaces every `from` character by `to`.
pub fn replace_chars(s: &[char], from: char, to: char) -> (r: Vec<char>)
    ensures
        r@ == replace_char(s@, from, to),
{
    let mut r: Vec<char> = Vec::new();
    let mut i: usize = 0;
    while i < s.len()
        invariant
            i <= s@.len(),
            r@ == replace_char(s@.subrange(0, i as int), from, to),
        decreases s@.len() - i,
    {
        let c = s[i];
        r.push(if c == from { to } else { c });
        assert(replace_char(s@.subrange(0, i + 1), from, to) =~= replace_char(
            s@.subrange(0, i as int),
            from,
            to,
        ).push(if c == from { to } else { c }));
        i = i + 1;
    }
    assert(s@.subrange(0, s@.len() as int) =~= s@);
    r
}

/// Lexicographic order of character sequences. UTF-8 keeps the order of code
/// points, so this is the order of `String`'s `Ord` (byte-wise comparison).
pub open spec fn seq_lt(a: Seq<char>, b: Seq<char>) -> bool
    decreases a.len(),
{
    if a.len() == 0 {
        b.len() > 0
    } else if b.len() == 0 {
        false
    } else if a[0] != b[0] {
        a[0] < b[0]
    } else {
        seq_lt(a.drop_first(), b.drop_first())
    }
}

/// The lexicographic order is a strict total order.
pub proof fn lemma_seq_lt_order(a: Seq<char>, b: Seq<char>)
    ensures
        !seq_lt(a, a),
        !(seq_lt(a, b) && seq_lt(b, a)),
        a != b ==> seq_lt(a, b) || seq_lt(b, a),
    decreases a.len(),
{
    if a.len() > 0 {
        lemma_seq_lt_order(a.drop_first(), a.drop_first());
        if b.len() > 0 && a[0] == b[0] {
            lemma_seq_lt_order(a.drop_first(), b.drop_first());
            if a != b {
                assert(a =~= seq![a[0]] + a.drop_first());
                assert(b =~= seq![b[0]] + b.drop_first());
            }
        }
    } else {
        if b.len() == 0 {
            assert(a =~= b);
        }
    }
}

/// The lexicographic order is transitive.
pub proof fn lemma_seq_lt_trans(a: Seq<char>, b: Seq<char>, c: Seq<char>)
    requires
        seq_lt(a, b),
        seq_lt(b, c),
    ensures
        seq_lt(a, c),
    decreases a.len(),
{
    if a.len() > 0 && b.len() > 0 && c.len() > 0 && a[0] == b[0] && b[0] == c[0] {
        lemma_seq_lt_trans(a.drop_first(), b.drop_first(), c.drop_first());
    }
}

/// Whether `a` comes before `b` in lexicographic order.
pub fn chars_lt(a: &[char], b: &[char]) -> (r: bool)
    ensures
        r == seq_lt(a@, b@),
{
    let mut i: usize = 0;
    assert(a@.subrange(0, a@.len() as int) =~= a@);
    assert(b@.subrange(0, b@.len() as int) =~= b@);
    while i < a.len() && i < b.len() && a[i] == b[i]
        invariant
            i <= a@.len(),
            i <= b@.len(),
            seq_lt(a@, b@) == seq_lt(
                a@.subrange(i as int, a@.len() as int),
                b@.subrange(i as int, b@.len() as int),
            ),
        decreases a@.len() - i,
    {
        assert(a@.subrange(i as int, a@.len() as int).drop_first() =~= a@.subrange(
            i + 1,
            a@.len() as int,
        ));
        assert(b@.subrange(i as int, b@.len() as int).drop_first() =~= b@.subrange(
            i + 1,
            b@.len() as int,
        ));
        i = i + 1;
    }
    if i == a.len() {
        i < b.len()
    } else if i == b.len() {
        false
    } else {
        a[i] < b[i]
    }
}

/// The value of a run of decimal digits.
pub open spec fn digits_value(s: Seq<char>) -> int
    decreases s.len(),
{
    if s.len() == 0 {
        0
    } else {
        digits_value(s.drop_last()) * 10 + ((s.last() as u32) - 48)
    }
}

/// Whether `s` is a non-empty run of ASCII digits.
pub open spec fn all_digits(s: Seq<char>) -> bool {
    s.len() > 0 && forall|i: int| 0 <= i < s.len() ==> '0' <= #[trigger] s[i] && s[i] <= '9'
}

/// `str::parse::<i64>`: an optional sign, then one or more ASCII digits, with
/// a value in range.
pub open spec fn parse_i64_spec(s: Seq<char>) -> Option<i64> {
    let neg = s.len() > 0 && s[0] == '-';
    let body = if s.len() > 0 && (s[0] == '-' || s[0] == '+') {
        s.drop_first()
    } else {
        s
    };
    let v = if neg {
        -digits_value(body)
    } else {
        digits_value(body)
    };
    if all_digits(body) && i64::MIN <= v && v <= i64::MAX {
        Some(v as i64)
    } else {
        None
    }
}

/// Digits appended never make the value smaller.
proof fn lemma_digits_grow(s: Seq<char>, j: int)
    requires
        0 <= j <= s.len(),
        forall|i: int| 0 <= i < s.len() ==> '0' <= #[trigger] s[i] && s[i] <= '9',
    ensures
        digits_value(s.subrange(0, j)) <= digits_value(s),
        digits_value(s) >= 0,
    decreases s.len(),
{
    if s.len() > 0 {
        assert forall|i: int| 0 <= i < s.drop_last().len() implies '0' <= #[trigger] s.drop_last()[i]
            && s.drop_last()[i] <= '9' by {
            assert(s.drop_last()[i] == s[i]);
        }
        if j < s.len() {
            lemma_digits_grow(s.drop_last(), j);
            assert(s.drop_last().subrange(0, j) =~= s.subrange(0, j));
        } else {
            lemma_digits_grow(s.drop_last(), 0);
            assert(s.subrange(0, j) =~= s);
        }
    }
}

/// Parses a decimal `i64` (`str::parse::<i64>`).
pub fn parse_i64(s: &[char]) -> (r: Option<i64>)
    ensures
        r == parse_i64_spec(s@),
{
    let neg = s.len() > 0 && s[0] == '-';
    let start: usize = if s.len() > 0 && (s[0] == '-' || s[0] == '+') {
        1
    } else {
        0
    };
    let ghost body = s@.subrange(start as int, s@.len() as int);
    assert(start == 1 ==> body =~= s@.drop_first());
    assert(start == 0 ==> body =~= s@);
    if start == s.len() {
        assert(body.len() == 0);
        assert(!all_digits(body));
        return None;
    }
    let limit: i128 = 9223372036854775808;
    let mut acc: i128 = 0;
    let mut over = false;
    let mut i: usize = start;
    assert(body.subrange(0, 0) =~= Seq::<char>::empty());
    while i < s.len()
        invariant
            start <= i <= s@.len(),
            start == (if s@.len() > 0 && (s@[0] == '-' || s@[0] == '+') {
                1int
            } else {
                0int
            }),
            start == 1 ==> body == s@.drop_first(),
            start == 0 ==> body == s@,
            body == s@.subrange(start as int, s@.len() as int),
            limit == 9223372036854775808,
            forall|k: int| 0 <= k < i - start ==> '0' <= #[trigger] body[k] && body[k] <= '9',
            !over ==> acc == digits_value(body.subrange(0, i - start)) && 0 <= acc <= limit,
            over ==> digits_value(body.subrange(0, i - start)) > limit,
        decreases s@.len() - i,
    {
        let c = s[i];
        if c < '0' || c > '9' {
            assert(body[i - start] == c);
            assert(!all_digits(body));
            return None;
        }
        let ghost pre = body.subrange(0, i - start);
        let ghost next = body.subrange(0, i + 1 - start);
        assert(next.drop_last() =~= pre);
        assert(next.last() == c);
        proof {
            assert forall|k: int| 0 <= k < pre.len() implies '0' <= #[trigger] pre[k] && pre[k] <= '9' by {
                assert(pre[k] == body[k]);
            }
            lemma_digits_grow(pre, 0);
        }
        if !over {
            let d = ((c as u32) - 48) as i128;
            acc = acc * 10 + d;
            if acc > limit {
                over = true;
            }
        }
        i = i + 1;
    }
    assert(body.subrange(0, body.len() as int) =~= body);
    assert(all_digits(body));
    if over {
        return None;
    }
    if neg {
        Some((-acc) as i64)
    } else if acc < limit {
        Some(acc as i64)
    } else {
        None
    }
}

} // verus!
