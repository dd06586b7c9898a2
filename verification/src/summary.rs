//! Rules-based one-line summaries of symbols and files.

use vstd::prelude::*;

use crate::model::{symbol_kind_name, SymbolKind, SymbolRecord};
use crate::text::{
    chars_of, concat2, contains, decimal, decimal_of_usize, join, join_chars, lines, lines_of,
    seq_contains, string_of, trim, trim_chars,
};

verus! {

/// The trimmed non-empty parts among the first `n`, in order.
pub open spec fn kept_parts(parts: Seq<Seq<char>>, n: nat) -> Seq<Seq<char>>
    decreases n,
{
    if n == 0 {
        Seq::empty()
    } else {
        let prev = kept_parts(parts, (n - 1) as nat);
        let t = trim(parts[n - 1]);
        if t.len() == 0 {
            prev
        } else {
            prev.push(t)
        }
    }
}

/// The trimmed non-empty parts joined with "; ".
pub open spec fn summarize_spec(parts: Seq<Seq<char>>) -> Seq<char> {
    join(kept_parts(parts, parts.len()), "; "@)
}

/// Joins the trimmed non-empty parts with "; ".
pub fn summarize(parts: &Vec<String>) -> (r: String)
    ensures
        r@ == summarize_spec(parts@.map_values(|p: String| p@)),
{
    let ghost pv = parts@.map_values(|p: String| p@);
    let mut kept: Vec<Vec<char>> = Vec::new();
    let mut i: usize = 0;
    while i < parts.len()
        invariant
            i <= parts@.len(),
            pv == parts@.map_values(|p: String| p@),
            kept@.map_values(|v: Vec<char>| v@) == kept_parts(pv, i as nat),
        decreases parts@.len() - i,
    {
        assert(pv[i as int] == parts@[i as int]@);
        let t = trim_chars(chars_of(parts[i].as_str()).as_slice());
        if t.len() > 0 {
            let ghost before = kept@.map_values(|v: Vec<char>| v@);
            let ghost tv = t@;
            kept.push(t);
            assert(kept@.map_values(|v: Vec<char>| v@) =~= before.push(tv));
        }
        i = i + 1;
    }
    let sep = chars_of("; ");
    string_of(join_chars(&kept, sep.as_slice()).as_slice())
}

/// The first line of a text, empty when there is none.
pub open spec fn first_line(s: Seq<char>) -> Seq<char> {
    if lines(s).len() > 0 {
        lines(s)[0]
    } else {
        Seq::empty()
    }
}

/// The summary parts of a symbol given as plain values: kind and name, then
/// the async, test, return-type, method and first-doc-line notes that apply.
pub open spec fn symbol_parts_of(
    kind: SymbolKind,
    name: Seq<char>,
    is_async: bool,
    is_test: bool,
    return_type: Option<Seq<char>>,
    signature: Option<Seq<char>>,
    docs: Option<Seq<char>>,
) -> Seq<Seq<char>> {
    let head = seq![symbol_kind_name(kind) + " "@ + name];
    let a = if is_async { seq!["async"@] } else { Seq::empty() };
    let t = if is_test { seq!["test"@] } else { Seq::empty() };
    let r = match return_type {
        Some(rt) => if seq_contains(rt, "Result"@) {
            seq!["returns Result"@]
        } else {
            seq!["returns "@ + rt]
        },
        None => Seq::empty(),
    };
    let m = match signature {
        Some(sig) => if seq_contains(sig, "&self"@) || seq_contains(sig, "&mut self"@)
            || seq_contains(sig, " self"@) {
            seq!["method-like"@]
        } else {
            Seq::empty()
        },
        None => Seq::empty(),
    };
    let d = match docs {
        Some(d) => if trim(first_line(d)).len() > 0 {
            seq![trim(first_line(d))]
        } else {
            Seq::empty()
        },
        None => Seq::empty(),
    };
    head + a + t + r + m + d
}

/// The summary parts of a symbol record.
pub open spec fn symbol_parts(s: SymbolRecord) -> Seq<Seq<char>> {
    symbol_parts_of(
        s.kind,
        s.name@,
        s.is_async,
        s.is_test,
        crate::derived::opt_view(s.return_type),
        crate::derived::opt_view(s.signature),
        crate::derived::opt_view(s.docs),
    )
}

/// Appends a string, tracking views.
fn push_part(parts: &mut Vec<String>, p: String)
    ensures
        final(parts)@.map_values(|x: String| x@) == old(parts)@.map_values(|x: String| x@).push(p@),
{
    let ghost before = parts@.map_values(|x: String| x@);
    let ghost pv = p@;
    parts.push(p);
    assert(parts@.map_values(|x: String| x@) =~= before.push(pv));
}

/// A rules-based summary of a symbol.
pub fn summarize_symbol(symbol: &SymbolRecord) -> (r: String)
    ensures
        r@ == summarize_spec(symbol_parts(*symbol)),
{
    let mut parts: Vec<String> = Vec::new();
    let head = concat2(symbol.kind.as_str(), concat2(" ", symbol.name.as_str()).as_str());
    let ghost s = *symbol;
    assert(head@ =~= symbol_kind_name(s.kind) + " "@ + s.name@);
    assert(parts@.map_values(|x: String| x@) =~= Seq::<Seq<char>>::empty());
    push_part(&mut parts, head);
    let ghost h = seq![symbol_kind_name(s.kind) + " "@ + s.name@];
    assert(parts@.map_values(|x: String| x@) =~= h);
    if symbol.is_async {
        push_part(&mut parts, "async".to_owned());
    }
    let ghost a = if s.is_async { seq!["async"@] } else { Seq::<Seq<char>>::empty() };
    assert(parts@.map_values(|x: String| x@) =~= h + a);
    if symbol.is_test {
        push_part(&mut parts, "test".to_owned());
    }
    let ghost t = if s.is_test { seq!["test"@] } else { Seq::<Seq<char>>::empty() };
    assert(parts@.map_values(|x: String| x@) =~= h + a + t);
    let ghost r = match s.return_type {
        Some(rt) => if seq_contains(rt@, "Result"@) {
            seq!["returns Result"@]
        } else {
            seq!["returns "@ + rt@]
        },
        None => Seq::<Seq<char>>::empty(),
    };
    match &symbol.return_type {
        Some(rt) => {
            if contains(chars_of(rt.as_str()).as_slice(), chars_of("Result").as_slice()) {
                push_part(&mut parts, "returns Result".to_owned());
            } else {
                push_part(&mut parts, concat2("returns ", rt.as_str()));
            }
        },
        None => {},
    }
    assert(parts@.map_values(|x: String| x@) =~= h + a + t + r);
    let ghost m = match s.signature {
        Some(sig) => if seq_contains(sig@, "&self"@) || seq_contains(sig@, "&mut self"@)
            || seq_contains(sig@, " self"@) {
            seq!["method-like"@]
        } else {
            Seq::<Seq<char>>::empty()
        },
        None => Seq::<Seq<char>>::empty(),
    };
    match &symbol.signature {
        Some(sig) => {
            let sc = chars_of(sig.as_str());
            if contains(sc.as_slice(), chars_of("&self").as_slice()) || contains(
                sc.as_slice(),
                chars_of("&mut self").as_slice(),
            ) || contains(sc.as_slice(), chars_of(" self").as_slice()) {
                push_part(&mut parts, "method-like".to_owned());
            }
        },
        None => {},
    }
    assert(parts@.map_values(|x: String| x@) =~= h + a + t + r + m);
    let ghost d = match s.docs {
        Some(docs) => if trim(first_line(docs@)).len() > 0 {
            seq![trim(first_line(docs@))]
        } else {
            Seq::<Seq<char>>::empty()
        },
        None => Seq::<Seq<char>>::empty(),
    };
    match &symbol.docs {
        Some(docs) => {
            let ls = lines_of(chars_of(docs.as_str()).as_slice());
            let empty: Vec<char> = Vec::new();
            let first: Vec<char> = if ls.len() > 0 {
                assert(ls@.map_values(|v: Vec<char>| v@)[0] == ls@[0]@);
                trim_chars(ls[0].as_slice())
            } else {
                trim_chars(empty.as_slice())
            };
            assert(first@ == trim(first_line(docs@))) by {
                if ls@.len() == 0 {
                    assert(empty@ =~= Seq::<char>::empty());
                }
            }
            if first.len() > 0 {
                push_part(&mut parts, string_of(first.as_slice()));
            }
        },
        None => {},
    }
    assert(parts@.map_values(|x: String| x@) =~= h + a + t + r + m + d);
    summarize(&parts)
}

/// The symbol kinds in the order of their names.
pub open spec fn kinds_by_name() -> Seq<SymbolKind> {
    seq![
        SymbolKind::Const,
        SymbolKind::Enum,
        SymbolKind::Function,
        SymbolKind::Impl,
        SymbolKind::Module,
        SymbolKind::Static,
        SymbolKind::Struct,
        SymbolKind::Trait,
        SymbolKind::TypeAlias,
    ]
}

/// Position of a kind in `kinds_by_name`.
pub open spec fn kind_rank(k: SymbolKind) -> int {
    match k {
        SymbolKind::Const => 0,
        SymbolKind::Enum => 1,
        SymbolKind::Function => 2,
        SymbolKind::Impl => 3,
        SymbolKind::Module => 4,
        SymbolKind::Static => 5,
        SymbolKind::Struct => 6,
        SymbolKind::Trait => 7,
        SymbolKind::TypeAlias => 8,
    }
}

/// How many of the first `n` symbols have kind `k`.
pub open spec fn kind_count(symbols: Seq<SymbolRecord>, k: SymbolKind, n: nat) -> nat
    decreases n,
{
    if n == 0 {
        0
    } else {
        kind_count(symbols, k, (n - 1) as nat) + if symbols[n - 1].kind == k {
            1nat
        } else {
            0nat
        }
    }
}

/// "count kind" for the first `n` kinds by name that occur.
pub open spec fn distribution(symbols: Seq<SymbolRecord>, n: nat) -> Seq<Seq<char>>
    decreases n,
{
    if n == 0 {
        Seq::empty()
    } else {
        let prev = distribution(symbols, (n - 1) as nat);
        let k = kinds_by_name()[n - 1];
        let c = kind_count(symbols, k, symbols.len());
        if c > 0 {
            prev.push(decimal(c as int) + " "@ + symbol_kind_name(k))
        } else {
            prev
        }
    }
}

/// Whether some symbol satisfies `f`.
pub open spec fn any_symbol(symbols: Seq<SymbolRecord>, f: spec_fn(SymbolRecord) -> bool) -> bool {
    exists|i: int| 0 <= i < symbols.len() && f(#[trigger] symbols[i])
}

/// The summary parts of a file: crate, module, kind counts, then notes on
/// async code, tests, traits and impl blocks.
pub open spec fn file_parts(
    crate_name: Option<Seq<char>>,
    mod_path: Option<Seq<char>>,
    symbols: Seq<SymbolRecord>,
) -> Seq<Seq<char>> {
    let c = match crate_name {
        Some(n) => seq!["crate "@ + n],
        None => Seq::empty(),
    };
    let m = match mod_path {
        Some(p) => seq!["module "@ + p],
        None => Seq::empty(),
    };
    let d = if symbols.len() > 0 {
        seq!["contains "@ + join(distribution(symbols, 9), ", "@)]
    } else {
        Seq::empty()
    };
    let a = if any_symbol(symbols, |s: SymbolRecord| s.is_async) {
        seq!["includes async code"@]
    } else {
        Seq::empty()
    };
    let t = if any_symbol(symbols, |s: SymbolRecord| s.is_test) {
        seq!["contains tests"@]
    } else {
        Seq::empty()
    };
    let tr = if any_symbol(symbols, |s: SymbolRecord| s.kind == SymbolKind::Trait) {
        seq!["defines trait contracts"@]
    } else {
        Seq::empty()
    };
    let im = if any_symbol(symbols, |s: SymbolRecord| s.kind == SymbolKind::Impl) {
        seq!["implements behavior blocks"@]
    } else {
        Seq::empty()
    };
    c + m + d + a + t + tr + im
}

/// The view of an optional string slice.
pub open spec fn opt_str(s: Option<&str>) -> Option<Seq<char>> {
    match s {
        Some(t) => Some(t@),
        None => None,
    }
}

/// Position of a kind in `kinds_by_name`.
fn rank_of(k: SymbolKind) -> (r: usize)
    ensures
        r as int == kind_rank(k),
        kinds_by_name()[r as int] == k,
        r < 9,
{
    match k {
        SymbolKind::Const => 0,
        SymbolKind::Enum => 1,
        SymbolKind::Function => 2,
        SymbolKind::Impl => 3,
        SymbolKind::Module => 4,
        SymbolKind::Static => 5,
        SymbolKind::Struct => 6,
        SymbolKind::Trait => 7,
        SymbolKind::TypeAlias => 8,
    }
}

/// The kind at a position of `kinds_by_name`.
fn kind_at(r: usize) -> (k: SymbolKind)
    requires
        r < 9,
    ensures
        k == kinds_by_name()[r as int],
{
    if r == 0 {
        SymbolKind::Const
    } else if r == 1 {
        SymbolKind::Enum
    } else if r == 2 {
        SymbolKind::Function
    } else if r == 3 {
        SymbolKind::Impl
    } else if r == 4 {
        SymbolKind::Module
    } else if r == 5 {
        SymbolKind::Static
    } else if r == 6 {
        SymbolKind::Struct
    } else if r == 7 {
        SymbolKind::Trait
    } else {
        SymbolKind::TypeAlias
    }
}

/// A rules-based summary of a file.
pub fn summarize_file(
    crate_name: Option<&str>,
    mod_path: Option<&str>,
    symbols: &[SymbolRecord],
) -> (r: String)
    ensures
        r@ == summarize_spec(file_parts(opt_str(crate_name), opt_str(mod_path), symbols@)),
{
    let mut counts: Vec<usize> = vec![0, 0, 0, 0, 0, 0, 0, 0, 0];
    let mut has_async = false;
    let mut has_tests = false;
    let mut has_impl = false;
    let mut has_traits = false;
    let mut i: usize = 0;
    while i < symbols.len()
        invariant
            i <= symbols@.len(),
            counts@.len() == 9,
            forall|r: int| 0 <= r < 9 ==> counts@[r] == kind_count(symbols@, kinds_by_name()[r], i as nat),
            forall|r: int| 0 <= r < 9 ==> counts@[r] <= i,
            has_async == exists|q: int| 0 <= q < i && (#[trigger] symbols@[q]).is_async,
            has_tests == exists|q: int| 0 <= q < i && (#[trigger] symbols@[q]).is_test,
            has_impl == exists|q: int| 0 <= q < i && (#[trigger] symbols@[q]).kind == SymbolKind::Impl,
            has_traits == exists|q: int| 0 <= q < i && (#[trigger] symbols@[q]).kind == SymbolKind::Trait,
        decreases symbols@.len() - i,
    {
        let s = &symbols[i];
        let r = rank_of(s.kind);
        let c = counts[r];
        counts.set(r, c + 1);
        has_async = has_async || s.is_async;
        has_tests = has_tests || s.is_test;
        has_impl = has_impl || s.kind == SymbolKind::Impl;
        has_traits = has_traits || s.kind == SymbolKind::Trait;
        assert forall|q: int| 0 <= q < 9 implies counts@[q] == kind_count(
            symbols@,
            kinds_by_name()[q],
            (i + 1) as nat,
        ) by {
            if q != r {
                assert(kinds_by_name()[q] != s.kind) by {
                    assert(kind_rank(kinds_by_name()[q]) == q);
                }
            }
        }
        i = i + 1;
    }
    let mut parts: Vec<String> = Vec::new();
    assert(parts@.map_values(|x: String| x@) =~= Seq::<Seq<char>>::empty());
    let ghost cn = opt_str(crate_name);
    let ghost mp = opt_str(mod_path);
    let ghost sy = symbols@;
    match crate_name {
        Some(c) => push_part(&mut parts, concat2("crate ", c)),
        None => {},
    }
    let ghost gc = match cn {
        Some(n) => seq!["crate "@ + n],
        None => Seq::<Seq<char>>::empty(),
    };
    assert(parts@.map_values(|x: String| x@) =~= gc);
    match mod_path {
        Some(m) => push_part(&mut parts, concat2("module ", m)),
        None => {},
    }
    let ghost gm = match mp {
        Some(p) => seq!["module "@ + p],
        None => Seq::<Seq<char>>::empty(),
    };
    assert(parts@.map_values(|x: String| x@) =~= gc + gm);
    if symbols.len() > 0 {
        let mut dist: Vec<Vec<char>> = Vec::new();
        let mut r: usize = 0;
        assert(dist@.map_values(|v: Vec<char>| v@) =~= distribution(sy, 0));
        while r < 9
            invariant
                r <= 9,
                counts@.len() == 9,
                sy == symbols@,
                forall|q: int| 0 <= q < 9 ==> counts@[q] == kind_count(sy, kinds_by_name()[q], sy.len()),
                dist@.map_values(|v: Vec<char>| v@) == distribution(sy, r as nat),
            decreases 9 - r,
        {
            let k = kind_at(r);
            if counts[r] > 0 {
                let entry = concat2(decimal_of_usize(counts[r]).as_str(), concat2(" ", k.as_str()).as_str());
                let ghost before = dist@.map_values(|v: Vec<char>| v@);
                let e = chars_of(entry.as_str());
                let ghost ev = e@;
                dist.push(e);
                assert(ev =~= decimal(counts@[r as int] as int) + " "@ + symbol_kind_name(k));
                assert(dist@.map_values(|v: Vec<char>| v@) =~= before.push(ev));
            }
            r = r + 1;
        }
        let joined = join_chars(&dist, chars_of(", ").as_slice());
        push_part(&mut parts, concat2("contains ", string_of(joined.as_slice()).as_str()));
    }
    let ghost gd = if sy.len() > 0 {
        seq!["contains "@ + join(distribution(sy, 9), ", "@)]
    } else {
        Seq::<Seq<char>>::empty()
    };
    assert(parts@.map_values(|x: String| x@) =~= gc + gm + gd);
    if has_async {
        push_part(&mut parts, "includes async code".to_owned());
    }
    if has_tests {
        push_part(&mut parts, "contains tests".to_owned());
    }
    if has_traits {
        push_part(&mut parts, "defines trait contracts".to_owned());
    }
    if has_impl {
        push_part(&mut parts, "implements behavior blocks".to_owned());
    }
    proof {
        let fa = |s: SymbolRecord| s.is_async;
        let ft = |s: SymbolRecord| s.is_test;
        let ftr = |s: SymbolRecord| s.kind == SymbolKind::Trait;
        let fim = |s: SymbolRecord| s.kind == SymbolKind::Impl;
        assert(has_async == any_symbol(sy, fa)) by {
            if has_async {
                let q = choose|q: int| 0 <= q < sy.len() && (#[trigger] sy[q]).is_async;
                assert(fa(sy[q]));
            }
        }
        assert(has_tests == any_symbol(sy, ft)) by {
            if has_tests {
                let q = choose|q: int| 0 <= q < sy.len() && (#[trigger] sy[q]).is_test;
                assert(ft(sy[q]));
            }
        }
        assert(has_traits == any_symbol(sy, ftr)) by {
            if has_traits {
                let q = choose|q: int| 0 <= q < sy.len() && (#[trigger] sy[q]).kind == SymbolKind::Trait;
                assert(ftr(sy[q]));
            }
        }
        assert(has_impl == any_symbol(sy, fim)) by {
            if has_impl {
                let q = choose|q: int| 0 <= q < sy.len() && (#[trigger] sy[q]).kind == SymbolKind::Impl;
                assert(fim(sy[q]));
            }
        }
    }
    assert(parts@.map_values(|x: String| x@) =~= file_parts(cn, mp, sy));
    summarize(&parts)
}


/// Whether two symbol lists agree, place by place, on kind, async and test
/// flags: all a file summary reads.
pub open spec fn same_shape(a: Seq<SymbolRecord>, b: Seq<SymbolRecord>) -> bool {
    &&& a.len() == b.len()
    &&& forall|i: int|
        0 <= i < a.len() ==> (#[trigger] a[i]).kind == b[i].kind && a[i].is_async == b[i].is_async
            && a[i].is_test == b[i].is_test
}

proof fn lemma_kind_count_shape(a: Seq<SymbolRecord>, b: Seq<SymbolRecord>, k: SymbolKind, n: nat)
    requires
        same_shape(a, b),
        n <= a.len(),
    ensures
        kind_count(a, k, n) == kind_count(b, k, n),
    decreases n,
{
    if n > 0 {
        lemma_kind_count_shape(a, b, k, (n - 1) as nat);
        assert(a[n - 1].kind == b[n - 1].kind);
    }
}

proof fn lemma_distribution_shape(a: Seq<SymbolRecord>, b: Seq<SymbolRecord>, n: nat)
    requires
        same_shape(a, b),
    ensures
        distribution(a, n) == distribution(b, n),
    decreases n,
{
    if n > 0 {
        lemma_distribution_shape(a, b, (n - 1) as nat);
        lemma_kind_count_shape(a, b, kinds_by_name()[n - 1], a.len());
    }
}

/// A file summary reads only the kinds and the async and test flags of the
/// symbols.
pub proof fn lemma_file_parts_shape(
    crate_name: Option<Seq<char>>,
    mod_path: Option<Seq<char>>,
    a: Seq<SymbolRecord>,
    b: Seq<SymbolRecord>,
)
    requires
        same_shape(a, b),
    ensures
        file_parts(crate_name, mod_path, a) == file_parts(crate_name, mod_path, b),
{
    lemma_distribution_shape(a, b, 9);
    assert(any_symbol(a, |s: SymbolRecord| s.is_async) == any_symbol(b, |s: SymbolRecord| s.is_async)) by {
        if any_symbol(a, |s: SymbolRecord| s.is_async) {
            let i = choose|i: int| 0 <= i < a.len() && (|s: SymbolRecord| s.is_async)(#[trigger] a[i]);
            assert((|s: SymbolRecord| s.is_async)(b[i]));
        }
        if any_symbol(b, |s: SymbolRecord| s.is_async) {
            let i = choose|i: int| 0 <= i < b.len() && (|s: SymbolRecord| s.is_async)(#[trigger] b[i]);
            assert((|s: SymbolRecord| s.is_async)(a[i]));
        }
    }
    assert(any_symbol(a, |s: SymbolRecord| s.is_test) == any_symbol(b, |s: SymbolRecord| s.is_test)) by {
        if any_symbol(a, |s: SymbolRecord| s.is_test) {
            let i = choose|i: int| 0 <= i < a.len() && (|s: SymbolRecord| s.is_test)(#[trigger] a[i]);
            assert((|s: SymbolRecord| s.is_test)(b[i]));
        }
        if any_symbol(b, |s: SymbolRecord| s.is_test) {
            let i = choose|i: int| 0 <= i < b.len() && (|s: SymbolRecord| s.is_test)(#[trigger] b[i]);
            assert((|s: SymbolRecord| s.is_test)(a[i]));
        }
    }
    assert(any_symbol(a, |s: SymbolRecord| s.kind == SymbolKind::Trait) == any_symbol(
        b,
        |s: SymbolRecord| s.kind == SymbolKind::Trait,
    )) by {
        if any_symbol(a, |s: SymbolRecord| s.kind == SymbolKind::Trait) {
            let i = choose|i: int|
                0 <= i < a.len() && (|s: SymbolRecord| s.kind == SymbolKind::Trait)(#[trigger] a[i]);
            assert((|s: SymbolRecord| s.kind == SymbolKind::Trait)(b[i]));
        }
        if any_symbol(b, |s: SymbolRecord| s.kind == SymbolKind::Trait) {
            let i = choose|i: int|
                0 <= i < b.len() && (|s: SymbolRecord| s.kind == SymbolKind::Trait)(#[trigger] b[i]);
            assert((|s: SymbolRecord| s.kind == SymbolKind::Trait)(a[i]));
        }
    }
    assert(any_symbol(a, |s: SymbolRecord| s.kind == SymbolKind::Impl) == any_symbol(
        b,
        |s: SymbolRecord| s.kind == SymbolKind::Impl,
    )) by {
        if any_symbol(a, |s: SymbolRecord| s.kind == SymbolKind::Impl) {
            let i = choose|i: int|
                0 <= i < a.len() && (|s: SymbolRecord| s.kind == SymbolKind::Impl)(#[trigger] a[i]);
            assert((|s: SymbolRecord| s.kind == SymbolKind::Impl)(b[i]));
        }
        if any_symbol(b, |s: SymbolRecord| s.kind == SymbolKind::Impl) {
            let i = choose|i: int|
                0 <= i < b.len() && (|s: SymbolRecord| s.kind == SymbolKind::Impl)(#[trigger] b[i]);
            assert((|s: SymbolRecord| s.kind == SymbolKind::Impl)(a[i]));
        }
    }
}

/// `kind_count` reads only the first `n` symbols.
proof fn lemma_kind_count_prefix(a: Seq<SymbolRecord>, b: Seq<SymbolRecord>, k: SymbolKind, n: nat)
    requires
        n <= a.len(),
        n <= b.len(),
        forall|i: int| 0 <= i < n ==> a[i] == b[i],
    ensures
        kind_count(a, k, n) == kind_count(b, k, n),
    decreases n,
{
    if n > 0 {
        lemma_kind_count_prefix(a, b, k, (n - 1) as nat);
    }
}

/// The count of a kind is the size of the symbols' multiset cut to that kind.
proof fn lemma_kind_count_multiset(s: Seq<SymbolRecord>, k: SymbolKind)
    ensures
        kind_count(s, k, s.len()) == s.to_multiset().filter(|r: SymbolRecord| r.kind == k).len(),
    decreases s.len(),
{
    broadcast use vstd::multiset::group_multiset_axioms, vstd::multiset::group_multiset_properties;

    let f = |r: SymbolRecord| r.kind == k;
    if s.len() == 0 {
        s.to_multiset_ensures();
        assert(s.to_multiset() =~= vstd::multiset::Multiset::empty());
        assert(s.to_multiset().filter(f) =~= vstd::multiset::Multiset::empty());
    } else {
        let sp = s.drop_last();
        let x = s.last();
        lemma_kind_count_multiset(sp, k);
        lemma_kind_count_prefix(s, sp, k, sp.len());
        sp.to_multiset_ensures();
        assert(sp.push(x) =~= s);
        assert(s.to_multiset() =~= sp.to_multiset().insert(x));
        if x.kind == k {
            assert(s.to_multiset().filter(f) =~= sp.to_multiset().filter(f).insert(x));
        } else {
            assert(s.to_multiset().filter(f) =~= sp.to_multiset().filter(f));
        }
    }
}

/// Every symbol of `a` is somewhere in `b` when their multisets are equal.
proof fn lemma_member_moves(a: Seq<SymbolRecord>, b: Seq<SymbolRecord>, i: int)
    requires
        a.to_multiset() == b.to_multiset(),
        0 <= i < a.len(),
    ensures
        exists|j: int| 0 <= j < b.len() && b[j] == a[i],
{
    a.to_multiset_ensures();
    b.to_multiset_ensures();
    assert(a.contains(a[i]));
    assert(a.to_multiset().count(a[i]) > 0);
    assert(b.to_multiset().count(a[i]) > 0);
    assert(b.contains(a[i]));
}

proof fn lemma_distribution_permutation(a: Seq<SymbolRecord>, b: Seq<SymbolRecord>, n: nat)
    requires
        a.to_multiset() == b.to_multiset(),
    ensures
        distribution(a, n) == distribution(b, n),
    decreases n,
{
    if n > 0 {
        lemma_distribution_permutation(a, b, (n - 1) as nat);
        lemma_kind_count_multiset(a, kinds_by_name()[n - 1]);
        lemma_kind_count_multiset(b, kinds_by_name()[n - 1]);
    }
}

/// A file summary does not depend on the order of the symbols: two lists
/// holding the same symbols, each as often, give the same parts.
pub proof fn lemma_file_parts_permutation(
    crate_name: Option<Seq<char>>,
    mod_path: Option<Seq<char>>,
    a: Seq<SymbolRecord>,
    b: Seq<SymbolRecord>,
)
    requires
        a.to_multiset() == b.to_multiset(),
    ensures
        file_parts(crate_name, mod_path, a) == file_parts(crate_name, mod_path, b),
{
    a.to_multiset_ensures();
    b.to_multiset_ensures();
    assert(a.len() == b.len());
    lemma_distribution_permutation(a, b, 9);
    assert(any_symbol(a, |s: SymbolRecord| s.is_async) == any_symbol(b, |s: SymbolRecord| s.is_async)) by {
        if any_symbol(a, |s: SymbolRecord| s.is_async) {
            let i = choose|i: int| 0 <= i < a.len() && (|s: SymbolRecord| s.is_async)(#[trigger] a[i]);
            lemma_member_moves(a, b, i);
            let j = choose|j: int| 0 <= j < b.len() && b[j] == a[i];
            assert((|s: SymbolRecord| s.is_async)(b[j]));
        }
        if any_symbol(b, |s: SymbolRecord| s.is_async) {
            let i = choose|i: int| 0 <= i < b.len() && (|s: SymbolRecord| s.is_async)(#[trigger] b[i]);
            lemma_member_moves(b, a, i);
            let j = choose|j: int| 0 <= j < a.len() && a[j] == b[i];
            assert((|s: SymbolRecord| s.is_async)(a[j]));
        }
    }
    assert(any_symbol(a, |s: SymbolRecord| s.is_test) == any_symbol(b, |s: SymbolRecord| s.is_test)) by {
        if any_symbol(a, |s: SymbolRecord| s.is_test) {
            let i = choose|i: int| 0 <= i < a.len() && (|s: SymbolRecord| s.is_test)(#[trigger] a[i]);
            lemma_member_moves(a, b, i);
            let j = choose|j: int| 0 <= j < b.len() && b[j] == a[i];
            assert((|s: SymbolRecord| s.is_test)(b[j]));
        }
        if any_symbol(b, |s: SymbolRecord| s.is_test) {
            let i = choose|i: int| 0 <= i < b.len() && (|s: SymbolRecord| s.is_test)(#[trigger] b[i]);
            lemma_member_moves(b, a, i);
            let j = choose|j: int| 0 <= j < a.len() && a[j] == b[i];
            assert((|s: SymbolRecord| s.is_test)(a[j]));
        }
    }
    assert(any_symbol(a, |s: SymbolRecord| s.kind == SymbolKind::Trait) == any_symbol(
        b,
        |s: SymbolRecord| s.kind == SymbolKind::Trait,
    )) by {
        if any_symbol(a, |s: SymbolRecord| s.kind == SymbolKind::Trait) {
            let i = choose|i: int|
                0 <= i < a.len() && (|s: SymbolRecord| s.kind == SymbolKind::Trait)(#[trigger] a[i]);
            lemma_member_moves(a, b, i);
            let j = choose|j: int| 0 <= j < b.len() && b[j] == a[i];
            assert((|s: SymbolRecord| s.kind == SymbolKind::Trait)(b[j]));
        }
        if any_symbol(b, |s: SymbolRecord| s.kind == SymbolKind::Trait) {
            let i = choose|i: int|
                0 <= i < b.len() && (|s: SymbolRecord| s.kind == SymbolKind::Trait)(#[trigger] b[i]);
            lemma_member_moves(b, a, i);
            let j = choose|j: int| 0 <= j < a.len() && a[j] == b[i];
            assert((|s: SymbolRecord| s.kind == SymbolKind::Trait)(a[j]));
        }
    }
    assert(any_symbol(a, |s: SymbolRecord| s.kind == SymbolKind::Impl) == any_symbol(
        b,
        |s: SymbolRecord| s.kind == SymbolKind::Impl,
    )) by {
        if any_symbol(a, |s: SymbolRecord| s.kind == SymbolKind::Impl) {
            let i = choose|i: int|
                0 <= i < a.len() && (|s: SymbolRecord| s.kind == SymbolKind::Impl)(#[trigger] a[i]);
            lemma_member_moves(a, b, i);
            let j = choose|j: int| 0 <= j < b.len() && b[j] == a[i];
            assert((|s: SymbolRecord| s.kind == SymbolKind::Impl)(b[j]));
        }
        if any_symbol(b, |s: SymbolRecord| s.kind == SymbolKind::Impl) {
            let i = choose|i: int|
                0 <= i < b.len() && (|s: SymbolRecord| s.kind == SymbolKind::Impl)(#[trigger] b[i]);
            lemma_member_moves(b, a, i);
            let j = choose|j: int| 0 <= j < a.len() && a[j] == b[i];
            assert((|s: SymbolRecord| s.kind == SymbolKind::Impl)(a[j]));
        }
    }
}

} // verus!
