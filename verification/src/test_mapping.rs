//! Symbol-to-test and file-to-test mappings derived from names, imports,
//! module layout and git co-change counts.
//!
//! Weights are in half points (the persisted score is half the weight).

use vstd::prelude::*;

use crate::compactor::{byte_len, string_views};
use crate::derived::{
    file_stem, file_stem_spec, is_test_path, is_test_path_spec, file_by_id, find_file, is_test_symbol, is_test_symbol_spec, lemma_file_index,
    lemma_split_nonempty, lookup_cochange, lookup_cochange_spec, normalize_name,
    normalize_name_spec, opt_view, same_module_family, same_module_family_spec, CochangePair,
    FileImport, FileInfo, SymbolInfo,
};
use crate::text::{
    chars_of, concat2, concat3, contains, decimal, decimal_of, ends_with, same_chars,
    seq_contains, seq_ends_with, split, split_chars, string_of,
};

verus! {

/// One weighted reason for linking a subject to a test.
#[derive(Debug, Clone)]
pub struct Contribution {
    pub subject_id: i64,
    pub weight: i128,
    pub reason: String,
}

/// Plain view of a contribution.
pub type ContribView = (i64, int, Seq<char>);

/// The view of a contribution.
pub open spec fn contrib_view(c: Contribution) -> ContribView {
    (c.subject_id, c.weight as int, c.reason@)
}

/// Views of a list of contributions.
pub open spec fn contrib_views(v: Seq<Contribution>) -> Seq<ContribView> {
    v.map_values(|c: Contribution| contrib_view(c))
}

/// Contributions of the first `n` symbols under `f`, in order.
pub open spec fn over_symbols(
    symbols: Seq<SymbolInfo>,
    n: nat,
    f: spec_fn(SymbolInfo) -> Seq<ContribView>,
) -> Seq<ContribView>
    decreases n,
{
    if n == 0 {
        Seq::empty()
    } else {
        over_symbols(symbols, (n - 1) as nat, f) + f(symbols[n - 1])
    }
}

/// Contributions of the first `n` imports under `g`, in order.
pub open spec fn over_imports(
    imports: Seq<FileImport>,
    n: nat,
    g: spec_fn(FileImport) -> Seq<ContribView>,
) -> Seq<ContribView>
    decreases n,
{
    if n == 0 {
        Seq::empty()
    } else {
        over_imports(imports, (n - 1) as nat, g) + g(imports[n - 1])
    }
}

/// Same-file symbols of a test, other than itself and other tests.
pub open spec fn same_file_reason(t: SymbolInfo, files: Seq<FileInfo>) -> spec_fn(SymbolInfo) -> Seq<
    ContribView,
> {
    |s: SymbolInfo|
        if s.file_id == t.file_id && s.id != t.id && !is_test_symbol_spec(s, files) {
            seq![(s.id, 56int, "same file test module"@)]
        } else {
            Seq::empty()
        }
}

/// Non-test symbols whose normalized name, three bytes or longer, occurs in
/// the test's normalized name.
pub open spec fn name_hint_reason(t: SymbolInfo, files: Seq<FileInfo>) -> spec_fn(SymbolInfo) -> Seq<
    ContribView,
> {
    |s: SymbolInfo|
        {
            let key = normalize_name_spec(s.name@);
            if !is_test_symbol_spec(s, files) && byte_len(key) >= 3 && seq_contains(
                normalize_name_spec(t.name@),
                key,
            ) {
                seq![(s.id, 96int, "test name mentions "@ + s.name@)]
            } else {
                Seq::empty()
            }
        }
}

/// The normalized last `::` segment of an import path.
pub open spec fn import_tail(path: Seq<char>) -> Seq<char> {
    normalize_name_spec(split(path, "::"@).last())
}

/// Non-test symbols whose normalized name is the import's normalized tail.
pub open spec fn import_tail_reason(imp: FileImport, files: Seq<FileInfo>) -> spec_fn(
    SymbolInfo,
) -> Seq<ContribView> {
    |s: SymbolInfo|
        if !is_test_symbol_spec(s, files) && normalize_name_spec(s.name@) == import_tail(
            imp.import_path@,
        ) {
            seq![(s.id, 52int, "test imports "@ + s.name@)]
        } else {
            Seq::empty()
        }
}

/// Whether an import path names a symbol.
pub open spec fn import_refers_to(path: Seq<char>, s: SymbolInfo) -> bool {
    seq_ends_with(path, s.qualname@) || seq_ends_with(path, s.name@) || seq_contains(path, s.name@)
}

/// Non-test symbols that an import path refers to.
pub open spec fn import_path_reason(imp: FileImport, files: Seq<FileInfo>) -> spec_fn(
    SymbolInfo,
) -> Seq<ContribView> {
    |s: SymbolInfo|
        if !is_test_symbol_spec(s, files) && import_refers_to(imp.import_path@, s) {
            seq![(s.id, 36int, "import path references "@ + s.name@)]
        } else {
            Seq::empty()
        }
}

/// Reasons from one import of the test's file.
pub open spec fn import_reasons(
    t: SymbolInfo,
    symbols: Seq<SymbolInfo>,
    files: Seq<FileInfo>,
) -> spec_fn(FileImport) -> Seq<ContribView> {
    |imp: FileImport|
        if imp.file_id == t.file_id {
            over_symbols(symbols, symbols.len(), import_tail_reason(imp, files)) + over_symbols(
                symbols,
                symbols.len(),
                import_path_reason(imp, files),
            )
        } else {
            Seq::empty()
        }
}

/// The co-change weight: 2.5 points per co-change, at most 12 counted.
pub open spec fn cochange_weight(count: i64) -> int {
    5 * (if count < 12 { count as int } else { 12 })
}

/// Non-test symbols of known files in the test's crate and module family,
/// and those whose file co-changed with the test's file.
pub open spec fn layout_reason(
    t: SymbolInfo,
    tf: FileInfo,
    files: Seq<FileInfo>,
    cochange: Seq<CochangePair>,
) -> spec_fn(SymbolInfo) -> Seq<ContribView> {
    |s: SymbolInfo|
        if is_test_symbol_spec(s, files) {
            Seq::empty()
        } else {
            match file_by_id(files, s.file_id) {
                None => Seq::empty(),
                Some(sf) => (if opt_view(tf.crate_name) == opt_view(sf.crate_name)
                    && same_module_family_spec(opt_view(tf.mod_path), opt_view(sf.mod_path)) {
                    seq![(s.id, 32int, "same crate test module"@)]
                } else {
                    Seq::empty()
                }) + match lookup_cochange_spec(cochange, t.file_id, s.file_id) {
                    Some(c) => seq![
                        (s.id, cochange_weight(c), "cochanged "@ + decimal(c as int) + " times"@),
                    ],
                    None => Seq::empty(),
                },
            }
        }
}

/// Every weighted reason linking symbols to the test `t`, in the order they
/// are gathered: same file, name hints, imports, crate layout and co-change.
pub open spec fn test_contributions(
    t: SymbolInfo,
    tf: FileInfo,
    symbols: Seq<SymbolInfo>,
    files: Seq<FileInfo>,
    imports: Seq<FileImport>,
    cochange: Seq<CochangePair>,
) -> Seq<ContribView> {
    over_symbols(symbols, symbols.len(), same_file_reason(t, files)) + (if normalize_name_spec(
        t.name@,
    ).len() == 0 {
        Seq::empty()
    } else {
        over_symbols(symbols, symbols.len(), name_hint_reason(t, files))
    }) + over_imports(imports, imports.len(), import_reasons(t, symbols, files)) + over_symbols(
        symbols,
        symbols.len(),
        layout_reason(t, tf, files, cochange),
    )
}

/// Addition held within the range of `i128`.
pub open spec fn sat_add(a: int, b: int) -> int {
    if a + b > i128::MAX {
        i128::MAX as int
    } else if a + b < i128::MIN {
        i128::MIN as int
    } else {
        a + b
    }
}

/// The summed weight of the contributions for subject `k`.
pub open spec fn score_for(stream: Seq<ContribView>, k: i64) -> int
    decreases stream.len(),
{
    if stream.len() == 0 {
        0
    } else if stream.last().0 == k {
        sat_add(score_for(stream.drop_last(), k), stream.last().1)
    } else {
        score_for(stream.drop_last(), k)
    }
}

/// The reasons of the contributions for subject `k`, in order.
pub open spec fn reasons_for(stream: Seq<ContribView>, k: i64) -> Seq<Seq<char>>
    decreases stream.len(),
{
    if stream.len() == 0 {
        Seq::empty()
    } else if stream.last().0 == k {
        reasons_for(stream.drop_last(), k).push(stream.last().2)
    } else {
        reasons_for(stream.drop_last(), k)
    }
}

/// Whether some contribution concerns subject `k`.
pub open spec fn mentions(stream: Seq<ContribView>, k: i64) -> bool {
    exists|i: int| 0 <= i < stream.len() && #[trigger] stream[i].0 == k
}

/// Weight, in half points, that a mapping needs to be kept (12 points).
pub open spec fn symbol_edge_threshold() -> int {
    48
}

/// The mappings of one test: every mentioned subject whose summed weight
/// reaches the threshold, with its weight and reasons.
pub open spec fn edges_of_test(test_id: i64, stream: Seq<ContribView>) -> Map<
    (i64, i64),
    (int, Seq<Seq<char>>),
> {
    Map::new(
        |p: (i64, i64)|
            p.1 == test_id && mentions(stream, p.0) && score_for(stream, p.0)
                >= symbol_edge_threshold(),
        |p: (i64, i64)| (score_for(stream, p.0), reasons_for(stream, p.0)),
    )
}

/// The symbol-to-test mappings found for the first `n` symbols that are tests
/// with a known file; a later test with the same ids replaces an earlier one.
pub open spec fn symbol_test_map(
    symbols: Seq<SymbolInfo>,
    files: Seq<FileInfo>,
    imports: Seq<FileImport>,
    cochange: Seq<CochangePair>,
    n: nat,
) -> Map<(i64, i64), (int, Seq<Seq<char>>)>
    decreases n,
{
    if n == 0 {
        Map::empty()
    } else {
        let prev = symbol_test_map(symbols, files, imports, cochange, (n - 1) as nat);
        let t = symbols[n - 1];
        if is_test_symbol_spec(t, files) {
            match file_by_id(files, t.file_id) {
                Some(tf) => prev.union_prefer_right(
                    edges_of_test(
                        t.id,
                        test_contributions(t, tf, symbols, files, imports, cochange),
                    ),
                ),
                None => prev,
            }
        } else {
            prev
        }
    }
}

/// A kept mapping from a subject (a symbol or a file) to a test (a test
/// symbol or a test file): its weight in half points and its reasons in the
/// order they were found.
#[derive(Debug, Clone)]
pub struct TestEdge {
    pub subject_id: i64,
    pub test_id: i64,
    pub score: i128,
    pub reasons: Vec<String>,
}

/// Key and value of a mapping.
pub open spec fn edge_entry(e: TestEdge) -> ((i64, i64), (int, Seq<Seq<char>>)) {
    ((e.subject_id, e.test_id), (e.score as int, string_views(e.reasons@)))
}

/// Appends one contribution.
fn push_contribution(out: &mut Vec<Contribution>, subject_id: i64, weight: i128, reason: String)
    ensures
        contrib_views(final(out)@) == contrib_views(old(out)@).push(
            (subject_id, weight as int, reason@),
        ),
{
    let ghost before = out@;
    out.push(Contribution { subject_id, weight, reason });
    proof {
        assert(contrib_views(out@) =~= contrib_views(before).push(
            (subject_id, weight as int, reason@),
        ));
    }
}

/// Unfolds one step of `over_symbols` after a prefix.
proof fn lemma_over_symbols_step(
    start: Seq<ContribView>,
    symbols: Seq<SymbolInfo>,
    i: nat,
    f: spec_fn(SymbolInfo) -> Seq<ContribView>,
)
    requires
        i < symbols.len(),
    ensures
        start + over_symbols(symbols, i + 1, f) == (start + over_symbols(symbols, i, f)) + f(
            symbols[i as int],
        ),
{
    assert(start + over_symbols(symbols, i + 1, f) =~= (start + over_symbols(symbols, i, f)) + f(
        symbols[i as int],
    ));
}

/// Same-file reasons of a test.
fn add_same_file(
    t: &SymbolInfo,
    symbols: &Vec<SymbolInfo>,
    files: &Vec<FileInfo>,
    out: &mut Vec<Contribution>,
)
    ensures
        contrib_views(final(out)@) == contrib_views(old(out)@) + over_symbols(
            symbols@,
            symbols@.len(),
            same_file_reason(*t, files@),
        ),
{
    let ghost start = contrib_views(out@);
    let ghost f = same_file_reason(*t, files@);
    let mut i: usize = 0;
    while i < symbols.len()
        invariant
            i <= symbols@.len(),
            f == same_file_reason(*t, files@),
            contrib_views(out@) == start + over_symbols(symbols@, i as nat, f),
        decreases symbols@.len() - i,
    {
        let s = &symbols[i];
        proof {
            lemma_over_symbols_step(start, symbols@, i as nat, f);
        }
        if s.file_id == t.file_id && s.id != t.id && !is_test_symbol(s, files) {
            push_contribution(out, s.id, 56, "same file test module".to_owned());
        }
        i = i + 1;
    }
}

/// Name-hint reasons of a test whose normalized name is `norm_test`.
fn add_name_hints(
    t: &SymbolInfo,
    norm_test: &Vec<char>,
    symbols: &Vec<SymbolInfo>,
    files: &Vec<FileInfo>,
    out: &mut Vec<Contribution>,
)
    requires
        norm_test@ == normalize_name_spec(t.name@),
    ensures
        contrib_views(final(out)@) == contrib_views(old(out)@) + over_symbols(
            symbols@,
            symbols@.len(),
            name_hint_reason(*t, files@),
        ),
{
    let ghost start = contrib_views(out@);
    let ghost f = name_hint_reason(*t, files@);
    let mut i: usize = 0;
    while i < symbols.len()
        invariant
            i <= symbols@.len(),
            norm_test@ == normalize_name_spec(t.name@),
            f == name_hint_reason(*t, files@),
            contrib_views(out@) == start + over_symbols(symbols@, i as nat, f),
        decreases symbols@.len() - i,
    {
        let s = &symbols[i];
        proof {
            lemma_over_symbols_step(start, symbols@, i as nat, f);
        }
        if !is_test_symbol(s, files) {
            let key = normalize_name(s.name.as_str());
            if key.as_str().len() >= 3 && contains(
                norm_test.as_slice(),
                chars_of(key.as_str()).as_slice(),
            ) {
                push_contribution(
                    out,
                    s.id,
                    96,
                    concat2("test name mentions ", s.name.as_str()),
                );
            }
        }
        i = i + 1;
    }
}

/// The normalized last `::` segment of an import path.
fn import_tail_of(path: &str) -> (r: String)
    ensures
        r@ == import_tail(path@),
{
    let chars = chars_of(path);
    let sep = chars_of("::");
    proof {
        reveal_strlit("::");
    }
    let parts = split_chars(chars.as_slice(), sep.as_slice());
    proof {
        lemma_split_nonempty(chars@, sep@);
    }
    let last = parts.len() - 1;
    assert(parts@.map_values(|v: Vec<char>| v@).last() == parts@[last as int]@);
    let piece = string_of(parts[last].as_slice());
    normalize_name(piece.as_str())
}

/// Reasons from an import's tail naming a symbol.
fn add_import_tail(
    imp: &FileImport,
    tail: &String,
    symbols: &Vec<SymbolInfo>,
    files: &Vec<FileInfo>,
    out: &mut Vec<Contribution>,
)
    requires
        tail@ == import_tail(imp.import_path@),
    ensures
        contrib_views(final(out)@) == contrib_views(old(out)@) + over_symbols(
            symbols@,
            symbols@.len(),
            import_tail_reason(*imp, files@),
        ),
{
    let ghost start = contrib_views(out@);
    let ghost f = import_tail_reason(*imp, files@);
    let tail_chars = chars_of(tail.as_str());
    let mut i: usize = 0;
    while i < symbols.len()
        invariant
            i <= symbols@.len(),
            tail_chars@ == import_tail(imp.import_path@),
            f == import_tail_reason(*imp, files@),
            contrib_views(out@) == start + over_symbols(symbols@, i as nat, f),
        decreases symbols@.len() - i,
    {
        let s = &symbols[i];
        proof {
            lemma_over_symbols_step(start, symbols@, i as nat, f);
        }
        if !is_test_symbol(s, files) {
            let key = normalize_name(s.name.as_str());
            if same_chars(chars_of(key.as_str()).as_slice(), tail_chars.as_slice()) {
                push_contribution(out, s.id, 52, concat2("test imports ", s.name.as_str()));
            }
        }
        i = i + 1;
    }
}

/// Reasons from an import path naming a symbol.
fn add_import_path(
    imp: &FileImport,
    symbols: &Vec<SymbolInfo>,
    files: &Vec<FileInfo>,
    out: &mut Vec<Contribution>,
)
    ensures
        contrib_views(final(out)@) == contrib_views(old(out)@) + over_symbols(
            symbols@,
            symbols@.len(),
            import_path_reason(*imp, files@),
        ),
{
    let ghost start = contrib_views(out@);
    let ghost f = import_path_reason(*imp, files@);
    let path = chars_of(imp.import_path.as_str());
    let mut i: usize = 0;
    while i < symbols.len()
        invariant
            i <= symbols@.len(),
            path@ == imp.import_path@,
            f == import_path_reason(*imp, files@),
            contrib_views(out@) == start + over_symbols(symbols@, i as nat, f),
        decreases symbols@.len() - i,
    {
        let s = &symbols[i];
        proof {
            lemma_over_symbols_step(start, symbols@, i as nat, f);
        }
        if !is_test_symbol(s, files) {
            let name = chars_of(s.name.as_str());
            if ends_with(path.as_slice(), chars_of(s.qualname.as_str()).as_slice()) || ends_with(
                path.as_slice(),
                name.as_slice(),
            ) || contains(path.as_slice(), name.as_slice()) {
                push_contribution(
                    out,
                    s.id,
                    36,
                    concat2("import path references ", s.name.as_str()),
                );
            }
        }
        i = i + 1;
    }
}

/// Reasons from every import of the test's file.
fn add_imports(
    t: &SymbolInfo,
    symbols: &Vec<SymbolInfo>,
    files: &Vec<FileInfo>,
    imports: &Vec<FileImport>,
    out: &mut Vec<Contribution>,
)
    ensures
        contrib_views(final(out)@) == contrib_views(old(out)@) + over_imports(
            imports@,
            imports@.len(),
            import_reasons(*t, symbols@, files@),
        ),
{
    let ghost start = contrib_views(out@);
    let ghost g = import_reasons(*t, symbols@, files@);
    let mut i: usize = 0;
    while i < imports.len()
        invariant
            i <= imports@.len(),
            g == import_reasons(*t, symbols@, files@),
            contrib_views(out@) == start + over_imports(imports@, i as nat, g),
        decreases imports@.len() - i,
    {
        let imp = &imports[i];
        proof {
            assert(start + over_imports(imports@, (i + 1) as nat, g) =~= (start + over_imports(
                imports@,
                i as nat,
                g,
            )) + g(imports@[i as int]));
        }
        if imp.file_id == t.file_id {
            let ghost mid = contrib_views(out@);
            let tail = import_tail_of(imp.import_path.as_str());
            add_import_tail(imp, &tail, symbols, files, out);
            add_import_path(imp, symbols, files, out);
            proof {
                assert(contrib_views(out@) =~= mid + g(imports@[i as int]));
            }
        }
        i = i + 1;
    }
}

/// Whether two optional texts are equal.
pub fn same_opt_text(a: &Option<String>, b: &Option<String>) -> (r: bool)
    ensures
        r == (opt_view(*a) == opt_view(*b)),
{
    match (a, b) {
        (Some(x), Some(y)) => same_chars(chars_of(x.as_str()).as_slice(), chars_of(y.as_str()).as_slice()),
        (None, None) => true,
        _ => false,
    }
}

/// Crate-layout and co-change reasons of a test in file `tf`.
fn add_layout(
    t: &SymbolInfo,
    tf: &FileInfo,
    symbols: &Vec<SymbolInfo>,
    files: &Vec<FileInfo>,
    cochange: &Vec<CochangePair>,
    out: &mut Vec<Contribution>,
)
    ensures
        contrib_views(final(out)@) == contrib_views(old(out)@) + over_symbols(
            symbols@,
            symbols@.len(),
            layout_reason(*t, *tf, files@, cochange@),
        ),
{
    let ghost start = contrib_views(out@);
    let ghost f = layout_reason(*t, *tf, files@, cochange@);
    let mut i: usize = 0;
    while i < symbols.len()
        invariant
            i <= symbols@.len(),
            f == layout_reason(*t, *tf, files@, cochange@),
            contrib_views(out@) == start + over_symbols(symbols@, i as nat, f),
        decreases symbols@.len() - i,
    {
        let s = &symbols[i];
        proof {
            lemma_over_symbols_step(start, symbols@, i as nat, f);
            lemma_file_index(files@, s.file_id);
        }
        if !is_test_symbol(s, files) {
            match find_file(files, s.file_id) {
                None => {},
                Some(k) => {
                    let sf = &files[k];
                    let ghost mid = contrib_views(out@);
                    if same_opt_text(&tf.crate_name, &sf.crate_name) && same_module_family(
                        &tf.mod_path,
                        &sf.mod_path,
                    ) {
                        push_contribution(out, s.id, 32, "same crate test module".to_owned());
                    }
                    let ghost mid2 = contrib_views(out@);
                    match lookup_cochange(cochange, t.file_id, s.file_id) {
                        None => {},
                        Some(c) => {
                            let capped: i64 = if c < 12 {
                                c
                            } else {
                                12
                            };
                            let text = decimal_of(c);
                            push_contribution(
                                out,
                                s.id,
                                5 * (capped as i128),
                                concat3("cochanged ", text.as_str(), " times"),
                            );
                        },
                    }
                    proof {
                        assert(contrib_views(out@) =~= mid + f(symbols@[i as int]));
                    }
                },
            }
        }
        i = i + 1;
    }
}

/// Every weighted reason linking symbols to one test, in gathering order.
fn collect_contributions(
    t: &SymbolInfo,
    tf: &FileInfo,
    symbols: &Vec<SymbolInfo>,
    files: &Vec<FileInfo>,
    imports: &Vec<FileImport>,
    cochange: &Vec<CochangePair>,
) -> (out: Vec<Contribution>)
    ensures
        contrib_views(out@) == test_contributions(*t, *tf, symbols@, files@, imports@, cochange@),
{
    let mut out: Vec<Contribution> = Vec::new();
    assert(contrib_views(out@) =~= Seq::<ContribView>::empty());
    add_same_file(t, symbols, files, &mut out);
    let ghost a = contrib_views(out@);
    let norm = chars_of(normalize_name(t.name.as_str()).as_str());
    if norm.len() > 0 {
        add_name_hints(t, &norm, symbols, files, &mut out);
    }
    let ghost b = contrib_views(out@);
    add_imports(t, symbols, files, imports, &mut out);
    add_layout(t, tf, symbols, files, cochange, &mut out);
    proof {
        let e = Seq::<ContribView>::empty();
        assert(a =~= e + over_symbols(symbols@, symbols@.len(), same_file_reason(*t, files@)));
        assert(contrib_views(out@) =~= test_contributions(
            *t,
            *tf,
            symbols@,
            files@,
            imports@,
            cochange@,
        ));
    }
    out
}

/// Addition of weights held within `i128`.
fn add_weight(a: i128, b: i128) -> (r: i128)
    ensures
        r == sat_add(a as int, b as int),
{
    match a.checked_add(b) {
        Some(x) => x,
        None => if b > 0 {
            i128::MAX
        } else {
            i128::MIN
        },
    }
}

/// The summed weight for one subject.
fn score_of(stream: &Vec<Contribution>, k: i64) -> (r: i128)
    ensures
        r == score_for(contrib_views(stream@), k),
{
    let ghost views = contrib_views(stream@);
    let mut acc: i128 = 0;
    let mut j: usize = 0;
    assert(views.subrange(0, 0) =~= Seq::<ContribView>::empty());
    while j < stream.len()
        invariant
            j <= stream@.len(),
            views == contrib_views(stream@),
            acc == score_for(views.subrange(0, j as int), k),
        decreases stream@.len() - j,
    {
        assert(views.subrange(0, j + 1).drop_last() =~= views.subrange(0, j as int));
        assert(views[j as int] == contrib_view(stream@[j as int]));
        if stream[j].subject_id == k {
            acc = add_weight(acc, stream[j].weight);
        }
        j = j + 1;
    }
    assert(views.subrange(0, stream@.len() as int) =~= views);
    acc
}

/// The reasons for one subject, in order.
fn reasons_of(stream: &Vec<Contribution>, k: i64) -> (r: Vec<String>)
    ensures
        string_views(r@) == reasons_for(contrib_views(stream@), k),
{
    let ghost views = contrib_views(stream@);
    let mut acc: Vec<String> = Vec::new();
    let mut j: usize = 0;
    assert(views.subrange(0, 0) =~= Seq::<ContribView>::empty());
    assert(string_views(acc@) =~= Seq::<Seq<char>>::empty());
    while j < stream.len()
        invariant
            j <= stream@.len(),
            views == contrib_views(stream@),
            string_views(acc@) == reasons_for(views.subrange(0, j as int), k),
        decreases stream@.len() - j,
    {
        assert(views.subrange(0, j + 1).drop_last() =~= views.subrange(0, j as int));
        assert(views[j as int] == contrib_view(stream@[j as int]));
        if stream[j].subject_id == k {
            let ghost before = acc@;
            acc.push(stream[j].reason.clone());
            assert(string_views(acc@) =~= string_views(before).push(stream@[j as int].reason@));
        }
        j = j + 1;
    }
    assert(views.subrange(0, stream@.len() as int) =~= views);
    acc
}

/// The subjects that the contributions concern, each once.
fn distinct_subjects(stream: &Vec<Contribution>) -> (keys: Vec<i64>)
    ensures
        keys@.no_duplicates(),
        forall|k: i64| keys@.contains(k) <==> mentions(contrib_views(stream@), k),
{
    let ghost views = contrib_views(stream@);
    let mut keys: Vec<i64> = Vec::new();
    let mut j: usize = 0;
    while j < stream.len()
        invariant
            j <= stream@.len(),
            views == contrib_views(stream@),
            keys@.no_duplicates(),
            forall|k: i64|
                keys@.contains(k) <==> exists|i: int| 0 <= i < j && #[trigger] views[i].0 == k,
        decreases stream@.len() - j,
    {
        let k = stream[j].subject_id;
        assert(views[j as int].0 == k);
        let ghost old_keys = keys@;
        let mut found = false;
        let mut m: usize = 0;
        while m < keys.len()
            invariant
                m <= keys@.len(),
                found <==> exists|q: int| 0 <= q < m && keys@[q] == k,
            decreases keys@.len() - m,
        {
            if keys[m] == k {
                found = true;
            }
            m = m + 1;
        }
        assert(found <==> old_keys.contains(k));
        if !found {
            keys.push(k);
        }
        assert forall|x: i64| #[trigger] keys@.contains(x) <==> (old_keys.contains(x) || x == k) by {
            if !found {
                assert(keys@ == old_keys.push(k));
                if old_keys.contains(x) {
                    let q = choose|q: int| 0 <= q < old_keys.len() && old_keys[q] == x;
                    assert(keys@[q] == x);
                }
                if x == k {
                    assert(keys@[old_keys.len() as int] == k);
                }
                if keys@.contains(x) {
                    let q = choose|q: int| 0 <= q < keys@.len() && keys@[q] == x;
                    if q < old_keys.len() {
                        assert(old_keys[q] == x);
                    }
                }
            }
        }
        assert forall|x: i64| keys@.contains(x) <==> exists|i: int|
            0 <= i < j + 1 && #[trigger] views[i].0 == x by {
            if old_keys.contains(x) {
                let i0 = choose|i: int| 0 <= i < j && #[trigger] views[i].0 == x;
                assert(0 <= i0 < j + 1 && views[i0].0 == x);
            }
            if x == k {
                assert(0 <= j < j + 1 && views[j as int].0 == x);
            }
            if exists|i: int| 0 <= i < j + 1 && #[trigger] views[i].0 == x {
                let i1 = choose|i: int| 0 <= i < j + 1 && #[trigger] views[i].0 == x;
                if i1 < j {
                    assert(exists|i: int| 0 <= i < j && #[trigger] views[i].0 == x);
                } else {
                    assert(x == k);
                }
            }
        }
        j = j + 1;
    }
    keys
}

/// The mappings held by a list of edges, a later entry replacing an earlier
/// one with the same key.
pub open spec fn edge_map(edges: Seq<TestEdge>) -> Map<(i64, i64), (int, Seq<Seq<char>>)>
    decreases edges.len(),
{
    if edges.len() == 0 {
        Map::empty()
    } else {
        edge_map(edges.drop_last()).insert(edge_entry(edges.last()).0, edge_entry(edges.last()).1)
    }
}

/// No two edges share a (symbol, test) key.
pub open spec fn unique_edge_keys(edges: Seq<TestEdge>) -> bool {
    forall|i: int, j: int|
        0 <= i < j < edges.len() ==> (#[trigger] edges[i]).subject_id != (#[trigger] edges[j]).subject_id
            || edges[i].test_id != edges[j].test_id
}

/// Replacing an edge by one with the same key updates that key's value.
proof fn lemma_edge_map_update(edges: Seq<TestEdge>, idx: int, e: TestEdge)
    requires
        0 <= idx < edges.len(),
        unique_edge_keys(edges),
        edge_entry(edges[idx]).0 == edge_entry(e).0,
    ensures
        edge_map(edges.update(idx, e)) == edge_map(edges).insert(edge_entry(e).0, edge_entry(e).1),
    decreases edges.len(),
{
    let u = edges.update(idx, e);
    let last = edges.len() - 1;
    if idx == last {
        assert(u.drop_last() =~= edges.drop_last());
        assert(edge_map(u) =~= edge_map(edges).insert(edge_entry(e).0, edge_entry(e).1));
    } else {
        assert(u.drop_last() =~= edges.drop_last().update(idx, e));
        lemma_edge_map_update(edges.drop_last(), idx, e);
        assert(edges[idx] == edges.drop_last()[idx]);
        assert(edge_entry(edges[last]).0 != edge_entry(e).0);
        assert(edge_map(u) =~= edge_map(edges).insert(edge_entry(e).0, edge_entry(e).1));
    }
}

/// Sets the mapping for the edge's key, replacing any earlier one.
fn upsert_edge(out: &mut Vec<TestEdge>, e: TestEdge)
    requires
        unique_edge_keys(old(out)@),
    ensures
        unique_edge_keys(final(out)@),
        edge_map(final(out)@) == edge_map(old(out)@).insert(edge_entry(e).0, edge_entry(e).1),
{
    let mut i: usize = 0;
    while i < out.len()
        invariant
            i <= out@.len(),
            out@ == old(out)@,
            unique_edge_keys(old(out)@),
            forall|q: int|
                0 <= q < i ==> (#[trigger] out@[q]).subject_id != e.subject_id || out@[q].test_id
                    != e.test_id,
        decreases out@.len() - i,
    {
        if out[i].subject_id == e.subject_id && out[i].test_id == e.test_id {
            proof {
                lemma_edge_map_update(out@, i as int, e);
            }
            let ghost before = out@;
            out.set(i, e);
            assert forall|a: int, b: int| 0 <= a < b < out@.len() implies (#[trigger] out@[a]).subject_id
                != (#[trigger] out@[b]).subject_id || out@[a].test_id
                != out@[b].test_id by {
                assert(before[a].subject_id != before[b].subject_id || before[a].test_id
                    != before[b].test_id);
            }
            return;
        }
        i = i + 1;
    }
    let ghost before = out@;
    out.push(e);
    assert(out@.drop_last() =~= before);
}

/// The mappings of one test restricted to the subjects in `ks`.
pub open spec fn partial_edges(test_id: i64, stream: Seq<ContribView>, ks: Seq<i64>) -> Map<
    (i64, i64),
    (int, Seq<Seq<char>>),
> {
    Map::new(
        |p: (i64, i64)|
            p.1 == test_id && ks.contains(p.0) && score_for(stream, p.0) >= symbol_edge_threshold(),
        |p: (i64, i64)| (score_for(stream, p.0), reasons_for(stream, p.0)),
    )
}

/// Adds the mappings of one test, replacing earlier ones with the same keys.
fn add_test_edges(out: &mut Vec<TestEdge>, test_id: i64, stream: &Vec<Contribution>)
    requires
        unique_edge_keys(old(out)@),
    ensures
        unique_edge_keys(final(out)@),
        edge_map(final(out)@) == edge_map(old(out)@).union_prefer_right(
            edges_of_test(test_id, contrib_views(stream@)),
        ),
{
    let keys = distinct_subjects(stream);
    let ghost views = contrib_views(stream@);
    let ghost prev = edge_map(out@);
    let mut j: usize = 0;
    assert(partial_edges(test_id, views, keys@.subrange(0, 0)) =~= Map::empty());
    assert(prev.union_prefer_right(Map::empty()) =~= prev);
    while j < keys.len()
        invariant
            j <= keys@.len(),
            unique_edge_keys(out@),
            views == contrib_views(stream@),
            edge_map(out@) == prev.union_prefer_right(
                partial_edges(test_id, views, keys@.subrange(0, j as int)),
            ),
        decreases keys@.len() - j,
    {
        let k = keys[j];
        let sc = score_of(stream, k);
        let ghost before = partial_edges(test_id, views, keys@.subrange(0, j as int));
        let ghost after = partial_edges(test_id, views, keys@.subrange(0, j + 1));
        assert(keys@.subrange(0, j + 1) =~= keys@.subrange(0, j as int).push(k));
        assert forall|x: i64| #[trigger] keys@.subrange(0, j + 1).contains(x) <==> (keys@.subrange(
            0,
            j as int,
        ).contains(x) || x == k) by {
            let lo = keys@.subrange(0, j as int);
            let hi = keys@.subrange(0, j + 1);
            if lo.contains(x) {
                let q = choose|q: int| 0 <= q < lo.len() && lo[q] == x;
                assert(hi[q] == x);
            }
            if x == k {
                assert(hi[j as int] == x);
            }
            if hi.contains(x) {
                let q = choose|q: int| 0 <= q < hi.len() && hi[q] == x;
                if q < j {
                    assert(lo[q] == x);
                }
            }
        }
        if sc >= 48 {
            let rs = reasons_of(stream, k);
            upsert_edge(
                out,
                TestEdge { subject_id: k, test_id, score: sc, reasons: rs },
            );
            assert(after =~= before.insert((k, test_id), (sc as int, string_views(rs@))));
            assert(prev.union_prefer_right(after) =~= prev.union_prefer_right(before).insert(
                (k, test_id),
                (sc as int, string_views(rs@)),
            ));
        } else {
            assert(after =~= before);
        }
        j = j + 1;
    }
    assert(keys@.subrange(0, keys@.len() as int) =~= keys@);
    assert(partial_edges(test_id, views, keys@) =~= edges_of_test(test_id, views));
}

/// The symbol-to-test mappings of an index.
///
/// Every symbol that is test code and lies in a known file gathers weighted
/// reasons (same file, name hints, imports, crate layout, co-change); each
/// symbol whose summed weight reaches the threshold is mapped to the test.
pub fn build_symbol_test_edges(
    files: &Vec<FileInfo>,
    symbols: &Vec<SymbolInfo>,
    imports: &Vec<FileImport>,
    cochange: &Vec<CochangePair>,
) -> (out: Vec<TestEdge>)
    ensures
        unique_edge_keys(out@),
        edge_map(out@) == symbol_test_map(symbols@, files@, imports@, cochange@, symbols@.len()),
{
    let mut out: Vec<TestEdge> = Vec::new();
    let mut i: usize = 0;
    assert(edge_map(out@) =~= Map::empty());
    while i < symbols.len()
        invariant
            i <= symbols@.len(),
            unique_edge_keys(out@),
            edge_map(out@) == symbol_test_map(symbols@, files@, imports@, cochange@, i as nat),
        decreases symbols@.len() - i,
    {
        let t = &symbols[i];
        proof {
            lemma_file_index(files@, t.file_id);
        }
        if is_test_symbol(t, files) {
            match find_file(files, t.file_id) {
                Some(fi) => {
                    let stream = collect_contributions(
                        t,
                        &files[fi],
                        symbols,
                        files,
                        imports,
                        cochange,
                    );
                    add_test_edges(&mut out, t.id, &stream);
                },
                None => {},
            }
        }
        i = i + 1;
    }
    out
}

/// A weighted contribution to a file pair `(subject file, test file)`.
#[derive(Debug, Clone)]
pub struct FileContribution {
    pub file_id: i64,
    pub test_file_id: i64,
    pub weight: i128,
    pub reasons: Vec<String>,
}

/// Plain view of a file-pair contribution.
pub type PairView = ((i64, i64), int, Seq<Seq<char>>);

/// The view of a file-pair contribution.
pub open spec fn pair_view(c: FileContribution) -> PairView {
    ((c.file_id, c.test_file_id), c.weight as int, string_views(c.reasons@))
}

/// Views of a list of file-pair contributions.
pub open spec fn pair_views(v: Seq<FileContribution>) -> Seq<PairView> {
    v.map_values(|c: FileContribution| pair_view(c))
}

/// Index of the last symbol with the given id, or -1.
pub open spec fn symbol_index(symbols: Seq<SymbolInfo>, id: i64) -> int
    decreases symbols.len(),
{
    if symbols.len() == 0 {
        -1
    } else if symbols.last().id == id {
        symbols.len() - 1
    } else {
        symbol_index(symbols.drop_last(), id)
    }
}

/// The symbol with the given id, if any (the last one with it).
pub open spec fn symbol_by_id(symbols: Seq<SymbolInfo>, id: i64) -> Option<SymbolInfo> {
    let i = symbol_index(symbols, id);
    if i < 0 {
        None
    } else {
        Some(symbols[i])
    }
}

/// `symbol_index` is -1 or a position holding the id.
pub proof fn lemma_symbol_index(symbols: Seq<SymbolInfo>, id: i64)
    ensures
        -1 <= symbol_index(symbols, id) < symbols.len(),
        symbol_index(symbols, id) >= 0 ==> symbols[symbol_index(symbols, id)].id == id,
    decreases symbols.len(),
{
    if symbols.len() > 0 && symbols.last().id != id {
        lemma_symbol_index(symbols.drop_last(), id);
    }
}

/// Finds the last symbol with the given id.
fn find_symbol(symbols: &Vec<SymbolInfo>, id: i64) -> (r: Option<usize>)
    ensures
        r matches Some(i) ==> i as int == symbol_index(symbols@, id),
        r is None ==> symbol_index(symbols@, id) == -1,
{
    let mut i = symbols.len();
    assert(symbols@.subrange(0, i as int) =~= symbols@);
    while i > 0
        invariant
            i <= symbols@.len(),
            symbol_index(symbols@, id) == symbol_index(symbols@.subrange(0, i as int), id),
        decreases i,
    {
        assert(symbols@.subrange(0, i as int).drop_last() =~= symbols@.subrange(0, i - 1));
        assert(symbols@.subrange(0, i as int).last() == symbols@[i - 1]);
        if symbols[i - 1].id == id {
            return Some(i - 1);
        }
        i = i - 1;
    }
    None
}

/// A symbol mapping carried over to the pair of files of its two symbols.
pub open spec fn lifted_edge(symbols: Seq<SymbolInfo>, e: TestEdge) -> Seq<PairView> {
    match (symbol_by_id(symbols, e.subject_id), symbol_by_id(symbols, e.test_id)) {
        (Some(s), Some(t)) => seq![((s.file_id, t.file_id), e.score as int, string_views(e.reasons@))],
        _ => Seq::empty(),
    }
}

/// The first `n` symbol mappings carried over to file pairs.
pub open spec fn lifted_edges(symbols: Seq<SymbolInfo>, edges: Seq<TestEdge>, n: nat) -> Seq<
    PairView,
>
    decreases n,
{
    if n == 0 {
        Seq::empty()
    } else {
        lifted_edges(symbols, edges, (n - 1) as nat) + lifted_edge(symbols, edges[n - 1])
    }
}

/// Whether an import of the test file names the source file by its stem or
/// its module path.
pub open spec fn imports_mention_file(imports: Seq<FileImport>, test_file_id: i64, sf: FileInfo) -> bool {
    exists|i: int|
        0 <= i < imports.len() && #[trigger] imports[i].file_id == test_file_id && (seq_contains(
            imports[i].import_path@,
            file_stem_spec(sf.path@),
        ) || match opt_view(sf.mod_path) {
            Some(m) => seq_contains(imports[i].import_path@, m),
            None => false,
        })
}

/// The co-change weight of a file pair: 2 points per co-change, at most 12
/// counted.
pub open spec fn file_cochange_weight(count: i64) -> int {
    4 * (if count < 12 { count as int } else { 12 })
}

/// Layout, import and co-change reasons linking source file `sf` to test file
/// `tf`.
pub open spec fn file_pair_reasons(
    sf: FileInfo,
    tf: FileInfo,
    imports: Seq<FileImport>,
    cochange: Seq<CochangePair>,
) -> Seq<PairView> {
    let key = (sf.id, tf.id);
    if sf.id == tf.id {
        Seq::empty()
    } else {
        (if opt_view(sf.crate_name) == opt_view(tf.crate_name) && same_module_family_spec(
            opt_view(sf.mod_path),
            opt_view(tf.mod_path),
        ) {
            seq![(key, 44int, seq!["same crate test module"@])]
        } else {
            Seq::empty()
        }) + (if imports_mention_file(imports, tf.id, sf) {
            seq![(key, 36int, seq!["test imports "@ + sf.path@])]
        } else {
            Seq::empty()
        }) + match lookup_cochange_spec(cochange, sf.id, tf.id) {
            Some(c) => seq![
                (key, file_cochange_weight(c), seq!["cochanged "@ + decimal(c as int) + " times"@]),
            ],
            None => Seq::empty(),
        }
    }
}

/// Contributions of the first `n` files under `f`, in order.
pub open spec fn over_files(
    files: Seq<FileInfo>,
    n: nat,
    f: spec_fn(FileInfo) -> Seq<PairView>,
) -> Seq<PairView>
    decreases n,
{
    if n == 0 {
        Seq::empty()
    } else {
        over_files(files, (n - 1) as nat, f) + f(files[n - 1])
    }
}

/// Reasons linking every other file to a test file.
pub open spec fn test_file_reasons(
    files: Seq<FileInfo>,
    imports: Seq<FileImport>,
    cochange: Seq<CochangePair>,
) -> spec_fn(FileInfo) -> Seq<PairView> {
    |tf: FileInfo|
        if is_test_path_spec(tf.path@) {
            over_files(files, files.len(), |sf: FileInfo| file_pair_reasons(sf, tf, imports, cochange))
        } else {
            Seq::empty()
        }
}

/// Every weighted reason linking files to test files: the symbol mappings
/// first, then layout, imports and co-change for each test file.
pub open spec fn file_contributions(
    files: Seq<FileInfo>,
    symbols: Seq<SymbolInfo>,
    imports: Seq<FileImport>,
    cochange: Seq<CochangePair>,
    edges: Seq<TestEdge>,
) -> Seq<PairView> {
    lifted_edges(symbols, edges, edges.len()) + over_files(
        files,
        files.len(),
        test_file_reasons(files, imports, cochange),
    )
}

/// The summed weight of the contributions for pair `k`.
pub open spec fn pair_score(stream: Seq<PairView>, k: (i64, i64)) -> int
    decreases stream.len(),
{
    if stream.len() == 0 {
        0
    } else if stream.last().0 == k {
        sat_add(pair_score(stream.drop_last(), k), stream.last().1)
    } else {
        pair_score(stream.drop_last(), k)
    }
}

/// The reasons of the contributions for pair `k`, in order.
pub open spec fn pair_reasons(stream: Seq<PairView>, k: (i64, i64)) -> Seq<Seq<char>>
    decreases stream.len(),
{
    if stream.len() == 0 {
        Seq::empty()
    } else if stream.last().0 == k {
        pair_reasons(stream.drop_last(), k) + stream.last().2
    } else {
        pair_reasons(stream.drop_last(), k)
    }
}

/// Whether some contribution concerns pair `k`.
pub open spec fn mentions_pair(stream: Seq<PairView>, k: (i64, i64)) -> bool {
    exists|i: int| 0 <= i < stream.len() && #[trigger] stream[i].0 == k
}

/// Weight, in half points, that a file mapping needs to be kept (10 points).
pub open spec fn file_edge_threshold() -> int {
    40
}

/// The file-to-test mappings: every mentioned pair whose summed weight
/// reaches the threshold, with its weight and reasons.
pub open spec fn file_test_map(
    files: Seq<FileInfo>,
    symbols: Seq<SymbolInfo>,
    imports: Seq<FileImport>,
    cochange: Seq<CochangePair>,
    edges: Seq<TestEdge>,
) -> Map<(i64, i64), (int, Seq<Seq<char>>)> {
    let stream = file_contributions(files, symbols, imports, cochange, edges);
    Map::new(
        |p: (i64, i64)| mentions_pair(stream, p) && pair_score(stream, p) >= file_edge_threshold(),
        |p: (i64, i64)| (pair_score(stream, p), pair_reasons(stream, p)),
    )
}

/// A copy of a list of strings.
fn copy_strings(v: &Vec<String>) -> (r: Vec<String>)
    ensures
        r@ == v@,
{
    let mut r: Vec<String> = Vec::new();
    let mut i: usize = 0;
    while i < v.len()
        invariant
            i <= v@.len(),
            r@ == v@.subrange(0, i as int),
        decreases v@.len() - i,
    {
        r.push(v[i].clone());
        assert(r@ =~= v@.subrange(0, i + 1));
        i = i + 1;
    }
    assert(v@.subrange(0, v@.len() as int) =~= v@);
    r
}

/// Appends one file-pair contribution.
fn push_pair(
    out: &mut Vec<FileContribution>,
    file_id: i64,
    test_file_id: i64,
    weight: i128,
    reasons: Vec<String>,
)
    ensures
        pair_views(final(out)@) == pair_views(old(out)@).push(
            ((file_id, test_file_id), weight as int, string_views(reasons@)),
        ),
{
    let ghost before = out@;
    let ghost rv = string_views(reasons@);
    out.push(FileContribution { file_id, test_file_id, weight, reasons });
    proof {
        assert(pair_views(out@) =~= pair_views(before).push(
            ((file_id, test_file_id), weight as int, rv),
        ));
    }
}

/// A list holding one string.
fn one_reason(s: String) -> (r: Vec<String>)
    ensures
        string_views(r@) == seq![s@],
{
    let mut r: Vec<String> = Vec::new();
    r.push(s);
    assert(string_views(r@) =~= seq![s@]);
    r
}

/// Symbol mappings carried over to file pairs.
fn lift_symbol_edges(
    symbols: &Vec<SymbolInfo>,
    edges: &Vec<TestEdge>,
    out: &mut Vec<FileContribution>,
)
    ensures
        pair_views(final(out)@) == pair_views(old(out)@) + lifted_edges(
            symbols@,
            edges@,
            edges@.len(),
        ),
{
    let ghost start = pair_views(out@);
    let mut i: usize = 0;
    while i < edges.len()
        invariant
            i <= edges@.len(),
            pair_views(out@) == start + lifted_edges(symbols@, edges@, i as nat),
        decreases edges@.len() - i,
    {
        let e = &edges[i];
        proof {
            lemma_symbol_index(symbols@, e.subject_id);
            lemma_symbol_index(symbols@, e.test_id);
            assert(start + lifted_edges(symbols@, edges@, (i + 1) as nat) =~= (start
                + lifted_edges(symbols@, edges@, i as nat)) + lifted_edge(symbols@, edges@[i as int]));
        }
        match (find_symbol(symbols, e.subject_id), find_symbol(symbols, e.test_id)) {
            (Some(a), Some(b)) => {
                push_pair(out, symbols[a].file_id, symbols[b].file_id, e.score, copy_strings(&e.reasons));
            },
            _ => {},
        }
        i = i + 1;
    }
}

/// Whether an import of the test file names the source file.
fn imports_mention(imports: &Vec<FileImport>, test_file_id: i64, sf: &FileInfo) -> (r: bool)
    ensures
        r == imports_mention_file(imports@, test_file_id, *sf),
{
    let stem = chars_of(file_stem(sf.path.as_str()).as_str());
    let module: Option<Vec<char>> = match &sf.mod_path {
        Some(m) => Some(chars_of(m.as_str())),
        None => None,
    };
    let mut i: usize = 0;
    while i < imports.len()
        invariant
            i <= imports@.len(),
            stem@ == file_stem_spec(sf.path@),
            match module {
                Some(m) => opt_view(sf.mod_path) == Some(m@),
                None => opt_view(sf.mod_path) is None,
            },
            forall|q: int|
                0 <= q < i ==> !(#[trigger] imports@[q].file_id == test_file_id && (seq_contains(
                    imports@[q].import_path@,
                    file_stem_spec(sf.path@),
                ) || match opt_view(sf.mod_path) {
                    Some(m) => seq_contains(imports@[q].import_path@, m),
                    None => false,
                })),
        decreases imports@.len() - i,
    {
        let imp = &imports[i];
        if imp.file_id == test_file_id {
            let path = chars_of(imp.import_path.as_str());
            let by_module = match &module {
                Some(m) => contains(path.as_slice(), m.as_slice()),
                None => false,
            };
            if contains(path.as_slice(), stem.as_slice()) || by_module {
                return true;
            }
        }
        i = i + 1;
    }
    false
}

/// Layout, import and co-change reasons linking `sf` to test file `tf`.
fn add_pair_reasons(
    sf: &FileInfo,
    tf: &FileInfo,
    imports: &Vec<FileImport>,
    cochange: &Vec<CochangePair>,
    out: &mut Vec<FileContribution>,
)
    ensures
        pair_views(final(out)@) == pair_views(old(out)@) + file_pair_reasons(
            *sf,
            *tf,
            imports@,
            cochange@,
        ),
{
    let ghost start = pair_views(out@);
    if sf.id == tf.id {
        assert(start + Seq::<PairView>::empty() =~= start);
        return;
    }
    if same_opt_text(&sf.crate_name, &tf.crate_name) && same_module_family(
        &sf.mod_path,
        &tf.mod_path,
    ) {
        push_pair(out, sf.id, tf.id, 44, one_reason("same crate test module".to_owned()));
    }
    if imports_mention(imports, tf.id, sf) {
        push_pair(out, sf.id, tf.id, 36, one_reason(concat2("test imports ", sf.path.as_str())));
    }
    match lookup_cochange(cochange, sf.id, tf.id) {
        None => {},
        Some(c) => {
            let capped: i64 = if c < 12 {
                c
            } else {
                12
            };
            let text = decimal_of(c);
            push_pair(
                out,
                sf.id,
                tf.id,
                4 * (capped as i128),
                one_reason(concat3("cochanged ", text.as_str(), " times")),
            );
        },
    }
    assert(pair_views(out@) =~= start + file_pair_reasons(*sf, *tf, imports@, cochange@));
}

/// Reasons linking every file to every test file.
fn add_test_files(
    files: &Vec<FileInfo>,
    imports: &Vec<FileImport>,
    cochange: &Vec<CochangePair>,
    out: &mut Vec<FileContribution>,
)
    ensures
        pair_views(final(out)@) == pair_views(old(out)@) + over_files(
            files@,
            files@.len(),
            test_file_reasons(files@, imports@, cochange@),
        ),
{
    let ghost start = pair_views(out@);
    let ghost g = test_file_reasons(files@, imports@, cochange@);
    let mut i: usize = 0;
    while i < files.len()
        invariant
            i <= files@.len(),
            g == test_file_reasons(files@, imports@, cochange@),
            pair_views(out@) == start + over_files(files@, i as nat, g),
        decreases files@.len() - i,
    {
        let tf = &files[i];
        proof {
            assert(start + over_files(files@, (i + 1) as nat, g) =~= (start + over_files(
                files@,
                i as nat,
                g,
            )) + g(files@[i as int]));
        }
        if is_test_path(tf.path.as_str()) {
            let ghost mid = pair_views(out@);
            let ghost f = |sf: FileInfo| file_pair_reasons(sf, *tf, imports@, cochange@);
            let mut j: usize = 0;
            while j < files.len()
                invariant
                    j <= files@.len(),
                    f == (|sf: FileInfo| file_pair_reasons(sf, *tf, imports@, cochange@)),
                    pair_views(out@) == mid + over_files(files@, j as nat, f),
                decreases files@.len() - j,
            {
                proof {
                    assert(mid + over_files(files@, (j + 1) as nat, f) =~= (mid + over_files(
                        files@,
                        j as nat,
                        f,
                    )) + f(files@[j as int]));
                }
                add_pair_reasons(&files[j], tf, imports, cochange, out);
                j = j + 1;
            }
            assert(pair_views(out@) == mid + g(files@[i as int]));
        }
        i = i + 1;
    }
}

/// The summed weight for one file pair.
fn pair_score_of(stream: &Vec<FileContribution>, k: (i64, i64)) -> (r: i128)
    ensures
        r == pair_score(pair_views(stream@), k),
{
    let ghost views = pair_views(stream@);
    let mut acc: i128 = 0;
    let mut j: usize = 0;
    assert(views.subrange(0, 0) =~= Seq::<PairView>::empty());
    while j < stream.len()
        invariant
            j <= stream@.len(),
            views == pair_views(stream@),
            acc == pair_score(views.subrange(0, j as int), k),
        decreases stream@.len() - j,
    {
        assert(views.subrange(0, j + 1).drop_last() =~= views.subrange(0, j as int));
        assert(views[j as int] == pair_view(stream@[j as int]));
        if stream[j].file_id == k.0 && stream[j].test_file_id == k.1 {
            acc = add_weight(acc, stream[j].weight);
        }
        j = j + 1;
    }
    assert(views.subrange(0, stream@.len() as int) =~= views);
    acc
}

/// The reasons for one file pair, in order.
fn pair_reasons_of(stream: &Vec<FileContribution>, k: (i64, i64)) -> (r: Vec<String>)
    ensures
        string_views(r@) == pair_reasons(pair_views(stream@), k),
{
    let ghost views = pair_views(stream@);
    let mut acc: Vec<String> = Vec::new();
    let mut j: usize = 0;
    assert(views.subrange(0, 0) =~= Seq::<PairView>::empty());
    assert(string_views(acc@) =~= Seq::<Seq<char>>::empty());
    while j < stream.len()
        invariant
            j <= stream@.len(),
            views == pair_views(stream@),
            string_views(acc@) == pair_reasons(views.subrange(0, j as int), k),
        decreases stream@.len() - j,
    {
        assert(views.subrange(0, j + 1).drop_last() =~= views.subrange(0, j as int));
        assert(views[j as int] == pair_view(stream@[j as int]));
        if stream[j].file_id == k.0 && stream[j].test_file_id == k.1 {
            let rs = &stream[j].reasons;
            let ghost base = acc@;
            let mut m: usize = 0;
            while m < rs.len()
                invariant
                    m <= rs@.len(),
                    string_views(acc@) == string_views(base) + string_views(rs@).subrange(
                        0,
                        m as int,
                    ),
                decreases rs@.len() - m,
            {
                let ghost before = acc@;
                acc.push(rs[m].clone());
                assert(string_views(acc@) =~= string_views(before).push(rs@[m as int]@));
                assert(string_views(base) + string_views(rs@).subrange(0, m + 1) =~= (string_views(
                    base,
                ) + string_views(rs@).subrange(0, m as int)).push(rs@[m as int]@));
                m = m + 1;
            }
            assert(string_views(rs@).subrange(0, rs@.len() as int) =~= string_views(rs@));
        }
        j = j + 1;
    }
    assert(views.subrange(0, stream@.len() as int) =~= views);
    acc
}

/// The file pairs that the contributions concern, each once.
fn distinct_pairs(stream: &Vec<FileContribution>) -> (keys: Vec<(i64, i64)>)
    ensures
        keys@.no_duplicates(),
        forall|k: (i64, i64)| keys@.contains(k) <==> mentions_pair(pair_views(stream@), k),
{
    let ghost views = pair_views(stream@);
    let mut keys: Vec<(i64, i64)> = Vec::new();
    let mut j: usize = 0;
    while j < stream.len()
        invariant
            j <= stream@.len(),
            views == pair_views(stream@),
            keys@.no_duplicates(),
            forall|k: (i64, i64)|
                keys@.contains(k) <==> exists|i: int| 0 <= i < j && #[trigger] views[i].0 == k,
        decreases stream@.len() - j,
    {
        let k = (stream[j].file_id, stream[j].test_file_id);
        assert(views[j as int].0 == k);
        let ghost old_keys = keys@;
        let mut found = false;
        let mut m: usize = 0;
        while m < keys.len()
            invariant
                m <= keys@.len(),
                found <==> exists|q: int| 0 <= q < m && keys@[q] == k,
            decreases keys@.len() - m,
        {
            if keys[m].0 == k.0 && keys[m].1 == k.1 {
                found = true;
            }
            m = m + 1;
        }
        assert(found <==> old_keys.contains(k));
        if !found {
            keys.push(k);
        }
        assert forall|x: (i64, i64)| #[trigger] keys@.contains(x) <==> (old_keys.contains(x) || x
            == k) by {
            if !found {
                assert(keys@ == old_keys.push(k));
                if old_keys.contains(x) {
                    let q = choose|q: int| 0 <= q < old_keys.len() && old_keys[q] == x;
                    assert(keys@[q] == x);
                }
                if x == k {
                    assert(keys@[old_keys.len() as int] == k);
                }
                if keys@.contains(x) {
                    let q = choose|q: int| 0 <= q < keys@.len() && keys@[q] == x;
                    if q < old_keys.len() {
                        assert(old_keys[q] == x);
                    }
                }
            }
        }
        assert forall|x: (i64, i64)| keys@.contains(x) <==> exists|i: int|
            0 <= i < j + 1 && #[trigger] views[i].0 == x by {
            if old_keys.contains(x) {
                let i0 = choose|i: int| 0 <= i < j && #[trigger] views[i].0 == x;
                assert(0 <= i0 < j + 1 && views[i0].0 == x);
            }
            if x == k {
                assert(0 <= j < j + 1 && views[j as int].0 == x);
            }
            if exists|i: int| 0 <= i < j + 1 && #[trigger] views[i].0 == x {
                let i1 = choose|i: int| 0 <= i < j + 1 && #[trigger] views[i].0 == x;
                if i1 < j {
                    assert(exists|i: int| 0 <= i < j && #[trigger] views[i].0 == x);
                } else {
                    assert(x == k);
                }
            }
        }
        j = j + 1;
    }
    keys
}

/// The file-to-test mappings kept among the pairs in `ks`.
pub open spec fn partial_file_edges(stream: Seq<PairView>, ks: Seq<(i64, i64)>) -> Map<
    (i64, i64),
    (int, Seq<Seq<char>>),
> {
    Map::new(
        |p: (i64, i64)| ks.contains(p) && pair_score(stream, p) >= file_edge_threshold(),
        |p: (i64, i64)| (pair_score(stream, p), pair_reasons(stream, p)),
    )
}

/// The file-to-test mappings of an index.
///
/// The symbol mappings are carried over to their files' pair; then each test
/// file gathers, from every other file, crate-layout, import and co-change
/// reasons. Each pair whose summed weight reaches the threshold is kept.
pub fn build_file_test_edges(
    files: &Vec<FileInfo>,
    symbols: &Vec<SymbolInfo>,
    imports: &Vec<FileImport>,
    cochange: &Vec<CochangePair>,
    symbol_edges: &Vec<TestEdge>,
) -> (out: Vec<TestEdge>)
    ensures
        unique_edge_keys(out@),
        edge_map(out@) == file_test_map(files@, symbols@, imports@, cochange@, symbol_edges@),
{
    let mut stream: Vec<FileContribution> = Vec::new();
    assert(pair_views(stream@) =~= Seq::<PairView>::empty());
    lift_symbol_edges(symbols, symbol_edges, &mut stream);
    add_test_files(files, imports, cochange, &mut stream);
    let ghost views = pair_views(stream@);
    assert(views =~= file_contributions(files@, symbols@, imports@, cochange@, symbol_edges@));
    let keys = distinct_pairs(&stream);
    let mut out: Vec<TestEdge> = Vec::new();
    let mut j: usize = 0;
    assert(partial_file_edges(views, keys@.subrange(0, 0)) =~= Map::empty());
    assert(edge_map(out@) =~= Map::empty());
    while j < keys.len()
        invariant
            j <= keys@.len(),
            views == pair_views(stream@),
            keys@.no_duplicates(),
            unique_edge_keys(out@),
            forall|q: int|
                0 <= q < out@.len() ==> keys@.subrange(0, j as int).contains(
                    ((#[trigger] out@[q]).subject_id, out@[q].test_id),
                ),
            edge_map(out@) == partial_file_edges(views, keys@.subrange(0, j as int)),
        decreases keys@.len() - j,
    {
        let k = keys[j];
        let sc = pair_score_of(&stream, k);
        let ghost before = partial_file_edges(views, keys@.subrange(0, j as int));
        let ghost after = partial_file_edges(views, keys@.subrange(0, j + 1));
        assert(keys@.subrange(0, j + 1) =~= keys@.subrange(0, j as int).push(k));
        assert forall|x: (i64, i64)| #[trigger] keys@.subrange(0, j + 1).contains(x) <==> (
        keys@.subrange(0, j as int).contains(x) || x == k) by {
            let lo = keys@.subrange(0, j as int);
            let hi = keys@.subrange(0, j + 1);
            if lo.contains(x) {
                let q = choose|q: int| 0 <= q < lo.len() && lo[q] == x;
                assert(hi[q] == x);
            }
            if x == k {
                assert(hi[j as int] == x);
            }
            if hi.contains(x) {
                let q = choose|q: int| 0 <= q < hi.len() && hi[q] == x;
                if q < j {
                    assert(lo[q] == x);
                }
            }
        }
        assert(!keys@.subrange(0, j as int).contains(k)) by {
            if keys@.subrange(0, j as int).contains(k) {
                let q = choose|q: int| 0 <= q < j && keys@.subrange(0, j as int)[q] == k;
                assert(keys@[q] == keys@[j as int]);
            }
        }
        if sc >= 40 {
            let rs = pair_reasons_of(&stream, k);
            let ghost prev_out = out@;
            out.push(TestEdge { subject_id: k.0, test_id: k.1, score: sc, reasons: rs });
            assert(out@.drop_last() =~= prev_out);
            assert(after =~= before.insert(k, (sc as int, string_views(rs@))));
        } else {
            assert(after =~= before);
        }
        j = j + 1;
    }
    assert(keys@.subrange(0, keys@.len() as int) =~= keys@);
    assert(partial_file_edges(views, keys@) =~= file_test_map(
        files@,
        symbols@,
        imports@,
        cochange@,
        symbol_edges@,
    ));
    out
}

/// Every symbol-to-test mapping reaches the threshold, and its test is a
/// symbol that is test code.
pub proof fn lemma_symbol_test_map_laws(
    symbols: Seq<SymbolInfo>,
    files: Seq<FileInfo>,
    imports: Seq<FileImport>,
    cochange: Seq<CochangePair>,
    n: nat,
    p: (i64, i64),
)
    requires
        n <= symbols.len(),
        symbol_test_map(symbols, files, imports, cochange, n).dom().contains(p),
    ensures
        symbol_test_map(symbols, files, imports, cochange, n)[p].0 >= symbol_edge_threshold(),
        exists|i: int|
            0 <= i < n && (#[trigger] symbols[i]).id == p.1 && is_test_symbol_spec(symbols[i], files),
    decreases n,
{
    let prev = symbol_test_map(symbols, files, imports, cochange, (n - 1) as nat);
    let t = symbols[n - 1];
    if is_test_symbol_spec(t, files) && file_by_id(files, t.file_id) is Some {
        let tf = file_by_id(files, t.file_id)->Some_0;
        let e = edges_of_test(t.id, test_contributions(t, tf, symbols, files, imports, cochange));
        if e.dom().contains(p) {
            assert(symbols[n - 1].id == p.1);
        } else {
            lemma_symbol_test_map_laws(symbols, files, imports, cochange, (n - 1) as nat, p);
            let i = choose|i: int|
                0 <= i < n - 1 && (#[trigger] symbols[i]).id == p.1 && is_test_symbol_spec(
                    symbols[i],
                    files,
                );
            assert(0 <= i < n && symbols[i].id == p.1);
        }
    } else {
        lemma_symbol_test_map_laws(symbols, files, imports, cochange, (n - 1) as nat, p);
        let i = choose|i: int|
            0 <= i < n - 1 && (#[trigger] symbols[i]).id == p.1 && is_test_symbol_spec(
                symbols[i],
                files,
            );
        assert(0 <= i < n && symbols[i].id == p.1);
    }
}

/// Every file-to-test mapping reaches the threshold.
pub proof fn lemma_file_test_map_threshold(
    files: Seq<FileInfo>,
    symbols: Seq<SymbolInfo>,
    imports: Seq<FileImport>,
    cochange: Seq<CochangePair>,
    edges: Seq<TestEdge>,
    p: (i64, i64),
)
    requires
        file_test_map(files, symbols, imports, cochange, edges).dom().contains(p),
    ensures
        file_test_map(files, symbols, imports, cochange, edges)[p].0 >= file_edge_threshold(),
{
}

} // verus!
