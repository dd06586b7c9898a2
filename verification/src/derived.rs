//! Relations derived from the whole index: entrypoints, symbol-to-test and
//! file-to-test mappings.
//!
//! Scores are whole points for entrypoints and half points for test mappings,
//! so that every weight the heuristics use is an exact integer.

use vstd::prelude::*;

use crate::text::{
    char_is_alphanumeric, chars_of, contains, copy_range, ends_with, first_from, is_alnum, join,
    join_chars, lemma_first_from, lower, lowercase, seq_contains, seq_ends_with, seq_starts_with,
    same_chars, split, split_chars, starts_with, string_of,
};

verus! {

/// File row used by the derived-relation builders.
#[derive(Debug, Clone)]
pub struct FileInfo {
    pub id: i64,
    pub path: String,
    pub crate_name: Option<String>,
    pub mod_path: Option<String>,
}

/// Symbol row used by the derived-relation builders.
#[derive(Debug, Clone)]
pub struct SymbolInfo {
    pub id: i64,
    pub file_id: i64,
    pub name: String,
    pub qualname: String,
    pub kind: String,
    pub is_test: bool,
}

/// One `use` path recorded for a file.
#[derive(Debug, Clone)]
pub struct FileImport {
    pub file_id: i64,
    pub import_path: String,
}

/// Co-change count recorded for an unordered file pair (`file_a < file_b`).
#[derive(Debug, Clone, Copy)]
pub struct CochangePair {
    pub file_a: i64,
    pub file_b: i64,
    pub count: i64,
}

/// Views of an optional string.
pub open spec fn opt_view(s: Option<String>) -> Option<Seq<char>> {
    match s {
        Some(t) => Some(t@),
        None => None,
    }
}

/// Index of the last file with the given id, or -1 (a map built from the rows
/// keeps the last one).
pub open spec fn file_index(files: Seq<FileInfo>, id: i64) -> int
    decreases files.len(),
{
    if files.len() == 0 {
        -1
    } else if files.last().id == id {
        files.len() - 1
    } else {
        file_index(files.drop_last(), id)
    }
}

/// The file with the given id, if any.
pub open spec fn file_by_id(files: Seq<FileInfo>, id: i64) -> Option<FileInfo> {
    let i = file_index(files, id);
    if i < 0 {
        None
    } else {
        Some(files[i])
    }
}

/// `file_index` is -1 or the last matching position.
pub proof fn lemma_file_index(files: Seq<FileInfo>, id: i64)
    ensures
        -1 <= file_index(files, id) < files.len(),
        file_index(files, id) >= 0 ==> files[file_index(files, id)].id == id,
        forall|j: int| file_index(files, id) < j < files.len() ==> files[j].id != id,
    decreases files.len(),
{
    if files.len() > 0 && files.last().id != id {
        lemma_file_index(files.drop_last(), id);
        assert forall|j: int| file_index(files, id) < j < files.len() implies files[j].id != id by {
            if j < files.len() - 1 {
                assert(files.drop_last()[j] == files[j]);
            }
        }
    }
}

/// Finds the last file with the given id.
pub fn find_file(files: &Vec<FileInfo>, id: i64) -> (r: Option<usize>)
    ensures
        r matches Some(i) ==> i as int == file_index(files@, id),
        r is None ==> file_index(files@, id) == -1,
{
    let mut i = files.len();
    assert(files@.subrange(0, i as int) =~= files@);
    while i > 0
        invariant
            i <= files@.len(),
            file_index(files@, id) == file_index(files@.subrange(0, i as int), id),
        decreases i,
    {
        assert(files@.subrange(0, i as int).drop_last() =~= files@.subrange(0, i - 1));
        assert(files@.subrange(0, i as int).last() == files@[i - 1]);
        if files[i - 1].id == id {
            return Some(i - 1);
        }
        i = i - 1;
    }
    None
}

/// Lowercased path fragments that mark a test file.
pub open spec fn is_test_path_spec(path: Seq<char>) -> bool {
    let l = lower(path);
    seq_contains(l, "/tests/"@) || seq_contains(l, "tests.rs"@) || seq_contains(l, "/integration/"@)
        || seq_contains(l, "test_"@) || seq_contains(l, "_test"@)
}

/// Whether a path looks like test code.
pub fn is_test_path(path: &str) -> (r: bool)
    ensures
        r == is_test_path_spec(path@),
{
    let l = lowercase(chars_of(path).as_slice());
    contains(l.as_slice(), chars_of("/tests/").as_slice()) || contains(
        l.as_slice(),
        chars_of("tests.rs").as_slice(),
    ) || contains(l.as_slice(), chars_of("/integration/").as_slice()) || contains(
        l.as_slice(),
        chars_of("test_").as_slice(),
    ) || contains(l.as_slice(), chars_of("_test").as_slice())
}

/// Characters kept of a name: alphanumerics and '_'.
pub open spec fn name_char() -> spec_fn(char) -> bool {
    |c: char| is_alnum(c) || c == '_'
}

/// The alphanumeric and '_' characters of a name, ASCII-lowercased.
pub open spec fn normalize_name_spec(s: Seq<char>) -> Seq<char> {
    lower(s.filter(name_char()))
}

/// Keeps the alphanumeric and '_' characters of a name, ASCII-lowercased.
pub fn normalize_name(value: &str) -> (r: String)
    ensures
        r@ == normalize_name_spec(value@),
{
    let chars = chars_of(value);
    let mut kept: Vec<char> = Vec::new();
    let mut i: usize = 0;
    while i < chars.len()
        invariant
            i <= chars@.len(),
            chars@ == value@,
            kept@ == chars@.subrange(0, i as int).filter(name_char()),
        decreases chars@.len() - i,
    {
        let c = chars[i];
        assert(chars@.subrange(0, i + 1).drop_last() =~= chars@.subrange(0, i as int));
        proof {
            reveal(Seq::filter);
        }
        if char_is_alphanumeric(c) || c == '_' {
            kept.push(c);
        }
        i = i + 1;
    }
    assert(chars@.subrange(0, chars@.len() as int) =~= chars@);
    string_of(lowercase(kept.as_slice()).as_slice())
}

/// Whether a symbol is test code: flagged as a test, named like a test, or a
/// function in a test-looking file.
pub open spec fn is_test_symbol_spec(s: SymbolInfo, files: Seq<FileInfo>) -> bool {
    s.is_test || seq_starts_with(s.name@, "test_"@) || seq_starts_with(s.name@, "should_"@)
        || seq_starts_with(s.name@, "it_"@) || (s.kind@ == "fn"@ && match file_by_id(files, s.file_id) {
        Some(f) => is_test_path_spec(f.path@),
        None => false,
    })
}

/// Whether a symbol is test code.
pub fn is_test_symbol(symbol: &SymbolInfo, files: &Vec<FileInfo>) -> (r: bool)
    ensures
        r == is_test_symbol_spec(*symbol, files@),
{
    if symbol.is_test {
        return true;
    }
    let name = chars_of(symbol.name.as_str());
    if starts_with(name.as_slice(), chars_of("test_").as_slice()) || starts_with(
        name.as_slice(),
        chars_of("should_").as_slice(),
    ) || starts_with(name.as_slice(), chars_of("it_").as_slice()) {
        return true;
    }
    let kind = chars_of(symbol.kind.as_str());
    if !same_chars(kind.as_slice(), chars_of("fn").as_slice()) {
        return false;
    }
    proof {
        lemma_file_index(files@, symbol.file_id);
    }
    match find_file(files, symbol.file_id) {
        Some(i) => is_test_path(files[i].path.as_str()),
        None => false,
    }
}

/// Lookup of a co-change count for an unordered pair: none for a file with
/// itself, else the last row for `(min, max)`.
pub open spec fn cochange_index(rows: Seq<CochangePair>, a: i64, b: i64) -> int
    decreases rows.len(),
{
    if rows.len() == 0 {
        -1
    } else if rows.last().file_a == a && rows.last().file_b == b {
        rows.len() - 1
    } else {
        cochange_index(rows.drop_last(), a, b)
    }
}

/// The co-change count of two distinct files, if recorded.
pub open spec fn lookup_cochange_spec(rows: Seq<CochangePair>, left: i64, right: i64) -> Option<
    i64,
> {
    if left == right {
        None
    } else {
        let a = if left < right { left } else { right };
        let b = if left < right { right } else { left };
        let i = cochange_index(rows, a, b);
        if i < 0 {
            None
        } else {
            Some(rows[i].count)
        }
    }
}

/// Co-change count of two distinct files, if recorded.
pub fn lookup_cochange(rows: &Vec<CochangePair>, left: i64, right: i64) -> (r: Option<i64>)
    ensures
        r == lookup_cochange_spec(rows@, left, right),
{
    if left == right {
        return None;
    }
    let a = if left < right { left } else { right };
    let b = if left < right { right } else { left };
    let mut i = rows.len();
    assert(rows@.subrange(0, i as int) =~= rows@);
    while i > 0
        invariant
            i <= rows@.len(),
            left != right,
            a == (if left < right { left } else { right }),
            b == (if left < right { right } else { left }),
            cochange_index(rows@, a, b) == cochange_index(rows@.subrange(0, i as int), a, b),
        decreases i,
    {
        assert(rows@.subrange(0, i as int).drop_last() =~= rows@.subrange(0, i - 1));
        assert(rows@.subrange(0, i as int).last() == rows@[i - 1]);
        if rows[i - 1].file_a == a && rows[i - 1].file_b == b {
            return Some(rows[i - 1].count);
        }
        i = i - 1;
    }
    None
}

/// Looking a pair up is symmetric.
pub proof fn lemma_lookup_cochange_symmetric(rows: Seq<CochangePair>, left: i64, right: i64)
    ensures
        lookup_cochange_spec(rows, left, right) == lookup_cochange_spec(rows, right, left),
{
}

/// Whether a module path segment only marks test or bench code.
pub open spec fn is_family_marker(seg: Seq<char>) -> bool {
    seg == "tests"@ || seg == "test"@ || seg == "integration"@ || seg == "bench"@ || seg == "benches"@
        || seg == "spec"@
}

/// Segments kept of a module path: those that are no family marker.
pub open spec fn family_segment() -> spec_fn(Seq<char>) -> bool {
    |seg: Seq<char>| !is_family_marker(seg)
}

/// A module path without its test and bench marker segments.
pub open spec fn normalize_module_family_spec(m: Seq<char>) -> Seq<char> {
    join(split(m, "::"@).filter(family_segment()), "::"@)
}

/// Whether a path segment is one of the given words.
fn is_marker(seg: &Vec<char>) -> (r: bool)
    ensures
        r == is_family_marker(seg@),
{
    let words = ["tests", "test", "integration", "bench", "benches", "spec"];
    let mut i: usize = 0;
    let mut found = false;
    while i < 6
        invariant
            0 <= i <= 6,
            words@.len() == 6,
            words@[0]@ == "tests"@,
            words@[1]@ == "test"@,
            words@[2]@ == "integration"@,
            words@[3]@ == "bench"@,
            words@[4]@ == "benches"@,
            words@[5]@ == "spec"@,
            found == exists|j: int| 0 <= j < i && seg@ == words@[j]@,
        decreases 6 - i,
    {
        let w = chars_of(words[i]);
        if same_chars(seg.as_slice(), w.as_slice()) {
            found = true;
        }
        i = i + 1;
    }
    found
}

/// A module path without its test and bench marker segments.
pub fn normalize_module_family(module: &str) -> (r: String)
    ensures
        r@ == normalize_module_family_spec(module@),
{
    let chars = chars_of(module);
    let sep = chars_of("::");
    proof {
        reveal_strlit("::");
    }
    let parts = split_chars(chars.as_slice(), sep.as_slice());
    let ghost views = parts@.map_values(|v: Vec<char>| v@);
    let mut kept: Vec<Vec<char>> = Vec::new();
    let mut i: usize = 0;
    while i < parts.len()
        invariant
            i <= parts@.len(),
            views == parts@.map_values(|v: Vec<char>| v@),
            kept@.map_values(|v: Vec<char>| v@) == views.subrange(0, i as int).filter(
                family_segment(),
            ),
        decreases parts@.len() - i,
    {
        assert(views.subrange(0, i + 1).drop_last() =~= views.subrange(0, i as int));
        proof {
            reveal(Seq::filter);
        }
        if !is_marker(&parts[i]) {
            let ghost before = kept@.map_values(|v: Vec<char>| v@);
            kept.push(parts[i].clone());
            assert(kept@.map_values(|v: Vec<char>| v@) =~= before.push(parts@[i as int]@));
        }
        i = i + 1;
    }
    assert(views.subrange(0, parts@.len() as int) =~= views);
    string_of(join_chars(&kept, sep.as_slice()).as_slice())
}

/// Whether two optional module paths are present and equal once test and
/// bench markers are removed.
pub open spec fn same_module_family_spec(left: Option<Seq<char>>, right: Option<Seq<char>>) -> bool {
    match (left, right) {
        (Some(l), Some(r)) => normalize_module_family_spec(l) == normalize_module_family_spec(r),
        _ => false,
    }
}

/// Whether two module paths belong to the same family.
pub fn same_module_family(left: &Option<String>, right: &Option<String>) -> (r: bool)
    ensures
        r == same_module_family_spec(opt_view(*left), opt_view(*right)),
{
    match (left, right) {
        (Some(l), Some(r)) => {
            let a = normalize_module_family(l.as_str());
            let b = normalize_module_family(r.as_str());
            a == b
        },
        _ => false,
    }
}

/// The file name of a path without a trailing ".rs" (all trailing ".rs"
/// are removed, as `trim_end_matches` does).
pub open spec fn trim_rs(s: Seq<char>) -> Seq<char>
    decreases s.len(),
{
    if seq_ends_with(s, seq!['.', 'r', 's']) {
        trim_rs(s.subrange(0, s.len() - 3))
    } else {
        s
    }
}

/// The last '/'-separated component of a path with ".rs" trimmed.
pub open spec fn file_stem_spec(path: Seq<char>) -> Seq<char> {
    trim_rs(split(path, "/"@).last())
}

/// The last path component, without ".rs".
pub fn file_stem(path: &str) -> (r: String)
    ensures
        r@ == file_stem_spec(path@),
{
    let chars = chars_of(path);
    let slash = chars_of("/");
    proof {
        reveal_strlit("/");
    }
    let parts = split_chars(chars.as_slice(), slash.as_slice());
    proof {
        lemma_split_nonempty(chars@, slash@);
    }
    let last = parts.len() - 1;
    let mut name = parts[last].clone();
    let rs = chars_of(".rs");
    proof {
        reveal_strlit(".rs");
    }
    assert(rs@ =~= seq!['.', 'r', 's']);
    assert(parts@.map_values(|v: Vec<char>| v@).last() == parts@[last as int]@);
    while ends_with(name.as_slice(), rs.as_slice())
        invariant
            rs@ == seq!['.', 'r', 's'],
            trim_rs(name@) == file_stem_spec(path@),
        decreases name@.len(),
    {
        let cut = copy_range(name.as_slice(), 0, name.len() - 3);
        name = cut;
    }
    string_of(name.as_slice())
}

/// Splitting always yields at least one piece.
pub proof fn lemma_split_nonempty(s: Seq<char>, sep: Seq<char>)
    ensures
        split(s, sep).len() >= 1,
    decreases s.len(),
{
    let i = first_from(s, sep, 0);
    if sep.len() == 0 || i < 0 {
        assert(crate::text::split_each(s).len() >= 2);
    } else {
        lemma_first_from(s, sep, 0);
        lemma_split_nonempty(s.subrange(i + sep.len(), s.len() as int), sep);
    }
}

/// The first four distinct reasons, joined with "; ".
pub open spec fn first_unique(reasons: Seq<Seq<char>>, n: nat) -> Seq<Seq<char>>
    decreases n,
{
    if n == 0 {
        Seq::empty()
    } else {
        let prev = first_unique(reasons, (n - 1) as nat);
        if prev.len() >= 4 {
            prev
        } else if prev.contains(reasons[n - 1]) {
            prev
        } else {
            prev.push(reasons[n - 1])
        }
    }
}

/// Up to four distinct reasons in first-seen order, joined with "; ".
pub open spec fn join_reasons_spec(reasons: Seq<Seq<char>>) -> Seq<char> {
    join(first_unique(reasons, reasons.len()), "; "@)
}

/// Joins up to four distinct reasons with "; ".
pub fn join_reasons(reasons: &Vec<String>) -> (r: String)
    ensures
        r@ == join_reasons_spec(reasons@.map_values(|s: String| s@)),
{
    let ghost rs = reasons@.map_values(|s: String| s@);
    let mut unique: Vec<Vec<char>> = Vec::new();
    let mut i: usize = 0;
    while i < reasons.len() && unique.len() < 4
        invariant
            i <= reasons@.len(),
            rs == reasons@.map_values(|s: String| s@),
            unique@.map_values(|v: Vec<char>| v@) == first_unique(rs, i as nat),
        decreases reasons@.len() - i,
    {
        let reason = chars_of(reasons[i].as_str());
        assert(rs[i as int] == reason@);
        let mut seen = false;
        let mut j: usize = 0;
        while j < unique.len()
            invariant
                j <= unique@.len(),
                seen == exists|k: int| 0 <= k < j && unique@[k]@ == reason@,
            decreases unique@.len() - j,
        {
            if same_chars(unique[j].as_slice(), reason.as_slice()) {
                seen = true;
            }
            j = j + 1;
        }
        let ghost before = unique@.map_values(|v: Vec<char>| v@);
        assert(seen == before.contains(reason@)) by {
            if seen {
                let k = choose|k: int| 0 <= k < unique@.len() && unique@[k]@ == reason@;
                assert(before[k] == reason@);
            }
            if before.contains(reason@) {
                let k = choose|k: int| 0 <= k < before.len() && before[k] == reason@;
                assert(unique@[k]@ == reason@);
            }
        }
        if !seen {
            unique.push(reason);
            assert(unique@.map_values(|v: Vec<char>| v@) =~= before.push(reason@));
        }
        i = i + 1;
    }
    if unique.len() >= 4 {
        proof {
            lemma_first_unique_full(rs, i as nat, rs.len());
        }
    }
    let sep = chars_of("; ");
    string_of(join_chars(&unique, sep.as_slice()).as_slice())
}

/// Once four reasons are kept, later ones change nothing.
pub proof fn lemma_first_unique_full(rs: Seq<Seq<char>>, i: nat, n: nat)
    requires
        i <= n,
        first_unique(rs, i).len() >= 4,
    ensures
        first_unique(rs, n) == first_unique(rs, i),
    decreases n - i,
{
    if n > i {
        lemma_first_unique_full(rs, i, (n - 1) as nat);
    }
}

/// Lowercased signature fragments of an HTTP handler.
pub open spec fn is_http_handler_spec(lower: Seq<char>) -> bool {
    seq_contains(lower, "#[get"@) || seq_contains(lower, "#[post"@) || seq_contains(lower, "#[put"@)
        || seq_contains(lower, "#[delete"@) || seq_contains(lower, "#[route"@) || seq_contains(
        lower,
        "httprequest"@,
    ) || seq_contains(lower, "httpresponse"@) || seq_contains(lower, "impl responder"@)
        || seq_contains(lower, "json<"@) || seq_contains(lower, "state<"@) || seq_contains(
        lower,
        "path<"@,
    ) || seq_contains(lower, "query<"@)
}

/// Whether a `lower` needle occurs in `hay`.
fn has(hay: &Vec<char>, needle: &str) -> (r: bool)
    ensures
        r == seq_contains(hay@, needle@),
{
    contains(hay.as_slice(), chars_of(needle).as_slice())
}

/// Whether lowercased function text looks like an HTTP handler.
pub fn is_http_handler(lower: &Vec<char>) -> (r: bool)
    ensures
        r == is_http_handler_spec(lower@),
{
    has(lower, "#[get") || has(lower, "#[post") || has(lower, "#[put") || has(lower, "#[delete")
        || has(lower, "#[route") || has(lower, "httprequest") || has(lower, "httpresponse") || has(
        lower,
        "impl responder",
    ) || has(lower, "json<") || has(lower, "state<") || has(lower, "path<") || has(lower, "query<")
}

/// A function row considered for entrypoint detection: its signature and the
/// text of its chunk.
#[derive(Debug, Clone)]
pub struct EntrypointSource {
    pub symbol_id: i64,
    pub file_id: i64,
    pub name: String,
    pub qualname: String,
    pub signature: String,
    pub content: String,
}

/// A detected entrypoint; `score` is in whole points.
#[derive(Debug, Clone)]
pub struct EntrypointRow {
    pub kind: String,
    pub symbol_id: Option<i64>,
    pub file_id: i64,
    pub score: i64,
    pub reason: String,
}

/// Plain view of an entrypoint row.
pub type EntryView = (Seq<char>, Option<i64>, i64, int, Seq<char>);

/// The view of an entrypoint row.
pub open spec fn entry_view(r: EntrypointRow) -> EntryView {
    (r.kind@, r.symbol_id, r.file_id, r.score as int, r.reason@)
}

/// Whether some import of the file mentions clap.
pub open spec fn imports_clap(imports: Seq<FileImport>, file_id: i64) -> bool {
    exists|i: int|
        0 <= i < imports.len() && #[trigger] imports[i].file_id == file_id && seq_contains(
            imports[i].import_path@,
            "clap"@,
        )
}

/// Whether a path names a binary crate root.
pub open spec fn is_main_path(path: Seq<char>) -> bool {
    seq_ends_with(path, "/main.rs"@) || path == "src/main.rs"@
}

/// Whether a path names a library crate root.
pub open spec fn is_lib_path(path: Seq<char>) -> bool {
    seq_ends_with(path, "/lib.rs"@) || path == "src/lib.rs"@
}

/// Entrypoints a file is on its own: a binary root, a library root, a clap
/// command-line surface.
pub open spec fn file_entry_candidates(f: FileInfo, imports: Seq<FileImport>) -> Seq<EntryView> {
    (if is_main_path(f.path@) {
        seq![("main"@, None, f.id, 80int, "binary crate root (main.rs)"@)]
    } else {
        Seq::empty()
    }) + (if is_lib_path(f.path@) {
        seq![("main"@, None, f.id, 42int, "library crate root (lib.rs)"@)]
    } else {
        Seq::empty()
    }) + (if imports_clap(imports, f.id) {
        seq![("cli"@, None, f.id, 36int, "CLI surface via clap imports"@)]
    } else {
        Seq::empty()
    })
}

/// Whether lowercased function text carries a tokio main attribute.
pub open spec fn has_tokio_main(lower: Seq<char>) -> bool {
    seq_contains(lower, "#[tokio::main]"@) || seq_contains(lower, "# [ tokio :: main ]"@)
}

/// Whether lowercased function text spawns async tasks.
pub open spec fn spawns_tasks(lower: Seq<char>) -> bool {
    seq_contains(lower, "tokio::spawn"@) || seq_contains(lower, "spawn(async"@) || seq_contains(
        lower,
        "spawn ( async"@,
    )
}

/// Whether a function parses a clap command line.
pub open spec fn parses_cli(lower: Seq<char>, f: FileInfo, imports: Seq<FileImport>) -> bool {
    seq_contains(lower, "clap::"@) || seq_contains(lower, "parser::parse("@) || seq_contains(
        lower,
        "command::parse("@,
    ) || (seq_ends_with(f.path@, "/main.rs"@) && imports_clap(imports, f.id))
}

/// Entrypoints a function is, judged from its lowercased signature and body:
/// a main function, a task spawner, an HTTP handler, a clap command line.
/// Functions of unknown files are skipped.
pub open spec fn symbol_entry_candidates(
    row: EntrypointSource,
    files: Seq<FileInfo>,
    imports: Seq<FileImport>,
) -> Seq<EntryView> {
    match file_by_id(files, row.file_id) {
        None => Seq::empty(),
        Some(f) => {
            let l = lower(row.signature@ + "\n"@ + row.content@);
            let id = Some(row.symbol_id);
            (if row.name@ == "main"@ || has_tokio_main(l) {
                seq![
                    ("main"@, id, row.file_id, 96int, if has_tokio_main(l) {
                        "async runtime entry via #[tokio::main]"@
                    } else {
                        "main function entrypoint"@
                    }),
                ]
            } else {
                Seq::empty()
            }) + (if spawns_tasks(l) {
                seq![("task"@, id, row.file_id, 54int, "spawns async tasks with tokio::spawn"@)]
            } else {
                Seq::empty()
            }) + (if is_http_handler_spec(l) {
                seq![("http"@, id, row.file_id, 60int, "HTTP handler signature heuristic"@)]
            } else {
                Seq::empty()
            }) + (if parses_cli(l, f, imports) {
                seq![("cli"@, id, row.file_id, 52int, "CLI entry via clap parsing"@)]
            } else {
                Seq::empty()
            })
        },
    }
}

/// Candidates of the first `n` files, in order.
pub open spec fn file_candidates_upto(files: Seq<FileInfo>, imports: Seq<FileImport>, n: nat) -> Seq<
    EntryView,
>
    decreases n,
{
    if n == 0 {
        Seq::empty()
    } else {
        file_candidates_upto(files, imports, (n - 1) as nat) + file_entry_candidates(
            files[n - 1],
            imports,
        )
    }
}

/// Candidates of the first `n` functions, in order.
pub open spec fn symbol_candidates_upto(
    rows: Seq<EntrypointSource>,
    files: Seq<FileInfo>,
    imports: Seq<FileImport>,
    n: nat,
) -> Seq<EntryView>
    decreases n,
{
    if n == 0 {
        Seq::empty()
    } else {
        symbol_candidates_upto(rows, files, imports, (n - 1) as nat) + symbol_entry_candidates(
            rows[n - 1],
            files,
            imports,
        )
    }
}

/// Whether two entrypoints share kind, symbol and file.
pub open spec fn same_entry_key(a: EntryView, b: EntryView) -> bool {
    a.0 == b.0 && a.1 == b.1 && a.2 == b.2
}

/// Whether an entry with the same key is in the list.
pub open spec fn has_entry_key(list: Seq<EntryView>, e: EntryView) -> bool {
    exists|i: int| 0 <= i < list.len() && same_entry_key(#[trigger] list[i], e)
}

/// The first entry of each key, in order.
pub open spec fn dedup_entries(c: Seq<EntryView>) -> Seq<EntryView>
    decreases c.len(),
{
    if c.len() == 0 {
        Seq::empty()
    } else {
        let prev = dedup_entries(c.drop_last());
        if has_entry_key(prev, c.last()) {
            prev
        } else {
            prev.push(c.last())
        }
    }
}

/// All entrypoints: the file-level ones of every file, then the function-level
/// ones of every function, keeping the first of each (kind, symbol, file).
pub open spec fn detect_entrypoints_spec(
    files: Seq<FileInfo>,
    imports: Seq<FileImport>,
    rows: Seq<EntrypointSource>,
) -> Seq<EntryView> {
    dedup_entries(
        file_candidates_upto(files, imports, files.len()) + symbol_candidates_upto(
            rows,
            files,
            imports,
            rows.len(),
        ),
    )
}

/// Whether some import of the file mentions clap.
fn file_imports_clap(imports: &Vec<FileImport>, file_id: i64) -> (r: bool)
    ensures
        r == imports_clap(imports@, file_id),
{
    let clap = chars_of("clap");
    let mut i: usize = 0;
    while i < imports.len()
        invariant
            i <= imports@.len(),
            clap@ == "clap"@,
            forall|j: int|
                0 <= j < i ==> !(#[trigger] imports@[j].file_id == file_id && seq_contains(
                    imports@[j].import_path@,
                    "clap"@,
                )),
        decreases imports@.len() - i,
    {
        if imports[i].file_id == file_id && contains(
            chars_of(imports[i].import_path.as_str()).as_slice(),
            clap.as_slice(),
        ) {
            return true;
        }
        i = i + 1;
    }
    false
}

/// Adds an entrypoint unless one with the same kind, symbol and file is
/// already recorded.
pub fn push_entrypoint(rows: &mut Vec<EntrypointRow>, row: EntrypointRow)
    ensures
        final(rows)@.map_values(|r: EntrypointRow| entry_view(r)) == (if has_entry_key(
            old(rows)@.map_values(|r: EntrypointRow| entry_view(r)),
            entry_view(row),
        ) {
            old(rows)@.map_values(|r: EntrypointRow| entry_view(r))
        } else {
            old(rows)@.map_values(|r: EntrypointRow| entry_view(r)).push(entry_view(row))
        }),
{
    let ghost views = rows@.map_values(|r: EntrypointRow| entry_view(r));
    let mut i: usize = 0;
    while i < rows.len()
        invariant
            i <= rows@.len(),
            views == rows@.map_values(|r: EntrypointRow| entry_view(r)),
            forall|j: int| 0 <= j < i ==> !same_entry_key(#[trigger] views[j], entry_view(row)),
        decreases rows@.len() - i,
    {
        if rows[i].kind == row.kind && rows[i].symbol_id == row.symbol_id && rows[i].file_id
            == row.file_id {
            assert(same_entry_key(views[i as int], entry_view(row)));
            return;
        }
        i = i + 1;
    }
    rows.push(row);
    assert(rows@.map_values(|r: EntrypointRow| entry_view(r)) =~= views.push(entry_view(row)));
}

/// A new entrypoint row.
fn entry(kind: &str, symbol_id: Option<i64>, file_id: i64, score: i64, reason: &str) -> (r:
    EntrypointRow)
    ensures
        entry_view(r) == (kind@, symbol_id, file_id, score as int, reason@),
{
    EntrypointRow {
        kind: kind.to_owned(),
        symbol_id,
        file_id,
        score,
        reason: reason.to_owned(),
    }
}

/// Dedup over a concatenation, step by step.
pub proof fn lemma_dedup_push(c: Seq<EntryView>, e: EntryView)
    ensures
        dedup_entries(c.push(e)) == (if has_entry_key(dedup_entries(c), e) {
            dedup_entries(c)
        } else {
            dedup_entries(c).push(e)
        }),
{
    assert(c.push(e).drop_last() =~= c);
}

/// Adds the function-level entrypoints of one function.
#[verifier::rlimit(40)]
fn add_function_entrypoints(
    rows: &mut Vec<EntrypointRow>,
    row: &EntrypointSource,
    files: &Vec<FileInfo>,
    imports: &Vec<FileImport>,
    Ghost(before): Ghost<Seq<EntryView>>,
)
    requires
        old(rows)@.map_values(|x: EntrypointRow| entry_view(x)) == dedup_entries(before),
    ensures
        final(rows)@.map_values(|x: EntrypointRow| entry_view(x)) == dedup_entries(
            before + symbol_entry_candidates(*row, files@, imports@),
        ),
{
    let ghost mut done: Seq<EntryView> = before;
    let ghost cands = before + symbol_entry_candidates(*row, files@, imports@);
    proof {
        lemma_file_index(files@, row.file_id);
    }
    match find_file(files, row.file_id) {
        None => {
            assert(done =~= cands);
        },
        Some(fi) => {
            let file = &files[fi];
            let mut text = chars_of(row.signature.as_str());
            text.push('\n');
            let content = chars_of(row.content.as_str());
            crate::text::extend_chars(&mut text, content.as_slice());
            let lower = lowercase(text.as_slice());
            proof {
                reveal_strlit("\n");
                assert(text@ =~= row.signature@ + "\n"@ + row.content@);
            }
            let tokio = has(&lower, "#[tokio::main]") || has(&lower, "# [ tokio :: main ]");
            let name = chars_of(row.name.as_str());
            if same_chars(name.as_slice(), chars_of("main").as_slice()) || tokio {
                let reason = if tokio {
                    "async runtime entry via #[tokio::main]"
                } else {
                    "main function entrypoint"
                };
                let e = entry("main", Some(row.symbol_id), row.file_id, 96, reason);
                proof {
                    lemma_dedup_push(done, entry_view(e));
                    done = done.push(entry_view(e));
                }
                push_entrypoint(rows, e);
            }
            if has(&lower, "tokio::spawn") || has(&lower, "spawn(async") || has(
                &lower,
                "spawn ( async",
            ) {
                let e = entry(
                    "task",
                    Some(row.symbol_id),
                    row.file_id,
                    54,
                    "spawns async tasks with tokio::spawn",
                );
                proof {
                    lemma_dedup_push(done, entry_view(e));
                    done = done.push(entry_view(e));
                }
                push_entrypoint(rows, e);
            }
            if is_http_handler(&lower) {
                let e = entry(
                    "http",
                    Some(row.symbol_id),
                    row.file_id,
                    60,
                    "HTTP handler signature heuristic",
                );
                proof {
                    lemma_dedup_push(done, entry_view(e));
                    done = done.push(entry_view(e));
                }
                push_entrypoint(rows, e);
            }
            let path = chars_of(file.path.as_str());
            if has(&lower, "clap::") || has(&lower, "parser::parse(") || has(
                &lower,
                "command::parse(",
            ) || (ends_with(path.as_slice(), chars_of("/main.rs").as_slice())
                && file_imports_clap(imports, row.file_id)) {
                let e = entry(
                    "cli",
                    Some(row.symbol_id),
                    row.file_id,
                    52,
                    "CLI entry via clap parsing",
                );
                proof {
                    lemma_dedup_push(done, entry_view(e));
                    done = done.push(entry_view(e));
                }
                push_entrypoint(rows, e);
            }
            assert(done =~= cands);
        },
    }
}

/// Finds the entrypoints of a workspace: crate roots and clap surfaces among
/// files, then main functions, task spawners, HTTP handlers and clap command
/// lines among functions, keeping the first of each (kind, symbol, file).
pub fn detect_entrypoints(
    files: &Vec<FileInfo>,
    imports: &Vec<FileImport>,
    symbols: &Vec<EntrypointSource>,
) -> (r: Vec<EntrypointRow>)
    ensures
        r@.map_values(|x: EntrypointRow| entry_view(x)) == detect_entrypoints_spec(
            files@,
            imports@,
            symbols@,
        ),
{
    let mut rows: Vec<EntrypointRow> = Vec::new();
    let ghost mut cands: Seq<EntryView> = Seq::empty();
    let mut i: usize = 0;
    while i < files.len()
        invariant
            i <= files@.len(),
            cands == file_candidates_upto(files@, imports@, i as nat),
            rows@.map_values(|x: EntrypointRow| entry_view(x)) == dedup_entries(cands),
        decreases files@.len() - i,
    {
        let file = &files[i];
        let path = chars_of(file.path.as_str());
        let ghost before = cands;
        proof {
            cands = cands + file_entry_candidates(files@[i as int], imports@);
        }
        let ghost mut done: Seq<EntryView> = before;
        if ends_with(path.as_slice(), chars_of("/main.rs").as_slice()) || same_chars(
            path.as_slice(),
            chars_of("src/main.rs").as_slice(),
        ) {
            let e = entry("main", None, file.id, 80, "binary crate root (main.rs)");
            proof {
                lemma_dedup_push(done, entry_view(e));
                done = done.push(entry_view(e));
            }
            push_entrypoint(&mut rows, e);
        }
        if ends_with(path.as_slice(), chars_of("/lib.rs").as_slice()) || same_chars(
            path.as_slice(),
            chars_of("src/lib.rs").as_slice(),
        ) {
            let e = entry("main", None, file.id, 42, "library crate root (lib.rs)");
            proof {
                lemma_dedup_push(done, entry_view(e));
                done = done.push(entry_view(e));
            }
            push_entrypoint(&mut rows, e);
        }
        if file_imports_clap(imports, file.id) {
            let e = entry("cli", None, file.id, 36, "CLI surface via clap imports");
            proof {
                lemma_dedup_push(done, entry_view(e));
                done = done.push(entry_view(e));
            }
            push_entrypoint(&mut rows, e);
        }
        assert(done =~= cands);
        i = i + 1;
    }
    let ghost file_part = cands;
    let mut k: usize = 0;
    while k < symbols.len()
        invariant
            k <= symbols@.len(),
            file_part == file_candidates_upto(files@, imports@, files@.len()),
            cands == file_part + symbol_candidates_upto(symbols@, files@, imports@, k as nat),
            rows@.map_values(|x: EntrypointRow| entry_view(x)) == dedup_entries(cands),
        decreases symbols@.len() - k,
    {
        let row = &symbols[k];
        let ghost before = cands;
        proof {
            assert(file_part + symbol_candidates_upto(symbols@, files@, imports@, (k + 1) as nat)
                =~= before + symbol_entry_candidates(symbols@[k as int], files@, imports@));
            cands = before + symbol_entry_candidates(symbols@[k as int], files@, imports@);
        }
        add_function_entrypoints(&mut rows, row, files, imports, Ghost(before));
        k = k + 1;
    }
    rows
}

} // verus!
verus! {

/// The reason given for an HTTP handler.
spec fn http_reason() -> Seq<char> {
    "HTTP handler signature heuristic"@
}

/// Whether every candidate of kind "http" scores 60 with the HTTP reason.
spec fn http_rows_ok(c: Seq<EntryView>) -> bool {
    forall|t: int| 0 <= t < c.len() && (#[trigger] c[t]).0 == "http"@ ==> c[t].3 == 60 && c[t].4 == http_reason()
}

proof fn lemma_kinds_differ()
    ensures
        "main"@ != "http"@,
        "cli"@ != "http"@,
        "task"@ != "http"@,
{
    reveal_strlit("main");
    reveal_strlit("http");
    reveal_strlit("cli");
    reveal_strlit("task");
    assert("main"@[0] != "http"@[0]);
    assert("task"@[0] != "http"@[0]);
    assert("cli"@.len() != "http"@.len());
}

proof fn lemma_http_rows_concat(a: Seq<EntryView>, b: Seq<EntryView>)
    requires
        http_rows_ok(a),
        http_rows_ok(b),
    ensures
        http_rows_ok(a + b),
{
    assert forall|t: int| 0 <= t < (a + b).len() && (#[trigger] (a + b)[t]).0 == "http"@ implies (a + b)[t].3
        == 60 && (a + b)[t].4 == http_reason() by {
        if t < a.len() {
            assert((a + b)[t] == a[t]);
        } else {
            assert((a + b)[t] == b[t - a.len()]);
        }
    }
}

proof fn lemma_http_rows_files(files: Seq<FileInfo>, imports: Seq<FileImport>, n: nat)
    ensures
        http_rows_ok(file_candidates_upto(files, imports, n)),
    decreases n,
{
    lemma_kinds_differ();
    if n > 0 {
        lemma_http_rows_files(files, imports, (n - 1) as nat);
        let c = file_entry_candidates(files[n - 1], imports);
        assert(http_rows_ok(c));
        lemma_http_rows_concat(file_candidates_upto(files, imports, (n - 1) as nat), c);
    }
}

proof fn lemma_http_rows_symbols(rows: Seq<EntrypointSource>, files: Seq<FileInfo>, imports: Seq<FileImport>, n: nat)
    requires
        n <= rows.len(),
    ensures
        http_rows_ok(symbol_candidates_upto(rows, files, imports, n)),
    decreases n,
{
    lemma_kinds_differ();
    if n > 0 {
        lemma_http_rows_symbols(rows, files, imports, (n - 1) as nat);
        let c = symbol_entry_candidates(rows[n - 1], files, imports);
        assert(http_rows_ok(c));
        lemma_http_rows_concat(symbol_candidates_upto(rows, files, imports, (n - 1) as nat), c);
    }
}

/// Every candidate's key survives deduplication, and deduplication keeps
/// only candidates.
proof fn lemma_dedup_entries(c: Seq<EntryView>)
    ensures
        forall|m: int| 0 <= m < c.len() ==> has_entry_key(dedup_entries(c), #[trigger] c[m]),
        forall|t: int|
            0 <= t < dedup_entries(c).len() ==> exists|m: int| 0 <= m < c.len() && c[m] == #[trigger] dedup_entries(c)[t],
    decreases c.len(),
{
    if c.len() > 0 {
        let p = c.drop_last();
        lemma_dedup_entries(p);
        let prev = dedup_entries(p);
        let d = dedup_entries(c);
        assert forall|m: int| 0 <= m < c.len() implies has_entry_key(d, #[trigger] c[m]) by {
            if m < c.len() - 1 {
                assert(c[m] == p[m]);
                assert(has_entry_key(prev, p[m]));
                let w = choose|w: int| 0 <= w < prev.len() && same_entry_key(#[trigger] prev[w], p[m]);
                assert(d[w] == prev[w]);
            } else if !has_entry_key(prev, c.last()) {
                assert(d[prev.len() as int] == c.last());
            }
        }
        assert forall|t: int| 0 <= t < d.len() implies exists|m: int| 0 <= m < c.len() && c[m] == #[trigger] d[t] by {
            if t < prev.len() {
                assert(d[t] == prev[t]);
                let m = choose|m: int| 0 <= m < p.len() && p[m] == prev[t];
                assert(c[m] == p[m]);
            } else {
                assert(d[t] == c[c.len() - 1]);
            }
        }
    }
}

/// Every candidate of a function is among the candidates of the first `n`
/// functions once that function is among them.
proof fn lemma_symbol_candidate_in(
    rows: Seq<EntrypointSource>,
    files: Seq<FileInfo>,
    imports: Seq<FileImport>,
    n: nat,
    k: int,
    m: int,
)
    requires
        0 <= k < n <= rows.len(),
        0 <= m < symbol_entry_candidates(rows[k], files, imports).len(),
    ensures
        exists|t: int|
            0 <= t < symbol_candidates_upto(rows, files, imports, n).len() && #[trigger] symbol_candidates_upto(
                rows,
                files,
                imports,
                n,
            )[t] == symbol_entry_candidates(rows[k], files, imports)[m],
    decreases n,
{
    let prev = symbol_candidates_upto(rows, files, imports, (n - 1) as nat);
    let here = symbol_entry_candidates(rows[n - 1], files, imports);
    let all = symbol_candidates_upto(rows, files, imports, n);
    assert(all == prev + here);
    if k == n - 1 {
        assert(all[prev.len() + m] == here[m]);
    } else {
        lemma_symbol_candidate_in(rows, files, imports, (n - 1) as nat, k, m);
        let t = choose|t: int| 0 <= t < prev.len() && #[trigger] prev[t] == symbol_entry_candidates(
            rows[k],
            files,
            imports,
        )[m];
        assert(all[t] == prev[t]);
    }
}

/// Every function of a known file whose lowercased signature and body carry
/// an HTTP route attribute (`#[get`, `#[post`, `#[put`, `#[delete`,
/// `#[route`) or an HTTP handler type (`HttpRequest`, `HttpResponse`,
/// `impl Responder`, `Json<`, `State<`, `Path<`, `Query<`) is detected as an
/// "http" entrypoint of that symbol and file, scoring 60.
pub proof fn lemma_http_handlers_detected(
    files: Seq<FileInfo>,
    imports: Seq<FileImport>,
    rows: Seq<EntrypointSource>,
    k: int,
)
    requires
        0 <= k < rows.len(),
        exists|i: int| 0 <= i < files.len() && (#[trigger] files[i]).id == rows[k].file_id,
        ({
            let l = lower(rows[k].signature@ + "\n"@ + rows[k].content@);
            seq_contains(l, "#[get"@) || seq_contains(l, "#[post"@) || seq_contains(l, "#[put"@) || seq_contains(
                l,
                "#[delete"@,
            ) || seq_contains(l, "#[route"@) || seq_contains(l, "httprequest"@) || seq_contains(l, "httpresponse"@)
                || seq_contains(l, "impl responder"@) || seq_contains(l, "json<"@) || seq_contains(l, "state<"@)
                || seq_contains(l, "path<"@) || seq_contains(l, "query<"@)
        }),
    ensures
        exists|t: int|
            0 <= t < detect_entrypoints_spec(files, imports, rows).len() && #[trigger] detect_entrypoints_spec(
                files,
                imports,
                rows,
            )[t] == ("http"@, Some(rows[k].symbol_id), rows[k].file_id, 60int, "HTTP handler signature heuristic"@),
{
    let row = rows[k];
    let x: EntryView = ("http"@, Some(row.symbol_id), row.file_id, 60int, "HTTP handler signature heuristic"@);
    lemma_file_index(files, row.file_id);
    let i = choose|i: int| 0 <= i < files.len() && (#[trigger] files[i]).id == row.file_id;
    assert(file_index(files, row.file_id) >= i);
    let f = files[file_index(files, row.file_id)];
    let l = lower(row.signature@ + "\n"@ + row.content@);
    assert(is_http_handler_spec(l));
    let id = Some(row.symbol_id);
    let a = if row.name@ == "main"@ || has_tokio_main(l) {
        seq![
            ("main"@, id, row.file_id, 96int, if has_tokio_main(l) {
                "async runtime entry via #[tokio::main]"@
            } else {
                "main function entrypoint"@
            }),
        ]
    } else {
        Seq::empty()
    };
    let b = if spawns_tasks(l) {
        seq![("task"@, id, row.file_id, 54int, "spawns async tasks with tokio::spawn"@)]
    } else {
        Seq::empty()
    };
    let c = seq![x];
    let d = if parses_cli(l, f, imports) {
        seq![("cli"@, id, row.file_id, 52int, "CLI entry via clap parsing"@)]
    } else {
        Seq::empty()
    };
    let sc = symbol_entry_candidates(row, files, imports);
    assert(sc == a + b + c + d);
    let m = (a.len() + b.len()) as int;
    assert(sc[m] == x);
    lemma_symbol_candidate_in(rows, files, imports, rows.len(), k, m);
    let fc = file_candidates_upto(files, imports, files.len());
    let syms = symbol_candidates_upto(rows, files, imports, rows.len());
    let ts = choose|t: int| 0 <= t < syms.len() && #[trigger] syms[t] == sc[m];
    let all = fc + syms;
    assert(all[fc.len() + ts] == x);
    lemma_dedup_entries(all);
    let out = dedup_entries(all);
    assert(out == detect_entrypoints_spec(files, imports, rows));
    assert(has_entry_key(out, all[fc.len() + ts]));
    let w = choose|w: int| 0 <= w < out.len() && same_entry_key(#[trigger] out[w], x);
    let mm = choose|mm: int| 0 <= mm < all.len() && all[mm] == #[trigger] out[w];
    lemma_http_rows_files(files, imports, files.len());
    lemma_http_rows_symbols(rows, files, imports, rows.len());
    lemma_http_rows_concat(fc, syms);
    assert(all[mm].0 == "http"@);
    assert(out[w] == x);
}

} // verus!
