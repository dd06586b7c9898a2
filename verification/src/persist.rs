//! What is written to the index for one file, and how the rows of a file
//! refer to one another once stored.

use vstd::prelude::*;

use crate::compactor::string_views;
use crate::derived::opt_view;
use crate::extract::{json_quoted, ExtractedFile};
use crate::git::{GitCochange, GitFileStat};
use crate::model::{symbol_kind_name, FileRecord, SymbolKind};
use crate::query::slashes_to_colons;
use crate::scanner::ScannedFile;
use crate::text::{chars_of, decimal, decimal_of, decimal_of_usize, join, lemma_lines_len, lines, lines_of};

verus! {

/// The BLAKE3 digest of a text's UTF-8 bytes, as lowercase hexadecimal.
pub uninterp spec fn blake3_hex(text: Seq<char>) -> Seq<char>;

/// Calls `blake3::hash` on the UTF-8 bytes of `text` and `Hash::to_hex` on
/// the digest. The result is named `blake3_hex(text)`; `to_hex` writes the
/// 32-byte digest as 64 characters from "0123456789abcdef".
#[verifier::external_body]
fn content_hash(text: &str) -> (r: String)
    ensures
        r@ == blake3_hex(text@),
        r@.len() == 64,
{
    blake3::hash(text.as_bytes()).to_hex().to_string()
}

/// Whether some symbol of an extracted file is a test.
pub open spec fn has_test_symbol(x: ExtractedFile) -> bool {
    exists|i: int| 0 <= i < x.symbols@.len() && (#[trigger] x.symbols@[i]).record.is_test
}

/// The file record stored for a scanned file with the given source, size,
/// modification time and indexing time, and what was extracted from it.
pub fn prepare_file_record(
    file: &ScannedFile,
    source: &str,
    size: i64,
    mtime_ns: Option<i64>,
    indexed_at: i64,
    extracted: &ExtractedFile,
) -> (r: FileRecord)
    requires
        source@.len() < i64::MAX,
        extracted.symbols@.len() < i64::MAX,
    ensures
        r.id is None,
        r.path@ == file.workspace_path@,
        opt_view(r.crate_name) == opt_view(file.crate_name),
        opt_view(r.mod_path) == opt_view(file.mod_path),
        r.hash@ == blake3_hex(source@),
        r.size == size,
        r.mtime_ns == mtime_ns,
        r.line_count == lines(source@).len(),
        r.symbol_count == extracted.symbols@.len(),
        r.is_generated == file.is_generated,
        r.has_tests == has_test_symbol(*extracted),
        r.summary@ == extracted.summary@,
        r.indexed_at == indexed_at,
{
    let src = chars_of(source);
    let line_count = lines_of(src.as_slice()).len();
    proof {
        lemma_lines_len(source@);
    }
    let mut has_tests = false;
    let mut i: usize = 0;
    while i < extracted.symbols.len()
        invariant
            i <= extracted.symbols@.len(),
            has_tests == exists|q: int| 0 <= q < i && (#[trigger] extracted.symbols@[q]).record.is_test,
        decreases extracted.symbols@.len() - i,
    {
        if extracted.symbols[i].record.is_test {
            has_tests = true;
        }
        i = i + 1;
    }
    FileRecord {
        id: None,
        path: file.workspace_path.clone(),
        crate_name: copy_opt_string(&file.crate_name),
        mod_path: copy_opt_string(&file.mod_path),
        hash: content_hash(source),
        size,
        mtime_ns,
        line_count: line_count as i64,
        symbol_count: extracted.symbols.len() as i64,
        is_generated: file.is_generated,
        has_tests,
        summary: extracted.summary.clone(),
        indexed_at,
    }
}

fn copy_opt_string(s: &Option<String>) -> (r: Option<String>)
    ensures
        opt_view(r) == opt_view(*s),
{
    match s {
        Some(v) => Some(v.clone()),
        None => None,
    }
}

/// The stored id of a file-local symbol: the id at that place among the ids
/// stored so far, or none.
pub open spec fn local_id_spec(ids: Seq<i64>, local: Option<usize>) -> Option<i64> {
    match local {
        Some(i) => if i < ids.len() {
            Some(ids[i as int])
        } else {
            None
        },
        None => None,
    }
}

/// Maps a file-local symbol reference to the id it was stored under.
pub fn local_id(ids: &Vec<i64>, local: Option<usize>) -> (r: Option<i64>)
    ensures
        r == local_id_spec(ids@, local),
{
    match local {
        Some(i) => if i < ids.len() {
            Some(ids[i])
        } else {
            None
        },
        None => None,
    }
}

/// The suffix that tells a symbol apart when its qualified name is taken:
/// "@", the path with '/' as "::", "::L", the line, "::K", the kind, "::".
pub open spec fn fallback_suffix_spec(path: Seq<char>, start_line: i64, kind: SymbolKind) -> Seq<char> {
    "@"@ + slashes_to_colons(path) + "::L"@ + decimal(start_line as int) + "::K"@ + symbol_kind_name(kind)
        + "::"@
}

/// The suffix that tells a symbol apart when its qualified name is taken.
pub fn fallback_symbol_suffix(path: &str, start_line: i64, kind: SymbolKind) -> (r: String)
    ensures
        r@ == fallback_suffix_spec(path@, start_line, kind),
{
    let p = crate::query::slashes_to_colons_exec(chars_of(path).as_slice());
    let ps = crate::text::string_of(p.as_slice());
    let line = decimal_of(start_line);
    let a = crate::text::concat3("@", ps.as_str(), "::L");
    let b = crate::text::concat3(a.as_str(), line.as_str(), "::K");
    let c = crate::text::concat3(b.as_str(), kind.as_str(), "::");
    proof {
        assert(c@ =~= fallback_suffix_spec(path@, start_line, kind));
    }
    c
}

/// The qualified name tried at the given attempt after a clash: the name,
/// the suffix and the attempt's number.
pub fn retry_qualname(qualname: &str, suffix: &str, attempt: usize) -> (r: String)
    ensures
        r@ == qualname@ + suffix@ + decimal(attempt as int),
{
    let n = decimal_of_usize(attempt);
    crate::text::concat3(qualname, suffix, n.as_str())
}

/// The id stored for a workspace path: that of the first entry with the
/// path.
pub open spec fn path_id(ids: Seq<(String, i64)>, path: Seq<char>) -> Option<i64>
    decreases ids.len(),
{
    if ids.len() == 0 {
        None
    } else if ids[0].0@ == path {
        Some(ids[0].1)
    } else {
        path_id(ids.drop_first(), path)
    }
}

/// Looks up the id stored for a workspace path.
pub fn find_path_id(ids: &Vec<(String, i64)>, path: &String) -> (r: Option<i64>)
    ensures
        r == path_id(ids@, path@),
{
    let mut i: usize = 0;
    assert(ids@.subrange(0, ids@.len() as int) =~= ids@);
    while i < ids.len()
        invariant
            i <= ids@.len(),
            path_id(ids@, path@) == path_id(ids@.subrange(i as int, ids@.len() as int), path@),
        decreases ids@.len() - i,
    {
        assert(ids@.subrange(i as int, ids@.len() as int).drop_first() =~= ids@.subrange(
            i + 1,
            ids@.len() as int,
        ));
        if ids[i].0 == *path {
            return Some(ids[i].1);
        }
        i = i + 1;
    }
    None
}

/// The co-change rows stored for pairs of paths: both paths must be stored
/// and differ; the smaller id comes first.
pub open spec fn cochange_rows_spec(ids: Seq<(String, i64)>, pairs: Seq<GitCochange>) -> Seq<(i64, i64, i64)>
    decreases pairs.len(),
{
    if pairs.len() == 0 {
        Seq::empty()
    } else {
        let prev = cochange_rows_spec(ids, pairs.drop_last());
        let p = pairs.last();
        match (path_id(ids, p.path_a@), path_id(ids, p.path_b@)) {
            (Some(a), Some(b)) => if a == b {
                prev
            } else if a < b {
                prev.push((a, b, p.cochange_count))
            } else {
                prev.push((b, a, p.cochange_count))
            },
            _ => prev,
        }
    }
}

/// The co-change rows to store, in the order of the pairs.
pub fn cochange_rows(ids: &Vec<(String, i64)>, pairs: &Vec<GitCochange>) -> (r: Vec<(i64, i64, i64)>)
    ensures
        r@ == cochange_rows_spec(ids@, pairs@),
{
    let mut r: Vec<(i64, i64, i64)> = Vec::new();
    let mut i: usize = 0;
    while i < pairs.len()
        invariant
            i <= pairs@.len(),
            r@ == cochange_rows_spec(ids@, pairs@.subrange(0, i as int)),
        decreases pairs@.len() - i,
    {
        assert(pairs@.subrange(0, i + 1).drop_last() =~= pairs@.subrange(0, i as int));
        let p = &pairs[i];
        let a = find_path_id(ids, &p.path_a);
        let b = find_path_id(ids, &p.path_b);
        match (a, b) {
            (Some(x), Some(y)) => {
                if x < y {
                    r.push((x, y, p.cochange_count));
                } else if y < x {
                    r.push((y, x, p.cochange_count));
                }
            },
            _ => {},
        }
        i = i + 1;
    }
    assert(pairs@.subrange(0, pairs@.len() as int) =~= pairs@);
    r
}

/// The JSON text of a list of strings, as `serde_json` writes it compactly:
/// '[', the quoted strings separated by ',', then ']'.
#[verifier::opaque]
pub open spec fn json_string_array(items: Seq<Seq<char>>) -> Seq<char> {
    seq!['['] + join(items.map_values(|s: Seq<char>| json_quoted(s)), seq![',']) + seq![']']
}

/// Calls `serde_json::to_string` on a list of strings, which writes them as
/// `json_string_array` of the strings. Serializing a sequence of strings
/// cannot fail.
#[verifier::external_body]
fn json_array(items: &Vec<String>) -> (r: String)
    ensures
        r@ == json_string_array(string_views(items@)),
{
    serde_json::to_string(items).unwrap_or_default()
}

/// A row of per-file git statistics as stored.
pub struct GitStatRow {
    pub file_id: i64,
    pub commit_count: i64,
    pub last_modified: Option<i64>,
    pub last_author: Option<String>,
    pub authors_json: String,
}

/// A stored statistics row as plain values.
pub type StatRowView = (i64, i64, Option<i64>, Option<Seq<char>>, Seq<char>);

/// The view of a statistics row.
pub open spec fn stat_row_view(r: GitStatRow) -> StatRowView {
    (r.file_id, r.commit_count, r.last_modified, opt_view(r.last_author), r.authors_json@)
}

/// The statistics rows stored: one per statistic whose path is stored, in
/// order, with the authors as a JSON array.
pub open spec fn stat_rows_spec(ids: Seq<(String, i64)>, stats: Seq<GitFileStat>) -> Seq<StatRowView>
    decreases stats.len(),
{
    if stats.len() == 0 {
        Seq::empty()
    } else {
        let prev = stat_rows_spec(ids, stats.drop_last());
        let s = stats.last();
        match path_id(ids, s.path@) {
            Some(id) => prev.push(
                (
                    id,
                    s.commit_count,
                    s.last_modified,
                    opt_view(s.last_author),
                    json_string_array(string_views(s.authors@)),
                ),
            ),
            None => prev,
        }
    }
}

/// The statistics rows to store, in the order of the statistics.
pub fn stat_rows(ids: &Vec<(String, i64)>, stats: &Vec<GitFileStat>) -> (r: Vec<GitStatRow>)
    ensures
        r@.map_values(|x: GitStatRow| stat_row_view(x)) == stat_rows_spec(ids@, stats@),
{
    let mut r: Vec<GitStatRow> = Vec::new();
    let mut i: usize = 0;
    while i < stats.len()
        invariant
            i <= stats@.len(),
            r@.map_values(|x: GitStatRow| stat_row_view(x)) == stat_rows_spec(ids@, stats@.subrange(0, i as int)),
        decreases stats@.len() - i,
    {
        assert(stats@.subrange(0, i + 1).drop_last() =~= stats@.subrange(0, i as int));
        let s = &stats[i];
        match find_path_id(ids, &s.path) {
            Some(id) => {
                let row = GitStatRow {
                    file_id: id,
                    commit_count: s.commit_count,
                    last_modified: s.last_modified,
                    last_author: copy_opt_string(&s.last_author),
                    authors_json: json_array(&s.authors),
                };
                let ghost before = r@;
                r.push(row);
                assert(r@.map_values(|x: GitStatRow| stat_row_view(x)) =~= before.map_values(
                    |x: GitStatRow| stat_row_view(x),
                ).push(stat_row_view(row)));
            },
            None => {},
        }
        i = i + 1;
    }
    assert(stats@.subrange(0, stats@.len() as int) =~= stats@);
    r
}


/// Whether a failed insert of a symbol clashed on its qualified name: a
/// constraint violation whose message names "symbols.qualname".
pub open spec fn qualname_conflict_spec(constraint_violation: bool, message: Option<Seq<char>>) -> bool {
    constraint_violation && match message {
        Some(m) => crate::text::seq_contains(m, "symbols.qualname"@),
        None => false,
    }
}

/// Whether a failed insert of a symbol clashed on its qualified name, given
/// whether the database reported a constraint violation and its message.
pub fn is_qualname_conflict(constraint_violation: bool, message: &Option<String>) -> (r: bool)
    ensures
        r == qualname_conflict_spec(constraint_violation, opt_view(*message)),
{
    constraint_violation && match message {
        Some(m) => crate::text::contains(chars_of(m.as_str()).as_slice(), chars_of("symbols.qualname").as_slice()),
        None => false,
    }
}

} // verus!
