//! Workspace-relative paths as they are stored in and looked up from the
//! index.

use vstd::prelude::*;

use crate::derived::opt_view;
use crate::text::{chars_of, join, join_chars, lines, lines_of, replace_char, replace_chars, string_of};

verus! {

/// Whether a path could count as absolute on some platform: it starts with
/// a separator ('/' or '\'), or its second character is ':' as after a
/// drive letter.
pub open spec fn may_be_absolute(path: Seq<char>) -> bool {
    path.len() > 0 && (path[0] == '/' || path[0] == '\\' || (path.len() >= 2 && path[1] == ':'))
}

/// Calls `Path::is_absolute` on `path`. Its documentation: on Unix a path is
/// absolute when it starts with the root; on Windows when it has a prefix
/// (a disk such as `C:`, or one of the forms that begin with `\\`) and
/// starts with the root. So an absolute path starts with a separator or has
/// ':' as its second character; which of those paths count as absolute
/// depends on the platform and is left unsaid.
#[verifier::external_body]
fn path_is_absolute(path: &str) -> (r: bool)
    ensures
        r ==> may_be_absolute(path@),
{
    std::path::Path::new(path).is_absolute()
}

/// Calls `Path::strip_prefix` with `root` on `path` and turns the remainder
/// into a string; `None` when `root` is not a prefix. How a path splits into
/// components depends on the platform, so nothing is stated of the result.
#[verifier::external_body]
fn path_without_root(path: &str, root: &str) -> (r: Option<String>) {
    std::path::Path::new(path).strip_prefix(root).ok().map(|p| p.to_string_lossy().into_owned())
}

/// The stored form of a path: for an absolute path, what follows the
/// workspace root when the root is its prefix, else the whole path; every
/// '\' written as '/'.
pub open spec fn normalized_path_spec(path: Seq<char>, absolute: bool, stripped: Option<Seq<char>>) -> Seq<char> {
    let p = if absolute {
        match stripped {
            Some(s) => s,
            None => path,
        }
    } else {
        path
    };
    replace_char(p, '\\', '/')
}

/// The stored form of a path, given whether it is absolute and what is left
/// of it once the workspace root is stripped.
pub fn normalized_path(path: &str, absolute: bool, stripped: Option<String>) -> (r: String)
    ensures
        r@ == normalized_path_spec(path@, absolute, opt_view(stripped)),
{
    let p = if absolute {
        match stripped {
            Some(s) => s,
            None => path.to_owned(),
        }
    } else {
        path.to_owned()
    };
    string_of(replace_chars(chars_of(p.as_str()).as_slice(), '\\', '/').as_slice())
}

/// Resolves a lookup path to the workspace-relative form stored in the
/// index: `normalized_path` of what `Path::is_absolute` and
/// `Path::strip_prefix` give for it. A path that cannot be absolute on any
/// platform is kept whole, with every '\' written as '/'; the result never
/// holds a '\'.
pub fn normalize_workspace_path(workspace_root: &str, path: &str) -> (r: String)
    ensures
        !may_be_absolute(path@) ==> r@ == replace_char(path@, '\\', '/'),
        forall|i: int| 0 <= i < r@.len() ==> r@[i] != '\\',
{
    let absolute = path_is_absolute(path);
    let stripped = if absolute {
        path_without_root(path, workspace_root)
    } else {
        None
    };
    let r = normalized_path(path, absolute, stripped);
    assert forall|i: int| 0 <= i < r@.len() implies r@[i] != '\\' by {}
    r
}


/// Normalising a path that cannot be absolute twice gives the path
/// normalised once: its stored form is again a path that cannot be absolute,
/// and writing '\' as '/' in it changes nothing. With the contract of
/// `normalize_workspace_path`, a second normalisation returns the first.
pub proof fn lemma_relative_normalization_stable(path: Seq<char>)
    requires
        !may_be_absolute(path),
    ensures
        !may_be_absolute(replace_char(path, '\\', '/')),
        replace_char(replace_char(path, '\\', '/'), '\\', '/') == replace_char(path, '\\', '/'),
{
    let once = replace_char(path, '\\', '/');
    assert(replace_char(once, '\\', '/') =~= once);
}

/// The lines numbered `start` to `end` (from 1, both included) of a text,
/// as far as it has them.
pub open spec fn line_window(text: Seq<char>, start: nat, end: nat) -> Seq<Seq<char>> {
    let ls = lines(text);
    let hi = if end < ls.len() {
        end
    } else {
        ls.len()
    };
    if start == 0 || start - 1 >= hi {
        Seq::empty()
    } else {
        ls.subrange(start - 1, hi as int)
    }
}

/// The content of a snippet: the lines numbered `start` to `end` of a file's
/// text, joined by newlines, with a final newline. `None` for a range that
/// starts at 0 or ends before it starts.
pub fn snippet_content(text: &str, start: usize, end: usize) -> (r: Option<String>)
    ensures
        r is None <==> (start == 0 || end < start),
        r matches Some(c) ==> c@ == join(line_window(text@, start as nat, end as nat), "\n"@) + "\n"@,
{
    if start == 0 || end < start {
        return None;
    }
    let ls = lines_of(chars_of(text).as_slice());
    let ghost lv = ls@.map_values(|v: Vec<char>| v@);
    let hi = if end < ls.len() {
        end
    } else {
        ls.len()
    };
    let mut kept: Vec<Vec<char>> = Vec::new();
    let mut i: usize = start - 1;
    if i < hi {
        assert(kept@.map_values(|v: Vec<char>| v@) =~= lv.subrange(start - 1, i as int));
        while i < hi
            invariant
                start >= 1,
                hi <= ls@.len(),
                lv == ls@.map_values(|v: Vec<char>| v@),
                start - 1 <= i <= hi,
                kept@.map_values(|v: Vec<char>| v@) == lv.subrange(start - 1, i as int),
            decreases hi - i,
        {
            let ghost before = kept@.map_values(|v: Vec<char>| v@);
            let line = crate::text::copy_range(ls[i].as_slice(), 0, ls[i].len());
            assert(ls[i as int]@.subrange(0, ls[i as int]@.len() as int) =~= ls[i as int]@);
            kept.push(line);
            assert(kept@.map_values(|v: Vec<char>| v@) =~= before.push(lv[i as int]));
            assert(lv.subrange(start - 1, i + 1) =~= lv.subrange(start - 1, i as int).push(lv[i as int]));
            i = i + 1;
        }
    }
    assert(kept@.map_values(|v: Vec<char>| v@) =~= line_window(text@, start as nat, end as nat));
    let nl = chars_of("\n");
    let mut body = join_chars(&kept, nl.as_slice());
    body.push('\n');
    proof {
        reveal_strlit("\n");
    }
    let r = string_of(body.as_slice());
    assert(r@ =~= join(line_window(text@, start as nat, end as nat), "\n"@) + "\n"@);
    Some(r)
}

} // verus!
