//! Which files of a workspace are indexed, and the crate namespace and
//! module path each file belongs to.
//!
//! Paths are handled as their normal components (the parts between
//! separators), which is what every decision here reads of them.

use vstd::prelude::*;

use crate::compactor::string_views;
use crate::text::{
    chars_lt, chars_of, concat2, concat3, copy_range, join, join_chars, last_index, lemma_last_before,
    lemma_seq_lt_order, lemma_seq_lt_trans, rfind, same_chars, seq_ends_with, seq_lt, string_of,
};

verus! {

/// A Rust source file selected for indexing.
#[derive(Debug, Clone)]
pub struct ScannedFile {
    pub absolute_path: String,
    pub workspace_path: String,
    pub crate_name: Option<String>,
    pub mod_path: Option<String>,
    pub is_generated: bool,
}

/// Directory names whose files are never indexed.
pub open spec fn is_excluded_dir(name: Seq<char>) -> bool {
    name == "target"@ || name == ".git"@ || name == "node_modules"@ || name == "dist"@ || name
        == "vendor"@
}

/// The extension of a file name: the text after its last '.', unless that
/// dot is the first character.
pub open spec fn extension_of(name: Seq<char>) -> Option<Seq<char>> {
    let i = last_index(name, seq!['.']);
    if i > 0 {
        Some(name.subrange(i + 1, name.len() as int))
    } else {
        None
    }
}

/// The stem of a file name: the text before its last '.', unless that dot
/// is the first character.
pub open spec fn stem_of(name: Seq<char>) -> Seq<char> {
    let i = last_index(name, seq!['.']);
    if i > 0 {
        name.subrange(0, i)
    } else {
        name
    }
}

/// Whether a file is indexed: its name ends in the extension "rs" and no
/// component of its path is an excluded directory. `components` are the
/// path's normal components, the file name last.
pub open spec fn should_index_spec(components: Seq<Seq<char>>) -> bool {
    components.len() > 0 && extension_of(components.last()) == Some("rs"@) && forall|i: int|
        0 <= i < components.len() ==> !is_excluded_dir(#[trigger] components[i])
}

/// The extension of a file name.
fn extension(name: &Vec<char>) -> (r: Option<Vec<char>>)
    ensures
        match r {
            Some(e) => extension_of(name@) == Some(e@),
            None => extension_of(name@) is None,
        },
{
    let dot: Vec<char> = vec!['.'];
    assert(dot@ =~= seq!['.']);
    match rfind(name.as_slice(), dot.as_slice()) {
        Some(i) => {
            proof {
                lemma_last_before(name@, dot@, name@.len() as int + 1);
            }
            let len = name.len();
            assert(crate::text::matches_at(name@, dot@, i as int));
            if i > 0 {
                Some(copy_range(name.as_slice(), i + 1, len))
            } else {
                None
            }
        },
        None => None,
    }
}

/// The stem of a file name.
fn stem(name: &Vec<char>) -> (r: Vec<char>)
    ensures
        r@ == stem_of(name@),
{
    let dot: Vec<char> = vec!['.'];
    assert(dot@ =~= seq!['.']);
    match rfind(name.as_slice(), dot.as_slice()) {
        Some(i) => {
            proof {
                lemma_last_before(name@, dot@, name@.len() as int + 1);
            }
            if i > 0 {
                copy_range(name.as_slice(), 0, i)
            } else {
                copy_range(name.as_slice(), 0, name.len())
            }
        },
        None => copy_range(name.as_slice(), 0, name.len()),
    }
}

/// Whether a file should be indexed.
pub fn should_index_path(components: &Vec<String>) -> (r: bool)
    ensures
        r == should_index_spec(string_views(components@)),
{
    let ghost cv = string_views(components@);
    if components.len() == 0 {
        return false;
    }
    let name = chars_of(components[components.len() - 1].as_str());
    assert(cv.last() == name@);
    match extension(&name) {
        Some(e) => {
            proof {
                reveal_strlit("rs");
            }
            if !same_chars(e.as_slice(), chars_of("rs").as_slice()) {
                return false;
            }
        },
        None => {
            return false;
        },
    }
    let mut i: usize = 0;
    while i < components.len()
        invariant
            i <= components@.len(),
            cv == string_views(components@),
            forall|k: int| 0 <= k < i ==> !is_excluded_dir(#[trigger] cv[k]),
        decreases components@.len() - i,
    {
        let c = &components[i];
        assert(cv[i as int] == c@);
        if *c == "target".to_owned() || *c == ".git".to_owned() || *c == "node_modules".to_owned()
            || *c == "dist".to_owned() || *c == "vendor".to_owned() {
            return false;
        }
        i = i + 1;
    }
    true
}

/// Whether a workspace path names generated code.
pub open spec fn is_generated_spec(path: Seq<char>) -> bool {
    seq_ends_with(path, ".generated.rs"@) || seq_ends_with(path, "/bindings.rs"@) || path
        == "bindings.rs"@
}

/// Whether a workspace path names generated code.
pub fn is_generated_path(path: &str) -> (r: bool)
    ensures
        r == is_generated_spec(path@),
{
    let p = chars_of(path);
    crate::text::ends_with(p.as_slice(), chars_of(".generated.rs").as_slice())
        || crate::text::ends_with(p.as_slice(), chars_of("/bindings.rs").as_slice()) || same_chars(
        p.as_slice(),
        chars_of("bindings.rs").as_slice(),
    )
}

/// '-' turned into '_'.
pub open spec fn sanitize_ident_spec(v: Seq<char>) -> Seq<char> {
    crate::text::replace_char(v, '-', '_')
}

/// A package or target name made a valid identifier.
pub fn sanitize_ident(value: &str) -> (r: String)
    ensures
        r@ == sanitize_ident_spec(value@),
{
    string_of(crate::text::replace_chars(chars_of(value).as_slice(), '-', '_').as_slice())
}

/// Whether a stem names a crate or module root file.
pub open spec fn is_root_stem(stem: Seq<char>) -> bool {
    stem == "lib"@ || stem == "main"@ || stem == "mod"@
}

/// A file name without a final ".rs".
pub open spec fn strip_rs(name: Seq<char>) -> Seq<char> {
    if seq_ends_with(name, ".rs"@) {
        name.subrange(0, name.len() - 3)
    } else {
        name
    }
}

/// The module path of a file from its components below the source root:
/// the directories, then the file's stem unless it is a root file; none when
/// that leaves nothing.
pub open spec fn module_parts_spec(components: Seq<Seq<char>>) -> Option<Seq<char>> {
    if components.len() == 0 {
        None
    } else {
        let s = strip_rs(components.last());
        let parts = if is_root_stem(s) {
            components.drop_last()
        } else {
            components.drop_last().push(s)
        };
        if parts.len() == 0 {
            None
        } else {
            Some(join(parts, "::"@))
        }
    }
}

/// Whether a name is one of the root stems.
fn is_root_stem_exec(s: &Vec<char>) -> (r: bool)
    ensures
        r == is_root_stem(s@),
{
    same_chars(s.as_slice(), chars_of("lib").as_slice()) || same_chars(
        s.as_slice(),
        chars_of("main").as_slice(),
    ) || same_chars(s.as_slice(), chars_of("mod").as_slice())
}

/// The module path of a file from its components below the source root.
pub fn module_parts_to_path(components: Vec<String>) -> (r: Option<String>)
    ensures
        match r {
            Some(m) => module_parts_spec(string_views(components@)) == Some(m@),
            None => module_parts_spec(string_views(components@)) is None,
        },
{
    let ghost cv = string_views(components@);
    if components.len() == 0 {
        return None;
    }
    let n = components.len();
    let name = chars_of(components[n - 1].as_str());
    assert(cv.last() == name@);
    let rs = chars_of(".rs");
    proof {
        reveal_strlit(".rs");
    }
    let s = if crate::text::ends_with(name.as_slice(), rs.as_slice()) {
        copy_range(name.as_slice(), 0, name.len() - 3)
    } else {
        copy_range(name.as_slice(), 0, name.len())
    };
    assert(s@ == strip_rs(name@)) by {
        assert(name@.subrange(0, name@.len() as int) =~= name@);
    }
    let mut parts: Vec<Vec<char>> = Vec::new();
    let mut i: usize = 0;
    while i + 1 < n
        invariant
            n == components@.len(),
            n >= 1,
            i < n,
            cv == string_views(components@),
            parts@.map_values(|v: Vec<char>| v@) == cv.subrange(0, i as int),
        decreases n - i,
    {
        let ghost before = parts@.map_values(|v: Vec<char>| v@);
        let c = chars_of(components[i].as_str());
        let ghost ccv = c@;
        parts.push(c);
        assert(parts@.map_values(|v: Vec<char>| v@) =~= before.push(ccv));
        assert(cv.subrange(0, i + 1) =~= cv.subrange(0, i as int).push(cv[i as int]));
        i = i + 1;
    }
    assert(cv.subrange(0, (n - 1) as int) =~= cv.drop_last());
    if !is_root_stem_exec(&s) {
        let ghost before = parts@.map_values(|v: Vec<char>| v@);
        let ghost sv = s@;
        parts.push(s);
        assert(parts@.map_values(|v: Vec<char>| v@) =~= before.push(sv));
    }
    if parts.len() == 0 {
        return None;
    }
    Some(string_of(join_chars(&parts, chars_of("::").as_slice()).as_slice()))
}

/// The module path of a file from its components below a module directory.
pub fn path_to_module(relative: Vec<String>) -> (r: Option<String>)
    ensures
        match r {
            Some(m) => module_parts_spec(string_views(relative@)) == Some(m@),
            None => module_parts_spec(string_views(relative@)) is None,
        },
{
    module_parts_to_path(relative)
}

/// The directory holding a target's submodules: beside its source file,
/// named after the file's stem; none for a root file.
pub open spec fn sibling_dir_spec(source: Seq<Seq<char>>) -> Option<Seq<Seq<char>>> {
    if source.len() == 0 {
        None
    } else {
        let st = stem_of(source.last());
        if is_root_stem(st) {
            None
        } else {
            Some(source.drop_last().push(st))
        }
    }
}

/// The directory holding a target's submodules.
pub fn sibling_module_dir(source: &Vec<String>) -> (r: Option<Vec<String>>)
    ensures
        match r {
            Some(d) => sibling_dir_spec(string_views(source@)) == Some(string_views(d@)),
            None => sibling_dir_spec(string_views(source@)) is None,
        },
{
    let ghost sv = string_views(source@);
    if source.len() == 0 {
        return None;
    }
    let n = source.len();
    let name = chars_of(source[n - 1].as_str());
    assert(sv.last() == name@);
    let st = stem(&name);
    if is_root_stem_exec(&st) {
        return None;
    }
    let mut dir: Vec<String> = Vec::new();
    let mut i: usize = 0;
    while i + 1 < n
        invariant
            n == source@.len(),
            n >= 1,
            i < n,
            sv == string_views(source@),
            string_views(dir@) == sv.subrange(0, i as int),
        decreases n - i,
    {
        let ghost before = string_views(dir@);
        dir.push(source[i].clone());
        assert(string_views(dir@) =~= before.push(sv[i as int]));
        assert(sv.subrange(0, i + 1) =~= sv.subrange(0, i as int).push(sv[i as int]));
        i = i + 1;
    }
    let ghost before = string_views(dir@);
    dir.push(string_of(st.as_slice()));
    assert(string_views(dir@) =~= before.push(st@));
    assert(sv.subrange(0, (n - 1) as int) =~= sv.drop_last());
    Some(dir)
}

/// Cargo target namespace used to tell a package's sources apart.
#[derive(Debug, Clone)]
pub struct TargetNamespace {
    pub namespace: String,
    pub source_path: Vec<String>,
    pub module_dir: Option<Vec<String>>,
}

/// A workspace member crate. Paths are absolute, as normal components.
#[derive(Debug, Clone)]
pub struct CrateInfo {
    pub package_name: String,
    pub manifest_path: Vec<String>,
    pub root_dir: Vec<String>,
    pub default_namespace: String,
    pub explicit_targets: Vec<TargetNamespace>,
}

/// What the package metadata says of one build target.
#[derive(Debug, Clone)]
pub struct TargetInfo {
    pub name: String,
    pub kind: Vec<String>,
    pub src_path: Vec<String>,
}

/// What the package metadata says of one package.
#[derive(Debug, Clone)]
pub struct PackageInfo {
    pub name: String,
    pub manifest_path: Vec<String>,
    pub targets: Vec<TargetInfo>,
}

/// Whether `base` is a leading part of path `p`.
pub open spec fn path_starts_with(p: Seq<Seq<char>>, base: Seq<Seq<char>>) -> bool {
    base.len() <= p.len() && p.subrange(0, base.len() as int) == base
}

/// Whether `suffix` is a trailing part of path `p`.
pub open spec fn path_ends_with(p: Seq<Seq<char>>, suffix: Seq<Seq<char>>) -> bool {
    suffix.len() <= p.len() && p.subrange(p.len() - suffix.len(), p.len() as int) == suffix
}

/// Whether a path starts with `base`.
fn starts_with_path(p: &Vec<String>, base: &Vec<String>) -> (r: bool)
    ensures
        r == path_starts_with(string_views(p@), string_views(base@)),
{
    if base.len() > p.len() {
        return false;
    }
    let mut i: usize = 0;
    while i < base.len()
        invariant
            i <= base@.len() <= p@.len(),
            forall|k: int| 0 <= k < i ==> p@[k]@ == base@[k]@,
        decreases base@.len() - i,
    {
        if p[i] != base[i] {
            assert(string_views(p@).subrange(0, base@.len() as int)[i as int] != string_views(base@)[i as int]);
            return false;
        }
        i = i + 1;
    }
    assert(string_views(p@).subrange(0, base@.len() as int) =~= string_views(base@));
    true
}

/// Whether two paths are equal.
fn same_path(a: &Vec<String>, b: &Vec<String>) -> (r: bool)
    ensures
        r == (string_views(a@) == string_views(b@)),
{
    if a.len() != b.len() {
        assert(string_views(a@).len() != string_views(b@).len());
        return false;
    }
    let r = starts_with_path(a, b);
    assert(string_views(a@).subrange(0, b@.len() as int) =~= string_views(a@));
    r
}

/// Whether a list of strings holds `s`.
fn has_string(v: &Vec<String>, s: &str) -> (r: bool)
    ensures
        r == string_views(v@).contains(s@),
{
    let mut i: usize = 0;
    while i < v.len()
        invariant
            i <= v@.len(),
            forall|k: int| 0 <= k < i ==> v@[k]@ != s@,
        decreases v@.len() - i,
    {
        if same_chars(chars_of(v[i].as_str()).as_slice(), chars_of(s).as_slice()) {
            assert(string_views(v@)[i as int] == s@);
            return true;
        }
        i = i + 1;
    }
    assert forall|k: int| 0 <= k < string_views(v@).len() implies string_views(v@)[k] != s@ by {
        assert(string_views(v@)[k] == v@[k]@);
    }
    false
}

/// The namespace of an explicit target of the given kind.
pub open spec fn explicit_namespace_spec(kind: Seq<char>, target_name: Seq<char>, package_name: Seq<char>) -> Seq<
    char,
> {
    let t = sanitize_ident_spec(target_name);
    if kind == "bin"@ {
        package_name + "__bin__"@ + t
    } else if kind == "test"@ {
        package_name + "__test__"@ + t
    } else if kind == "example"@ {
        package_name + "__example__"@ + t
    } else if kind == "bench"@ {
        package_name + "__bench__"@ + t
    } else {
        t
    }
}

/// The namespace of an explicit target of the given kind.
pub fn explicit_namespace(kind: &str, target: &TargetInfo, package_name: &str) -> (r: String)
    ensures
        r@ == explicit_namespace_spec(kind@, target.name@, package_name@),
{
    let t = sanitize_ident(target.name.as_str());
    let k = chars_of(kind);
    if same_chars(k.as_slice(), chars_of("bin").as_slice()) {
        concat3(package_name, "__bin__", t.as_str())
    } else if same_chars(k.as_slice(), chars_of("test").as_slice()) {
        concat3(package_name, "__test__", t.as_str())
    } else if same_chars(k.as_slice(), chars_of("example").as_slice()) {
        concat3(package_name, "__example__", t.as_str())
    } else if same_chars(k.as_slice(), chars_of("bench").as_slice()) {
        concat3(package_name, "__bench__", t.as_str())
    } else {
        t
    }
}

/// Plain view of a target namespace.
pub open spec fn ns_view(t: TargetNamespace) -> (Seq<char>, Seq<Seq<char>>, Option<Seq<Seq<char>>>) {
    (
        t.namespace@,
        string_views(t.source_path@),
        match t.module_dir {
            Some(d) => Some(string_views(d@)),
            None => None,
        },
    )
}

/// The explicit namespace a target gets: binaries other than the package's
/// own `src/main.rs` (unless there is a library), tests, examples and
/// benches.
pub open spec fn explicit_target_spec(t: TargetInfo, package_name: Seq<char>, has_lib: bool) -> Option<
    (Seq<char>, Seq<Seq<char>>, Option<Seq<Seq<char>>>),
> {
    if t.kind@.len() == 0 {
        None
    } else {
        let kind = t.kind@[0]@;
        let src = string_views(t.src_path@);
        let v = (explicit_namespace_spec(kind, t.name@, package_name), src, sibling_dir_spec(src));
        if kind == "bin"@ {
            if path_ends_with(src, seq!["src"@, "main.rs"@]) && !has_lib {
                None
            } else {
                Some(v)
            }
        } else if kind == "test"@ || kind == "example"@ || kind == "bench"@ {
            Some(v)
        } else {
            None
        }
    }
}

/// Whether a path ends with `src/main.rs`.
fn ends_with_src_main(p: &Vec<String>) -> (r: bool)
    ensures
        r == path_ends_with(string_views(p@), seq!["src"@, "main.rs"@]),
{
    let n = p.len();
    if n < 2 {
        return false;
    }
    let a = same_chars(chars_of(p[n - 2].as_str()).as_slice(), chars_of("src").as_slice());
    let b = same_chars(chars_of(p[n - 1].as_str()).as_slice(), chars_of("main.rs").as_slice());
    let ghost tail = string_views(p@).subrange(n - 2, n as int);
    assert(tail[0] == p@[n - 2]@);
    assert(tail[1] == p@[n - 1]@);
    assert((a && b) == (tail =~= seq!["src"@, "main.rs"@])) by {
        if tail =~= seq!["src"@, "main.rs"@] {
            assert(tail[0] == "src"@);
            assert(tail[1] == "main.rs"@);
        }
    }
    a && b
}

/// The explicit namespace of a target, if it gets one.
pub fn build_explicit_target(target: &TargetInfo, package_name: &str, has_lib: bool) -> (r: Option<
    TargetNamespace,
>)
    ensures
        match r {
            Some(t) => explicit_target_spec(*target, package_name@, has_lib) == Some(ns_view(t)),
            None => explicit_target_spec(*target, package_name@, has_lib) is None,
        },
{
    if target.kind.len() == 0 {
        return None;
    }
    let kind = target.kind[0].as_str();
    let namespace = explicit_namespace(kind, target, package_name);
    let module_dir = sibling_module_dir(&target.src_path);
    let mut source_path: Vec<String> = Vec::new();
    let mut i: usize = 0;
    while i < target.src_path.len()
        invariant
            i <= target.src_path@.len(),
            string_views(source_path@) == string_views(target.src_path@).subrange(0, i as int),
        decreases target.src_path@.len() - i,
    {
        let ghost before = string_views(source_path@);
        source_path.push(target.src_path[i].clone());
        assert(string_views(source_path@) =~= before.push(target.src_path@[i as int]@));
        assert(string_views(target.src_path@).subrange(0, i + 1) =~= string_views(target.src_path@).subrange(
            0,
            i as int,
        ).push(target.src_path@[i as int]@));
        i = i + 1;
    }
    assert(string_views(target.src_path@).subrange(0, target.src_path@.len() as int) =~= string_views(
        target.src_path@,
    ));
    let k = chars_of(kind);
    let t = TargetNamespace { namespace, source_path, module_dir };
    if same_chars(k.as_slice(), chars_of("bin").as_slice()) {
        if ends_with_src_main(&target.src_path) && !has_lib {
            None
        } else {
            Some(t)
        }
    } else if same_chars(k.as_slice(), chars_of("test").as_slice()) || same_chars(
        k.as_slice(),
        chars_of("example").as_slice(),
    ) || same_chars(k.as_slice(), chars_of("bench").as_slice()) {
        Some(t)
    } else {
        None
    }
}

/// Index of the first of the first `n` targets accepted by `ok`, or -1.
pub open spec fn first_target(targets: Seq<TargetInfo>, ok: spec_fn(TargetInfo) -> bool, n: nat) -> int
    decreases n,
{
    if n == 0 {
        -1
    } else {
        let p = first_target(targets, ok, (n - 1) as nat);
        if p >= 0 {
            p
        } else if ok(targets[n - 1]) {
            n - 1
        } else {
            -1
        }
    }
}

/// Library targets.
pub open spec fn is_lib_target() -> spec_fn(TargetInfo) -> bool {
    |t: TargetInfo| string_views(t.kind@).contains("lib"@)
}

/// The package's own `src/main.rs` binary.
pub open spec fn is_main_bin_target() -> spec_fn(TargetInfo) -> bool {
    |t: TargetInfo| string_views(t.kind@).contains("bin"@) && path_ends_with(
        string_views(t.src_path@),
        seq!["src"@, "main.rs"@],
    )
}

/// The namespace of a package's sources that no explicit target claims: its
/// library's, else its main binary's, else the package's.
pub open spec fn default_namespace_spec(p: PackageInfo) -> Seq<char> {
    let t = p.targets@;
    let li = first_target(t, is_lib_target(), t.len());
    let bi = first_target(t, is_main_bin_target(), t.len());
    if li >= 0 {
        sanitize_ident_spec(t[li].name@)
    } else if bi >= 0 {
        sanitize_ident_spec(t[bi].name@)
    } else {
        sanitize_ident_spec(p.name@)
    }
}

/// The explicit namespaces of the first `n` targets.
pub open spec fn explicit_targets_spec(
    targets: Seq<TargetInfo>,
    package_name: Seq<char>,
    has_lib: bool,
    n: nat,
) -> Seq<(Seq<char>, Seq<Seq<char>>, Option<Seq<Seq<char>>>)>
    decreases n,
{
    if n == 0 {
        Seq::empty()
    } else {
        let prev = explicit_targets_spec(targets, package_name, has_lib, (n - 1) as nat);
        match explicit_target_spec(targets[n - 1], package_name, has_lib) {
            Some(v) => prev.push(v),
            None => prev,
        }
    }
}

/// Plain view of a crate: name, manifest, root, default namespace, explicit
/// namespaces.
pub open spec fn crate_view(c: CrateInfo) -> (
    Seq<char>,
    Seq<Seq<char>>,
    Seq<Seq<char>>,
    Seq<char>,
    Seq<(Seq<char>, Seq<Seq<char>>, Option<Seq<Seq<char>>>)>,
) {
    (
        c.package_name@,
        string_views(c.manifest_path@),
        string_views(c.root_dir@),
        c.default_namespace@,
        c.explicit_targets@.map_values(|t: TargetNamespace| ns_view(t)),
    )
}

/// The crate a package describes.
pub open spec fn crate_of_spec(p: PackageInfo) -> (
    Seq<char>,
    Seq<Seq<char>>,
    Seq<Seq<char>>,
    Seq<char>,
    Seq<(Seq<char>, Seq<Seq<char>>, Option<Seq<Seq<char>>>)>,
) {
    let m = string_views(p.manifest_path@);
    let pn = sanitize_ident_spec(p.name@);
    let has_lib = first_target(p.targets@, is_lib_target(), p.targets@.len()) >= 0;
    (
        pn,
        m,
        if m.len() > 0 {
            m.drop_last()
        } else {
            Seq::empty()
        },
        default_namespace_spec(p),
        explicit_targets_spec(p.targets@, pn, has_lib, p.targets@.len()),
    )
}

/// Index of the first target accepted by `want_lib` (a library) or else
/// by the main-binary test.
fn find_target(targets: &Vec<TargetInfo>, want_lib: bool) -> (r: Option<usize>)
    ensures
        ({
            let ok = if want_lib {
                is_lib_target()
            } else {
                is_main_bin_target()
            };
            let f = first_target(targets@, ok, targets@.len() as nat);
            &&& r matches Some(i) ==> i as int == f && f >= 0 && i < targets@.len()
            &&& r is None ==> f == -1
        }),
{
    let ghost ok = if want_lib {
        is_lib_target()
    } else {
        is_main_bin_target()
    };
    let mut i: usize = 0;
    while i < targets.len()
        invariant
            i <= targets@.len(),
            ok == (if want_lib {
                is_lib_target()
            } else {
                is_main_bin_target()
            }),
            first_target(targets@, ok, i as nat) == -1,
        decreases targets@.len() - i,
    {
        let t = &targets[i];
        let hit = if want_lib {
            has_string(&t.kind, "lib")
        } else {
            has_string(&t.kind, "bin") && ends_with_src_main(&t.src_path)
        };
        assert(hit == ok(targets@[i as int]));
        if hit {
            proof {
                lemma_first_target_stable(targets@, ok, (i + 1) as nat, targets@.len() as nat);
            }
            return Some(i);
        }
        i = i + 1;
    }
    None
}

/// Once found, the first target stays the same.
proof fn lemma_first_target_stable(targets: Seq<TargetInfo>, ok: spec_fn(TargetInfo) -> bool, m: nat, n: nat)
    requires
        m <= n,
        first_target(targets, ok, m) >= 0,
    ensures
        first_target(targets, ok, n) == first_target(targets, ok, m),
    decreases n - m,
{
    if m < n {
        lemma_first_target_stable(targets, ok, m, (n - 1) as nat);
    }
}

/// A copy of a path.
fn copy_path(p: &Vec<String>) -> (r: Vec<String>)
    ensures
        string_views(r@) == string_views(p@),
{
    let mut r: Vec<String> = Vec::new();
    let mut i: usize = 0;
    while i < p.len()
        invariant
            i <= p@.len(),
            string_views(r@) == string_views(p@).subrange(0, i as int),
        decreases p@.len() - i,
    {
        let ghost before = string_views(r@);
        r.push(p[i].clone());
        assert(string_views(r@) =~= before.push(p@[i as int]@));
        assert(string_views(p@).subrange(0, i + 1) =~= string_views(p@).subrange(0, i as int).push(
            p@[i as int]@,
        ));
        i = i + 1;
    }
    assert(string_views(p@).subrange(0, p@.len() as int) =~= string_views(p@));
    r
}

/// The crate a workspace member package describes.
pub fn package_to_crate_info(package: &PackageInfo) -> (r: CrateInfo)
    ensures
        crate_view(r) == crate_of_spec(*package),
{
    let manifest_path = copy_path(&package.manifest_path);
    let mut root_dir = copy_path(&package.manifest_path);
    if root_dir.len() > 0 {
        let _ = root_dir.pop();
        assert(string_views(root_dir@) =~= string_views(manifest_path@).drop_last());
    }
    let package_name = sanitize_ident(package.name.as_str());
    let lib = find_target(&package.targets, true);
    let has_lib = lib.is_some();
    let default_namespace = match lib {
        Some(i) => sanitize_ident(package.targets[i].name.as_str()),
        None => match find_target(&package.targets, false) {
            Some(i) => sanitize_ident(package.targets[i].name.as_str()),
            None => package_name.clone(),
        },
    };
    let mut explicit_targets: Vec<TargetNamespace> = Vec::new();
    let mut i: usize = 0;
    while i < package.targets.len()
        invariant
            i <= package.targets@.len(),
            has_lib == (first_target(package.targets@, is_lib_target(), package.targets@.len() as nat) >= 0),
            explicit_targets@.map_values(|t: TargetNamespace| ns_view(t)) == explicit_targets_spec(
                package.targets@,
                package_name@,
                has_lib,
                i as nat,
            ),
        decreases package.targets@.len() - i,
    {
        match build_explicit_target(&package.targets[i], package_name.as_str(), has_lib) {
            Some(t) => {
                let ghost before = explicit_targets@.map_values(|t: TargetNamespace| ns_view(t));
                let ghost tv = ns_view(t);
                explicit_targets.push(t);
                assert(explicit_targets@.map_values(|t: TargetNamespace| ns_view(t)) =~= before.push(tv));
            },
            None => {},
        }
        i = i + 1;
    }
    CrateInfo { package_name, manifest_path, root_dir, default_namespace, explicit_targets }
}

/// Among the first `n` members whose root holds the path, the last one with
/// the deepest root, or -1.
pub open spec fn best_crate(members: Seq<CrateInfo>, path: Seq<Seq<char>>, n: nat) -> int
    decreases n,
{
    if n == 0 {
        -1
    } else {
        let prev = best_crate(members, path, (n - 1) as nat);
        let i = n - 1;
        let root = string_views(members[i].root_dir@);
        if path_starts_with(path, root) && (prev < 0 || root.len() >= members[prev].root_dir@.len()) {
            i
        } else {
            prev
        }
    }
}

/// The member crate a file belongs to: the one with the deepest root
/// directory holding it.
pub fn classify_crate(members: &Vec<CrateInfo>, path: &Vec<String>) -> (r: Option<usize>)
    ensures
        match r {
            Some(i) => i as int == best_crate(members@, string_views(path@), members@.len() as nat)
                && i < members@.len(),
            None => best_crate(members@, string_views(path@), members@.len() as nat) == -1,
        },
{
    let mut best: Option<usize> = None;
    let mut i: usize = 0;
    while i < members.len()
        invariant
            i <= members@.len(),
            match best {
                Some(b) => b as int == best_crate(members@, string_views(path@), i as nat) && b < i,
                None => best_crate(members@, string_views(path@), i as nat) == -1,
            },
        decreases members@.len() - i,
    {
        if starts_with_path(path, &members[i].root_dir) {
            match best {
                None => {
                    best = Some(i);
                },
                Some(b) => {
                    if members[i].root_dir.len() >= members[b].root_dir.len() {
                        best = Some(i);
                    }
                },
            }
        }
        i = i + 1;
    }
    best
}

/// Whether an explicit target claims a file: its source file, or a file
/// under its module directory.
pub open spec fn claims(t: (Seq<char>, Seq<Seq<char>>, Option<Seq<Seq<char>>>), path: Seq<Seq<char>>) -> bool {
    path == t.1 || match t.2 {
        Some(d) => path_starts_with(path, d),
        None => false,
    }
}

/// Index of the first of the first `n` explicit targets claiming a file, or -1.
pub open spec fn first_claim(
    ts: Seq<(Seq<char>, Seq<Seq<char>>, Option<Seq<Seq<char>>>)>,
    path: Seq<Seq<char>>,
    n: nat,
) -> int
    decreases n,
{
    if n == 0 {
        -1
    } else {
        let p = first_claim(ts, path, (n - 1) as nat);
        if p >= 0 {
            p
        } else if claims(ts[n - 1], path) {
            n - 1
        } else {
            -1
        }
    }
}

proof fn lemma_first_claim_stable(
    ts: Seq<(Seq<char>, Seq<Seq<char>>, Option<Seq<Seq<char>>>)>,
    path: Seq<Seq<char>>,
    m: nat,
    n: nat,
)
    requires
        m <= n,
        first_claim(ts, path, m) >= 0,
    ensures
        first_claim(ts, path, n) == first_claim(ts, path, m),
    decreases n - m,
{
    if m < n {
        lemma_first_claim_stable(ts, path, m, (n - 1) as nat);
    }
}

/// The first claiming target does claim the file.
proof fn lemma_first_claim_ok(
    ts: Seq<(Seq<char>, Seq<Seq<char>>, Option<Seq<Seq<char>>>)>,
    path: Seq<Seq<char>>,
    n: nat,
)
    requires
        n <= ts.len(),
    ensures
        -1 <= first_claim(ts, path, n) < n,
        first_claim(ts, path, n) >= 0 ==> claims(ts[first_claim(ts, path, n)], path),
    decreases n,
{
    if n > 0 {
        lemma_first_claim_ok(ts, path, (n - 1) as nat);
    }
}

/// The first explicit target of a crate claiming a file.
fn find_claim(c: &CrateInfo, path: &Vec<String>) -> (r: Option<usize>)
    ensures
        ({
            let ts = c.explicit_targets@.map_values(|t: TargetNamespace| ns_view(t));
            let f = first_claim(ts, string_views(path@), ts.len());
            &&& r matches Some(i) ==> i as int == f && i < c.explicit_targets@.len()
            &&& r is None ==> f == -1
        }),
{
    let ghost ts = c.explicit_targets@.map_values(|t: TargetNamespace| ns_view(t));
    let mut i: usize = 0;
    while i < c.explicit_targets.len()
        invariant
            i <= c.explicit_targets@.len(),
            ts == c.explicit_targets@.map_values(|t: TargetNamespace| ns_view(t)),
            first_claim(ts, string_views(path@), i as nat) == -1,
        decreases c.explicit_targets@.len() - i,
    {
        let t = &c.explicit_targets[i];
        assert(ts[i as int] == ns_view(*t));
        let hit = same_path(path, &t.source_path) || match &t.module_dir {
            Some(d) => starts_with_path(path, d),
            None => false,
        };
        if hit {
            proof {
                lemma_first_claim_stable(ts, string_views(path@), (i + 1) as nat, ts.len());
            }
            return Some(i);
        }
        i = i + 1;
    }
    None
}

/// The namespace of a file of a crate: the claiming explicit target's, else
/// a tests, examples or benches namespace for files in those directories,
/// else the crate's default.
pub open spec fn namespace_spec(c: CrateInfo, path: Seq<Seq<char>>) -> Seq<char> {
    let ts = c.explicit_targets@.map_values(|t: TargetNamespace| ns_view(t));
    let ti = first_claim(ts, path, ts.len());
    let root = string_views(c.root_dir@);
    if ti >= 0 {
        ts[ti].0
    } else if path_starts_with(path, root) && path.len() > root.len() {
        let first = path[root.len() as int];
        if first == "tests"@ {
            c.package_name@ + "__tests"@
        } else if first == "examples"@ {
            c.package_name@ + "__examples"@
        } else if first == "benches"@ {
            c.package_name@ + "__benches"@
        } else {
            c.default_namespace@
        }
    } else {
        c.default_namespace@
    }
}

/// The namespace of a file of a crate.
pub fn infer_namespace(c: &CrateInfo, path: &Vec<String>) -> (r: String)
    ensures
        r@ == namespace_spec(*c, string_views(path@)),
{
    let ghost ts = c.explicit_targets@.map_values(|t: TargetNamespace| ns_view(t));
    match find_claim(c, path) {
        Some(i) => {
            assert(ts[i as int] == ns_view(c.explicit_targets@[i as int]));
            return c.explicit_targets[i].namespace.clone();
        },
        None => {},
    }
    let n = c.root_dir.len();
    if starts_with_path(path, &c.root_dir) && path.len() > n {
        let first = &path[n];
        assert(string_views(path@)[n as int] == first@);
        if *first == "tests".to_owned() {
            concat2(c.package_name.as_str(), "__tests")
        } else if *first == "examples".to_owned() {
            concat2(c.package_name.as_str(), "__examples")
        } else if *first == "benches".to_owned() {
            concat2(c.package_name.as_str(), "__benches")
        } else {
            c.default_namespace.clone()
        }
    } else {
        c.default_namespace.clone()
    }
}

/// The module path of a file of a crate: under a claiming target's module
/// directory, from the components below it (none for the target's own
/// source file); else from the components below the crate root, where
/// `src/` is dropped (binaries under `src/bin` have none) and a tests,
/// examples or benches directory leads the path.
pub open spec fn module_path_spec(c: CrateInfo, path: Seq<Seq<char>>) -> Option<Seq<char>> {
    let ts = c.explicit_targets@.map_values(|t: TargetNamespace| ns_view(t));
    let ti = first_claim(ts, path, ts.len());
    let root = string_views(c.root_dir@);
    if ti >= 0 {
        if path == ts[ti].1 {
            None
        } else {
            match ts[ti].2 {
                Some(d) => module_parts_spec(path.subrange(d.len() as int, path.len() as int)),
                None => None,
            }
        }
    } else if !path_starts_with(path, root) {
        None
    } else {
        let rel = path.subrange(root.len() as int, path.len() as int);
        if rel.len() == 0 {
            None
        } else if rel[0] == "src"@ {
            let rest = rel.drop_first();
            if rest.len() > 0 && rest[0] == "bin"@ {
                None
            } else {
                module_parts_spec(rest)
            }
        } else if rel[0] == "tests"@ || rel[0] == "examples"@ || rel[0] == "benches"@ {
            let parts = match module_parts_spec(rel.drop_first()) {
                Some(m) => seq![rel[0], m],
                None => seq![rel[0]],
            };
            Some(join(parts, "::"@))
        } else {
            module_parts_spec(rel)
        }
    }
}

/// The components of a path from index `from` on.
fn subpath(p: &Vec<String>, from: usize) -> (r: Vec<String>)
    requires
        from <= p@.len(),
    ensures
        string_views(r@) == string_views(p@).subrange(from as int, p@.len() as int),
{
    let mut r: Vec<String> = Vec::new();
    let mut i = from;
    while i < p.len()
        invariant
            from <= i <= p@.len(),
            string_views(r@) == string_views(p@).subrange(from as int, i as int),
        decreases p@.len() - i,
    {
        let ghost before = string_views(r@);
        r.push(p[i].clone());
        assert(string_views(r@) =~= before.push(p@[i as int]@));
        assert(string_views(p@).subrange(from as int, i + 1) =~= string_views(p@).subrange(
            from as int,
            i as int,
        ).push(p@[i as int]@));
        i = i + 1;
    }
    r
}

/// The module path of a file of a crate.
pub fn infer_module_path(c: &CrateInfo, path: &Vec<String>) -> (r: Option<String>)
    ensures
        match r {
            Some(m) => module_path_spec(*c, string_views(path@)) == Some(m@),
            None => module_path_spec(*c, string_views(path@)) is None,
        },
{
    let ghost ts = c.explicit_targets@.map_values(|t: TargetNamespace| ns_view(t));
    let ghost pv = string_views(path@);
    proof {
        lemma_first_claim_ok(ts, pv, ts.len());
    }
    match find_claim(c, path) {
        Some(i) => {
            let t = &c.explicit_targets[i];
            assert(ts[i as int] == ns_view(*t));
            if same_path(path, &t.source_path) {
                return None;
            }
            match &t.module_dir {
                Some(d) => {
                    assert(path_starts_with(pv, string_views(d@)));
                    return path_to_module(subpath(path, d.len()));
                },
                None => {
                    return None;
                },
            }
        },
        None => {},
    }
    if !starts_with_path(path, &c.root_dir) {
        return None;
    }
    let n = c.root_dir.len();
    let rel = subpath(path, n);
    let ghost rv = string_views(rel@);
    if rel.len() == 0 {
        return None;
    }
    assert(rv[0] == rel@[0]@);
    if rel[0] == "src".to_owned() {
        let rest = subpath(&rel, 1);
        assert(string_views(rest@) =~= rv.drop_first());
        if rest.len() > 0 && rest[0] == "bin".to_owned() {
            assert(string_views(rest@)[0] == rest@[0]@);
            return None;
        }
        if rest.len() > 0 {
            assert(string_views(rest@)[0] == rest@[0]@);
        }
        return module_parts_to_path(rest);
    }
    if rel[0] == "tests".to_owned() || rel[0] == "examples".to_owned() || rel[0] == "benches".to_owned() {
        let head = rel[0].clone();
        let rest = subpath(&rel, 1);
        assert(string_views(rest@) =~= rv.drop_first());
        let mut parts: Vec<Vec<char>> = Vec::new();
        parts.push(chars_of(head.as_str()));
        match module_parts_to_path(rest) {
            Some(m) => {
                parts.push(chars_of(m.as_str()));
                assert(parts@.map_values(|v: Vec<char>| v@) =~= seq![rv[0], m@]);
            },
            None => {
                assert(parts@.map_values(|v: Vec<char>| v@) =~= seq![rv[0]]);
            },
        }
        return Some(string_of(join_chars(&parts, chars_of("::").as_slice()).as_slice()));
    }
    module_parts_to_path(rel)
}

/// How one walked file is taken.
#[derive(Debug, Clone)]
pub enum ScanResult {
    /// Not a file to index.
    Skip,
    /// A file to index.
    File(ScannedFile),
    /// A file to index that is not under the workspace root.
    OutsideWorkspace,
}

/// The workspace-relative text of a path below the root: its components
/// joined with '/', any '\\' written as '/'.
pub open spec fn workspace_path_spec(rel: Seq<Seq<char>>) -> Seq<char> {
    crate::text::replace_char(join(rel, "/"@), '\\', '/')
}

/// The workspace-relative text of a path below the root.
fn workspace_path_of(rel: &Vec<String>) -> (r: String)
    ensures
        r@ == workspace_path_spec(string_views(rel@)),
{
    let mut parts: Vec<Vec<char>> = Vec::new();
    let mut i: usize = 0;
    while i < rel.len()
        invariant
            i <= rel@.len(),
            parts@.map_values(|v: Vec<char>| v@) == string_views(rel@).subrange(0, i as int),
        decreases rel@.len() - i,
    {
        let ghost before = parts@.map_values(|v: Vec<char>| v@);
        let c = chars_of(rel[i].as_str());
        let ghost cv = c@;
        parts.push(c);
        assert(parts@.map_values(|v: Vec<char>| v@) =~= before.push(cv));
        assert(string_views(rel@).subrange(0, i + 1) =~= string_views(rel@).subrange(0, i as int).push(
            rel@[i as int]@,
        ));
        i = i + 1;
    }
    assert(string_views(rel@).subrange(0, rel@.len() as int) =~= string_views(rel@));
    let joined = join_chars(&parts, chars_of("/").as_slice());
    string_of(crate::text::replace_chars(joined.as_slice(), '\\', '/').as_slice())
}

/// Takes one walked file: whether it is indexed, and if so its workspace
/// path, crate namespace, module path and generated flag.
pub fn scan_file(root: &Vec<String>, members: &Vec<CrateInfo>, path: &Vec<String>, absolute_text: &str) -> (r:
    ScanResult)
    ensures
        !should_index_spec(string_views(path@)) ==> r is Skip,
        should_index_spec(string_views(path@)) && !path_starts_with(
            string_views(path@),
            string_views(root@),
        ) ==> r is OutsideWorkspace,
        should_index_spec(string_views(path@)) && path_starts_with(
            string_views(path@),
            string_views(root@),
        ) ==> (r matches ScanResult::File(f) && {
            let pv = string_views(path@);
            let ws = workspace_path_spec(pv.subrange(root@.len() as int, pv.len() as int));
            let ci = best_crate(members@, pv, members@.len() as nat);
            &&& f.absolute_path@ == absolute_text@
            &&& f.workspace_path@ == ws
            &&& f.is_generated == is_generated_spec(ws)
            &&& ci < 0 ==> f.crate_name is None && f.mod_path is None
            &&& ci >= 0 ==> crate::derived::opt_view(f.crate_name) == Some(
                namespace_spec(members@[ci], pv),
            ) && crate::derived::opt_view(f.mod_path) == module_path_spec(members@[ci], pv)
        }),
{
    if !should_index_path(path) {
        return ScanResult::Skip;
    }
    if !starts_with_path(path, root) {
        return ScanResult::OutsideWorkspace;
    }
    let rel = subpath(path, root.len());
    let workspace_path = workspace_path_of(&rel);
    let is_generated = is_generated_path(workspace_path.as_str());
    let (crate_name, mod_path) = match classify_crate(members, path) {
        Some(ci) => (Some(infer_namespace(&members[ci], path)), infer_module_path(&members[ci], path)),
        None => (None, None),
    };
    ScanResult::File(
        ScannedFile {
            absolute_path: absolute_text.to_owned(),
            workspace_path,
            crate_name,
            mod_path,
            is_generated,
        },
    )
}

/// Whether files come in order of their workspace paths, compared as
/// `String` compares them.
pub open spec fn sorted_by_path(files: Seq<ScannedFile>) -> bool {
    forall|i: int, j: int|
        0 <= i < j < files.len() ==> !seq_lt(files[j].workspace_path@, files[i].workspace_path@)
}

/// Inserting a file in front of the first one whose path is not smaller
/// keeps the order.
proof fn lemma_insert_keeps_order(out: Seq<ScannedFile>, x: ScannedFile, pos: int)
    requires
        sorted_by_path(out),
        0 <= pos <= out.len(),
        forall|k: int| 0 <= k < pos ==> seq_lt(#[trigger] out[k].workspace_path@, x.workspace_path@),
        pos < out.len() ==> !seq_lt(out[pos].workspace_path@, x.workspace_path@),
    ensures
        sorted_by_path(out.insert(pos, x)),
{
    let t = out.insert(pos, x);
    assert forall|i: int, j: int| 0 <= i < j < t.len() implies !seq_lt(
        t[j].workspace_path@,
        t[i].workspace_path@,
    ) by {
        if i < pos && j < pos {
            assert(t[i] == out[i] && t[j] == out[j]);
        } else if i < pos && j == pos {
            lemma_seq_lt_order(out[i].workspace_path@, x.workspace_path@);
        } else if i < pos {
            assert(t[i] == out[i] && t[j] == out[j - 1]);
        } else if i == pos {
            let a = out[j - 1].workspace_path@;
            let p = out[pos].workspace_path@;
            let xv = x.workspace_path@;
            assert(t[j] == out[j - 1]);
            if seq_lt(a, xv) {
                if j - 1 > pos {
                    assert(!seq_lt(a, p));
                    lemma_seq_lt_order(a, p);
                    if seq_lt(p, a) {
                        lemma_seq_lt_trans(p, a, xv);
                    }
                }
            }
        } else {
            assert(t[i] == out[i - 1] && t[j] == out[j - 1]);
        }
    }
}

/// Inserting into a sequence adds the element to its multiset.
proof fn lemma_insert_multiset(s: Seq<ScannedFile>, pos: int, x: ScannedFile)
    requires
        0 <= pos <= s.len(),
    ensures
        s.insert(pos, x).to_multiset() == s.to_multiset().insert(x),
{
    broadcast use vstd::multiset::group_multiset_axioms, vstd::multiset::group_multiset_properties;

    let t = s.insert(pos, x);
    t.to_multiset_ensures();
    assert(t.remove(pos) =~= s);
    assert(t[pos] == x);
    assert(t.to_multiset() =~= s.to_multiset().insert(x));
}

/// The scanned files in order of their workspace paths, compared as
/// `String` compares them: the same files, each as often, sorted.
pub fn sort_by_workspace_path(files: Vec<ScannedFile>) -> (r: Vec<ScannedFile>)
    ensures
        sorted_by_path(r@),
        r@.to_multiset() == files@.to_multiset(),
{
    broadcast use vstd::multiset::group_multiset_axioms, vstd::multiset::group_multiset_properties;

    let ghost all = files@;
    let mut rest = files;
    let mut out: Vec<ScannedFile> = Vec::new();
    proof {
        out@.to_multiset_ensures();
        assert(out@.to_multiset() =~= vstd::multiset::Multiset::empty());
        assert(out@.to_multiset().add(rest@.to_multiset()) =~= all.to_multiset());
    }
    while rest.len() > 0
        invariant
            sorted_by_path(out@),
            out@.to_multiset().add(rest@.to_multiset()) == all.to_multiset(),
        decreases rest@.len(),
    {
        let ghost before = rest@;
        let x = rest.pop().unwrap();
        proof {
            before.drop_last().to_multiset_ensures();
            assert(before.drop_last().push(x) =~= before);
        }
        let key = chars_of(x.workspace_path.as_str());
        let mut pos: usize = 0;
        while pos < out.len() && chars_lt(chars_of(out[pos].workspace_path.as_str()).as_slice(), key.as_slice())
            invariant
                pos <= out@.len(),
                key@ == x.workspace_path@,
                forall|k: int| 0 <= k < pos ==> seq_lt(#[trigger] out@[k].workspace_path@, x.workspace_path@),
            decreases out@.len() - pos,
        {
            pos = pos + 1;
        }
        proof {
            lemma_insert_keeps_order(out@, x, pos as int);
            lemma_insert_multiset(out@, pos as int, x);
            assert(out@.to_multiset().insert(x).add(rest@.to_multiset()) =~= out@.to_multiset().add(
                rest@.to_multiset().insert(x),
            ));
        }
        out.insert(pos, x);
    }
    proof {
        rest@.to_multiset_ensures();
        assert(rest@.to_multiset() =~= vstd::multiset::Multiset::empty());
        assert(out@.to_multiset().add(rest@.to_multiset()) =~= out@.to_multiset());
    }
    out
}

/// Files under `target`, `.git`, `node_modules`, `dist` or `vendor` are never
/// indexed, whatever their name; only Rust files (`.rs`) are.
pub proof fn lemma_excluded_dirs_never_indexed(components: Seq<Seq<char>>, i: int)
    requires
        0 <= i < components.len(),
        components[i] == "target"@ || components[i] == ".git"@ || components[i] == "node_modules"@
            || components[i] == "dist"@ || components[i] == "vendor"@,
    ensures
        !should_index_spec(components),
{
    assert(is_excluded_dir(components[i]));
}

/// A file named `<stem>.rs` with a non-empty stem is indexed exactly when no
/// component of its path is `target`, `.git`, `node_modules`, `dist` or
/// `vendor`.
pub proof fn lemma_rust_files_indexed(components: Seq<Seq<char>>, stem: Seq<char>)
    requires
        components.len() > 0,
        stem.len() > 0,
        components.last() == stem + seq!['.', 'r', 's'],
        forall|i: int|
            0 <= i < components.len() ==> #[trigger] components[i] != "target"@ && components[i] != ".git"@
                && components[i] != "node_modules"@ && components[i] != "dist"@ && components[i] != "vendor"@,
    ensures
        should_index_spec(components),
{
    let name = components.last();
    let n = name.len() as int;
    let dot = seq!['.'];
    assert(!crate::text::matches_at(name, dot, n));
    assert(name[n - 1] == 's');
    assert(name.subrange(n - 1, n)[0] == 's');
    assert(!crate::text::matches_at(name, dot, n - 1));
    assert(name.subrange(n - 2, n - 1)[0] == 'r');
    assert(!crate::text::matches_at(name, dot, n - 2));
    assert(name.subrange(n - 3, n - 2) =~= dot);
    assert(crate::text::matches_at(name, dot, n - 3));
    assert(crate::text::last_before(name, dot, n - 2) == n - 3);
    assert(crate::text::last_before(name, dot, n - 1) == n - 3);
    assert(crate::text::last_before(name, dot, n) == n - 3);
    assert(crate::text::last_before(name, dot, n + 1) == n - 3);
    assert(last_index(name, dot) == n - 3);
    assert(name.subrange(n - 2, n) =~= "rs"@) by {
        reveal_strlit("rs");
    }
    assert(extension_of(name) == Some("rs"@));
}

} // verus!
