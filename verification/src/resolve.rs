//! The path resolver: turns a (referencing path, specifier) pair into a
//! canonical path of an existing file, applying component normalization,
//! extension inference and a directory-index fallback; and resolves bare
//! package specifiers against the package-install root, with a manifest-first
//! main-file lookup and a conventional fallback.
use vstd::prelude::*;

use crate::paths::{has_module_extension, CanonicalPath};
use crate::snapshot::FileSystem;
use crate::strutil::{split_components, split_spec, str_eq};

verus! {

/// The component pops one level off the accumulating path.
pub open spec fn is_parent_component(c: Seq<char>) -> bool {
    c == ".."@
}

/// The component leaves the accumulating path unchanged: a `.` step, or an
/// empty component such as the one a leading `/` or a doubled `//` produces.
pub open spec fn is_ignored_component(c: Seq<char>) -> bool {
    c == "."@ || c.len() == 0
}

/// Walks specifier components left to right onto `acc`: `..` pops the last
/// pushed component but never below depth `floor`, `.` and empty
/// components are ignored, and a normal component is appended.
pub open spec fn normalize_rec(floor: int, acc: Seq<Seq<char>>, comps: Seq<Seq<char>>) -> Seq<
    Seq<char>,
>
    decreases comps.len(),
{
    if comps.len() == 0 {
        acc
    } else {
        let c = comps[0];
        let next = if is_parent_component(c) {
            if acc.len() > floor {
                acc.drop_last()
            } else {
                acc
            }
        } else if is_ignored_component(c) {
            acc
        } else {
            acc.push(c)
        };
        normalize_rec(floor, next, comps.skip(1))
    }
}

/// The directory a relative specifier is resolved against: the parent of a
/// referencing file, or a referencing directory itself.
pub open spec fn base_dir_spec(fs: FileSystem, root: Seq<Seq<char>>) -> Seq<Seq<char>> {
    if fs.is_file(root) && root.len() > 0 {
        root.drop_last()
    } else {
        root
    }
}

/// The candidate extensions for extension inference, most specific dialect
/// first.
pub open spec fn ext_list() -> Seq<Seq<char>> {
    seq![".ts"@, ".tsx"@, ".js"@, ".jsx"@]
}

/// The candidate directory-index file names, in the same dialect order.
pub open spec fn index_list() -> Seq<Seq<char>> {
    seq!["index.ts"@, "index.tsx"@, "index.js"@, "index.jsx"@]
}

/// `p` with `ext` appended to its last component.
pub open spec fn with_ext(p: Seq<Seq<char>>, ext: Seq<char>) -> Seq<Seq<char>> {
    p.drop_last().push(p.last() + ext)
}

/// The first extension candidate that names an existing file.
pub open spec fn first_ext_hit(fs: FileSystem, p: Seq<Seq<char>>, exts: Seq<Seq<char>>) -> Option<
    Seq<Seq<char>>,
>
    decreases exts.len(),
{
    if exts.len() == 0 {
        None
    } else if fs.is_file(with_ext(p, exts[0])) {
        Some(with_ext(p, exts[0]))
    } else {
        first_ext_hit(fs, p, exts.skip(1))
    }
}

/// The first directory-index candidate under `p` that names an existing file.
pub open spec fn first_index_hit(
    fs: FileSystem,
    p: Seq<Seq<char>>,
    names: Seq<Seq<char>>,
) -> Option<Seq<Seq<char>>>
    decreases names.len(),
{
    if names.len() == 0 {
        None
    } else if fs.is_file(p.push(names[0])) {
        Some(p.push(names[0]))
    } else {
        first_index_hit(fs, p, names.skip(1))
    }
}

/// What relative resolution returns: the normalized path when it is itself a
/// file, else the first extension-inference hit, else the first
/// directory-index hit under a normalized path that is a directory, else
/// nothing.
pub open spec fn resolve_relative_spec(
    fs: FileSystem,
    root: Seq<Seq<char>>,
    specifier: Seq<char>,
) -> Option<Seq<Seq<char>>> {
    let base = base_dir_spec(fs, root);
    let p = normalize_rec(0, base, split_spec(specifier));
    if fs.is_file(p) {
        Some(p)
    } else if p.len() > 0 && first_ext_hit(fs, p, ext_list()) is Some {
        first_ext_hit(fs, p, ext_list())
    } else if fs.is_dir(p) && first_index_hit(fs, p, index_list()) is Some {
        first_index_hit(fs, p, index_list())
    } else {
        None
    }
}

/// The root directory of the package a bare specifier names: the install
/// root joined with the specifier's leading segment, or with its two leading
/// segments for a scoped `@scope/name` package.
pub open spec fn package_root_spec(
    install_root: Seq<Seq<char>>,
    comps: Seq<Seq<char>>,
) -> Seq<Seq<char>> {
    if comps.len() >= 2 && comps[0].len() > 0 && comps[0][0] == '@' {
        install_root.push(comps[0]).push(comps[1])
    } else if comps.len() >= 1 {
        install_root.push(comps[0])
    } else {
        install_root
    }
}

/// The conventional main-file fallback of a package: `lib/index.js`, then
/// `index.js` at the package root.
pub open spec fn package_fallback_spec(fs: FileSystem, pkg_root: Seq<Seq<char>>) -> Option<
    Seq<Seq<char>>,
> {
    let lib_idx = pkg_root.push("lib"@).push("index.js"@);
    let root_idx = pkg_root.push("index.js"@);
    if fs.is_file(lib_idx) {
        Some(lib_idx)
    } else if fs.is_file(root_idx) {
        Some(root_idx)
    } else {
        None
    }
}

/// What package resolution returns: the specifier joined under the install
/// root when that names a file with a recognized module extension; otherwise
/// the manifest-declared entry point when it resolves to a file; otherwise
/// the conventional fallback; otherwise nothing.
pub open spec fn resolve_package_spec(
    fs: FileSystem,
    install_root: Seq<Seq<char>>,
    specifier: Seq<char>,
) -> Option<Seq<Seq<char>>> {
    let comps = split_spec(specifier);
    let full = normalize_rec(0, install_root, comps);
    let pkg_root = package_root_spec(install_root, comps);
    if fs.is_file(full) && has_module_extension(full) {
        Some(full)
    } else {
        match fs.main_entry(pkg_root) {
            Some(entry) => {
                let declared = normalize_rec(0, pkg_root, split_spec(entry));
                if fs.is_file(declared) {
                    Some(declared)
                } else {
                    package_fallback_spec(fs, pkg_root)
                }
            },
            None => package_fallback_spec(fs, pkg_root),
        }
    }
}

/// Extension inference tries the four candidates in dialect order.
proof fn lemma_first_ext_unrolled(fs: FileSystem, p: Seq<Seq<char>>)
    ensures
        first_ext_hit(fs, p, ext_list()) == (if fs.is_file(with_ext(p, ".ts"@)) {
            Some(with_ext(p, ".ts"@))
        } else if fs.is_file(with_ext(p, ".tsx"@)) {
            Some(with_ext(p, ".tsx"@))
        } else if fs.is_file(with_ext(p, ".js"@)) {
            Some(with_ext(p, ".js"@))
        } else if fs.is_file(with_ext(p, ".jsx"@)) {
            Some(with_ext(p, ".jsx"@))
        } else {
            None
        }),
{
    assert(ext_list().skip(1) =~= seq![".tsx"@, ".js"@, ".jsx"@]);
    assert(seq![".tsx"@, ".js"@, ".jsx"@].skip(1) =~= seq![".js"@, ".jsx"@]);
    assert(seq![".js"@, ".jsx"@].skip(1) =~= seq![".jsx"@]);
    assert(seq![".jsx"@].skip(1) =~= Seq::<Seq<char>>::empty());
    reveal_with_fuel(first_ext_hit, 6);
}

/// The directory-index fallback tries the four index names in dialect order.
proof fn lemma_first_index_unrolled(fs: FileSystem, p: Seq<Seq<char>>)
    ensures
        first_index_hit(fs, p, index_list()) == (if fs.is_file(p.push("index.ts"@)) {
            Some(p.push("index.ts"@))
        } else if fs.is_file(p.push("index.tsx"@)) {
            Some(p.push("index.tsx"@))
        } else if fs.is_file(p.push("index.js"@)) {
            Some(p.push("index.js"@))
        } else if fs.is_file(p.push("index.jsx"@)) {
            Some(p.push("index.jsx"@))
        } else {
            None
        }),
{
    assert(index_list().skip(1) =~= seq!["index.tsx"@, "index.js"@, "index.jsx"@]);
    assert(seq!["index.tsx"@, "index.js"@, "index.jsx"@].skip(1) =~= seq![
        "index.js"@,
        "index.jsx"@,
    ]);
    assert(seq!["index.js"@, "index.jsx"@].skip(1) =~= seq!["index.jsx"@]);
    assert(seq!["index.jsx"@].skip(1) =~= Seq::<Seq<char>>::empty());
    reveal_with_fuel(first_index_hit, 6);
}

/// `p` extended by one component.
pub fn push_component_exec(p: &CanonicalPath, name: &str) -> (r: CanonicalPath)
    ensures
        r@ == p@.push(name@),
{
    let mut comps = crate::paths::clone_string_vec(&p.components);
    let ghost prev = comps.deep_view();
    comps.push(name.to_owned());
    proof {
        assert(comps.deep_view() =~= prev.push(name@));
    }
    CanonicalPath { components: comps }
}

/// `p` with `ext` appended to its last component.
fn with_ext_exec(p: &CanonicalPath, ext: &str) -> (r: CanonicalPath)
    requires
        p@.len() > 0,
    ensures
        r@ == with_ext(p@, ext@),
{
    let mut comps = crate::paths::clone_string_vec(&p.components);
    let last = comps[comps.len() - 1].clone();
    let extended = last.concat(ext);
    comps.pop();
    let ghost prev = comps.deep_view();
    proof {
        assert(comps.deep_view() =~= p@.drop_last());
    }
    comps.push(extended);
    proof {
        assert(comps.deep_view() =~= prev.push(p@.last() + ext@));
    }
    CanonicalPath { components: comps }
}

/// Normalizes specifier components onto the base directory `base`; `..`
/// cannot pop below the filesystem root.
fn normalize_from(base: Vec<String>, comps: &Vec<String>) -> (r: Vec<String>)
    ensures
        r.deep_view() == normalize_rec(0, base.deep_view(), comps.deep_view()),
{
    let ghost base_dv = base.deep_view();
    let ghost comps_dv = comps.deep_view();
    let floor: usize = 0;
    let mut acc = base;
    let mut i: usize = 0;
    proof {
        assert(comps_dv.skip(0) =~= comps_dv);
    }
    while i < comps.len()
        invariant
            i <= comps@.len(),
            comps_dv == comps.deep_view(),
            comps_dv.len() == comps@.len(),
            normalize_rec(floor as int, acc.deep_view(), comps_dv.skip(i as int)) == normalize_rec(
                floor as int,
                base_dv,
                comps_dv,
            ),
        decreases comps@.len() - i,
    {
        let c = &comps[i];
        proof {
            assert(comps_dv.skip(i as int)[0] == comps_dv[i as int]);
            assert(comps_dv[i as int] == comps@[i as int]@);
            assert(comps_dv.skip(i as int).skip(1) =~= comps_dv.skip(i + 1));
        }
        if str_eq(c.as_str(), "..") {
            if acc.len() > floor {
                let ghost prev = acc.deep_view();
                acc.pop();
                proof {
                    assert(acc.deep_view() =~= prev.drop_last());
                }
            }
        } else if str_eq(c.as_str(), ".") || c.as_str().is_empty() {
            // `.` steps and empty components leave the path unchanged
        } else {
            let ghost prev = acc.deep_view();
            acc.push(c.clone());
            proof {
                assert(acc.deep_view() =~= prev.push(comps@[i as int]@));
            }
        }
        i = i + 1;
    }
    proof {
        assert(comps_dv.skip(comps@.len() as int) =~= Seq::<Seq<char>>::empty());
    }
    acc
}

/// Resolves a relative specifier from the module at `root` to the canonical
/// path of an existing file, per the rules of `resolve_relative_spec`.
pub fn resolve_relative(fs: &FileSystem, root: &CanonicalPath, specifier: &String) -> (r: Option<
    CanonicalPath,
>)
    requires
        fs.wf(),
    ensures
        match r {
            Some(p) => resolve_relative_spec(*fs, root@, specifier@) == Some(p@),
            None => resolve_relative_spec(*fs, root@, specifier@) is None,
        },
{
    let base: Vec<String> = if fs.is_file_q(root) && root.depth() > 0 {
        let mut b = crate::paths::clone_string_vec(&root.components);
        b.pop();
        proof {
            assert(b.deep_view() =~= root@.drop_last());
        }
        b
    } else {
        crate::paths::clone_string_vec(&root.components)
    };
    proof {
        assert(base.deep_view() == base_dir_spec(*fs, root@));
    }
    let comps = split_components(specifier.as_str());
    let normalized = normalize_from(base, &comps);
    let path = CanonicalPath::from_components(normalized);
    let ghost pv = path@;
    proof {
        assert(pv == normalize_rec(0, base_dir_spec(*fs, root@), split_spec(specifier@)));
    }
    if fs.is_file_q(&path) {
        return Some(path);
    }
    if path.depth() > 0 {
        proof {
            lemma_first_ext_unrolled(*fs, pv);
        }
        let c0 = with_ext_exec(&path, ".ts");
        if fs.is_file_q(&c0) {
            return Some(c0);
        }
        let c1 = with_ext_exec(&path, ".tsx");
        if fs.is_file_q(&c1) {
            return Some(c1);
        }
        let c2 = with_ext_exec(&path, ".js");
        if fs.is_file_q(&c2) {
            return Some(c2);
        }
        let c3 = with_ext_exec(&path, ".jsx");
        if fs.is_file_q(&c3) {
            return Some(c3);
        }
    }
    if fs.is_dir_q(&path) {
        proof {
            lemma_first_index_unrolled(*fs, pv);
        }
        let i0 = push_component_exec(&path, "index.ts");
        if fs.is_file_q(&i0) {
            return Some(i0);
        }
        let i1 = push_component_exec(&path, "index.tsx");
        if fs.is_file_q(&i1) {
            return Some(i1);
        }
        let i2 = push_component_exec(&path, "index.js");
        if fs.is_file_q(&i2) {
            return Some(i2);
        }
        let i3 = push_component_exec(&path, "index.jsx");
        if fs.is_file_q(&i3) {
            return Some(i3);
        }
    }
    None
}

/// Resolves a bare specifier against the package-install root to the
/// canonical path of an existing file, per `resolve_package_spec`.
pub fn resolve_package(fs: &FileSystem, install_root: &CanonicalPath, specifier: &String) -> (r:
    Option<CanonicalPath>)
    requires
        fs.wf(),
    ensures
        match r {
            Some(p) => resolve_package_spec(*fs, install_root@, specifier@) == Some(p@),
            None => resolve_package_spec(*fs, install_root@, specifier@) is None,
        },
{
    let comps = split_components(specifier.as_str());
    let base = crate::paths::clone_string_vec(&install_root.components);
    let normalized = normalize_from(base, &comps);
    let full = CanonicalPath::from_components(normalized);
    if fs.is_file_q(&full) && crate::paths::has_module_extension_exec(&full) {
        return Some(full);
    }
    let scoped = comps.len() >= 2 && is_scope_component(&comps[0]);
    proof {
        assert(comps.deep_view()[0] == comps@[0]@);
        if comps@.len() >= 2 {
            assert(comps.deep_view()[1] == comps@[1]@);
        }
    }
    let pkg_root = if scoped {
        let p1 = push_component_exec(install_root, comps[0].as_str());
        push_component_exec(&p1, comps[1].as_str())
    } else {
        push_component_exec(install_root, comps[0].as_str())
    };
    proof {
        assert(pkg_root@ == package_root_spec(install_root@, split_spec(specifier@)));
    }
    match fs.package_main(&pkg_root) {
        Some(entry) => {
            let entry_comps = split_components(entry.as_str());
            let pkg_base = crate::paths::clone_string_vec(&pkg_root.components);
            let declared = normalize_from(pkg_base, &entry_comps);
            let declared_path = CanonicalPath::from_components(declared);
            if fs.is_file_q(&declared_path) {
                return Some(declared_path);
            }
            package_fallback(fs, &pkg_root)
        },
        None => package_fallback(fs, &pkg_root),
    }
}

/// The first specifier component names a package scope (`@scope`).
fn is_scope_component(c: &String) -> (r: bool)
    ensures
        r == (c@.len() > 0 && c@[0] == '@'),
{
    if c.as_str().is_empty() {
        return false;
    }
    let ch = c.as_str().get_char(0);
    ch == '@'
}

/// The conventional main-file fallback of package resolution: a bare
/// specifier whose joined path names no module file, for a package that
/// declares no manifest entry point, resolves to `lib/index.js` under the
/// package root whenever that file exists.
pub proof fn lemma_package_conventional_fallback(
    fs: FileSystem,
    install_root: Seq<Seq<char>>,
    specifier: Seq<char>,
)
    requires
        !(fs.is_file(normalize_rec(0, install_root, split_spec(specifier)))
            && has_module_extension(normalize_rec(0, install_root, split_spec(specifier)))),
        fs.main_entry(package_root_spec(install_root, split_spec(specifier))) is None,
        fs.is_file(
            package_root_spec(install_root, split_spec(specifier)).push("lib"@).push(
                "index.js"@,
            ),
        ),
    ensures
        resolve_package_spec(fs, install_root, specifier) == Some(
            package_root_spec(install_root, split_spec(specifier)).push("lib"@).push(
                "index.js"@,
            ),
        ),
{
}

/// Probes the conventional package main-file candidates under `pkg_root`.
fn package_fallback(fs: &FileSystem, pkg_root: &CanonicalPath) -> (r: Option<CanonicalPath>)
    requires
        fs.wf(),
    ensures
        match r {
            Some(p) => package_fallback_spec(*fs, pkg_root@) == Some(p@),
            None => package_fallback_spec(*fs, pkg_root@) is None,
        },
{
    let lib = push_component_exec(pkg_root, "lib");
    let lib_idx = push_component_exec(&lib, "index.js");
    if fs.is_file_q(&lib_idx) {
        return Some(lib_idx);
    }
    let root_idx = push_component_exec(pkg_root, "index.js");
    if fs.is_file_q(&root_idx) {
        return Some(root_idx);
    }
    None
}

} // verus!
