//! The asset model and the module analyzer: one module's declared dependency
//! edges, split into resolved first-party paths, bare third-party specifiers,
//! and re-export targets; and the Asset node that ties a module's identity,
//! location and dependencies together.
use vstd::prelude::*;

use crate::parse::{RawDecl, RawDeclView};
use crate::paths::CanonicalPath;
use crate::resolve::resolve_relative_spec;
use crate::snapshot::FileSystem;
use crate::specifier::{classify, is_relative_specifier, SpecifierKind};

verus! {

/// The dependency edges declared by one module, in source order:
/// `first_party` holds resolved local imports and resolved re-exports,
/// `third_party` holds bare or unresolvable specifiers, and `exports` holds
/// the distinguished subset of re-export targets.
#[derive(Debug)]
pub struct Dependencies {
    pub first_party: Vec<CanonicalPath>,
    pub third_party: Vec<String>,
    pub exports: Vec<CanonicalPath>,
}

/// The mathematical shape of `Dependencies`.
pub ghost struct DepsView {
    pub first_party: Seq<Seq<Seq<char>>>,
    pub third_party: Seq<Seq<char>>,
    pub exports: Seq<Seq<Seq<char>>>,
}

impl View for Dependencies {
    type V = DepsView;

    open spec fn view(&self) -> DepsView {
        DepsView {
            first_party: self.first_party.deep_view(),
            third_party: self.third_party.deep_view(),
            exports: self.exports.deep_view(),
        }
    }
}

/// Clones a vector of paths element by element.
pub fn clone_path_vec(v: &Vec<CanonicalPath>) -> (r: Vec<CanonicalPath>)
    ensures
        r.deep_view() == v.deep_view(),
{
    let mut r: Vec<CanonicalPath> = Vec::new();
    let mut i: usize = 0;
    while i < v.len()
        invariant
            i <= v.len(),
            r.deep_view() =~= v.deep_view().take(i as int),
        decreases v.len() - i,
    {
        let p = v[i].clone();
        let ghost prev = r.deep_view();
        r.push(p);
        proof {
            assert(r.deep_view() =~= prev.push(p@));
            assert(r.deep_view() =~= v.deep_view().take(i + 1));
        }
        i = i + 1;
    }
    proof {
        assert(v.deep_view().take(v.len() as int) =~= v.deep_view());
    }
    r
}

impl Dependencies {
    /// The resolved first-party dependency paths, in source order.
    pub fn first_party(&self) -> (r: Vec<CanonicalPath>)
        ensures
            r.deep_view() == self@.first_party,
    {
        clone_path_vec(&self.first_party)
    }

    /// The third-party specifiers, in source order.
    pub fn third_party(&self) -> (r: Vec<String>)
        ensures
            r.deep_view() == self@.third_party,
    {
        crate::paths::clone_string_vec(&self.third_party)
    }

    /// The re-export target paths, in source order.
    pub fn exports(&self) -> (r: Vec<CanonicalPath>)
        ensures
            r.deep_view() == self@.exports,
    {
        clone_path_vec(&self.exports)
    }
}

impl Clone for Dependencies {
    fn clone(&self) -> (r: Self)
        ensures
            r@ == self@,
    {
        Dependencies {
            first_party: clone_path_vec(&self.first_party),
            third_party: crate::paths::clone_string_vec(&self.third_party),
            exports: clone_path_vec(&self.exports),
        }
    }
}

/// One node of the module graph: a unique identifier, the module's canonical
/// path, and its declared dependencies. Created once per distinct path and
/// never mutated afterwards.
#[derive(Debug)]
pub struct Asset {
    pub id: usize,
    pub path: CanonicalPath,
    pub dependencies: Dependencies,
}

impl Asset {
    /// The module's declared dependencies.
    pub fn dependencies(&self) -> (r: Dependencies)
        ensures
            r@ == self.dependencies@,
    {
        self.dependencies.clone()
    }

    /// The module's canonical path.
    pub fn path(&self) -> (r: CanonicalPath)
        ensures
            r@ == self.path@,
    {
        self.path.clone()
    }
}

impl Clone for Asset {
    fn clone(&self) -> (r: Self)
        ensures
            r.id == self.id,
            r.path@ == self.path@,
            r.dependencies@ == self.dependencies@,
    {
        Asset { id: self.id, path: self.path.clone(), dependencies: self.dependencies.clone() }
    }
}

/// No dependency edges.
pub open spec fn empty_deps() -> DepsView {
    DepsView {
        first_party: Seq::empty(),
        third_party: Seq::empty(),
        exports: Seq::empty(),
    }
}

/// The effect of a re-export declaration with source specifier `s`: a
/// relative specifier that resolves joins `first_party` and `exports`; any
/// other specifier is classified third-party.
pub open spec fn reexport_effect(
    fs: FileSystem,
    mpath: Seq<Seq<char>>,
    acc: DepsView,
    s: Seq<char>,
) -> DepsView {
    if is_relative_specifier(s) {
        match resolve_relative_spec(fs, mpath, s) {
            Some(p) => DepsView {
                first_party: acc.first_party.push(p),
                exports: acc.exports.push(p),
                third_party: acc.third_party,
            },
            None => DepsView { third_party: acc.third_party.push(s), ..acc },
        }
    } else {
        DepsView { third_party: acc.third_party.push(s), ..acc }
    }
}

/// The effect of one declaration on the accumulated dependency record: an
/// import with a relative specifier that resolves joins `first_party`, an
/// import that is bare or does not resolve is recorded third-party, the two
/// re-export forms with a source behave per `reexport_effect`, and a named
/// export without a source, like any other item, contributes nothing.
pub open spec fn decl_effect(
    fs: FileSystem,
    mpath: Seq<Seq<char>>,
    acc: DepsView,
    d: RawDeclView,
) -> DepsView {
    match d {
        RawDeclView::Import { specifier } => {
            if is_relative_specifier(specifier) {
                match resolve_relative_spec(fs, mpath, specifier) {
                    Some(p) => DepsView { first_party: acc.first_party.push(p), ..acc },
                    None => DepsView { third_party: acc.third_party.push(specifier), ..acc },
                }
            } else {
                DepsView { third_party: acc.third_party.push(specifier), ..acc }
            }
        },
        RawDeclView::ExportAll { specifier } => reexport_effect(fs, mpath, acc, specifier),
        RawDeclView::ExportNamed { specifier } => match specifier {
            Some(s) => reexport_effect(fs, mpath, acc, s),
            None => acc,
        },
        RawDeclView::Other => acc,
    }
}

/// Folds `decl_effect` over the declarations, left to right.
pub open spec fn analyze_rec(
    fs: FileSystem,
    mpath: Seq<Seq<char>>,
    decls: Seq<RawDeclView>,
    acc: DepsView,
) -> DepsView
    decreases decls.len(),
{
    if decls.len() == 0 {
        acc
    } else {
        analyze_rec(fs, mpath, decls.skip(1), decl_effect(fs, mpath, acc, decls[0]))
    }
}

/// The dependency record a module's declarations denote.
pub open spec fn analyze_spec(
    fs: FileSystem,
    mpath: Seq<Seq<char>>,
    decls: Seq<RawDeclView>,
) -> DepsView {
    analyze_rec(fs, mpath, decls, empty_deps())
}

/// A named export without a source specifier contributes no entry to
/// `first_party`, `third_party` or `exports`: the dependency record is
/// unchanged.
pub proof fn lemma_named_export_without_source_adds_nothing(
    fs: FileSystem,
    mpath: Seq<Seq<char>>,
    acc: DepsView,
)
    ensures
        decl_effect(fs, mpath, acc, RawDeclView::ExportNamed { specifier: None }) == acc,
{
}

/// An import whose specifier is bare, or relative but resolving to no local
/// file, is recorded in `third_party` with the literal specifier string —
/// never silently dropped — and leaves the other sequences unchanged.
pub proof fn lemma_unresolvable_import_reclassified(
    fs: FileSystem,
    mpath: Seq<Seq<char>>,
    acc: DepsView,
    s: Seq<char>,
)
    requires
        !is_relative_specifier(s) || resolve_relative_spec(fs, mpath, s) is None,
    ensures
        decl_effect(fs, mpath, acc, RawDeclView::Import { specifier: s }) == (DepsView {
            third_party: acc.third_party.push(s),
            ..acc
        }),
{
}

/// Walks one module's declarations in source order, resolves each edge, and
/// assembles the module's Asset under the next identifier.
pub fn track_dependencies(
    fs: &FileSystem,
    id: &mut usize,
    mod_path: CanonicalPath,
    decls: &Vec<RawDecl>,
) -> (r: Asset)
    requires
        fs.wf(),
        *old(id) < usize::MAX,
    ensures
        *final(id) == *old(id) + 1,
        r.id == *final(id),
        r.path@ == mod_path@,
        r.dependencies@ == analyze_spec(*fs, mod_path@, decls.deep_view()),
{
    let ghost dv = decls.deep_view();
    let ghost mv = mod_path@;
    let mut fp: Vec<CanonicalPath> = Vec::new();
    let mut tp: Vec<String> = Vec::new();
    let mut ex: Vec<CanonicalPath> = Vec::new();
    let mut i: usize = 0;
    proof {
        assert(dv.skip(0) =~= dv);
        assert(fp.deep_view() =~= Seq::<Seq<Seq<char>>>::empty());
        assert(tp.deep_view() =~= Seq::<Seq<char>>::empty());
        assert(ex.deep_view() =~= Seq::<Seq<Seq<char>>>::empty());
    }
    while i < decls.len()
        invariant
            fs.wf(),
            i <= decls@.len(),
            dv == decls.deep_view(),
            dv.len() == decls@.len(),
            mv == mod_path@,
            analyze_rec(
                *fs,
                mv,
                dv.skip(i as int),
                DepsView {
                    first_party: fp.deep_view(),
                    third_party: tp.deep_view(),
                    exports: ex.deep_view(),
                },
            ) == analyze_spec(*fs, mv, dv),
        decreases decls@.len() - i,
    {
        let ghost acc = DepsView {
            first_party: fp.deep_view(),
            third_party: tp.deep_view(),
            exports: ex.deep_view(),
        };
        proof {
            assert(dv[i as int] == decls@[i as int].deep_view());
            assert(dv.skip(i as int)[0] == dv[i as int]);
            assert(dv.skip(i as int).skip(1) =~= dv.skip(i + 1));
        }
        match &decls[i] {
            RawDecl::Import { specifier } => {
                if classify(specifier.as_str()) == SpecifierKind::Relative {
                    match crate::resolve::resolve_relative(fs, &mod_path, specifier) {
                        Some(p) => {
                            let ghost prev = fp.deep_view();
                            proof {
                                assert(decl_effect(*fs, mv, acc, dv[i as int]) == DepsView {
                                    first_party: prev.push(p@),
                                    ..acc
                                });
                            }
                            fp.push(p);
                            proof {
                                assert(fp.deep_view() =~= prev.push(fp@[fp@.len() - 1]@));
                            }
                        },
                        None => {
                            let ghost prev = tp.deep_view();
                            tp.push(specifier.clone());
                            proof {
                                assert(tp.deep_view() =~= prev.push(specifier@));
                            }
                        },
                    }
                } else {
                    let ghost prev = tp.deep_view();
                    tp.push(specifier.clone());
                    proof {
                        assert(tp.deep_view() =~= prev.push(specifier@));
                    }
                }
            },
            RawDecl::ExportAll { specifier } => {
                if classify(specifier.as_str()) == SpecifierKind::Relative {
                    match crate::resolve::resolve_relative(fs, &mod_path, specifier) {
                        Some(p) => {
                            let ghost prev_fp = fp.deep_view();
                            let ghost prev_ex = ex.deep_view();
                            let p2 = p.clone();
                            fp.push(p);
                            ex.push(p2);
                            proof {
                                assert(fp.deep_view() =~= prev_fp.push(fp@[fp@.len() - 1]@));
                                assert(ex.deep_view() =~= prev_ex.push(ex@[ex@.len() - 1]@));
                            }
                        },
                        None => {
                            let ghost prev = tp.deep_view();
                            tp.push(specifier.clone());
                            proof {
                                assert(tp.deep_view() =~= prev.push(specifier@));
                            }
                        },
                    }
                } else {
                    let ghost prev = tp.deep_view();
                    tp.push(specifier.clone());
                    proof {
                        assert(tp.deep_view() =~= prev.push(specifier@));
                    }
                }
            },
            RawDecl::ExportNamed { specifier: Some(specifier) } => {
                if classify(specifier.as_str()) == SpecifierKind::Relative {
                    match crate::resolve::resolve_relative(fs, &mod_path, specifier) {
                        Some(p) => {
                            let ghost prev_fp = fp.deep_view();
                            let ghost prev_ex = ex.deep_view();
                            let p2 = p.clone();
                            fp.push(p);
                            ex.push(p2);
                            proof {
                                assert(fp.deep_view() =~= prev_fp.push(fp@[fp@.len() - 1]@));
                                assert(ex.deep_view() =~= prev_ex.push(ex@[ex@.len() - 1]@));
                            }
                        },
                        None => {
                            let ghost prev = tp.deep_view();
                            tp.push(specifier.clone());
                            proof {
                                assert(tp.deep_view() =~= prev.push(specifier@));
                            }
                        },
                    }
                } else {
                    let ghost prev = tp.deep_view();
                    tp.push(specifier.clone());
                    proof {
                        assert(tp.deep_view() =~= prev.push(specifier@));
                    }
                }
            },
            RawDecl::ExportNamed { specifier: None } => {},
            RawDecl::Other => {},
        }
        i = i + 1;
    }
    proof {
        assert(dv.skip(dv.len() as int) =~= Seq::<RawDeclView>::empty());
    }
    *id = *id + 1;
    Asset {
        id: *id,
        path: mod_path,
        dependencies: Dependencies { first_party: fp, third_party: tp, exports: ex },
    }
}

} // verus!
