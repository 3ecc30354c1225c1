//! The graph builder: owns the work queue and the map of already-visited
//! modules, drives the analyzer and the resolvers, and assembles a complete,
//! deduplicated module graph from a single entry point. The visited check
//! guards against cycles and diamond dependencies; the graph only ever grows,
//! and each distinct path is analyzed at most once.
use vstd::prelude::*;

use crate::asset::{analyze_spec, empty_deps, track_dependencies, Asset, Dependencies, DepsView};
use crate::parse::{parse_em, parsed_decls, RawDeclView};
use crate::paths::{is_ecmascript_path, is_typescript_path, CanonicalPath};
use crate::resolve::{resolve_package, resolve_package_spec};
use crate::snapshot::{FileEntry, FileSystem};

verus! {

/// The declarations the module at `p` parses to, under the dialect its
/// extension selects.
pub open spec fn module_decls(fs: FileSystem, p: Seq<Seq<char>>) -> Option<Seq<RawDeclView>> {
    parsed_decls(fs.file_text(p), is_typescript_path(p), is_ecmascript_path(p))
}

/// The module at `p` exists and parses.
pub open spec fn module_ok(fs: FileSystem, p: Seq<Seq<char>>) -> bool {
    fs.is_file(p) && module_decls(fs, p) is Some
}

/// The dependency record of the module at `p`.
pub open spec fn deps_of(fs: FileSystem, p: Seq<Seq<char>>) -> DepsView {
    match module_decls(fs, p) {
        Some(d) => analyze_spec(fs, p, d),
        None => empty_deps(),
    }
}

/// The paths that the third-party specifiers `ds` resolve to under the
/// install root, in order, successes only.
pub open spec fn third_resolved(
    fs: FileSystem,
    install_root: Seq<Seq<char>>,
    ds: Seq<Seq<char>>,
) -> Seq<Seq<Seq<char>>>
    decreases ds.len(),
{
    if ds.len() == 0 {
        Seq::empty()
    } else {
        let rest = third_resolved(fs, install_root, ds.skip(1));
        match resolve_package_spec(fs, install_root, ds[0]) {
            Some(p) => seq![p] + rest,
            None => rest,
        }
    }
}

/// The third-party specifiers among `ds` that do not resolve under the
/// install root, in order.
pub open spec fn third_unresolved(
    fs: FileSystem,
    install_root: Seq<Seq<char>>,
    ds: Seq<Seq<char>>,
) -> Seq<Seq<char>>
    decreases ds.len(),
{
    if ds.len() == 0 {
        Seq::empty()
    } else {
        let rest = third_unresolved(fs, install_root, ds.skip(1));
        match resolve_package_spec(fs, install_root, ds[0]) {
            Some(p) => rest,
            None => seq![ds[0]] + rest,
        }
    }
}

/// The dependency edges leaving the module at `p`: its first-party paths,
/// its re-export targets, and the resolved third-party packages.
pub open spec fn edge_targets(
    fs: FileSystem,
    install_root: Seq<Seq<char>>,
    p: Seq<Seq<char>>,
) -> Seq<Seq<Seq<char>>> {
    let d = deps_of(fs, p);
    d.first_party + d.exports + third_resolved(fs, install_root, d.third_party)
}

/// The module at `p` parses and declares an edge to `q`.
pub open spec fn has_edge(
    fs: FileSystem,
    install_root: Seq<Seq<char>>,
    p: Seq<Seq<char>>,
    q: Seq<Seq<char>>,
) -> bool {
    module_ok(fs, p) && edge_targets(fs, install_root, p).contains(q)
}

/// Every adjacent pair of the sequence is a dependency edge.
pub open spec fn chain_ok(
    fs: FileSystem,
    install_root: Seq<Seq<char>>,
    c: Seq<Seq<Seq<char>>>,
) -> bool {
    forall|k: int| 0 <= k < c.len() - 1 ==> #[trigger] has_edge(fs, install_root, c[k], c[k + 1])
}

/// `p` is reachable from `entry` by following dependency edges; every path
/// reaches itself.
pub open spec fn reachable(
    fs: FileSystem,
    install_root: Seq<Seq<char>>,
    entry: Seq<Seq<char>>,
    p: Seq<Seq<char>>,
) -> bool {
    exists|c: Seq<Seq<Seq<char>>>|
        c.len() > 0 && chain_ok(fs, install_root, c) && c[0] == entry && c.last() == p
}

/// Every path reaches itself.
pub proof fn lemma_reach_self(
    fs: FileSystem,
    install_root: Seq<Seq<char>>,
    p: Seq<Seq<char>>,
)
    ensures
        reachable(fs, install_root, p, p),
{
    let c = seq![p];
    assert(c.len() > 0 && chain_ok(fs, install_root, c) && c[0] == p && c.last() == p);
}

/// Reachability extends along a dependency edge.
pub proof fn lemma_reach_step(
    fs: FileSystem,
    install_root: Seq<Seq<char>>,
    entry: Seq<Seq<char>>,
    p: Seq<Seq<char>>,
    q: Seq<Seq<char>>,
)
    requires
        reachable(fs, install_root, entry, p),
        has_edge(fs, install_root, p, q),
    ensures
        reachable(fs, install_root, entry, q),
{
    let c = choose|c: Seq<Seq<Seq<char>>>|
        c.len() > 0 && chain_ok(fs, install_root, c) && c[0] == entry && c.last() == p;
    let c2 = c.push(q);
    assert forall|k: int| 0 <= k < c2.len() - 1 implies #[trigger] has_edge(
        fs,
        install_root,
        c2[k],
        c2[k + 1],
    ) by {
        if k < c.len() - 1 {
            assert(c2[k] == c[k]);
            assert(c2[k + 1] == c[k + 1]);
            assert(has_edge(fs, install_root, c[k], c[k + 1]));
        } else {
            assert(c2[k] == c.last());
            assert(c2[k + 1] == q);
        }
    }
    assert(c2.len() > 0 && chain_ok(fs, install_root, c2) && c2[0] == entry && c2.last() == q);
}

/// Collects the outgoing edges of a dependency record: the queue targets in
/// edge order, and the unresolved third-party specifiers in source order.
fn collect_targets(
    fs: &FileSystem,
    install_root: &CanonicalPath,
    deps: &Dependencies,
) -> (r: (Vec<CanonicalPath>, Vec<String>))
    requires
        fs.wf(),
    ensures
        r.0.deep_view() == deps@.first_party + deps@.exports + third_resolved(
            *fs,
            install_root@,
            deps@.third_party,
        ),
        r.1.deep_view() == third_unresolved(*fs, install_root@, deps@.third_party),
{
    let ghost irv = install_root@;
    let ghost d = deps@;
    let mut out: Vec<CanonicalPath> = deps.first_party();
    let exs = deps.exports();
    let tps = deps.third_party();
    let mut j: usize = 0;
    while j < exs.len()
        invariant
            j <= exs@.len(),
            exs.deep_view() == d.exports,
            exs.deep_view().len() == exs@.len(),
            out.deep_view() =~= d.first_party + d.exports.take(j as int),
        decreases exs@.len() - j,
    {
        let p = exs[j].clone();
        let ghost prev = out.deep_view();
        out.push(p);
        proof {
            assert(out.deep_view() =~= prev.push(d.exports[j as int]));
            assert(out.deep_view() =~= d.first_party + d.exports.take(j + 1));
        }
        j = j + 1;
    }
    proof {
        assert(d.exports.take(d.exports.len() as int) =~= d.exports);
    }
    let mut unres: Vec<String> = Vec::new();
    let ghost tdv = d.third_party;
    let mut k: usize = 0;
    proof {
        assert(tdv.skip(0) =~= tdv);
        assert(unres.deep_view() =~= Seq::<Seq<char>>::empty());
        assert(Seq::<Seq<char>>::empty() + third_unresolved(*fs, irv, tdv) =~= third_unresolved(
            *fs,
            irv,
            tdv,
        ));
        assert((d.first_party + d.exports) + third_resolved(*fs, irv, tdv) =~= out.deep_view()
            + third_resolved(*fs, irv, tdv));
    }
    while k < tps.len()
        invariant
            fs.wf(),
            k <= tps@.len(),
            irv == install_root@,
            tps.deep_view() == tdv,
            tps.deep_view().len() == tps@.len(),
            out.deep_view() + third_resolved(*fs, irv, tdv.skip(k as int)) =~= (d.first_party
                + d.exports) + third_resolved(*fs, irv, tdv),
            unres.deep_view() + third_unresolved(*fs, irv, tdv.skip(k as int)) =~= third_unresolved(
                *fs,
                irv,
                tdv,
            ),
        decreases tps@.len() - k,
    {
        proof {
            assert(tdv.skip(k as int)[0] == tdv[k as int]);
            assert(tdv[k as int] == tps@[k as int]@);
            assert(tdv.skip(k as int).skip(1) =~= tdv.skip(k + 1));
        }
        match resolve_package(fs, install_root, &tps[k]) {
            Some(p) => {
                let ghost prev = out.deep_view();
                proof {
                    assert(third_resolved(*fs, irv, tdv.skip(k as int)) =~= seq![p@]
                        + third_resolved(*fs, irv, tdv.skip(k + 1)));
                    assert(prev + (seq![p@] + third_resolved(*fs, irv, tdv.skip(k + 1))) =~= (prev
                        + seq![p@]) + third_resolved(*fs, irv, tdv.skip(k + 1)));
                }
                out.push(p);
                proof {
                    assert(out.deep_view() =~= prev + seq![out@[out@.len() - 1]@]);
                }
            },
            None => {
                let s = tps[k].clone();
                let ghost prev = unres.deep_view();
                proof {
                    assert(third_unresolved(*fs, irv, tdv.skip(k as int)) =~= seq![tdv[k as int]]
                        + third_unresolved(*fs, irv, tdv.skip(k + 1)));
                    assert(prev + (seq![tdv[k as int]] + third_unresolved(*fs, irv, tdv.skip(k + 1)))
                        =~= (prev + seq![tdv[k as int]]) + third_unresolved(
                        *fs,
                        irv,
                        tdv.skip(k + 1),
                    ));
                }
                unres.push(s);
                proof {
                    assert(unres.deep_view() =~= prev + seq![unres@[unres@.len() - 1]@]);
                }
            },
        }
        k = k + 1;
    }
    proof {
        assert(tdv.skip(tps@.len() as int) =~= Seq::<Seq<char>>::empty());
        assert(out.deep_view() + Seq::<Seq<Seq<char>>>::empty() =~= out.deep_view());
        assert(unres.deep_view() + Seq::<Seq<char>>::empty() =~= unres.deep_view());
        assert(out.deep_view() =~= d.first_party + d.exports + third_resolved(*fs, irv, tdv));
    }
    (out, unres)
}

/// The module graph: a mapping from canonical path to Asset with unique
/// keys, accumulated insert-only, in insertion order. Identifiers are the
/// (one-based) insertion positions.
#[derive(Debug)]
pub struct ModuleGraph {
    pub assets: Vec<Asset>,
}

impl ModuleGraph {
    /// Keys are unique and identifiers follow insertion order.
    pub open spec fn wf(self) -> bool {
        &&& forall|i: int, j: int|
            0 <= i < j < self.assets@.len() ==> self.assets@[i].path@ != self.assets@[j].path@
        &&& forall|i: int| 0 <= i < self.assets@.len() ==> (#[trigger] self.assets@[i]).id == i + 1
    }

    /// `p` is a key of the graph.
    pub open spec fn contains_path(self, p: Seq<Seq<char>>) -> bool {
        exists|i: int| 0 <= i < self.assets@.len() && self.assets@[i].path@ == p
    }

    /// An empty graph.
    pub fn new() -> (r: ModuleGraph)
        ensures
            r.wf(),
            r.assets@.len() == 0,
            forall|p: Seq<Seq<char>>| !r.contains_path(p),
    {
        ModuleGraph { assets: Vec::new() }
    }

    /// The number of assets.
    pub fn len(&self) -> (r: usize)
        ensures
            r == self.assets@.len(),
    {
        self.assets.len()
    }

    /// Decides whether `p` is already a key.
    pub fn contains_key(&self, p: &CanonicalPath) -> (r: bool)
        ensures
            r == self.contains_path(p@),
    {
        let mut i: usize = 0;
        while i < self.assets.len()
            invariant
                i <= self.assets@.len(),
                forall|j: int| 0 <= j < i ==> self.assets@[j].path@ != p@,
            decreases self.assets@.len() - i,
        {
            if self.assets[i].path.path_eq(p) {
                return true;
            }
            i = i + 1;
        }
        false
    }

    /// Returns the asset keyed by `p`, if present.
    pub fn get(&self, p: &CanonicalPath) -> (r: Option<&Asset>)
        ensures
            match r {
                Some(a) => self.contains_path(p@) && a.path@ == p@ && exists|i: int|
                    0 <= i < self.assets@.len() && self.assets@[i] == *a,
                None => !self.contains_path(p@),
            },
    {
        let mut i: usize = 0;
        while i < self.assets.len()
            invariant
                i <= self.assets@.len(),
                forall|j: int| 0 <= j < i ==> self.assets@[j].path@ != p@,
            decreases self.assets@.len() - i,
        {
            if self.assets[i].path.path_eq(p) {
                return Some(&self.assets[i]);
            }
            i = i + 1;
        }
        None
    }

    /// Inserts a new asset under its path; the caller guarantees the path is
    /// new and the identifier is the next insertion position.
    pub fn insert(&mut self, asset: Asset)
        requires
            old(self).wf(),
            !old(self).contains_path(asset.path@),
            asset.id == old(self).assets@.len() + 1,
        ensures
            final(self).wf(),
            final(self).assets@ == old(self).assets@.push(asset),
            forall|q: Seq<Seq<char>>|
                final(self).contains_path(q) == (old(self).contains_path(q) || q == asset.path@),
    {
        let ghost pv = asset.path@;
        let ghost n = self.assets@.len() as int;
        self.assets.push(asset);
        proof {
            assert(self.assets@[n].path@ == pv);
            assert forall|q: Seq<Seq<char>>|
                self.contains_path(q) == (old(self).contains_path(q) || q == pv) by {
                if self.contains_path(q) {
                    let i = choose|i: int|
                        0 <= i < self.assets@.len() && self.assets@[i].path@ == q;
                    if i < n {
                        assert(old(self).assets@[i].path@ == q);
                    }
                }
                if old(self).contains_path(q) {
                    let i = choose|i: int|
                        0 <= i < old(self).assets@.len() && old(self).assets@[i].path@ == q;
                    assert(self.assets@[i].path@ == q);
                }
            }
        }
    }
}

/// The set of file paths the snapshot holds.
pub open spec fn file_path_set(fs: FileSystem) -> Set<Seq<Seq<char>>> {
    fs.files@.map_values(|e: FileEntry| e.path@).to_set()
}

/// The set of paths the graph holds.
pub open spec fn graph_path_set(g: ModuleGraph) -> Set<Seq<Seq<char>>> {
    g.assets@.map_values(|a: Asset| a.path@).to_set()
}

/// How many snapshot files the graph has not yet visited; the builder's
/// termination measure.
pub open spec fn unvisited_count(fs: FileSystem, g: ModuleGraph) -> nat {
    file_path_set(fs).difference(graph_path_set(g)).len()
}

/// A graph of distinct existing files is no larger than the snapshot.
proof fn lemma_graph_size_bound(fs: FileSystem, g: ModuleGraph)
    requires
        g.wf(),
        forall|i: int| 0 <= i < g.assets@.len() ==> fs.is_file((#[trigger] g.assets@[i]).path@),
    ensures
        graph_path_set(g).finite(),
        graph_path_set(g).len() == g.assets@.len(),
        graph_path_set(g).subset_of(file_path_set(fs)),
        file_path_set(fs).finite(),
        file_path_set(fs).len() <= fs.files@.len(),
        forall|p: Seq<Seq<char>>| fs.is_file(p) ==> #[trigger] file_path_set(fs).contains(p),
        forall|p: Seq<Seq<char>>|
            #[trigger] graph_path_set(g).contains(p) ==> g.contains_path(p),
        forall|p: Seq<Seq<char>>|
            g.contains_path(p) ==> #[trigger] graph_path_set(g).contains(p),
{
    broadcast use vstd::seq_lib::seq_to_set_is_finite;

    let ps = g.assets@.map_values(|a: Asset| a.path@);
    let fseq = fs.files@.map_values(|e: FileEntry| e.path@);
    assert(ps.no_duplicates()) by {
        assert forall|i: int, j: int| 0 <= i < ps.len() && 0 <= j < ps.len() && i != j implies ps[i]
            != ps[j] by {
            assert(ps[i] == g.assets@[i].path@);
            assert(ps[j] == g.assets@[j].path@);
        }
    }
    ps.unique_seq_to_set();
    fseq.lemma_cardinality_of_set();
    assert forall|p: Seq<Seq<char>>| fs.is_file(p) implies #[trigger] file_path_set(fs).contains(
        p,
    ) by {
        let j = choose|j: int| 0 <= j < fs.files@.len() && fs.files@[j].path@ == p;
        assert(fseq[j] == p);
    }
    assert forall|p: Seq<Seq<char>>| #[trigger] graph_path_set(g).contains(p) implies g
        .contains_path(p) by {
        let i = choose|i: int| 0 <= i < ps.len() && ps[i] == p;
        assert(g.assets@[i].path@ == p);
    }
    assert forall|p: Seq<Seq<char>>| g.contains_path(p) implies #[trigger] graph_path_set(
        g,
    ).contains(p) by {
        let i = choose|i: int| 0 <= i < g.assets@.len() && g.assets@[i].path@ == p;
        assert(ps[i] == p);
    }
    assert forall|p: Seq<Seq<char>>| #[trigger] graph_path_set(g).contains(p) implies file_path_set(
        fs,
    ).contains(p) by {
        let i = choose|i: int| 0 <= i < ps.len() && ps[i] == p;
        assert(fs.is_file(g.assets@[i].path@));
    }
}

/// Visiting a new file strictly shrinks the unvisited set.
proof fn lemma_unvisited_decreases(fs: FileSystem, g_old: ModuleGraph, g_new: ModuleGraph, a: Asset)
    requires
        g_old.wf(),
        forall|i: int|
            0 <= i < g_old.assets@.len() ==> fs.is_file((#[trigger] g_old.assets@[i]).path@),
        g_new.assets@ == g_old.assets@.push(a),
        fs.is_file(a.path@),
        !g_old.contains_path(a.path@),
    ensures
        unvisited_count(fs, g_new) < unvisited_count(fs, g_old),
{
    broadcast use vstd::set::group_set_axioms;
    broadcast use vstd::seq_lib::seq_to_set_is_finite;

    lemma_graph_size_bound(fs, g_old);
    let pv = a.path@;
    let ps_old = g_old.assets@.map_values(|x: Asset| x.path@);
    let ps_new = g_new.assets@.map_values(|x: Asset| x.path@);
    assert(ps_new =~= ps_old.push(pv)) by {
        assert forall|i: int| 0 <= i < ps_new.len() implies ps_new[i] == ps_old.push(pv)[i] by {
            assert(ps_new[i] == g_new.assets@[i].path@);
            if i < ps_old.len() {
                assert(ps_old[i] == g_old.assets@[i].path@);
            }
        }
    }
    assert(graph_path_set(g_new) =~= graph_path_set(g_old).insert(pv)) by {
        assert forall|q: Seq<Seq<char>>|
            graph_path_set(g_new).contains(q) == graph_path_set(g_old).insert(pv).contains(q) by {
            if ps_new.contains(q) {
                let i = choose|i: int| 0 <= i < ps_new.len() && ps_new[i] == q;
                if i < ps_old.len() {
                    assert(ps_old[i] == q);
                }
            }
            if ps_old.contains(q) {
                let i = choose|i: int| 0 <= i < ps_old.len() && ps_old[i] == q;
                assert(ps_new[i] == q);
            }
            if q == pv {
                assert(ps_new[ps_new.len() - 1] == q);
            }
        }
    }
    let diff_old = file_path_set(fs).difference(graph_path_set(g_old));
    let diff_new = file_path_set(fs).difference(graph_path_set(g_new));
    assert(diff_new =~= diff_old.remove(pv));
    assert(!graph_path_set(g_old).contains(pv));
    assert(diff_old.contains(pv));
    assert(diff_old.finite());
    assert(diff_old.len() == diff_old.remove(pv).len() + 1);
}

/// A graph closed under dependency edges and containing the entry contains
/// the endpoint of every dependency chain from the entry.
proof fn lemma_closed_contains_reachable(
    fs: FileSystem,
    install_root: Seq<Seq<char>>,
    g: ModuleGraph,
    entry: Seq<Seq<char>>,
    c: Seq<Seq<Seq<char>>>,
)
    requires
        g.contains_path(entry),
        forall|i: int, q: Seq<Seq<char>>|
            0 <= i < g.assets@.len() && #[trigger] edge_targets(
                fs,
                install_root,
                g.assets@[i].path@,
            ).contains(q) ==> g.contains_path(q),
        c.len() > 0,
        chain_ok(fs, install_root, c),
        c[0] == entry,
    ensures
        g.contains_path(c.last()),
    decreases c.len(),
{
    if c.len() == 1 {
        assert(c.last() == entry);
    } else {
        let c0 = c.drop_last();
        assert(chain_ok(fs, install_root, c0)) by {
            assert forall|k: int| 0 <= k < c0.len() - 1 implies #[trigger] has_edge(
                fs,
                install_root,
                c0[k],
                c0[k + 1],
            ) by {
                assert(c0[k] == c[k]);
                assert(c0[k + 1] == c[k + 1]);
                assert(has_edge(fs, install_root, c[k], c[k + 1]));
            }
        }
        lemma_closed_contains_reachable(fs, install_root, g, entry, c0);
        let prev = c[c.len() - 2];
        assert(c0.last() == prev);
        assert(has_edge(fs, install_root, c[c.len() - 2], c[c.len() - 2 + 1]));
        assert(c[c.len() - 2 + 1] == c.last());
        assert(has_edge(fs, install_root, prev, c.last()));
        let i = choose|i: int| 0 <= i < g.assets@.len() && g.assets@[i].path@ == prev;
        assert(edge_targets(fs, install_root, g.assets@[i].path@).contains(c.last()));
    }
}

/// The unresolved third-party specifiers accumulated over the graph's assets
/// in insertion order.
pub open spec fn graph_unresolved(
    fs: FileSystem,
    install_root: Seq<Seq<char>>,
    assets: Seq<Asset>,
) -> Seq<Seq<char>>
    decreases assets.len(),
{
    if assets.len() == 0 {
        Seq::empty()
    } else {
        graph_unresolved(fs, install_root, assets.drop_last()) + third_unresolved(
            fs,
            install_root,
            assets.last().dependencies@.third_party,
        )
    }
}

/// The queue holds `p`.
pub open spec fn queue_has(qs: Seq<CanonicalPath>, p: Seq<Seq<char>>) -> bool {
    exists|k: int| 0 <= k < qs.len() && qs[k]@ == p
}

/// Appends all of `src` to `dst`, in order.
fn append_strings(dst: &mut Vec<String>, src: Vec<String>)
    ensures
        final(dst).deep_view() == old(dst).deep_view() + src.deep_view(),
{
    let mut k: usize = 0;
    proof {
        assert(dst.deep_view() =~= old(dst).deep_view() + src.deep_view().take(0));
    }
    while k < src.len()
        invariant
            k <= src@.len(),
            src.deep_view().len() == src@.len(),
            dst.deep_view() =~= old(dst).deep_view() + src.deep_view().take(k as int),
        decreases src@.len() - k,
    {
        let s = src[k].clone();
        let ghost prev = dst.deep_view();
        dst.push(s);
        proof {
            assert(dst.deep_view() =~= prev.push(src.deep_view()[k as int]));
            assert(dst.deep_view() =~= old(dst).deep_view() + src.deep_view().take(k + 1));
        }
        k = k + 1;
    }
    proof {
        assert(src.deep_view().take(src@.len() as int) =~= src.deep_view());
    }
}

/// How a build run fails: the path it stopped at, why, and how much of the
/// graph had been built when it stopped.
#[derive(Debug)]
pub enum BuildError {
    /// A queued path named no file in the snapshot.
    MissingFile { path: CanonicalPath, graph: ModuleGraph },
    /// A module's source text did not parse under its dialect.
    ParseFailure { path: CanonicalPath, graph: ModuleGraph },
}

/// The graph is well-formed, every asset carries exactly the dependency
/// record its own file's declarations denote, and every asset is reachable
/// from the entry.
pub open spec fn graph_sound(
    fs: FileSystem,
    install_root: Seq<Seq<char>>,
    entry: Seq<Seq<char>>,
    g: ModuleGraph,
) -> bool {
    &&& g.wf()
    &&& forall|i: int|
        0 <= i < g.assets@.len() ==> module_ok(fs, (#[trigger] g.assets@[i]).path@)
            && g.assets@[i].dependencies@ == deps_of(fs, g.assets@[i].path@)
    &&& forall|i: int|
        0 <= i < g.assets@.len() ==> reachable(fs, install_root, entry, (#[trigger] g.assets@[i]).path@)
}

/// Builds the complete dependency graph from `entrypoint`, resolving bare
/// specifiers against `node_modules_path`. Returns the graph together with
/// the unresolved third-party specifiers encountered, in discovery order; or
/// the first failing path. The graph holds exactly the modules reachable
/// from the entry point, each analyzed exactly once.
pub fn build_dependency_graph(
    fs: &FileSystem,
    entrypoint: &CanonicalPath,
    node_modules_path: &CanonicalPath,
) -> (r: Result<(ModuleGraph, Vec<String>), BuildError>)
    requires
        fs.wf(),
    ensures
        match r {
            Ok(out) => {
                &&& graph_sound(*fs, node_modules_path@, entrypoint@, out.0)
                &&& out.0.contains_path(entrypoint@)
                &&& forall|i: int, q: Seq<Seq<char>>|
                    0 <= i < out.0.assets@.len() && #[trigger] edge_targets(
                        *fs,
                        node_modules_path@,
                        out.0.assets@[i].path@,
                    ).contains(q) ==> out.0.contains_path(q)
                &&& forall|p: Seq<Seq<char>>|
                    #[trigger] out.0.contains_path(p) ==> reachable(
                        *fs,
                        node_modules_path@,
                        entrypoint@,
                        p,
                    )
                &&& forall|p: Seq<Seq<char>>|
                    #[trigger] reachable(*fs, node_modules_path@, entrypoint@, p)
                        ==> out.0.contains_path(p)
                &&& out.1.deep_view() == graph_unresolved(*fs, node_modules_path@, out.0.assets@)
            },
            Err(e) => match e {
                BuildError::MissingFile { path, graph } => {
                    &&& reachable(*fs, node_modules_path@, entrypoint@, path@)
                    &&& !fs.is_file(path@)
                    &&& graph_sound(*fs, node_modules_path@, entrypoint@, graph)
                    &&& !graph.contains_path(path@)
                },
                BuildError::ParseFailure { path, graph } => {
                    &&& reachable(*fs, node_modules_path@, entrypoint@, path@)
                    &&& fs.is_file(path@)
                    &&& module_decls(*fs, path@) is None
                    &&& graph_sound(*fs, node_modules_path@, entrypoint@, graph)
                    &&& !graph.contains_path(path@)
                },
            },
        },
{
    let ghost irv = node_modules_path@;
    let ghost ev = entrypoint@;
    let total = fs.files.len();
    let mut queue: Vec<CanonicalPath> = Vec::new();
    queue.push(entrypoint.clone());
    let mut graph = ModuleGraph::new();
    let mut unresolved: Vec<String> = Vec::new();
    let mut id: usize = 0;
    proof {
        lemma_reach_self(*fs, irv, ev);
        assert(queue@[0]@ == ev);
        assert(unresolved.deep_view() =~= Seq::<Seq<char>>::empty());
    }
    while queue.len() > 0
        invariant
            fs.wf(),
            irv == node_modules_path@,
            ev == entrypoint@,
            total == fs.files@.len(),
            graph.wf(),
            id == graph.assets@.len(),
            forall|i: int|
                0 <= i < graph.assets@.len() ==> module_ok(
                    *fs,
                    (#[trigger] graph.assets@[i]).path@,
                ) && graph.assets@[i].dependencies@ == deps_of(*fs, graph.assets@[i].path@),
            forall|i: int|
                0 <= i < graph.assets@.len() ==> reachable(
                    *fs,
                    irv,
                    ev,
                    (#[trigger] graph.assets@[i]).path@,
                ),
            forall|i: int, q: Seq<Seq<char>>|
                0 <= i < graph.assets@.len() && #[trigger] edge_targets(
                    *fs,
                    irv,
                    graph.assets@[i].path@,
                ).contains(q) ==> graph.contains_path(q) || queue_has(queue@, q),
            forall|kk: int|
                0 <= kk < queue@.len() ==> reachable(*fs, irv, ev, (#[trigger] queue@[kk])@),
            graph.contains_path(ev) || queue_has(queue@, ev),
            unresolved.deep_view() == graph_unresolved(*fs, irv, graph.assets@),
        decreases unvisited_count(*fs, graph), queue@.len(),
    {
        let ghost old_q = queue@;
        let path = queue.pop().unwrap();
        let ghost pv = path@;
        proof {
            assert(old_q[old_q.len() - 1]@ == pv);
            assert(reachable(*fs, irv, ev, pv));
        }
        if graph.contains_key(&path) {
            proof {
                assert forall|i: int, q: Seq<Seq<char>>|
                    0 <= i < graph.assets@.len() && #[trigger] edge_targets(
                        *fs,
                        irv,
                        graph.assets@[i].path@,
                    ).contains(q) implies graph.contains_path(q) || queue_has(queue@, q) by {
                    if queue_has(old_q, q) {
                        let k = choose|k: int| 0 <= k < old_q.len() && old_q[k]@ == q;
                        if k < old_q.len() - 1 {
                            assert(queue@[k]@ == q);
                        } else {
                            assert(q == pv);
                        }
                    }
                }
                if queue_has(old_q, ev) {
                    let k = choose|k: int| 0 <= k < old_q.len() && old_q[k]@ == ev;
                    if k < old_q.len() - 1 {
                        assert(queue@[k]@ == ev);
                    } else {
                        assert(ev == pv);
                    }
                }
            }
        } else {
            let text = match fs.read_file(&path) {
                Some(t) => t,
                None => {
                    return Err(BuildError::MissingFile { path, graph });
                },
            };
            let ts = crate::paths::is_typescript_file(&path);
            let jsx = crate::paths::is_ecmascript_file(&path);
            let decls = match parse_em(text.as_str(), ts, jsx) {
                Some(d) => d,
                None => {
                    return Err(BuildError::ParseFailure { path, graph });
                },
            };
            proof {
                assert(module_ok(*fs, pv));
                assert(module_decls(*fs, pv) == Some(decls.deep_view()));
                lemma_graph_size_bound(*fs, graph);
                assert(!graph_path_set(graph).contains(pv));
                assert(file_path_set(*fs).contains(pv));
                assert(graph_path_set(graph).insert(pv).subset_of(file_path_set(*fs)));
                vstd::set_lib::lemma_len_subset(
                    graph_path_set(graph).insert(pv),
                    file_path_set(*fs),
                );
                assert(graph_path_set(graph).insert(pv).len() == graph.assets@.len() + 1) by {
                    broadcast use vstd::set::group_set_axioms;

                }
                assert(id < usize::MAX);
            }
            let ghost g_old = graph;
            let asset = track_dependencies(fs, &mut id, path, &decls);
            proof {
                assert(asset.dependencies@ == deps_of(*fs, pv));
            }
            let deps = asset.dependencies();
            graph.insert(asset);
            proof {
                lemma_unvisited_decreases(*fs, g_old, graph, asset);
                assert(graph.assets@.drop_last() =~= g_old.assets@);
                assert(graph.assets@.last() == asset);
                assert(graph_unresolved(*fs, irv, graph.assets@) == graph_unresolved(
                    *fs,
                    irv,
                    g_old.assets@,
                ) + third_unresolved(*fs, irv, asset.dependencies@.third_party));
            }
            let (targets, unres_add) = collect_targets(fs, node_modules_path, &deps);
            append_strings(&mut unresolved, unres_add);
            proof {
                assert(unresolved.deep_view() == graph_unresolved(*fs, irv, graph.assets@));
            }
            proof {
                assert forall|kk: int| 0 <= kk < queue@.len() implies reachable(
                    *fs,
                    irv,
                    ev,
                    (#[trigger] queue@[kk])@,
                ) by {
                    assert(old_q[kk]@ == queue@[kk]@);
                }
                if queue_has(old_q, ev) {
                    let kk = choose|kk: int| 0 <= kk < old_q.len() && old_q[kk]@ == ev;
                    if kk < old_q.len() - 1 {
                        assert(queue@[kk]@ == ev);
                    } else {
                        assert(ev == pv);
                        assert(graph.contains_path(ev));
                    }
                }
                assert forall|m: int| 0 <= m < targets@.len() implies (#[trigger] targets@[m])@
                    == targets.deep_view()[m] by {}
                assert forall|i: int, q: Seq<Seq<char>>|
                    0 <= i < graph.assets@.len() && #[trigger] edge_targets(
                        *fs,
                        irv,
                        graph.assets@[i].path@,
                    ).contains(q) implies graph.contains_path(q) || queue_has(queue@, q) || (
                exists|m: int| 0 <= m < targets@.len() && (#[trigger] targets@[m])@ == q) by {
                    if i < graph.assets@.len() - 1 {
                        assert(g_old.assets@[i] == graph.assets@[i]);
                        assert(edge_targets(*fs, irv, g_old.assets@[i].path@).contains(q));
                        assert(g_old.contains_path(q) || queue_has(old_q, q));
                        if g_old.contains_path(q) {
                            assert(graph.contains_path(q));
                        } else {
                            let kk = choose|kk: int| 0 <= kk < old_q.len() && old_q[kk]@ == q;
                            if kk < old_q.len() - 1 {
                                assert(queue@[kk]@ == q);
                            } else {
                                assert(q == pv);
                                assert(graph.contains_path(q));
                            }
                        }
                    } else {
                        assert(graph.assets@[i].path@ == pv);
                        assert(targets.deep_view() == edge_targets(*fs, irv, pv));
                        let m = choose|m: int|
                            0 <= m < targets.deep_view().len() && targets.deep_view()[m] == q;
                        assert((targets@[m])@ == q);
                    }
                }
            }
            let mut k: usize = 0;
            while k < targets.len()
                invariant
                    fs.wf(),
                    irv == node_modules_path@,
                    ev == entrypoint@,
                    total == fs.files@.len(),
                    graph.wf(),
                    id == graph.assets@.len(),
                    forall|i: int|
                        0 <= i < graph.assets@.len() ==> module_ok(
                            *fs,
                            (#[trigger] graph.assets@[i]).path@,
                        ) && graph.assets@[i].dependencies@ == deps_of(
                            *fs,
                            graph.assets@[i].path@,
                        ),
                    forall|i: int|
                        0 <= i < graph.assets@.len() ==> reachable(
                            *fs,
                            irv,
                            ev,
                            (#[trigger] graph.assets@[i]).path@,
                        ),
                    graph.contains_path(ev) || queue_has(queue@, ev),
                    unresolved.deep_view() == graph_unresolved(*fs, irv, graph.assets@),
                    k <= targets@.len(),
                    targets.deep_view() == edge_targets(*fs, irv, pv),
                    targets.deep_view().len() == targets@.len(),
                    graph.contains_path(pv),
                    module_ok(*fs, pv),
                    unvisited_count(*fs, graph) < unvisited_count(*fs, g_old),
                    forall|i: int, q: Seq<Seq<char>>|
                        0 <= i < graph.assets@.len() && #[trigger] edge_targets(
                            *fs,
                            irv,
                            graph.assets@[i].path@,
                        ).contains(q) ==> graph.contains_path(q) || queue_has(queue@, q) || (
                        exists|m: int| k <= m < targets@.len() && (#[trigger] targets@[m])@ == q),
                    forall|kk: int|
                        0 <= kk < queue@.len() ==> reachable(
                            *fs,
                            irv,
                            ev,
                            (#[trigger] queue@[kk])@,
                        ),
                decreases targets@.len() - k,
            {
                let ghost q_pre = queue@;
                let ghost qv = targets@[k as int]@;
                proof {
                    assert(targets.deep_view()[k as int] == targets@[k as int]@);
                    assert(edge_targets(*fs, irv, pv).contains(qv));
                    assert(has_edge(*fs, irv, pv, qv));
                    let i = choose|i: int|
                        0 <= i < graph.assets@.len() && graph.assets@[i].path@ == pv;
                    assert(reachable(*fs, irv, ev, pv));
                    lemma_reach_step(*fs, irv, ev, pv, qv);
                }
                if !graph.contains_key(&targets[k]) {
                    queue.push(targets[k].clone());
                    proof {
                        assert(queue@[queue@.len() - 1]@ == qv);
                        assert forall|kk: int| 0 <= kk < queue@.len() implies reachable(
                            *fs,
                            irv,
                            ev,
                            (#[trigger] queue@[kk])@,
                        ) by {
                            if kk < q_pre.len() {
                                assert(q_pre[kk]@ == queue@[kk]@);
                            }
                        }
                    }
                }
                proof {
                    assert forall|i: int, q: Seq<Seq<char>>|
                        0 <= i < graph.assets@.len() && #[trigger] edge_targets(
                            *fs,
                            irv,
                            graph.assets@[i].path@,
                        ).contains(q) implies graph.contains_path(q) || queue_has(queue@, q) || (
                    exists|m: int|
                        k + 1 <= m < targets@.len() && (#[trigger] targets@[m])@ == q) by {
                        if queue_has(q_pre, q) {
                            let kk = choose|kk: int| 0 <= kk < q_pre.len() && q_pre[kk]@ == q;
                            assert(queue@[kk]@ == q);
                        } else if exists|m: int|
                            k <= m < targets@.len() && (#[trigger] targets@[m])@ == q {
                            let m = choose|m: int|
                                k <= m < targets@.len() && (#[trigger] targets@[m])@ == q;
                            if m == k {
                                if graph.contains_path(qv) {
                                } else {
                                    assert(queue@[queue@.len() - 1]@ == qv);
                                }
                            }
                        }
                    }
                    if queue_has(q_pre, ev) {
                        let kk = choose|kk: int| 0 <= kk < q_pre.len() && q_pre[kk]@ == ev;
                        assert(queue@[kk]@ == ev);
                    }
                }
                k = k + 1;
            }
            proof {
                assert forall|i: int, q: Seq<Seq<char>>|
                    0 <= i < graph.assets@.len() && #[trigger] edge_targets(
                        *fs,
                        irv,
                        graph.assets@[i].path@,
                    ).contains(q) implies graph.contains_path(q) || queue_has(queue@, q) by {
                    if exists|m: int|
                        targets@.len() <= m < targets@.len() && (#[trigger] targets@[m])@ == q {
                        assert(false);
                    }
                }
            }
        }
    }
    proof {
        assert(queue@.len() == 0);
        assert forall|i: int, q: Seq<Seq<char>>|
            0 <= i < graph.assets@.len() && #[trigger] edge_targets(
                *fs,
                irv,
                graph.assets@[i].path@,
            ).contains(q) implies graph.contains_path(q) by {
            if queue_has(queue@, q) {
                assert(false);
            }
        }
        assert(graph.contains_path(ev)) by {
            if queue_has(queue@, ev) {
                assert(false);
            }
        }
        assert forall|p: Seq<Seq<char>>|
            #[trigger] reachable(*fs, irv, ev, p) implies graph.contains_path(p) by {
            let c = choose|c: Seq<Seq<Seq<char>>>|
                c.len() > 0 && chain_ok(*fs, irv, c) && c[0] == ev && c.last() == p;
            lemma_closed_contains_reachable(*fs, irv, graph, ev, c);
        }
    }
    Ok((graph, unresolved))
}

} // verus!
