use depgraph::graph::{build_dependency_graph, BuildError, ModuleGraph};
use depgraph::parse::{parse_em, RawDecl};
use depgraph::paths::CanonicalPath;
use depgraph::snapshot::FileSystem;

fn cp(parts: &[&str]) -> CanonicalPath {
    CanonicalPath::from_components(parts.iter().map(|s| s.to_string()).collect())
}

fn strs(parts: &[&str]) -> Vec<String> {
    parts.iter().map(|s| s.to_string()).collect()
}

fn graph_paths(g: &ModuleGraph) -> Vec<Vec<String>> {
    g.assets.iter().map(|a| a.path.components.clone()).collect()
}

fn count_path(g: &ModuleGraph, parts: &[&str]) -> usize {
    let want = strs(parts);
    g.assets.iter().filter(|a| a.path.components == want).count()
}

#[test]
fn single_module_graph() {
    let mut fs = FileSystem::new();
    fs.add_file(cp(&["proj", "a.js"]), "const x = 1;".to_string());
    let (g, unresolved) =
        build_dependency_graph(&fs, &cp(&["proj", "a.js"]), &cp(&["proj", "nm"])).expect("builds");
    assert_eq!(g.assets.len(), 1);
    assert_eq!(count_path(&g, &["proj", "a.js"]), 1);
    assert_eq!(g.assets[0].id, 1);
    assert!(unresolved.is_empty());
}

#[test]
fn chain_contains_exactly_reachable_files() {
    let mut fs = FileSystem::new();
    fs.add_file(
        cp(&["proj", "a.js"]),
        "import { b } from './b.js';".to_string(),
    );
    fs.add_file(
        cp(&["proj", "b.js"]),
        "import { c } from './c.js';".to_string(),
    );
    fs.add_file(cp(&["proj", "c.js"]), "export const c = 3;".to_string());
    fs.add_file(cp(&["proj", "unrelated.js"]), "const u = 0;".to_string());
    let (g, unresolved) =
        build_dependency_graph(&fs, &cp(&["proj", "a.js"]), &cp(&["proj", "nm"])).expect("builds");
    assert_eq!(g.assets.len(), 3);
    assert_eq!(count_path(&g, &["proj", "a.js"]), 1);
    assert_eq!(count_path(&g, &["proj", "b.js"]), 1);
    assert_eq!(count_path(&g, &["proj", "c.js"]), 1);
    assert_eq!(count_path(&g, &["proj", "unrelated.js"]), 0);
    assert!(unresolved.is_empty());
}

#[test]
fn mutual_import_cycle_terminates_with_two_assets() {
    let mut fs = FileSystem::new();
    fs.add_file(
        cp(&["proj", "a.js"]),
        "import { b } from './b.js';".to_string(),
    );
    fs.add_file(
        cp(&["proj", "b.js"]),
        "import { a } from './a.js';".to_string(),
    );
    let (g, _) =
        build_dependency_graph(&fs, &cp(&["proj", "a.js"]), &cp(&["proj", "nm"])).expect("builds");
    assert_eq!(g.assets.len(), 2);
    assert_eq!(count_path(&g, &["proj", "a.js"]), 1);
    assert_eq!(count_path(&g, &["proj", "b.js"]), 1);
}

#[test]
fn self_import_terminates() {
    let mut fs = FileSystem::new();
    fs.add_file(
        cp(&["proj", "a.js"]),
        "import { a } from './a.js';".to_string(),
    );
    let (g, _) =
        build_dependency_graph(&fs, &cp(&["proj", "a.js"]), &cp(&["proj", "nm"])).expect("builds");
    assert_eq!(g.assets.len(), 1);
}

#[test]
fn diamond_dependency_analyzed_once() {
    let mut fs = FileSystem::new();
    fs.add_file(
        cp(&["proj", "a.js"]),
        "import { b } from './b.js';\nimport { c } from './c.js';".to_string(),
    );
    fs.add_file(
        cp(&["proj", "b.js"]),
        "import { c } from './c.js';".to_string(),
    );
    fs.add_file(cp(&["proj", "c.js"]), "export const c = 1;".to_string());
    let (g, _) =
        build_dependency_graph(&fs, &cp(&["proj", "a.js"]), &cp(&["proj", "nm"])).expect("builds");
    assert_eq!(g.assets.len(), 3);
    assert_eq!(count_path(&g, &["proj", "c.js"]), 1);
    // ids are the distinct insertion positions: 1, 2, 3 in some order
    let mut ids: Vec<usize> = g.assets.iter().map(|a| a.id).collect();
    ids.sort();
    assert_eq!(ids, vec![1, 2, 3]);
}

#[test]
fn missing_import_reclassified_third_party() {
    let mut fs = FileSystem::new();
    fs.add_file(
        cp(&["proj", "a.js"]),
        "import { x } from './missing';".to_string(),
    );
    let (g, unresolved) =
        build_dependency_graph(&fs, &cp(&["proj", "a.js"]), &cp(&["proj", "nm"])).expect("builds");
    assert_eq!(g.assets.len(), 1);
    let deps = g.assets[0].dependencies();
    assert!(deps.first_party().is_empty());
    assert_eq!(deps.third_party(), strs(&["./missing"]));
    assert!(deps.exports().is_empty());
    // it does not resolve as a package either, so it is reported unresolved
    assert_eq!(unresolved, strs(&["./missing"]));
}

#[test]
fn named_export_without_source_contributes_nothing() {
    let mut fs = FileSystem::new();
    fs.add_file(cp(&["proj", "a.js"]), "export { x };".to_string());
    let (g, unresolved) =
        build_dependency_graph(&fs, &cp(&["proj", "a.js"]), &cp(&["proj", "nm"])).expect("builds");
    assert_eq!(g.assets.len(), 1);
    let deps = g.assets[0].dependencies();
    assert!(deps.first_party().is_empty());
    assert!(deps.third_party().is_empty());
    assert!(deps.exports().is_empty());
    assert!(unresolved.is_empty());
}

#[test]
fn export_all_tracked_as_reexport() {
    let mut fs = FileSystem::new();
    fs.add_file(
        cp(&["proj", "a.js"]),
        "export * from './b.js';".to_string(),
    );
    fs.add_file(cp(&["proj", "b.js"]), "export const b = 2;".to_string());
    let (g, _) =
        build_dependency_graph(&fs, &cp(&["proj", "a.js"]), &cp(&["proj", "nm"])).expect("builds");
    assert_eq!(g.assets.len(), 2);
    let a = g.get(&cp(&["proj", "a.js"])).expect("entry present");
    let deps = a.dependencies();
    assert_eq!(deps.first_party().len(), 1);
    assert_eq!(deps.exports().len(), 1);
    assert_eq!(
        deps.exports()[0].components,
        strs(&["proj", "b.js"])
    );
}

#[test]
fn named_export_with_source_tracked_as_reexport() {
    let mut fs = FileSystem::new();
    fs.add_file(
        cp(&["proj", "a.js"]),
        "export { b } from './b.js';".to_string(),
    );
    fs.add_file(cp(&["proj", "b.js"]), "export const b = 2;".to_string());
    let (g, _) =
        build_dependency_graph(&fs, &cp(&["proj", "a.js"]), &cp(&["proj", "nm"])).expect("builds");
    assert_eq!(g.assets.len(), 2);
    let a = g.get(&cp(&["proj", "a.js"])).expect("entry present");
    let deps = a.dependencies();
    assert_eq!(deps.first_party().len(), 1);
    assert_eq!(deps.exports().len(), 1);
}

#[test]
fn bare_import_resolved_under_install_root() {
    let mut fs = FileSystem::new();
    fs.add_file(
        cp(&["proj", "a.js"]),
        "import { map } from 'esm';".to_string(),
    );
    fs.add_file(
        cp(&["proj", "nm", "esm", "lib", "index.js"]),
        "export const map = 1;".to_string(),
    );
    let (g, unresolved) =
        build_dependency_graph(&fs, &cp(&["proj", "a.js"]), &cp(&["proj", "nm"])).expect("builds");
    assert_eq!(g.assets.len(), 2);
    assert_eq!(count_path(&g, &["proj", "nm", "esm", "lib", "index.js"]), 1);
    assert!(unresolved.is_empty());
}

#[test]
fn unresolved_package_recorded_and_does_not_halt() {
    let mut fs = FileSystem::new();
    fs.add_file(
        cp(&["proj", "a.js"]),
        "import { z } from 'ghost';\nimport { b } from './b.js';".to_string(),
    );
    fs.add_file(cp(&["proj", "b.js"]), "export const b = 1;".to_string());
    let (g, unresolved) =
        build_dependency_graph(&fs, &cp(&["proj", "a.js"]), &cp(&["proj", "nm"])).expect("builds");
    assert_eq!(g.assets.len(), 2);
    assert_eq!(unresolved, strs(&["ghost"]));
}

#[test]
fn typescript_module_parses_under_typescript_dialect() {
    let mut fs = FileSystem::new();
    fs.add_file(
        cp(&["proj", "index.ts"]),
        "import { u } from './util';\nconst n: number = 1;".to_string(),
    );
    fs.add_file(
        cp(&["proj", "util.ts"]),
        "export const u: string = 'u';".to_string(),
    );
    let (g, _) = build_dependency_graph(&fs, &cp(&["proj", "index.ts"]), &cp(&["proj", "nm"]))
        .expect("builds");
    assert_eq!(g.assets.len(), 2);
    assert_eq!(count_path(&g, &["proj", "util.ts"]), 1);
}

#[test]
fn missing_entry_reports_missing_file() {
    let fs = FileSystem::new();
    let r = build_dependency_graph(&fs, &cp(&["proj", "a.js"]), &cp(&["proj", "nm"]));
    match r {
        Err(BuildError::MissingFile { path, graph }) => {
            assert_eq!(path.components, strs(&["proj", "a.js"]));
            assert!(graph.assets.is_empty());
        },
        _ => panic!("expected a missing-file failure"),
    }
}

#[test]
fn broken_module_reports_parse_failure() {
    let mut fs = FileSystem::new();
    fs.add_file(cp(&["proj", "a.js"]), "import {".to_string());
    let r = build_dependency_graph(&fs, &cp(&["proj", "a.js"]), &cp(&["proj", "nm"]));
    match r {
        Err(BuildError::ParseFailure { path, graph }) => {
            assert_eq!(path.components, strs(&["proj", "a.js"]));
            assert!(graph.assets.is_empty());
        },
        _ => panic!("expected a parse failure"),
    }
}

#[test]
fn aborted_run_reports_partial_graph() {
    let mut fs = FileSystem::new();
    fs.add_file(
        cp(&["proj", "a.js"]),
        "import { b } from './broken.js';".to_string(),
    );
    fs.add_file(cp(&["proj", "broken.js"]), "import {".to_string());
    let r = build_dependency_graph(&fs, &cp(&["proj", "a.js"]), &cp(&["proj", "nm"]));
    match r {
        Err(BuildError::ParseFailure { path, graph }) => {
            assert_eq!(path.components, strs(&["proj", "broken.js"]));
            assert_eq!(graph.assets.len(), 1);
            assert_eq!(graph.assets[0].path.components, strs(&["proj", "a.js"]));
        },
        _ => panic!("expected a parse failure"),
    }
}

#[test]
fn parse_em_extracts_declaration_shapes() {
    let decls = parse_em(
        "import { x } from 'a';\nexport * from 'b';\nexport { y } from 'c';\nexport { z };\nconst k = 0;",
        false,
        false,
    )
    .expect("parses");
    assert_eq!(decls.len(), 5);
    match &decls[0] {
        RawDecl::Import { specifier } => assert_eq!(specifier, "a"),
        _ => panic!("expected an import"),
    }
    match &decls[1] {
        RawDecl::ExportAll { specifier } => assert_eq!(specifier, "b"),
        _ => panic!("expected an export-all"),
    }
    match &decls[2] {
        RawDecl::ExportNamed { specifier } => assert_eq!(specifier.as_deref(), Some("c")),
        _ => panic!("expected a named export"),
    }
    match &decls[3] {
        RawDecl::ExportNamed { specifier } => assert!(specifier.is_none()),
        _ => panic!("expected a named export without source"),
    }
    match &decls[4] {
        RawDecl::Other => {},
        _ => panic!("expected a plain statement"),
    }
}

#[test]
fn parse_em_rejects_broken_source() {
    assert!(parse_em("import {", false, false).is_none());
}

#[test]
fn graph_lookup_by_path() {
    let mut fs = FileSystem::new();
    fs.add_file(cp(&["proj", "a.js"]), "const x = 1;".to_string());
    let (g, _) =
        build_dependency_graph(&fs, &cp(&["proj", "a.js"]), &cp(&["proj", "nm"])).expect("builds");
    assert!(g.get(&cp(&["proj", "a.js"])).is_some());
    assert!(g.get(&cp(&["proj", "b.js"])).is_none());
    let a = g.get(&cp(&["proj", "a.js"])).unwrap();
    assert_eq!(a.path().components, strs(&["proj", "a.js"]));
    assert_eq!(a.id, 1);
    // discovery order is recorded but contents are what matter
    let paths = graph_paths(&g);
    assert_eq!(paths.len(), 1);
}
