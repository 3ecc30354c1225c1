use depgraph::paths::CanonicalPath;
use depgraph::resolve::{resolve_package, resolve_relative};
use depgraph::snapshot::FileSystem;
use depgraph::specifier::{classify, SpecifierKind};

fn cp(parts: &[&str]) -> CanonicalPath {
    CanonicalPath::from_components(parts.iter().map(|s| s.to_string()).collect())
}

fn comps(p: &CanonicalPath) -> Vec<String> {
    p.components.clone()
}

fn strs(parts: &[&str]) -> Vec<String> {
    parts.iter().map(|s| s.to_string()).collect()
}

#[test]
fn classify_relative_dot() {
    assert!(matches!(classify("./util"), SpecifierKind::Relative));
    assert!(matches!(classify("../util"), SpecifierKind::Relative));
    assert!(matches!(classify("."), SpecifierKind::Relative));
    assert!(matches!(classify(".."), SpecifierKind::Relative));
}

#[test]
fn classify_bare() {
    assert!(matches!(classify("lodash"), SpecifierKind::Bare));
    assert!(matches!(classify("@scope/pkg"), SpecifierKind::Bare));
    assert!(matches!(classify("lodash/fp"), SpecifierKind::Bare));
    assert!(matches!(classify(""), SpecifierKind::Bare));
}

#[test]
fn extension_inference_prefers_existing_file() {
    let mut fs = FileSystem::new();
    fs.add_file(cp(&["proj", "src", "index.ts"]), String::new());
    fs.add_file(cp(&["proj", "src", "util.ts"]), String::new());
    let root = cp(&["proj", "src", "index.ts"]);
    let got = resolve_relative(&fs, &root, &"./util".to_string()).expect("resolves");
    assert_eq!(comps(&got), strs(&["proj", "src", "util.ts"]));
}

#[test]
fn extension_inference_falls_through_to_directory_index() {
    let mut fs = FileSystem::new();
    fs.add_file(cp(&["proj", "src", "index.ts"]), String::new());
    fs.add_dir(cp(&["proj", "src", "util"]));
    fs.add_file(cp(&["proj", "src", "util", "index.ts"]), String::new());
    let root = cp(&["proj", "src", "index.ts"]);
    let got = resolve_relative(&fs, &root, &"./util".to_string()).expect("resolves");
    assert_eq!(comps(&got), strs(&["proj", "src", "util", "index.ts"]));
}

#[test]
fn exact_path_is_never_second_guessed() {
    let mut fs = FileSystem::new();
    fs.add_file(cp(&["proj", "a.js"]), String::new());
    fs.add_file(cp(&["proj", "b.js"]), String::new());
    let root = cp(&["proj", "a.js"]);
    let got = resolve_relative(&fs, &root, &"./b.js".to_string()).expect("resolves");
    assert_eq!(comps(&got), strs(&["proj", "b.js"]));
}

#[test]
fn parent_components_pop() {
    let mut fs = FileSystem::new();
    fs.add_file(cp(&["proj", "src", "app", "index.js"]), String::new());
    fs.add_file(cp(&["proj", "src", "util.js"]), String::new());
    let root = cp(&["proj", "src", "app", "index.js"]);
    let got = resolve_relative(&fs, &root, &"../util.js".to_string()).expect("resolves");
    assert_eq!(comps(&got), strs(&["proj", "src", "util.js"]));
}

#[test]
fn parent_components_stop_at_base() {
    let mut fs = FileSystem::new();
    fs.add_file(cp(&["a.js"]), String::new());
    fs.add_file(cp(&["b.js"]), String::new());
    let root = cp(&["a.js"]);
    // the leading `..` cannot pop above the filesystem root
    let got = resolve_relative(&fs, &root, &"../b.js".to_string()).expect("resolves");
    assert_eq!(comps(&got), strs(&["b.js"]));
}

#[test]
fn missing_relative_target_is_not_found() {
    let mut fs = FileSystem::new();
    fs.add_file(cp(&["proj", "a.js"]), String::new());
    let root = cp(&["proj", "a.js"]);
    assert!(resolve_relative(&fs, &root, &"./missing".to_string()).is_none());
}

#[test]
fn directory_without_index_is_not_found() {
    let mut fs = FileSystem::new();
    fs.add_file(cp(&["proj", "a.js"]), String::new());
    fs.add_dir(cp(&["proj", "util"]));
    let root = cp(&["proj", "a.js"]);
    assert!(resolve_relative(&fs, &root, &"./util".to_string()).is_none());
}

#[test]
fn package_conventional_lib_index() {
    let mut fs = FileSystem::new();
    fs.add_file(
        cp(&["proj", "node_modules", "lodash", "lib", "index.js"]),
        String::new(),
    );
    let nm = cp(&["proj", "node_modules"]);
    let got = resolve_package(&fs, &nm, &"lodash".to_string()).expect("resolves");
    assert_eq!(
        comps(&got),
        strs(&["proj", "node_modules", "lodash", "lib", "index.js"])
    );
}

#[test]
fn package_root_index_fallback() {
    let mut fs = FileSystem::new();
    fs.add_file(cp(&["nm", "tiny", "index.js"]), String::new());
    let nm = cp(&["nm"]);
    let got = resolve_package(&fs, &nm, &"tiny".to_string()).expect("resolves");
    assert_eq!(comps(&got), strs(&["nm", "tiny", "index.js"]));
}

#[test]
fn package_direct_file_specifier() {
    let mut fs = FileSystem::new();
    fs.add_file(cp(&["nm", "esm", "lib", "fn.js"]), String::new());
    let nm = cp(&["nm"]);
    let got = resolve_package(&fs, &nm, &"esm/lib/fn.js".to_string()).expect("resolves");
    assert_eq!(comps(&got), strs(&["nm", "esm", "lib", "fn.js"]));
}

#[test]
fn package_manifest_entry_preferred() {
    let mut fs = FileSystem::new();
    fs.add_file(cp(&["nm", "foo", "dist", "main.js"]), String::new());
    fs.add_file(cp(&["nm", "foo", "lib", "index.js"]), String::new());
    fs.add_package_main(cp(&["nm", "foo"]), "dist/main.js".to_string());
    let nm = cp(&["nm"]);
    let got = resolve_package(&fs, &nm, &"foo".to_string()).expect("resolves");
    assert_eq!(comps(&got), strs(&["nm", "foo", "dist", "main.js"]));
}

#[test]
fn package_manifest_entry_unresolvable_falls_back() {
    let mut fs = FileSystem::new();
    fs.add_file(cp(&["nm", "foo", "lib", "index.js"]), String::new());
    fs.add_package_main(cp(&["nm", "foo"]), "nope.js".to_string());
    let nm = cp(&["nm"]);
    let got = resolve_package(&fs, &nm, &"foo".to_string()).expect("resolves");
    assert_eq!(comps(&got), strs(&["nm", "foo", "lib", "index.js"]));
}

#[test]
fn scoped_package_resolves_as_one_unit() {
    let mut fs = FileSystem::new();
    fs.add_file(cp(&["nm", "@scope", "pkg", "index.js"]), String::new());
    let nm = cp(&["nm"]);
    let got = resolve_package(&fs, &nm, &"@scope/pkg".to_string()).expect("resolves");
    assert_eq!(comps(&got), strs(&["nm", "@scope", "pkg", "index.js"]));
}

#[test]
fn package_not_found() {
    let fs = FileSystem::new();
    let nm = cp(&["nm"]);
    assert!(resolve_package(&fs, &nm, &"ghost".to_string()).is_none());
}

#[test]
fn is_ecmascript_file_extensions() {
    assert!(depgraph::paths::is_ecmascript_file(&cp(&["a", "b.js"])));
    assert!(depgraph::paths::is_ecmascript_file(&cp(&["a", "b.jsx"])));
    assert!(!depgraph::paths::is_ecmascript_file(&cp(&["a", "b.ts"])));
    assert!(!depgraph::paths::is_ecmascript_file(&cp(&["a", "b"])));
    assert!(!depgraph::paths::is_ecmascript_file(&cp(&[])));
}
