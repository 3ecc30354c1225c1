//! The library's path model: an absolute, normalized filesystem path held as
//! its sequence of components. Two paths denote the same location exactly when
//! their component sequences are equal, which makes the type usable as the
//! module graph's deduplication key.
use vstd::prelude::*;

use crate::strutil::has_proper_suffix;

verus! {

/// An absolute, filesystem-normalized path, stored as its components from the
/// root downward. The components never contain a separator character by
/// construction of the resolver; the type itself places no constraint on them.
#[derive(Debug)]
pub struct CanonicalPath {
    pub components: Vec<String>,
}

impl View for CanonicalPath {
    type V = Seq<Seq<char>>;

    open spec fn view(&self) -> Seq<Seq<char>> {
        self.components.deep_view()
    }
}

impl DeepView for CanonicalPath {
    type V = Seq<Seq<char>>;

    open spec fn deep_view(&self) -> Seq<Seq<char>> {
        self@
    }
}

/// Clones a vector of strings element by element.
pub fn clone_string_vec(v: &Vec<String>) -> (r: Vec<String>)
    ensures
        r.deep_view() == v.deep_view(),
{
    let mut r: Vec<String> = Vec::new();
    let mut i: usize = 0;
    while i < v.len()
        invariant
            i <= v.len(),
            r.deep_view() =~= v.deep_view().take(i as int),
        decreases v.len() - i,
    {
        let s = v[i].clone();
        let ghost prev = r.deep_view();
        r.push(s);
        proof {
            assert(r.deep_view() =~= prev.push(s@));
            assert(r.deep_view() =~= v.deep_view().take(i + 1));
        }
        i = i + 1;
    }
    proof {
        assert(v.deep_view().take(v.len() as int) =~= v.deep_view());
    }
    r
}

impl Clone for CanonicalPath {
    fn clone(&self) -> (r: Self)
        ensures
            r@ == self@,
    {
        CanonicalPath { components: clone_string_vec(&self.components) }
    }
}

impl CanonicalPath {
    /// Builds a path from its components, root downward.
    pub fn from_components(components: Vec<String>) -> (r: Self)
        ensures
            r@ == components.deep_view(),
    {
        CanonicalPath { components }
    }

    /// Decides equality of two paths' component sequences.
    pub fn path_eq(&self, other: &CanonicalPath) -> (r: bool)
        ensures
            r == (self@ == other@),
    {
        if self.components.len() != other.components.len() {
            proof {
                assert(self@.len() != other@.len());
            }
            return false;
        }
        let mut i: usize = 0;
        while i < self.components.len()
            invariant
                i <= self.components.len(),
                self.components.len() == other.components.len(),
                forall|j: int| 0 <= j < i ==> self@[j] == other@[j],
            decreases self.components.len() - i,
        {
            let equal = crate::strutil::str_eq(self.components[i].as_str(), other.components[i].as_str());
            proof {
                assert(self@[i as int] == self.components@[i as int]@);
                assert(other@[i as int] == other.components@[i as int]@);
            }
            if !equal {
                proof {
                    assert(self@[i as int] != other@[i as int]);
                }
                return false;
            }
            i = i + 1;
        }
        proof {
            assert(self@ =~= other@);
        }
        true
    }

    /// The number of components.
    pub fn depth(&self) -> (r: usize)
        ensures
            r == self@.len(),
    {
        self.components.len()
    }
}

/// The path names a file with one of the conventional ECMAScript source
/// extensions.
pub open spec fn is_ecmascript_path(p: Seq<Seq<char>>) -> bool {
    p.len() > 0 && (has_proper_suffix(p.last(), ".js"@) || has_proper_suffix(p.last(), ".jsx"@))
}

/// The path names a file with a TypeScript source extension.
pub open spec fn is_typescript_path(p: Seq<Seq<char>>) -> bool {
    p.len() > 0 && (has_proper_suffix(p.last(), ".ts"@) || has_proper_suffix(p.last(), ".tsx"@))
}

/// The path carries any recognized module extension, TypeScript or ECMAScript.
pub open spec fn has_module_extension(p: Seq<Seq<char>>) -> bool {
    is_ecmascript_path(p) || is_typescript_path(p)
}

/// Decides whether the path's last component carries an ECMAScript extension
/// (`.js` or `.jsx`).
pub fn is_ecmascript_file(fpath: &CanonicalPath) -> (r: bool)
    ensures
        r == is_ecmascript_path(fpath@),
{
    if fpath.components.len() == 0 {
        return false;
    }
    let last = &fpath.components[fpath.components.len() - 1];
    proof {
        assert(fpath@.last() == last@);
    }
    crate::strutil::ends_with_proper(last.as_str(), ".js") || crate::strutil::ends_with_proper(
        last.as_str(),
        ".jsx",
    )
}

/// Decides whether the path's last component carries a TypeScript extension
/// (`.ts` or `.tsx`).
pub fn is_typescript_file(fpath: &CanonicalPath) -> (r: bool)
    ensures
        r == is_typescript_path(fpath@),
{
    if fpath.components.len() == 0 {
        return false;
    }
    let last = &fpath.components[fpath.components.len() - 1];
    proof {
        assert(fpath@.last() == last@);
    }
    crate::strutil::ends_with_proper(last.as_str(), ".ts") || crate::strutil::ends_with_proper(
        last.as_str(),
        ".tsx",
    )
}

/// Decides whether the path carries any recognized module extension.
pub fn has_module_extension_exec(fpath: &CanonicalPath) -> (r: bool)
    ensures
        r == has_module_extension(fpath@),
{
    is_ecmascript_file(fpath) || is_typescript_file(fpath)
}

} // verus!
