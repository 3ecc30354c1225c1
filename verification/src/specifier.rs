//! The specifier classifier: an import/export source string is Relative when
//! its first path component is `.` or `..`, and Bare otherwise. A Relative
//! specifier is a first-party candidate; a Bare one is a third-party
//! candidate. Classification alone does not guarantee resolvability.
use vstd::prelude::*;

use crate::strutil::{split_components, split_spec, str_eq};

verus! {

/// How a raw specifier is classified before any filesystem probe.
#[derive(PartialEq, Eq, Structural, Clone, Copy, Debug)]
pub enum SpecifierKind {
    Relative,
    Bare,
}

/// The first `/`-separated component of `s` is `.` or `..`.
pub open spec fn is_relative_specifier(s: Seq<char>) -> bool {
    split_spec(s)[0] == "."@ || split_spec(s)[0] == ".."@
}

/// Classifies a raw specifier as Relative or Bare.
pub fn classify(specifier: &str) -> (r: SpecifierKind)
    ensures
        r == SpecifierKind::Relative <==> is_relative_specifier(specifier@),
{
    let comps = split_components(specifier);
    let first = &comps[0];
    proof {
        assert(comps.deep_view()[0] == comps@[0]@);
    }
    if str_eq(first.as_str(), ".") || str_eq(first.as_str(), "..") {
        SpecifierKind::Relative
    } else {
        SpecifierKind::Bare
    }
}

} // verus!
