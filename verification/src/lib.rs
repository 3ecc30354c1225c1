//! Dependency-resolution core of a JavaScript/TypeScript build tool: given an
//! entry module and a package-install directory, it discovers every module the
//! entry transitively depends on, classifies each dependency as first-party,
//! third-party or re-export, and assembles a deduplicated module graph.
//!
//! Resolution and traversal are verified against a value-level snapshot of the
//! filesystem (`snapshot::FileSystem`); source text is parsed through a
//! trusted boundary around the swc parser (`parse`).

pub mod asset;
pub mod graph;
pub mod parse;
pub mod paths;
pub mod resolve;
pub mod snapshot;
pub mod specifier;
pub mod strutil;
