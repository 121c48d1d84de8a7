//! Builds a dependency graph for a JavaScript/TypeScript source tree: one node
//! per project file, one node per distinct externally imported package, and one
//! edge per import statement. The heart of the crate is import resolution:
//! deciding, for a raw specifier found in a known file, which project file it
//! refers to, or that it is external.
//!
//! - [`paths`] models paths as slash-separated character sequences and walks
//!   `.` and `..` segments.
//! - [`imports`] resolves one raw specifier against the known files: relative
//!   walk, alias substitution, external fallback.
//! - [`graph`] assembles the resolved imports of every file into one
//!   deduplicated graph.
//! - [`config`] holds the validated configuration a build consumes.

pub mod config;
pub mod graph;
pub mod imports;
pub mod paths;
