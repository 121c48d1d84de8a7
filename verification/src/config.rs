//! The configuration handed to a graph build: a display title, the scanned
//! language, the source root, and the ordered module-resolution (alias) rules.
//! Loading and validating a configuration file is the caller's business; the
//! library consumes the already-validated in-memory structure.

use vstd::prelude::*;

verus! {

/// One alias rule: a specifier that starts with `pattern` has that prefix
/// replaced by `replacement` before candidate probing.
#[derive(Debug, Clone)]
pub struct ModuleResolutionItem {
    pub pattern: String,
    pub replacement: String,
}

/// The validated configuration of one graph build.
#[derive(Debug)]
pub struct Config {
    pub title: String,
    pub language: String,
    pub path: String,
    pub module_resolution: Option<Vec<ModuleResolutionItem>>,
}

} // verus!
