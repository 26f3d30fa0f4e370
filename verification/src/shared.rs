//! The per-invocation working context threaded through extraction,
//! inference, merge, staleness evaluation and orchestration.

use crate::toml_utils::CargoManifest;
use vstd::prelude::*;

verus! {

/// A filesystem path as the operating system hands it over: its text, or
/// nothing when the path is not valid Unicode.
#[derive(Debug, Clone)]
pub struct OsPath {
    pub text: Option<String>,
}

/// The working context of one script invocation. Created fresh per
/// invocation; the staleness evaluator sets the two booleans, the merger
/// sets the resolved descriptor.
#[derive(Debug)]
pub struct BuildState {
    pub working_dir_path: String,
    pub source_stem: String,
    pub source_name: String,
    pub source_dir_path: String,
    pub source_path: String,
    pub cargo_home: String,
    pub target_dir_path: String,
    pub target_path: String,
    pub cargo_toml_path: String,
    pub rs_manifest: Option<CargoManifest>,
    pub cargo_manifest: Option<CargoManifest>,
    pub must_gen: bool,
    pub must_build: bool,
}

} // verus!
