use vstd::prelude::*;

verus! {

/// The error taxonomy of the pipeline: file handling, embedded descriptor
/// parsing, conflicting command-line switches, and failures of the external
/// toolchain that compiles and runs the generated project.
#[derive(Debug, Clone)]
pub enum BuildRunError {
    /// A file could not be read or written; carries path context.
    Io(String),
    /// The embedded descriptor is not well-formed; carries the diagnostic.
    DescriptorParse(String),
    /// Mutually exclusive command-line switches were both set.
    ConflictingOptions(String),
    /// The external toolchain process failed; carries its exit code.
    Toolchain(i32),
}

} // verus!
