//! Runs a single self-contained source file as if it were a script: an
//! embedded build descriptor is extracted from specially marked comment
//! lines, missing dependencies are inferred from the source's own import
//! statements, both are merged into one canonical project descriptor, and a
//! staleness evaluator decides which pipeline stages can be skipped.

pub mod builder;
pub mod cmd_args;
pub mod code_utils;
pub mod errors;
pub mod manifest;
pub mod shared;
pub mod term_colors;
pub mod text;
pub mod toml_fmt;
pub mod toml_utils;
