use rs_script::code_utils::infer_dependencies;
use rs_script::code_utils::rs_extract_src;
use rs_script::toml_utils::rs_extract_toml;

#[test]
fn test_inference_filters_standard_namespaces() {
    let code = "use std::io;\nuse serde_json;\n";
    let deps = infer_dependencies(code);
    assert_eq!(deps, vec!["serde_json".to_string()]);
}

#[test]
fn test_inference_keeps_first_path_segment() {
    let code = "use itertools::Itertools;\nuse serde::{Serialize, Deserialize};\n";
    let deps = infer_dependencies(code);
    assert_eq!(deps, vec!["itertools".to_string(), "serde".to_string()]);
}

#[test]
fn test_inference_sees_extern_crate() {
    let code = "#[macro_use]\nextern crate serde_derive;\n\nfn main() {}\n";
    let deps = infer_dependencies(code);
    assert_eq!(deps, vec!["serde_derive".to_string()]);
}

#[test]
fn test_inference_deduplicates_and_sorts() {
    let code = "use zoo::a;\nuse bar::b;\nuse zoo::c;\n";
    let deps = infer_dependencies(code);
    assert_eq!(deps, vec!["bar".to_string(), "zoo".to_string()]);
}

#[test]
fn test_inference_ignores_core_alloc_collections_fmt() {
    let code = "use core::mem;\nuse alloc::vec;\nuse collections::x;\nuse fmt::Display;\n";
    let deps = infer_dependencies(code);
    assert!(deps.is_empty());
}

#[test]
fn test_extract_src_drops_descriptor_lines_and_trims() {
    let text = "//! [dependencies]\n//! log = \"0.4\"\n  fn main() {\n    println!(\"hi\");\n  }\n";
    let src = rs_extract_src(text);
    assert_eq!(src, "fn main() {\nprintln!(\"hi\");\n}\n");
}

#[test]
fn test_extract_toml_reads_descriptor_lines() {
    let text = "//! [dependencies]\n//! itertools = \"0.13.0\"\nfn main() {}\n";
    let m = rs_extract_toml(text).expect("embedded descriptor parses");
    assert_eq!(m.dependencies.len(), 1);
    assert_eq!(m.dependencies[0].0, "itertools");
}

#[test]
fn test_extract_toml_handles_doc_comment_markers() {
    let text = "//!! [workspace]\nfn main() {}\n";
    let m = rs_extract_toml(text).expect("marker variants are stripped");
    assert!(m.workspace);
}

#[test]
fn test_extract_toml_reports_bad_descriptor() {
    let text = "//! [dependencies]\n//! log = what is this\nfn main() {}\n";
    let r = rs_extract_toml(text);
    assert!(matches!(r, Err(rs_script::errors::BuildRunError::DescriptorParse(_))));
}
