use rs_script::code_utils::infer_dependencies;
use rs_script::code_utils::parse_source;
use rs_script::code_utils::path_to_str;
use rs_script::errors::BuildRunError;
use rs_script::manifest::merge_manifest;
use rs_script::shared::OsPath;
use rs_script::term_colors::ColorName;
use rs_script::term_colors::Theme;
use rs_script::term_colors::YinYangStyle;
use rs_script::toml_utils::CargoManifest;
use rs_script::toml_utils::Dependency;
use rs_script::toml_utils::DependencyDetail;

#[test]
fn test_merge_keeps_explicit_version_over_inference() {
    let embedded = CargoManifest::from_str("[dependencies]\nfoo = \"1.2\"\n").unwrap();
    let inferred = vec!["foo".to_string()];
    let merged = merge_manifest(
        &embedded,
        &inferred,
        &"script".to_string(),
        &"/tmp/script.rs".to_string(),
    );
    assert_eq!(merged.dependencies.len(), 1);
    assert_eq!(merged.dependencies[0].0, "foo");
    assert_eq!(merged.dependencies[0].1, Dependency::Simple("1.2".to_string()));
}

#[test]
fn test_merge_adds_inferred_names_unresolved() {
    let embedded = CargoManifest::from_str("[dependencies]\nfoo = \"1.2\"\n").unwrap();
    let inferred = vec!["bar".to_string()];
    let merged = merge_manifest(
        &embedded,
        &inferred,
        &"script".to_string(),
        &"/tmp/script.rs".to_string(),
    );
    assert_eq!(merged.dependencies.len(), 2);
    assert_eq!(merged.dependencies[0].0, "bar");
    assert_eq!(
        merged.dependencies[0].1,
        Dependency::Detailed(DependencyDetail { version: None, features: Vec::new() })
    );
    assert_eq!(merged.dependencies[1].0, "foo");
}

#[test]
fn test_merge_default_binary_target_named_after_stem() {
    let embedded = CargoManifest::from_str("").unwrap();
    let merged = merge_manifest(
        &embedded,
        &Vec::new(),
        &"fib".to_string(),
        &"/tmp/rs-script/fib/fib.rs".to_string(),
    );
    assert_eq!(merged.bin.len(), 1);
    assert_eq!(merged.bin[0].name, Some("fib".to_string()));
    assert_eq!(merged.bin[0].path, Some("/tmp/rs-script/fib/fib.rs".to_string()));
}

#[test]
fn test_end_to_end_descriptor_for_plain_script() {
    let script = "use itertools::Itertools;\n\nfn main() {\n    let v: Vec<u32> = (1..4).collect();\n    println!(\"{:?}\", v);\n}\n";
    let (embedded, pure_source) = parse_source(script).expect("script without descriptor parses");
    assert_eq!(embedded.package.name, "your_project_name");
    let inferred = infer_dependencies(pure_source.as_str());
    assert_eq!(inferred, vec!["itertools".to_string()]);
    let merged = merge_manifest(
        &embedded,
        &inferred,
        &"script".to_string(),
        &"/tmp/rs-script/script/script.rs".to_string(),
    );
    assert_eq!(merged.package.name, "your_project_name");
    assert_eq!(merged.dependencies.len(), 1);
    assert_eq!(merged.dependencies[0].0, "itertools");
    assert_eq!(
        merged.dependencies[0].1,
        Dependency::Detailed(DependencyDetail { version: None, features: Vec::new() })
    );
    let reparsed = CargoManifest::from_str(merged.to_string().as_str()).unwrap();
    assert_eq!(reparsed, merged);
}

#[test]
fn test_parse_source_splits_descriptor_and_body() {
    let script = "//! [package]\n//! name = \"demo\"\n//! version = \"0.3.0\"\nfn main() {}\n";
    let (manifest, body) = parse_source(script).expect("embedded descriptor parses");
    assert_eq!(manifest.package.name, "demo");
    assert_eq!(manifest.package.version, "0.3.0");
    assert_eq!(body, "fn main() {}\n");
}

#[test]
fn test_path_to_str_accepts_unicode_paths() {
    let p = OsPath { text: Some("/tmp/rs-script/fib".to_string()) };
    assert_eq!(path_to_str(&p).unwrap(), "/tmp/rs-script/fib");
}

#[test]
fn test_path_to_str_rejects_non_unicode_paths() {
    let p = OsPath { text: None };
    assert!(matches!(path_to_str(&p), Err(BuildRunError::Io(_))));
}

#[test]
fn test_styles_follow_theme() {
    let warn_light = YinYangStyle::Warning.get_style(&Some(Theme::Light)).unwrap();
    assert_eq!(warn_light.color, ColorName::DecoOrange);
    assert!(warn_light.bold);
    let warn_dark = YinYangStyle::Warning.get_style(&Some(Theme::Dark)).unwrap();
    assert_eq!(warn_dark.color, ColorName::BlazeOrange);
    let info_dark = YinYangStyle::Info.get_style(&Some(Theme::Dark)).unwrap();
    assert_eq!(info_dark.color, ColorName::White);
    assert!(!info_dark.bold);
    assert!(YinYangStyle::Error.get_style(&None).is_none());
}

#[test]
fn test_style_names() {
    assert_eq!(YinYangStyle::Error.to_string(), "error");
    assert_eq!(YinYangStyle::OuterPrompt.to_string(), "outer_prompt");
    assert_eq!(YinYangStyle::Debug.to_string(), "debug");
}
