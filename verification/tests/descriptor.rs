use rs_script::toml_utils::CargoManifest;
use rs_script::toml_utils::Dependency;
use rs_script::toml_utils::DependencyDetail;
use rs_script::toml_utils::Package;
use rs_script::toml_utils::Product;

fn sample_manifest() -> CargoManifest {
    CargoManifest {
        package: Package { name: "fib_fac_lite".to_string(), version: "0.0.1".to_string() },
        dependencies: vec![
            ("itertools".to_string(), Dependency::Simple("0.13.0".to_string())),
            (
                "serde".to_string(),
                Dependency::Detailed(DependencyDetail {
                    version: Some("1.0".to_string()),
                    features: vec!["derive".to_string(), "rc".to_string()],
                }),
            ),
        ],
        edition: "2021".to_string(),
        workspace: true,
        bin: vec![Product {
            path: Some("fib_fac_lite.rs".to_string()),
            name: Some("fib_fac_lite".to_string()),
            required_features: None,
        }],
    }
}

#[test]
fn test_round_trip_full_manifest() {
    let m = sample_manifest();
    let text = m.to_string();
    let parsed = CargoManifest::from_str(text.as_str()).expect("canonical text must parse");
    assert_eq!(parsed, m);
}

#[test]
fn test_round_trip_feature_only_dependency() {
    let mut m = sample_manifest();
    m.dependencies = vec![(
        "tokio".to_string(),
        Dependency::Detailed(DependencyDetail {
            version: None,
            features: vec!["full".to_string()],
        }),
    )];
    let text = m.to_string();
    let parsed = CargoManifest::from_str(text.as_str()).expect("canonical text must parse");
    assert_eq!(parsed, m);
}

#[test]
fn test_round_trip_empty_detail_and_no_workspace() {
    let mut m = sample_manifest();
    m.workspace = false;
    m.bin = Vec::new();
    m.dependencies = vec![(
        "anyhow".to_string(),
        Dependency::Detailed(DependencyDetail { version: None, features: Vec::new() }),
    )];
    let text = m.to_string();
    let parsed = CargoManifest::from_str(text.as_str()).expect("canonical text must parse");
    assert_eq!(parsed, m);
}

#[test]
fn test_round_trip_binary_target_with_required_features() {
    let mut m = sample_manifest();
    m.bin = vec![Product {
        path: Some("src/main.rs".to_string()),
        name: Some("demo".to_string()),
        required_features: Some(vec!["cli".to_string(), "color".to_string()]),
    }];
    let text = m.to_string();
    let parsed = CargoManifest::from_str(text.as_str()).expect("canonical text must parse");
    assert_eq!(parsed, m);
}

#[test]
fn test_parse_empty_text_gives_defaults() {
    let m = CargoManifest::from_str("").expect("empty text parses to the defaults");
    assert_eq!(m.package.name, "your_project_name");
    assert_eq!(m.package.version, "0.1.0");
    assert_eq!(m.edition, "2021");
    assert!(!m.workspace);
    assert!(m.dependencies.is_empty());
    assert!(m.bin.is_empty());
}

#[test]
fn test_parse_tolerates_unknown_sections_and_keys() {
    let text = "authors = \"nobody\"\n[package]\nname = \"x\"\nversion = \"0.2.0\"\nlicense = \"MIT\"\n[features]\ndefault = \"y\"\n[dependencies]\nlog = \"0.4\"\n";
    let m = CargoManifest::from_str(text).expect("unknown sections are tolerated");
    assert_eq!(m.package.name, "x");
    assert_eq!(m.package.version, "0.2.0");
    assert_eq!(m.dependencies.len(), 1);
    assert_eq!(m.dependencies[0].0, "log");
    assert_eq!(m.dependencies[0].1, Dependency::Simple("0.4".to_string()));
}

#[test]
fn test_parse_rejects_duplicate_dependency() {
    let text = "[dependencies]\nlog = \"0.4\"\nlog = \"0.5\"\n";
    let r = CargoManifest::from_str(text);
    assert!(matches!(r, Err(rs_script::errors::BuildRunError::DescriptorParse(_))));
}

#[test]
fn test_parse_rejects_garbage_line() {
    let text = "[package]\nname comes without an equals sign\n";
    let r = CargoManifest::from_str(text);
    assert!(matches!(r, Err(rs_script::errors::BuildRunError::DescriptorParse(_))));
}

#[test]
fn test_parse_sorts_dependencies_by_name() {
    let text = "[dependencies]\nzzz = \"1\"\naaa = \"2\"\n";
    let m = CargoManifest::from_str(text).expect("dependency lines parse");
    assert_eq!(m.dependencies[0].0, "aaa");
    assert_eq!(m.dependencies[1].0, "zzz");
}

#[test]
fn test_parse_detailed_dependency_with_spacing() {
    let text = "[dependencies]\nserde = {  version = \"1.0\" ,  features = [ \"derive\" ]  }\n";
    let m = CargoManifest::from_str(text).expect("inline tables parse");
    assert_eq!(
        m.dependencies[0].1,
        Dependency::Detailed(DependencyDetail {
            version: Some("1.0".to_string()),
            features: vec!["derive".to_string()],
        })
    );
}

#[test]
fn test_render_has_canonical_shape() {
    let mut m = sample_manifest();
    m.dependencies = vec![("log".to_string(), Dependency::Simple("0.4.21".to_string()))];
    m.bin = Vec::new();
    m.workspace = false;
    let text = m.to_string();
    assert_eq!(
        text,
        "edition = \"2021\"\n[package]\nname = \"fib_fac_lite\"\nversion = \"0.0.1\"\n[dependencies]\nlog = \"0.4.21\"\n"
    );
}
