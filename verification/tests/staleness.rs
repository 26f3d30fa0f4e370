use rs_script::builder::evaluate_staleness;
use rs_script::builder::plan_stages;
use rs_script::builder::FsSnapshot;
use rs_script::cmd_args::ProcFlags;
use rs_script::shared::BuildState;

fn sample_state() -> BuildState {
    BuildState {
        working_dir_path: "/work".to_string(),
        source_stem: "fib".to_string(),
        source_name: "fib.rs".to_string(),
        source_dir_path: "/work/scripts".to_string(),
        source_path: "/work/scripts/fib.rs".to_string(),
        cargo_home: "/home/user/.cargo".to_string(),
        target_dir_path: "/tmp/rs-script/fib".to_string(),
        target_path: "/tmp/rs-script/fib/target/debug/fib".to_string(),
        cargo_toml_path: "/tmp/rs-script/fib/Cargo.toml".to_string(),
        rs_manifest: None,
        cargo_manifest: None,
        must_gen: false,
        must_build: false,
    }
}

fn snap(
    dir: bool,
    toml: bool,
    gen_mtime: Option<u64>,
    target_mtime: Option<u64>,
    script_mtime: u64,
) -> FsSnapshot {
    FsSnapshot {
        target_dir_exists: dir,
        cargo_toml_exists: toml,
        generated_source_mtime: gen_mtime,
        target_mtime,
        script_mtime,
    }
}

#[test]
fn test_fresh_artifacts_need_nothing() {
    let mut st = sample_state();
    evaluate_staleness(&mut st, &snap(true, true, Some(20), Some(30), 10), false);
    assert!(!st.must_gen);
    assert!(!st.must_build);
}

#[test]
fn test_missing_directory_forces_both() {
    let mut st = sample_state();
    evaluate_staleness(&mut st, &snap(false, true, Some(20), Some(30), 10), false);
    assert!(st.must_gen);
    assert!(st.must_build);
}

#[test]
fn test_newer_script_forces_both() {
    let mut st = sample_state();
    evaluate_staleness(&mut st, &snap(true, true, Some(20), Some(30), 25), false);
    assert!(st.must_gen);
    assert!(st.must_build);
}

#[test]
fn test_stale_target_forces_build_only() {
    let mut st = sample_state();
    evaluate_staleness(&mut st, &snap(true, true, Some(20), Some(15), 10), false);
    assert!(!st.must_gen);
    assert!(st.must_build);
}

#[test]
fn test_missing_target_forces_build_only() {
    let mut st = sample_state();
    evaluate_staleness(&mut st, &snap(true, true, Some(20), None, 10), false);
    assert!(!st.must_gen);
    assert!(st.must_build);
}

#[test]
fn test_force_overrides_fresh_artifacts() {
    let mut st = sample_state();
    evaluate_staleness(&mut st, &snap(true, true, Some(20), Some(30), 10), true);
    assert!(st.must_gen);
    assert!(st.must_build);
}

#[test]
fn test_generation_always_implies_build() {
    let cases = [
        snap(false, false, None, None, 0),
        snap(true, false, Some(5), Some(50), 9),
        snap(false, true, Some(5), Some(50), 1),
        snap(true, true, None, Some(50), 1),
    ];
    for s in cases.iter() {
        let mut st = sample_state();
        evaluate_staleness(&mut st, s, false);
        if st.must_gen {
            assert!(st.must_build);
        }
    }
}

#[test]
fn test_plan_stages_follows_flags_and_staleness() {
    let mut st = sample_state();
    evaluate_staleness(&mut st, &snap(true, true, Some(20), Some(30), 10), false);
    let flags = ProcFlags {
        generate: false,
        build: true,
        verbose: false,
        timings: false,
        run: true,
        all: false,
    };
    let plan = plan_stages(&flags, &st);
    assert!(!plan.generate);
    assert!(plan.build);
    assert!(plan.run);
}
