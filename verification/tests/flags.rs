use rs_script::cmd_args::Opt;
use rs_script::cmd_args::ProcFlags;
use rs_script::code_utils::get_proc_flags;
use rs_script::errors::BuildRunError;

fn opt(generate: bool, build: bool, all: bool, no_run: bool, verbose: bool, timings: bool) -> Opt {
    Opt { generate, build, all, no_run, verbose, timings }
}

#[test]
fn test_flags_round_trip_all_set() {
    let f = ProcFlags { generate: true, build: true, verbose: true, timings: true, run: true, all: true };
    let text = f.to_text();
    assert_eq!(text, "gbvtra");
    assert_eq!(ProcFlags::from_text(text.as_str()).unwrap(), f);
}

#[test]
fn test_flags_round_trip_mixed() {
    let f = ProcFlags {
        generate: true,
        build: false,
        verbose: true,
        timings: false,
        run: true,
        all: false,
    };
    let text = f.to_text();
    assert_eq!(text, "g-v-r-");
    assert_eq!(ProcFlags::from_text(text.as_str()).unwrap(), f);
}

#[test]
fn test_flags_round_trip_empty() {
    let f = ProcFlags::empty();
    assert_eq!(ProcFlags::from_text(f.to_text().as_str()).unwrap(), f);
}

#[test]
fn test_flags_parse_rejects_bad_text() {
    assert!(matches!(ProcFlags::from_text("gbvtr"), Err(BuildRunError::DescriptorParse(_))));
    assert!(matches!(ProcFlags::from_text("xbvtra"), Err(BuildRunError::DescriptorParse(_))));
}

#[test]
fn test_conflicting_options_rejected_for_every_other_combination() {
    for bits in 0..16u32 {
        let o = opt(bits & 1 != 0, bits & 2 != 0, true, true, bits & 4 != 0, bits & 8 != 0);
        let r = get_proc_flags(&o);
        assert!(matches!(r, Err(BuildRunError::ConflictingOptions(_))));
    }
}

#[test]
fn test_all_switch_implies_generate_and_build() {
    let f = get_proc_flags(&opt(false, false, true, false, false, false)).unwrap();
    assert!(f.generate && f.build && f.run && f.all);
    assert!(!f.verbose && !f.timings);
}

#[test]
fn test_all_derived_from_individual_switches() {
    let f = get_proc_flags(&opt(true, true, false, false, false, false)).unwrap();
    assert!(f.all, "generate + build + run is the shorthand state");
    let g = get_proc_flags(&opt(true, false, false, false, false, false)).unwrap();
    assert!(!g.all);
}

#[test]
fn test_no_run_switches_run_off() {
    let f = get_proc_flags(&opt(true, true, false, true, true, true)).unwrap();
    assert!(!f.run);
    assert!(!f.all, "no_run keeps the shorthand state off");
    assert!(f.verbose && f.timings);
}
