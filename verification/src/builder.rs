//! The staleness evaluator and the stage plan: which pipeline stages an
//! invocation actually has to run. The orchestration around them (file
//! writes, toolchain processes) lives outside the library and consults
//! these decisions only.

use crate::cmd_args::ProcFlags;
use crate::shared::BuildState;
use vstd::prelude::*;

verus! {

/// A snapshot of the filesystem state the staleness decision depends on.
/// A missing file carries no timestamp.
#[derive(Debug, Clone, Copy)]
pub struct FsSnapshot {
    /// The generated project directory exists.
    pub target_dir_exists: bool,
    /// The generated descriptor file exists.
    pub cargo_toml_exists: bool,
    /// Modification time of the generated source copy, if it exists.
    pub generated_source_mtime: Option<u64>,
    /// Modification time of the compiled target artifact, if it exists.
    pub target_mtime: Option<u64>,
    /// Modification time of the script itself.
    pub script_mtime: u64,
}

/// Generation is required when the generated project directory, its
/// descriptor file or the generated source copy is missing, when the
/// script is newer than the generated source copy, or when the user forced
/// regeneration.
pub open spec fn spec_must_generate(s: FsSnapshot, force: bool) -> bool {
    ||| force
    ||| !s.target_dir_exists
    ||| !s.cargo_toml_exists
    ||| match s.generated_source_mtime {
        None => true,
        Some(g) => s.script_mtime > g,
    }
}

/// Building is required when generation is, when the compiled target
/// artifact is missing, or when the artifact is older than the generated
/// source copy.
pub open spec fn spec_must_build(s: FsSnapshot, force: bool) -> bool {
    ||| spec_must_generate(s, force)
    ||| match (s.target_mtime, s.generated_source_mtime) {
        (None, _) => true,
        (Some(t), Some(g)) => t < g,
        (Some(_), None) => true,
    }
}

/// Monotonicity: whenever generation is required, building is too — stale
/// results are never generated without being rebuilt.
pub proof fn lemma_staleness_monotone(s: FsSnapshot, force: bool)
    ensures
        spec_must_generate(s, force) ==> spec_must_build(s, force),
{
}

/// Idempotence: when the generated source copy and the target artifact
/// both exist and are newer than the script, the artifact is not older
/// than the copy, and nothing was forced, no stage is required.
pub proof fn lemma_staleness_idempotent(s: FsSnapshot)
    requires
        s.target_dir_exists,
        s.cargo_toml_exists,
        s.generated_source_mtime matches Some(g) && g > s.script_mtime && (s.target_mtime matches
        Some(t) && t > s.script_mtime && t >= g),
    ensures
        !spec_must_generate(s, false),
        !spec_must_build(s, false),
{
}

/// Decides `must_gen` and `must_build` from the snapshot and records them
/// in the working context; everything else is left unchanged.
pub fn evaluate_staleness(state: &mut BuildState, snap: &FsSnapshot, force: bool)
    ensures
        final(state).must_gen == spec_must_generate(*snap, force),
        final(state).must_build == spec_must_build(*snap, force),
        final(state).must_gen ==> final(state).must_build,
        final(state).working_dir_path == old(state).working_dir_path,
        final(state).source_stem == old(state).source_stem,
        final(state).source_name == old(state).source_name,
        final(state).source_dir_path == old(state).source_dir_path,
        final(state).source_path == old(state).source_path,
        final(state).cargo_home == old(state).cargo_home,
        final(state).target_dir_path == old(state).target_dir_path,
        final(state).target_path == old(state).target_path,
        final(state).cargo_toml_path == old(state).cargo_toml_path,
        final(state).rs_manifest == old(state).rs_manifest,
        final(state).cargo_manifest == old(state).cargo_manifest,
{
    let gen_stale = match snap.generated_source_mtime {
        None => true,
        Some(g) => snap.script_mtime > g,
    };
    let must_gen = force || !snap.target_dir_exists || !snap.cargo_toml_exists || gen_stale;
    let build_stale = match (snap.target_mtime, snap.generated_source_mtime) {
        (None, _) => true,
        (Some(t), Some(g)) => t < g,
        (Some(_), None) => true,
    };
    let must_build = must_gen || build_stale;
    state.must_gen = must_gen;
    state.must_build = must_build;
}

/// The stages one invocation runs: generation and building when required
/// by staleness or demanded by a flag, running when the flags say so.
#[derive(Debug, Clone, Copy, PartialEq, Eq, Structural)]
pub struct StagePlan {
    pub generate: bool,
    pub build: bool,
    pub run: bool,
}

/// Sequencing decision of the orchestrator: which stages to perform, from
/// the resolved flags and the recorded staleness booleans.
pub fn plan_stages(flags: &ProcFlags, state: &BuildState) -> (r: StagePlan)
    ensures
        r.generate == (state.must_gen || flags.generate),
        r.build == (state.must_build || flags.build),
        r.run == flags.run,
{
    StagePlan {
        generate: state.must_gen || flags.generate,
        build: state.must_build || flags.build,
        run: flags.run,
    }
}

} // verus!
