//! The command layer: each operation as the tool dispatches it, with the
//! consistency check run first wherever an operation demands a consistent
//! manifest.  These functions compute decisions and planned actions only; a
//! caller performs the real I/O around them and persists any returned
//! manifest.

use vstd::prelude::*;

use crate::config::Config;
use crate::dotfiles::{
    check_passes, is_check_error, repair_all_spec, set_executable_outcome, track_outcome,
    untrack_outcome, Dotfiles, RepairAction, RepairResult, TrackPolicy,
};
use crate::error::Error;
use crate::paths::FsPath;
use crate::util::Executable;
use crate::world::{actions_view, apply_all_spec, FsAction, World};

verus! {

/// Check the manifest and, when asked to, plan its repair: a successful
/// repair is verified by re-checking the snapshot with the planned actions
/// applied; a partly skipped repair is reported as success, with the
/// remaining problems deliberately left in place.
/// The returned actions are what the caller must perform.
pub fn check(
    config: &Config,
    dotfiles: &Dotfiles,
    world: &World,
    repair: bool,
    on_wrong: RepairAction,
) -> (r: Result<Vec<FsAction>, Error>)
    requires
        config.wf(),
    ensures
        check_passes(*dotfiles, *config, world@) ==> (r matches Ok(v) && v@.len() == 0),
        (!check_passes(*dotfiles, *config, world@) && !repair) ==> (r matches Err(e)
            && is_check_error(*dotfiles, *config, world@, e)),
        (!check_passes(*dotfiles, *config, world@) && repair && config.home_v() is None) ==> (
        r matches Err(e) && e == Error::NoHomeDirectory),
        (!check_passes(*dotfiles, *config, world@) && repair && config.home_v() is Some) ==> ({
            let plan = repair_all_spec(
                world@,
                config.contents_v(),
                config.home_v()->Some_0,
                dotfiles.executables_v(),
                on_wrong,
                dotfiles.files_v(),
            );
            let repaired = apply_all_spec(world@, plan.1);
            &&& plan.0 is Skipped ==> (r matches Ok(v) && actions_view(v@) == plan.1)
            &&& (plan.0 is Successful && check_passes(*dotfiles, *config, repaired)) ==> (
            r matches Ok(v) && actions_view(v@) == plan.1)
            &&& (plan.0 is Successful && !check_passes(*dotfiles, *config, repaired)) ==> (
            r matches Err(e) && is_check_error(*dotfiles, *config, repaired, e))
        }),
{
    match dotfiles.check(config, world) {
        Ok(_) => Ok(Vec::new()),
        Err(e) => {
            if !repair {
                return Err(e);
            }
            let (res, actions) = match dotfiles.repair(config, world, on_wrong) {
                Ok(p) => p,
                Err(e2) => {
                    return Err(e2);
                },
            };
            match res {
                RepairResult::Successful => {
                    let mut repaired = world.duplicate();
                    repaired.apply_all(&actions);
                    match dotfiles.check(config, &repaired) {
                        Ok(_) => Ok(actions),
                        Err(e3) => Err(e3),
                    }
                },
                RepairResult::Skipped => Ok(actions),
            }
        },
    }
}

/// The validation policy the track command uses: everything under `force`,
/// otherwise only names starting with a dot.
pub open spec fn policy_of(force: bool) -> TrackPolicy {
    if force {
        TrackPolicy::AcceptAll
    } else {
        TrackPolicy::DotfilesOnly
    }
}

/// Track a file: unless `skip_check` is set, the manifest must first pass
/// the consistency check; then the file is validated (any name under
/// `force`, dotfiles only otherwise) and the move-and-link plan is made.
pub fn track(
    config: &Config,
    dotfiles: &Dotfiles,
    world: &World,
    file: &FsPath,
    skip_check: bool,
    force: bool,
) -> (r: Result<(Dotfiles, Vec<FsAction>), Error>)
    requires
        config.wf(),
    ensures
        (!skip_check && !check_passes(*dotfiles, *config, world@)) ==> (r matches Err(e)
            && is_check_error(*dotfiles, *config, world@, e)),
        (skip_check || check_passes(*dotfiles, *config, world@)) ==> track_outcome(
            *dotfiles,
            *config,
            world@,
            file@,
            policy_of(force),
            r,
        ),
{
    if !skip_check {
        match dotfiles.check(config, world) {
            Ok(_) => {},
            Err(e) => {
                return Err(e);
            },
        }
    }
    let policy = if force {
        TrackPolicy::AcceptAll
    } else {
        TrackPolicy::DotfilesOnly
    };
    dotfiles.track(config, world, file, policy)
}

/// Untrack a file: the manifest must first pass the consistency check;
/// then each of the two deletions is gated on its confirmation.
pub fn untrack(
    config: &Config,
    dotfiles: &Dotfiles,
    world: &World,
    file: &FsPath,
    confirm_content: bool,
    confirm_home: bool,
) -> (r: (Vec<FsAction>, Result<Dotfiles, Error>))
    requires
        config.wf(),
    ensures
        !check_passes(*dotfiles, *config, world@) ==> r.0@.len() == 0 && (r.1 matches Err(e)
            && is_check_error(*dotfiles, *config, world@, e)),
        check_passes(*dotfiles, *config, world@) ==> untrack_outcome(
            *dotfiles,
            *config,
            file@,
            confirm_content,
            confirm_home,
            r,
        ),
{
    match dotfiles.check(config, world) {
        Ok(_) => {},
        Err(e) => {
            return (Vec::new(), Err(e));
        },
    }
    dotfiles.untrack(config, file, confirm_content, confirm_home)
}

/// Declare a tracked file executable or not: the manifest must first pass
/// the consistency check; then the flag is applied and recorded.
pub fn set_executable(
    config: &Config,
    dotfiles: &Dotfiles,
    world: &World,
    file: &FsPath,
    mode: Executable,
) -> (r: Result<(Dotfiles, Vec<FsAction>), Error>)
    requires
        config.wf(),
    ensures
        !check_passes(*dotfiles, *config, world@) ==> (r matches Err(e) && is_check_error(
            *dotfiles,
            *config,
            world@,
            e,
        )),
        check_passes(*dotfiles, *config, world@) ==> set_executable_outcome(
            *dotfiles,
            *config,
            world@,
            file@,
            mode,
            r,
        ),
{
    match dotfiles.check(config, world) {
        Ok(_) => {},
        Err(e) => {
            return Err(e);
        },
    }
    dotfiles.set_executable(config, world, file, mode)
}

} // verus!
