//! The manifest of tracked dotfiles and the operations on it: consistency
//! checking, repair planning, track, untrack, and the executable flag.

use vstd::prelude::*;

use crate::config::Config;
use crate::error::{Error, Inconsistency};
use crate::paths::{
    canon_spec, canonicalize_light, path_eq, relative_to, relative_to_spec, FsPath, PathV, Seg,
};
use crate::util::{
    clone_paths, contains_path, exec_state_of, first_index_of, is_unique,
    lemma_contains_push, lemma_contains_remove, lemma_first_index_contains,
    lemma_no_duplicates_push, lemma_no_duplicates_remove, lemma_paths_view_index,
    lemma_paths_view_len, lemma_paths_view_push, list_contains, paths_view, remove_item,
    unexpected_files, unexpected_spec, Executable,
};
use crate::world::{
    action_avoids, actions_view, apply_all_spec, apply_spec, lemma_actions_view_app,
    lemma_apply_all_app, lemma_apply_all_avoids, FsAction, FsActionV, Node, NodeV, World,
};

verus! {

/// The real-world status of one expected symlink.
#[derive(Clone, Copy, Debug, PartialEq, Eq, Structural)]
pub enum SymlinkStatus {
    /// The link exists and points exactly at the expected content path.
    Correct,
    /// Nothing exists at the home path.
    Absent,
    /// Something exists at the home path, but it is not a link to the
    /// expected content path.
    Wrong,
}

/// What to do with a home path in the `Wrong` state during repair.
#[derive(Clone, Copy, Debug, PartialEq, Eq, Structural)]
pub enum RepairAction {
    Skip,
    Delete,
}

/// Whether a repair fixed everything it was allowed to fix.
#[derive(Clone, Copy, Debug, PartialEq, Eq, Structural)]
pub enum RepairResult {
    Successful,
    Skipped,
}

/// The combination of two repair outcomes: any skip poisons the whole.
pub open spec fn coalesce_spec(a: RepairResult, b: RepairResult) -> RepairResult {
    if a is Skipped || b is Skipped {
        RepairResult::Skipped
    } else {
        RepairResult::Successful
    }
}

/// The combination of many repair outcomes: skipped if any one was.
pub open spec fn coalesce_all_spec(s: Seq<RepairResult>) -> RepairResult {
    if exists|i: int| 0 <= i < s.len() && s[i] is Skipped {
        RepairResult::Skipped
    } else {
        RepairResult::Successful
    }
}

impl RepairResult {
    /// Combine two repair outcomes.
    pub fn coalesce(self, that: &RepairResult) -> (r: RepairResult)
        ensures
            r == coalesce_spec(self, *that),
    {
        match self {
            RepairResult::Skipped => RepairResult::Skipped,
            _ => *that,
        }
    }

    /// Combine any number of repair outcomes.
    pub fn coalesce_all(results: Vec<RepairResult>) -> (r: RepairResult)
        ensures
            r == coalesce_all_spec(results@),
    {
        let mut i: usize = 0;
        while i < results.len()
            invariant
                i <= results@.len(),
                forall|j: int| 0 <= j < i ==> !(results@[j] is Skipped),
            decreases results@.len() - i,
        {
            match results[i] {
                RepairResult::Skipped => {
                    return RepairResult::Skipped;
                },
                RepairResult::Successful => {},
            }
            i += 1;
        }
        RepairResult::Successful
    }
}

/// What the snapshot says about the link that should sit at `link` and
/// point at `expected`.
pub open spec fn symlink_status_spec(
    w: Map<PathV, NodeV>,
    expected: PathV,
    link: PathV,
) -> SymlinkStatus {
    if !w.contains_key(link) {
        SymlinkStatus::Absent
    } else {
        match w[link] {
            NodeV::Link { target } => if target == expected {
                SymlinkStatus::Correct
            } else {
                SymlinkStatus::Wrong
            },
            _ => SymlinkStatus::Wrong,
        }
    }
}

/// The actions that re-apply an executable intent to a content path: one,
/// where a regular file sits there, and none otherwise.
pub open spec fn set_exec_spec(
    w: Map<PathV, NodeV>,
    expected: PathV,
    mode: Executable,
) -> Seq<FsActionV> {
    if w.contains_key(expected) && w[expected] is File {
        seq![FsActionV::SetExecutable { path: expected, mode }]
    } else {
        Seq::empty()
    }
}

/// The outcome and planned actions of repairing one symlink.
pub open spec fn repair_one_spec(
    w: Map<PathV, NodeV>,
    expected: PathV,
    link: PathV,
    on_wrong: RepairAction,
    mode: Executable,
) -> (RepairResult, Seq<FsActionV>) {
    match symlink_status_spec(w, expected, link) {
        SymlinkStatus::Wrong => match on_wrong {
            RepairAction::Skip => (RepairResult::Skipped, Seq::empty()),
            RepairAction::Delete => (
                RepairResult::Successful,
                seq![
                    FsActionV::Remove { path: link },
                    FsActionV::CreateLink { path: link, target: expected },
                ],
            ),
        },
        SymlinkStatus::Absent => (
            RepairResult::Successful,
            seq![FsActionV::CreateLink { path: link, target: expected }],
        ),
        SymlinkStatus::Correct => (RepairResult::Successful, set_exec_spec(w, expected, mode)),
    }
}

/// One manifest entry's expected symlink: the content path it should point
/// at, the home path where it should sit, and the observed status.
#[derive(Debug)]
pub struct Symlink {
    pub expected: FsPath,
    pub path: FsPath,
    pub status: SymlinkStatus,
}

impl Symlink {
    /// Assemble a symlink record.
    pub fn new(expected: FsPath, path: FsPath, status: SymlinkStatus) -> (r: Symlink)
        ensures
            r.expected@ == expected@,
            r.path@ == path@,
            r.status == status,
    {
        Symlink { expected, path, status }
    }

    /// Inspect the snapshot for the symlink of one manifest entry.  Never
    /// fails: a missing home entry is the `Absent` status.
    pub fn get(contents: &FsPath, home: &FsPath, dotfile: &FsPath, world: &World) -> (r: Symlink)
        ensures
            r.expected@ == contents@.join(dotfile@),
            r.path@ == home@.join(dotfile@),
            r.status == symlink_status_spec(world@, r.expected@, r.path@),
    {
        let expected = contents.join(dotfile);
        let link = home.join(dotfile);
        let status = match world.lookup(&link) {
            None => SymlinkStatus::Absent,
            Some(Node::Link { target }) => {
                if path_eq(&target, &expected) {
                    SymlinkStatus::Correct
                } else {
                    SymlinkStatus::Wrong
                }
            },
            Some(_) => SymlinkStatus::Wrong,
        };
        Symlink { expected, path: link, status }
    }

    /// Plan the creation of this symlink.  Refused when something already
    /// sits at the home path: the caller clears a wrong entry first.
    pub fn create(&self, world: &World) -> (r: Result<FsAction, Error>)
        ensures
            !world@.contains_key(self.path@) ==> (r matches Ok(a) && a@ == (FsActionV::CreateLink {
                path: self.path@,
                target: self.expected@,
            })),
            world@.contains_key(self.path@) ==> (r matches Err(e) && e matches Error::EntryExists(
                p,
            ) && p@ == self.path@),
    {
        match world.lookup(&self.path) {
            None => Ok(
                FsAction::CreateLink { path: self.path.clone(), target: self.expected.clone() },
            ),
            Some(_) => Err(Error::EntryExists(self.path.clone())),
        }
    }

    /// Plan applying `mode` to this link's content path, where a regular
    /// file sits there; directories never receive an explicit flag.
    pub fn set_executable(&self, world: &World, mode: Executable) -> (r: Vec<FsAction>)
        ensures
            actions_view(r@) == set_exec_spec(world@, self.expected@, mode),
    {
        let mut r: Vec<FsAction> = Vec::new();
        match world.lookup(&self.expected) {
            Some(Node::File { perms: _ }) => {
                r.push(FsAction::SetExecutable { path: self.expected.clone(), mode });
                proof {
                    assert(actions_view(r@) =~= set_exec_spec(world@, self.expected@, mode));
                }
            },
            _ => {
                proof {
                    assert(actions_view(r@) =~= set_exec_spec(world@, self.expected@, mode));
                }
            },
        }
        r
    }

    /// Plan the repair of this symlink: create it where absent, re-apply
    /// the executable intent where correct, and where wrong, delete and
    /// recreate or skip as `on_wrong` says.
    pub fn repair(&self, world: &World, on_wrong: RepairAction, mode: Executable) -> (r: (
        RepairResult,
        Vec<FsAction>,
    ))
        ensures
            r.0 == repair_one_spec(world@, self.expected@, self.path@, on_wrong, mode).0,
            actions_view(r.1@) == repair_one_spec(
                world@,
                self.expected@,
                self.path@,
                on_wrong,
                mode,
            ).1,
    {
        match self.status_of(world) {
            SymlinkStatus::Wrong => {
                match on_wrong {
                    RepairAction::Skip => {
                        let acts: Vec<FsAction> = Vec::new();
                        proof {
                            assert(actions_view(acts@) =~= Seq::<FsActionV>::empty());
                        }
                        (RepairResult::Skipped, acts)
                    },
                    RepairAction::Delete => {
                        let mut acts: Vec<FsAction> = Vec::new();
                        acts.push(FsAction::Remove { path: self.path.clone() });
                        acts.push(
                            FsAction::CreateLink {
                                path: self.path.clone(),
                                target: self.expected.clone(),
                            },
                        );
                        proof {
                            assert(actions_view(acts@) =~= seq![
                                FsActionV::Remove { path: self.path@ },
                                FsActionV::CreateLink {
                                    path: self.path@,
                                    target: self.expected@,
                                },
                            ]);
                        }
                        (RepairResult::Successful, acts)
                    },
                }
            },
            SymlinkStatus::Absent => {
                let mut acts: Vec<FsAction> = Vec::new();
                acts.push(
                    FsAction::CreateLink { path: self.path.clone(), target: self.expected.clone() },
                );
                proof {
                    assert(actions_view(acts@) =~= seq![
                        FsActionV::CreateLink { path: self.path@, target: self.expected@ },
                    ]);
                }
                (RepairResult::Successful, acts)
            },
            SymlinkStatus::Correct => (RepairResult::Successful, self.set_executable(world, mode)),
        }
    }

    /// Re-inspect the snapshot for this link's current status.
    fn status_of(&self, world: &World) -> (r: SymlinkStatus)
        ensures
            r == symlink_status_spec(world@, self.expected@, self.path@),
    {
        match world.lookup(&self.path) {
            None => SymlinkStatus::Absent,
            Some(Node::Link { target }) => {
                if path_eq(&target, &self.expected) {
                    SymlinkStatus::Correct
                } else {
                    SymlinkStatus::Wrong
                }
            },
            Some(_) => SymlinkStatus::Wrong,
        }
    }
}

/// The mathematical values of an optional list of paths; absence means the
/// empty list.
pub open spec fn opt_paths_view(o: Option<Vec<FsPath>>) -> Seq<PathV> {
    match o {
        Some(v) => paths_view(v@),
        None => Seq::empty(),
    }
}

/// The persisted manifest: the tracked files, those carrying the
/// executable flag, and the tombstoned deleted files, each as paths
/// relative to the home directory.  Absent lists mean empty lists.
#[derive(Debug, PartialEq, Eq)]
pub struct Dotfiles {
    version: Option<i64>,
    files: Option<Vec<FsPath>>,
    executables: Option<Vec<FsPath>>,
    deleted: Option<Vec<FsPath>>,
}

impl Dotfiles {
    /// The tracked files.
    pub closed spec fn files_v(&self) -> Seq<PathV> {
        opt_paths_view(self.files)
    }

    /// The files carrying the executable flag.
    pub closed spec fn executables_v(&self) -> Seq<PathV> {
        opt_paths_view(self.executables)
    }

    /// The tombstoned files.
    pub closed spec fn deleted_v(&self) -> Seq<PathV> {
        opt_paths_view(self.deleted)
    }

    /// The declared manifest version.
    pub closed spec fn version_v(&self) -> Option<int> {
        match self.version {
            Some(v) => Some(v as int),
            None => None,
        }
    }

    /// Whether all three lists are materialized explicitly.
    pub closed spec fn materialized(&self) -> bool {
        self.files is Some && self.executables is Some && self.deleted is Some
    }

    /// Assemble a manifest value at the current version.
    pub fn new(
        files: Option<Vec<FsPath>>,
        executables: Option<Vec<FsPath>>,
        deleted: Option<Vec<FsPath>>,
    ) -> (r: Dotfiles)
        ensures
            r.files_v() == opt_paths_view(files),
            r.executables_v() == opt_paths_view(executables),
            r.deleted_v() == opt_paths_view(deleted),
            r.version_v() == Some(1int),
            r.materialized() == (files is Some && executables is Some && deleted is Some),
    {
        Dotfiles { version: Some(1), files, executables, deleted }
    }

    /// Interpret a freshly parsed manifest document.  A missing version
    /// field means the first version, written before versioning existed;
    /// any declared version other than 1 is refused.
    pub fn from_document(
        version: Option<i64>,
        files: Option<Vec<FsPath>>,
        executables: Option<Vec<FsPath>>,
        deleted: Option<Vec<FsPath>>,
    ) -> (r: Result<Dotfiles, Error>)
        ensures
            (match version {
                Some(v) => if v == 1 {
                    r is Ok
                } else {
                    r == Err::<Dotfiles, Error>(Error::UnsupportedManifestVersion(v))
                },
                None => r is Ok,
            }),
            r matches Ok(d) ==> d.files_v() == opt_paths_view(files) && d.executables_v()
                == opt_paths_view(executables) && d.deleted_v() == opt_paths_view(deleted)
                && d.version_v() == Some(1int),
    {
        match version {
            Some(v) => {
                if v == 1 {
                    Ok(Dotfiles { version: Some(1), files, executables, deleted })
                } else {
                    Err(Error::UnsupportedManifestVersion(v))
                }
            },
            None => Ok(Dotfiles { version: Some(1), files, executables, deleted }),
        }
    }

    /// The tracked files, as a list.
    pub fn get_files(&self) -> (r: Vec<FsPath>)
        ensures
            paths_view(r@) == self.files_v(),
    {
        match &self.files {
            Some(v) => clone_paths(v),
            None => {
                let r: Vec<FsPath> = Vec::new();
                proof {
                    assert(paths_view(r@) =~= Seq::<PathV>::empty());
                }
                r
            },
        }
    }

    /// The executable-flagged files, as a list.
    pub fn get_executables(&self) -> (r: Vec<FsPath>)
        ensures
            paths_view(r@) == self.executables_v(),
    {
        match &self.executables {
            Some(v) => clone_paths(v),
            None => {
                let r: Vec<FsPath> = Vec::new();
                proof {
                    assert(paths_view(r@) =~= Seq::<PathV>::empty());
                }
                r
            },
        }
    }

    /// The tombstoned files, as a list.
    pub fn get_deleted(&self) -> (r: Vec<FsPath>)
        ensures
            paths_view(r@) == self.deleted_v(),
    {
        match &self.deleted {
            Some(v) => clone_paths(v),
            None => {
                let r: Vec<FsPath> = Vec::new();
                proof {
                    assert(paths_view(r@) =~= Seq::<PathV>::empty());
                }
                r
            },
        }
    }

    /// The same manifest with every list materialized explicitly, so that
    /// a persisted document always carries all three lists.
    pub fn canonicalize(&self) -> (r: Dotfiles)
        ensures
            r.files_v() == self.files_v(),
            r.executables_v() == self.executables_v(),
            r.deleted_v() == self.deleted_v(),
            r.version_v() == Some(1int),
            r.materialized(),
    {
        Dotfiles::new(
            Some(self.get_files()),
            Some(self.get_executables()),
            Some(self.get_deleted()),
        )
    }

    /// The tracked files missing from the content store.
    pub fn get_absent_files(&self, world: &World, contents: &FsPath) -> (r: Vec<FsPath>)
        ensures
            paths_view(r@) == unexpected_spec(world@, contents@, self.files_v(), true),
    {
        let files = self.get_files();
        unexpected_files(world, contents, &files, true)
    }

    /// The tombstoned files still present in the content store.
    pub fn get_spurious_files(&self, world: &World, contents: &FsPath) -> (r: Vec<FsPath>)
        ensures
            paths_view(r@) == unexpected_spec(world@, contents@, self.deleted_v(), false),
    {
        let deleted = self.get_deleted();
        unexpected_files(world, contents, &deleted, false)
    }

    /// The symlink record of every tracked file, in manifest order.
    pub fn get_symlinks(&self, world: &World, contents: &FsPath, home: &FsPath) -> (r: Vec<
        (FsPath, Symlink),
    >)
        ensures
            r@.len() == self.files_v().len(),
            forall|i: int|
                0 <= i < r@.len() ==> {
                    let p = self.files_v()[i];
                    (#[trigger] r@[i]).0@ == p && r@[i].1.expected@ == contents@.join(p)
                        && r@[i].1.path@ == home@.join(p) && r@[i].1.status == symlink_status_spec(
                        world@,
                        contents@.join(p),
                        home@.join(p),
                    )
                },
    {
        let files = self.get_files();
        let mut r: Vec<(FsPath, Symlink)> = Vec::new();
        let mut i: usize = 0;
        while i < files.len()
            invariant
                i <= files@.len(),
                paths_view(files@) == self.files_v(),
                r@.len() == i,
                forall|j: int|
                    0 <= j < i ==> {
                        let p = self.files_v()[j];
                        (#[trigger] r@[j]).0@ == p && r@[j].1.expected@ == contents@.join(p)
                            && r@[j].1.path@ == home@.join(p) && r@[j].1.status
                            == symlink_status_spec(world@, contents@.join(p), home@.join(p))
                    },
            decreases files@.len() - i,
        {
            let link = Symlink::get(contents, home, &files[i], world);
            let p = files[i].clone();
            proof {
                crate::util::lemma_paths_view_index(files@, i as int);
            }
            r.push((p, link));
            i += 1;
        }
        r
    }
}

// ---------------------------------------------------------------------------
// Consistency checking
// ---------------------------------------------------------------------------

/// The first tracked path that is also tombstoned.
pub open spec fn first_overlap(files: Seq<PathV>, deleted: Seq<PathV>) -> Option<PathV>
    decreases files.len(),
{
    if files.len() == 0 {
        None
    } else if contains_path(deleted, files[0]) {
        Some(files[0])
    } else {
        first_overlap(files.skip(1), deleted)
    }
}

/// The first executable-flagged path that is not tracked.
pub open spec fn first_stray_exec(execs: Seq<PathV>, files: Seq<PathV>) -> Option<PathV>
    decreases execs.len(),
{
    if execs.len() == 0 {
        None
    } else if !contains_path(files, execs[0]) {
        Some(execs[0])
    } else {
        first_stray_exec(execs.skip(1), files)
    }
}

/// Structural consistency of the manifest lists: no list holds a path
/// twice, nothing is both tracked and tombstoned, and only tracked files
/// carry the executable flag.
pub open spec fn structurally_consistent(
    files: Seq<PathV>,
    execs: Seq<PathV>,
    deleted: Seq<PathV>,
) -> bool {
    files.no_duplicates() && deleted.no_duplicates() && execs.no_duplicates() && first_overlap(
        files,
        deleted,
    ) is None && first_stray_exec(execs, files) is None
}

/// A defect of one tracked entry, found in the last stage of the check.
pub enum CheckProblem {
    /// Something other than the expected link sits at the home path.
    WrongLink(PathV, PathV),
    /// Nothing sits at the home path.
    AbsentLink(PathV, PathV),
    /// The regular file's actual executable state differs from the
    /// declared one.
    ExecMismatch(PathV, Executable, Executable),
    /// A directory target carries the executable flag.
    ExecutableDir(PathV),
}

/// The defect of one tracked entry, if any: its symlink must be correct;
/// a regular-file target must carry exactly the declared executable state;
/// a directory target must not be flagged at all.
pub open spec fn entry_problem(
    w: Map<PathV, NodeV>,
    contents: PathV,
    home: PathV,
    execs: Seq<PathV>,
    p: PathV,
) -> Option<CheckProblem> {
    let expected = contents.join(p);
    let link = home.join(p);
    match symlink_status_spec(w, expected, link) {
        SymlinkStatus::Wrong => Some(CheckProblem::WrongLink(p, expected)),
        SymlinkStatus::Absent => Some(CheckProblem::AbsentLink(p, expected)),
        SymlinkStatus::Correct => {
            if w.contains_key(expected) && w[expected] is File {
                let actual = exec_state_of(w[expected]);
                let declared = if contains_path(execs, p) {
                    Executable::Yes
                } else {
                    Executable::No
                };
                if actual != declared {
                    Some(CheckProblem::ExecMismatch(expected, declared, actual))
                } else {
                    None
                }
            } else if w.contains_key(expected) && w[expected] is Dir && contains_path(execs, p) {
                Some(CheckProblem::ExecutableDir(expected))
            } else {
                None
            }
        },
    }
}

/// The first tracked entry with a defect, in manifest order.
pub open spec fn first_problem(
    w: Map<PathV, NodeV>,
    contents: PathV,
    home: PathV,
    execs: Seq<PathV>,
    files: Seq<PathV>,
) -> Option<CheckProblem>
    decreases files.len(),
{
    if files.len() == 0 {
        None
    } else {
        match entry_problem(w, contents, home, execs, files[0]) {
            Some(prob) => Some(prob),
            None => first_problem(w, contents, home, execs, files.skip(1)),
        }
    }
}

/// Whether `e` is the error that describes `prob`.
pub open spec fn problem_error(e: Error, prob: CheckProblem) -> bool {
    match prob {
        CheckProblem::WrongLink(p, exp) => e matches Error::SymlinkMismatch {
            file,
            expected,
            absent,
        } && file@ == p && expected@ == exp && !absent,
        CheckProblem::AbsentLink(p, exp) => e matches Error::SymlinkMismatch {
            file,
            expected,
            absent,
        } && file@ == p && expected@ == exp && absent,
        CheckProblem::ExecMismatch(cp, declared, act) => e matches Error::PermissionMismatch {
            file,
            expected,
            actual,
        } && file@ == cp && expected == declared && actual == act,
        CheckProblem::ExecutableDir(cp) => e matches Error::ExecutableDirectory(q) && q@ == cp,
    }
}

/// Whether the manifest passes every stage of the check against the
/// snapshot: structural consistency, full content presence, no spurious
/// content, a resolvable home directory, and a correct symlink and
/// executable flag for every tracked file.
pub open spec fn check_passes(d: Dotfiles, cfg: Config, w: Map<PathV, NodeV>) -> bool {
    &&& structurally_consistent(d.files_v(), d.executables_v(), d.deleted_v())
    &&& unexpected_spec(w, cfg.contents_v(), d.files_v(), true).len() == 0
    &&& unexpected_spec(w, cfg.contents_v(), d.deleted_v(), false).len() == 0
    &&& cfg.home_v() is Some
    &&& first_problem(
        w,
        cfg.contents_v(),
        cfg.home_v()->Some_0,
        d.executables_v(),
        d.files_v(),
    ) is None
}

/// Whether `e` is the error the check surfaces for this manifest and
/// snapshot: the first failing stage decides, and within it the first
/// offender (or, for the content stages, all offenders at once).
pub open spec fn is_check_error(d: Dotfiles, cfg: Config, w: Map<PathV, NodeV>, e: Error) -> bool {
    if !(d.files_v().no_duplicates() && d.deleted_v().no_duplicates()
        && d.executables_v().no_duplicates()) {
        e == Error::InconsistentManifest(Inconsistency::Duplicates)
    } else if first_overlap(d.files_v(), d.deleted_v()) is Some {
        e matches Error::InconsistentManifest(Inconsistency::TrackedAndDeleted(q)) && q@
            == first_overlap(d.files_v(), d.deleted_v())->Some_0
    } else if first_stray_exec(d.executables_v(), d.files_v()) is Some {
        e matches Error::InconsistentManifest(Inconsistency::UntrackedExecutable(q)) && q@
            == first_stray_exec(d.executables_v(), d.files_v())->Some_0
    } else if unexpected_spec(w, cfg.contents_v(), d.files_v(), true).len() > 0 {
        e matches Error::MissingContent(v) && paths_view(v@) == unexpected_spec(
            w,
            cfg.contents_v(),
            d.files_v(),
            true,
        )
    } else if unexpected_spec(w, cfg.contents_v(), d.deleted_v(), false).len() > 0 {
        e matches Error::SpuriousContent(v) && paths_view(v@) == unexpected_spec(
            w,
            cfg.contents_v(),
            d.deleted_v(),
            false,
        )
    } else if cfg.home_v() is None {
        e == Error::NoHomeDirectory
    } else if first_problem(
        w,
        cfg.contents_v(),
        cfg.home_v()->Some_0,
        d.executables_v(),
        d.files_v(),
    ) is Some {
        problem_error(
            e,
            first_problem(
                w,
                cfg.contents_v(),
                cfg.home_v()->Some_0,
                d.executables_v(),
                d.files_v(),
            )->Some_0,
        )
    } else {
        false
    }
}

/// A structurally inconsistent manifest fails the check with the same
/// structural error against every snapshot: the verdict of the first stage
/// never consults the filesystem.
pub proof fn lemma_structural_error_ignores_snapshot(
    d: Dotfiles,
    cfg: Config,
    w1: Map<PathV, NodeV>,
    w2: Map<PathV, NodeV>,
    e: Error,
)
    requires
        !structurally_consistent(d.files_v(), d.executables_v(), d.deleted_v()),
    ensures
        !check_passes(d, cfg, w1),
        is_check_error(d, cfg, w1, e) <==> is_check_error(d, cfg, w2, e),
{
}

impl Dotfiles {
    /// Validate the manifest against the snapshot, in four short-circuiting
    /// stages: structural consistency of the lists; no tracked content
    /// missing from the store (all offenders listed); no tombstoned content
    /// still in the store (all offenders listed); and for every tracked
    /// file, a correct symlink and a matching executable flag.  The result
    /// of the structural stage does not depend on the snapshot at all.
    #[verifier::loop_isolation(false)]
    pub fn check(&self, config: &Config, world: &World) -> (r: Result<(), Error>)
        ensures
            r is Ok <==> check_passes(*self, *config, world@),
            (r matches Err(e) ==> is_check_error(*self, *config, world@, e)),
    {
        let ghost fv = self.files_v();
        let ghost dv = self.deleted_v();
        let ghost ev = self.executables_v();
        let files = self.get_files();
        let deleted = self.get_deleted();
        let executables = self.get_executables();
        if !(is_unique(&files) && is_unique(&deleted) && is_unique(&executables)) {
            return Err(Error::InconsistentManifest(Inconsistency::Duplicates));
        }
        let mut i: usize = 0;
        proof {
            assert(fv.skip(0) =~= fv);
        }
        while i < files.len()
            invariant
                i <= files@.len(),
                fv == self.files_v(),
                dv == self.deleted_v(),
                paths_view(files@) == fv,
                paths_view(deleted@) == dv,
                first_overlap(fv.skip(i as int), dv) == first_overlap(fv, dv),
            decreases files@.len() - i,
        {
            proof {
                lemma_paths_view_index(files@, i as int);
                assert(fv.skip(i as int)[0] == fv[i as int]);
                assert(fv.skip(i as int).skip(1) =~= fv.skip(i + 1));
            }
            if list_contains(&deleted, &files[i]) {
                return Err(
                    Error::InconsistentManifest(
                        Inconsistency::TrackedAndDeleted(files[i].clone()),
                    ),
                );
            }
            i += 1;
        }
        proof {
            assert(fv.skip(files@.len() as int) =~= Seq::<PathV>::empty());
        }
        let mut i: usize = 0;
        proof {
            assert(ev.skip(0) =~= ev);
        }
        while i < executables.len()
            invariant
                i <= executables@.len(),
                fv == self.files_v(),
                ev == self.executables_v(),
                paths_view(files@) == fv,
                paths_view(executables@) == ev,
                first_stray_exec(ev.skip(i as int), fv) == first_stray_exec(ev, fv),
            decreases executables@.len() - i,
        {
            proof {
                lemma_paths_view_index(executables@, i as int);
                assert(ev.skip(i as int)[0] == ev[i as int]);
                assert(ev.skip(i as int).skip(1) =~= ev.skip(i + 1));
            }
            if !list_contains(&files, &executables[i]) {
                return Err(
                    Error::InconsistentManifest(
                        Inconsistency::UntrackedExecutable(executables[i].clone()),
                    ),
                );
            }
            i += 1;
        }
        proof {
            assert(ev.skip(executables@.len() as int) =~= Seq::<PathV>::empty());
        }
        let contents = config.contents();
        let absent = self.get_absent_files(world, &contents);
        if absent.len() > 0 {
            proof {
                lemma_paths_view_len(absent@);
            }
            return Err(Error::MissingContent(absent));
        }
        proof {
            lemma_paths_view_len(absent@);
        }
        let spurious = self.get_spurious_files(world, &contents);
        if spurious.len() > 0 {
            proof {
                lemma_paths_view_len(spurious@);
            }
            return Err(Error::SpuriousContent(spurious));
        }
        proof {
            lemma_paths_view_len(spurious@);
        }
        let home = match config.get_home() {
            Ok(h) => h,
            Err(e) => {
                return Err(e);
            },
        };
        let ghost hv = config.home_v()->Some_0;
        let mut i: usize = 0;
        proof {
            assert(fv.skip(0) =~= fv);
        }
        while i < files.len()
            invariant
                i <= files@.len(),
                fv == self.files_v(),
                ev == self.executables_v(),
                hv == home@,
                contents@ == config.contents_v(),
                paths_view(files@) == fv,
                paths_view(executables@) == ev,
                first_problem(world@, contents@, home@, ev, fv.skip(i as int)) == first_problem(
                    world@,
                    contents@,
                    home@,
                    ev,
                    fv,
                ),
            decreases files@.len() - i,
        {
            proof {
                lemma_paths_view_index(files@, i as int);
                assert(fv.skip(i as int)[0] == fv[i as int]);
                assert(fv.skip(i as int).skip(1) =~= fv.skip(i + 1));
            }
            let link = Symlink::get(&contents, &home, &files[i], world);
            match link.status {
                SymlinkStatus::Wrong => {
                    return Err(
                        Error::SymlinkMismatch {
                            file: files[i].clone(),
                            expected: link.expected,
                            absent: false,
                        },
                    );
                },
                SymlinkStatus::Absent => {
                    return Err(
                        Error::SymlinkMismatch {
                            file: files[i].clone(),
                            expected: link.expected,
                            absent: true,
                        },
                    );
                },
                SymlinkStatus::Correct => {
                    match world.lookup(&link.expected) {
                        Some(Node::File { perms: _ }) => {
                            let actual = match Executable::get(world, &link.expected) {
                                Ok(a) => a,
                                Err(e) => {
                                    proof {
                                        assert(false);
                                    }
                                    return Err(e);
                                },
                            };
                            let declared = Executable::from_bool(
                                list_contains(&executables, &files[i]),
                            );
                            if actual != declared {
                                return Err(
                                    Error::PermissionMismatch {
                                        file: link.expected,
                                        expected: declared,
                                        actual,
                                    },
                                );
                            }
                        },
                        Some(Node::Dir) => {
                            if list_contains(&executables, &files[i]) {
                                return Err(Error::ExecutableDirectory(link.expected));
                            }
                        },
                        _ => {},
                    }
                },
            }
            i += 1;
        }
        proof {
            assert(fv.skip(files@.len() as int) =~= Seq::<PathV>::empty());
        }
        Ok(())
    }
}

// ---------------------------------------------------------------------------
// Mutating operations
// ---------------------------------------------------------------------------

/// The validation policy a caller injects into `track`.
#[derive(Clone, Copy, Debug, PartialEq, Eq, Structural)]
pub enum TrackPolicy {
    /// Accept any relative path.
    AcceptAll,
    /// Accept only paths whose first segment is a name starting with a dot.
    DotfilesOnly,
}

/// Whether `policy` accepts tracking the relative path `rel`.
pub open spec fn policy_accepts(policy: TrackPolicy, rel: PathV) -> bool {
    match policy {
        TrackPolicy::AcceptAll => true,
        TrackPolicy::DotfilesOnly => rel.segs.len() > 0 && rel.segs[0] is Name && (rel.segs[0]
            ->Name_0).len() > 0 && rel.segs[0]->Name_0[0] == 46u8,
    }
}

/// Apply a tracking policy to a candidate relative path.
pub fn validate_track_target(policy: TrackPolicy, rel: &FsPath) -> (r: Result<(), Error>)
    ensures
        policy_accepts(policy, rel@) ==> r is Ok,
        !policy_accepts(policy, rel@) ==> (r matches Err(Error::NotADotfile(q)) && q@ == rel@),
{
    match policy {
        TrackPolicy::AcceptAll => Ok(()),
        TrackPolicy::DotfilesOnly => {
            if rel.segs.len() > 0 {
                proof {
                    crate::paths::lemma_segs_view_index(rel.segs@, 0);
                }
                match &rel.segs[0] {
                    Seg::Name(n) => {
                        if n.len() > 0 && n[0] == 46u8 {
                            return Ok(());
                        }
                    },
                    _ => {},
                }
            }
            Err(Error::NotADotfile(rel.clone()))
        },
    }
}


/// The full contract of `track`: which precondition failure surfaces, or,
/// when all pass, the new manifest and the planned move-and-link actions.
pub open spec fn track_outcome(
    d: Dotfiles,
    cfg: Config,
    w: Map<PathV, NodeV>,
    filev: PathV,
    policy: TrackPolicy,
    r: Result<(Dotfiles, Vec<FsAction>), Error>,
) -> bool {
    let canon = canon_spec(filev);
    if !w.contains_key(canon) {
        r matches Err(Error::NotFound(q)) && q@ == canon
    } else if w[canon] is Link {
        r matches Err(Error::CannotTrackSymlink(q)) && q@ == canon
    } else if cfg.home_v() is None {
        r matches Err(e) && e == Error::NoHomeDirectory
    } else if !canon.starts_with(cfg.home_v()->Some_0) {
        r matches Err(Error::NotInHomeDirectory(q)) && q@ == canon
    } else {
        let rel = relative_to_spec(cfg.home_v()->Some_0, canon);
        if !policy_accepts(policy, rel) {
            r matches Err(Error::NotADotfile(q)) && q@ == rel
        } else if contains_path(d.files_v(), rel) {
            r matches Err(Error::AlreadyTracked(q)) && q@ == canon
        } else if contains_path(d.deleted_v(), rel) {
            r matches Err(Error::AlreadyDeleted(q)) && q@ == canon
        } else {
            let dest = cfg.contents_v().join(rel);
            r matches Ok(p) && {
                &&& p.0.files_v() == d.files_v().push(rel)
                &&& p.0.executables_v() == d.executables_v()
                &&& p.0.deleted_v() == d.deleted_v()
                &&& p.0.version_v() == Some(1int)
                &&& actions_view(p.1@) == seq![
                    FsActionV::Move { from: canon, to: dest },
                    FsActionV::CreateLink { path: canon, target: dest },
                ]
            }
        }
    }
}

/// The full contract of `untrack`: which precondition or confirmation
/// failure surfaces, which deletions were already planned when it did, and,
/// on full success, the new manifest and both planned deletions.
pub open spec fn untrack_outcome(
    d: Dotfiles,
    cfg: Config,
    filev: PathV,
    confirm_content: bool,
    confirm_home: bool,
    r: (Vec<FsAction>, Result<Dotfiles, Error>),
) -> bool {
    if cfg.home_v() is None {
        r.0@.len() == 0 && (r.1 matches Err(e) && e == Error::NoHomeDirectory)
    } else if !filev.starts_with(cfg.home_v()->Some_0) {
        r.0@.len() == 0 && (r.1 matches Err(Error::NotInHomeDirectory(q)) && q@ == filev)
    } else {
        let rel = relative_to_spec(cfg.home_v()->Some_0, filev);
        let dest = cfg.contents_v().join(rel);
        if !contains_path(d.files_v(), rel) {
            r.0@.len() == 0 && (r.1 matches Err(Error::NotTracked(q)) && q@ == rel)
        } else if contains_path(d.deleted_v(), rel) {
            r.0@.len() == 0 && (r.1 matches Err(Error::AlreadyDeleted(q)) && q@ == rel)
        } else if !confirm_content {
            r.0@.len() == 0 && (r.1 matches Err(Error::DeleteDeclined(q)) && q@ == dest)
        } else if !confirm_home {
            actions_view(r.0@) == seq![FsActionV::Remove { path: dest }] && (r.1 matches Err(
                Error::DeleteDeclined(q),
            ) && q@ == filev)
        } else {
            &&& actions_view(r.0@) == seq![
                FsActionV::Remove { path: dest },
                FsActionV::Remove { path: filev },
            ]
            &&& first_index_of(d.files_v(), rel) is Some
            &&& (r.1 matches Ok(d2) && {
                &&& d2.files_v() == d.files_v().remove(first_index_of(d.files_v(), rel)->Some_0)
                &&& d2.executables_v() == (match first_index_of(d.executables_v(), rel) {
                    Some(j) => d.executables_v().remove(j),
                    None => d.executables_v(),
                })
                &&& d2.deleted_v() == d.deleted_v().push(rel)
                &&& d2.version_v() == Some(1int)
            })
        }
    }
}

/// The full contract of `set_executable`: which precondition failure
/// surfaces, or the new manifest and the planned permission action.
pub open spec fn set_executable_outcome(
    d: Dotfiles,
    cfg: Config,
    w: Map<PathV, NodeV>,
    filev: PathV,
    mode: Executable,
    r: Result<(Dotfiles, Vec<FsAction>), Error>,
) -> bool {
    if cfg.home_v() is None {
        r matches Err(e) && e == Error::NoHomeDirectory
    } else if !filev.starts_with(cfg.home_v()->Some_0) {
        r matches Err(Error::NotInHomeDirectory(q)) && q@ == filev
    } else {
        let rel = relative_to_spec(cfg.home_v()->Some_0, filev);
        if !contains_path(d.files_v(), rel) {
            r matches Err(Error::NotTracked(q)) && q@ == rel
        } else {
            r matches Ok(p) && {
                &&& actions_view(p.1@) == set_exec_spec(w, cfg.contents_v().join(rel), mode)
                &&& p.0.files_v() == d.files_v()
                &&& p.0.deleted_v() == d.deleted_v()
                &&& p.0.version_v() == Some(1int)
                &&& p.0.executables_v() == (match mode {
                    Executable::Yes => if contains_path(d.executables_v(), rel) {
                        d.executables_v()
                    } else {
                        d.executables_v().push(rel)
                    },
                    Executable::No => (match first_index_of(d.executables_v(), rel) {
                        Some(j) => d.executables_v().remove(j),
                        None => d.executables_v(),
                    }),
                })
            }
        }
    }
}

impl Dotfiles {
    /// Plan tracking `file`: after every precondition holds, the node moves
    /// from its home place into the content store, a symlink replaces it,
    /// and the relative path joins the tracked list.  Nothing at all is
    /// planned on any failure.
    pub fn track(&self, config: &Config, world: &World, file: &FsPath, policy: TrackPolicy) -> (r:
        Result<(Dotfiles, Vec<FsAction>), Error>)
        requires
            config.wf(),
        ensures
            track_outcome(*self, *config, world@, file@, policy, r),
    {
        let canon = canonicalize_light(file);
        let node = match world.lookup(&canon) {
            Some(n) => n,
            None => {
                return Err(Error::NotFound(canon));
            },
        };
        match node {
            Node::Link { target: _ } => {
                return Err(Error::CannotTrackSymlink(canon));
            },
            _ => {},
        }
        let home = match config.get_home() {
            Ok(h) => h,
            Err(e) => {
                return Err(e);
            },
        };
        if !canon.starts_with(&home) {
            return Err(Error::NotInHomeDirectory(canon));
        }
        let rel = relative_to(&home, &canon);
        match validate_track_target(policy, &rel) {
            Ok(_) => {},
            Err(e) => {
                return Err(e);
            },
        }
        let files = self.get_files();
        if list_contains(&files, &rel) {
            return Err(Error::AlreadyTracked(canon));
        }
        let deleted = self.get_deleted();
        if list_contains(&deleted, &rel) {
            return Err(Error::AlreadyDeleted(canon));
        }
        let contents = config.contents();
        let dest = contents.join(&rel);
        let mut actions: Vec<FsAction> = Vec::new();
        actions.push(FsAction::Move { from: canon.clone(), to: dest.clone() });
        actions.push(FsAction::CreateLink { path: canon, target: dest });
        proof {
            assert(actions_view(actions@) =~= seq![
                FsActionV::Move { from: canon_spec(file@), to: config.contents_v().join(rel@) },
                FsActionV::CreateLink {
                    path: canon_spec(file@),
                    target: config.contents_v().join(rel@),
                },
            ]);
        }
        let mut files2 = files;
        let ghost pre = files2@;
        proof {
            lemma_paths_view_push(pre, rel);
        }
        files2.push(rel);
        let d2 = Dotfiles::new(Some(files2), Some(self.get_executables()), Some(deleted));
        Ok((d2, actions))
    }

    /// Plan untracking `file`: each of the two deletions (content-store
    /// copy, home symlink) happens only under its confirmation, and on full
    /// success the path moves from the tracked list to the tombstones.  The
    /// planned deletions are returned even when the second confirmation is
    /// declined: the content-store copy is then gone while the home entry
    /// remains, and the manifest is left untouched.
    pub fn untrack(
        &self,
        config: &Config,
        file: &FsPath,
        confirm_content: bool,
        confirm_home: bool,
    ) -> (r: (Vec<FsAction>, Result<Dotfiles, Error>))
        requires
            config.wf(),
        ensures
            untrack_outcome(*self, *config, file@, confirm_content, confirm_home, r),
    {
        let home = match config.get_home() {
            Ok(h) => h,
            Err(e) => {
                return (Vec::new(), Err(e));
            },
        };
        if !file.starts_with(&home) {
            return (Vec::new(), Err(Error::NotInHomeDirectory(file.clone())));
        }
        let rel = relative_to(&home, file);
        let files = self.get_files();
        if !list_contains(&files, &rel) {
            return (Vec::new(), Err(Error::NotTracked(rel)));
        }
        let deleted = self.get_deleted();
        if list_contains(&deleted, &rel) {
            return (Vec::new(), Err(Error::AlreadyDeleted(rel)));
        }
        let contents = config.contents();
        let dest = contents.join(&rel);
        if !confirm_content {
            return (Vec::new(), Err(Error::DeleteDeclined(dest)));
        }
        let mut actions: Vec<FsAction> = Vec::new();
        actions.push(FsAction::Remove { path: dest });
        if !confirm_home {
            proof {
                assert(actions_view(actions@) =~= seq![
                    FsActionV::Remove {
                        path: config.contents_v().join(
                            relative_to_spec(config.home_v()->Some_0, file@),
                        ),
                    },
                ]);
            }
            return (actions, Err(Error::DeleteDeclined(file.clone())));
        }
        actions.push(FsAction::Remove { path: file.clone() });
        proof {
            assert(actions_view(actions@) =~= seq![
                FsActionV::Remove {
                    path: config.contents_v().join(
                        relative_to_spec(config.home_v()->Some_0, file@),
                    ),
                },
                FsActionV::Remove { path: file@ },
            ]);
            lemma_first_index_contains(self.files_v(), rel@);
            lemma_first_index_contains(self.executables_v(), rel@);
        }
        let mut executables = self.get_executables();
        remove_item(&mut executables, &rel);
        let mut files2 = files;
        remove_item(&mut files2, &rel);
        let mut deleted2 = deleted;
        let ghost predel = deleted2@;
        proof {
            lemma_paths_view_push(predel, rel);
        }
        deleted2.push(rel);
        let d2 = Dotfiles::new(Some(files2), Some(executables), Some(deleted2));
        (actions, Ok(d2))
    }

    /// Plan declaring `file` executable or not: the flag is applied to the
    /// live content entry where it is a regular file, and the path joins or
    /// leaves the executable list.
    pub fn set_executable(
        &self,
        config: &Config,
        world: &World,
        file: &FsPath,
        mode: Executable,
    ) -> (r: Result<(Dotfiles, Vec<FsAction>), Error>)
        requires
            config.wf(),
        ensures
            set_executable_outcome(*self, *config, world@, file@, mode, r),
    {
        let home = match config.get_home() {
            Ok(h) => h,
            Err(e) => {
                return Err(e);
            },
        };
        if !file.starts_with(&home) {
            return Err(Error::NotInHomeDirectory(file.clone()));
        }
        let rel = relative_to(&home, file);
        let files = self.get_files();
        if !list_contains(&files, &rel) {
            return Err(Error::NotTracked(rel));
        }
        let mut executables = self.get_executables();
        let contained = list_contains(&executables, &rel);
        let contents = config.contents();
        let link = Symlink::get(&contents, &home, &rel, world);
        let actions = link.set_executable(world, mode);
        match mode {
            Executable::No => {
                proof {
                    lemma_first_index_contains(self.executables_v(), rel@);
                }
                remove_item(&mut executables, &rel);
            },
            Executable::Yes => {
                if !contained {
                    let ghost preex = executables@;
                    proof {
                        lemma_paths_view_push(preex, rel);
                    }
                    executables.push(rel);
                }
            },
        }
        let d2 = Dotfiles::new(Some(files), Some(executables), Some(self.get_deleted()));
        Ok((d2, actions))
    }
}

/// The outcome and planned actions of repairing every tracked file, in
/// manifest order: any skipped file poisons the overall outcome, and the
/// per-file actions are concatenated.
pub open spec fn repair_all_spec(
    w: Map<PathV, NodeV>,
    contents: PathV,
    home: PathV,
    execs: Seq<PathV>,
    on_wrong: RepairAction,
    files: Seq<PathV>,
) -> (RepairResult, Seq<FsActionV>)
    decreases files.len(),
{
    if files.len() == 0 {
        (RepairResult::Successful, Seq::empty())
    } else {
        let mode = if contains_path(execs, files[0]) {
            Executable::Yes
        } else {
            Executable::No
        };
        let one = repair_one_spec(w, contents.join(files[0]), home.join(files[0]), on_wrong, mode);
        let rest = repair_all_spec(w, contents, home, execs, on_wrong, files.skip(1));
        (coalesce_spec(one.0, rest.0), one.1 + rest.1)
    }
}

impl Dotfiles {
    /// Plan the repair of every tracked file's symlink, with `on_wrong`
    /// deciding the fate of home entries in the `Wrong` state.  Repair only
    /// addresses symlinks and executable flags; content-store divergence is
    /// out of its reach.
    #[verifier::loop_isolation(false)]
    pub fn repair(&self, config: &Config, world: &World, on_wrong: RepairAction) -> (r: Result<
        (RepairResult, Vec<FsAction>),
        Error,
    >)
        requires
            config.wf(),
        ensures
            config.home_v() is None ==> (r matches Err(e) && e == Error::NoHomeDirectory),
            config.home_v() is Some ==> (r matches Ok(p) && p.0 == repair_all_spec(
                world@,
                config.contents_v(),
                config.home_v()->Some_0,
                self.executables_v(),
                on_wrong,
                self.files_v(),
            ).0 && actions_view(p.1@) == repair_all_spec(
                world@,
                config.contents_v(),
                config.home_v()->Some_0,
                self.executables_v(),
                on_wrong,
                self.files_v(),
            ).1),
    {
        let home = match config.get_home() {
            Ok(h) => h,
            Err(e) => {
                return Err(e);
            },
        };
        let contents = config.contents();
        let files = self.get_files();
        let executables = self.get_executables();
        let ghost fv = self.files_v();
        let ghost ev = self.executables_v();
        let mut res = RepairResult::Successful;
        let mut actions: Vec<FsAction> = Vec::new();
        let mut i: usize = 0;
        proof {
            assert(fv.skip(0) =~= fv);
            assert(actions_view(actions@) =~= Seq::<FsActionV>::empty());
        }
        while i < files.len()
            invariant
                i <= files@.len(),
                coalesce_spec(
                    res,
                    repair_all_spec(world@, contents@, home@, ev, on_wrong, fv.skip(i as int)).0,
                ) == repair_all_spec(world@, contents@, home@, ev, on_wrong, fv).0,
                actions_view(actions@) + repair_all_spec(
                    world@,
                    contents@,
                    home@,
                    ev,
                    on_wrong,
                    fv.skip(i as int),
                ).1 == repair_all_spec(world@, contents@, home@, ev, on_wrong, fv).1,
            decreases files@.len() - i,
        {
            let ghost rest = fv.skip(i as int);
            proof {
                lemma_paths_view_index(files@, i as int);
                assert(rest[0] == fv[i as int]);
                assert(rest.skip(1) =~= fv.skip(i + 1));
            }
            let mode = Executable::from_bool(list_contains(&executables, &files[i]));
            let link = Symlink::get(&contents, &home, &files[i], world);
            let (one_res, one_actions) = link.repair(world, on_wrong, mode);
            let mut one_actions = one_actions;
            let ghost pa = actions@;
            let ghost po = one_actions@;
            res = res.coalesce(&one_res);
            actions.append(&mut one_actions);
            proof {
                lemma_actions_view_app(pa, po);
                let one = repair_one_spec(
                    world@,
                    contents@.join(fv[i as int]),
                    home@.join(fv[i as int]),
                    on_wrong,
                    if contains_path(ev, fv[i as int]) {
                        Executable::Yes
                    } else {
                        Executable::No
                    },
                );
                let tail = repair_all_spec(world@, contents@, home@, ev, on_wrong, fv.skip(i + 1));
                assert((actions_view(pa) + one.1) + tail.1 =~= actions_view(pa) + (one.1
                    + tail.1));
            }
            i += 1;
        }
        proof {
            assert(fv.skip(files@.len() as int) =~= Seq::<PathV>::empty());
            assert(actions_view(actions@) + Seq::<FsActionV>::empty() =~= actions_view(actions@));
        }
        Ok((res, actions))
    }
}

// ---------------------------------------------------------------------------
// What the delete-policy repair guarantees
// ---------------------------------------------------------------------------

/// With the delete policy, no file is ever skipped: the planned repair of
/// every tracked list reports success.
pub proof fn lemma_repair_delete_successful(
    w: Map<PathV, NodeV>,
    contents: PathV,
    home: PathV,
    execs: Seq<PathV>,
    files: Seq<PathV>,
)
    ensures
        repair_all_spec(w, contents, home, execs, RepairAction::Delete, files).0
            == RepairResult::Successful,
    decreases files.len(),
{
    if files.len() > 0 {
        lemma_repair_delete_successful(w, contents, home, execs, files.skip(1));
    }
}

/// The planned repair of one symlink only touches its two locations.
proof fn lemma_repair_one_avoids(
    w: Map<PathV, NodeV>,
    expected: PathV,
    link: PathV,
    on_wrong: RepairAction,
    mode: Executable,
    q: PathV,
)
    requires
        q != expected,
        q != link,
    ensures
        forall|k: int|
            0 <= k < repair_one_spec(w, expected, link, on_wrong, mode).1.len()
                ==> action_avoids(#[trigger] repair_one_spec(w, expected, link, on_wrong, mode).1[k], q),
{
}

/// The planned repair of a tracked list only touches the home and
/// content-store locations of its files.
proof fn lemma_repair_all_avoids(
    w: Map<PathV, NodeV>,
    contents: PathV,
    home: PathV,
    execs: Seq<PathV>,
    on_wrong: RepairAction,
    files: Seq<PathV>,
    q: PathV,
)
    requires
        forall|i: int|
            0 <= i < files.len() ==> q != contents.join(#[trigger] files[i]) && q != home.join(
                files[i],
            ),
    ensures
        forall|k: int|
            0 <= k < repair_all_spec(w, contents, home, execs, on_wrong, files).1.len()
                ==> action_avoids(
                #[trigger] repair_all_spec(w, contents, home, execs, on_wrong, files).1[k],
                q,
            ),
    decreases files.len(),
{
    if files.len() > 0 {
        let mode0 = if contains_path(execs, files[0]) {
            Executable::Yes
        } else {
            Executable::No
        };
        let one = repair_one_spec(w, contents.join(files[0]), home.join(files[0]), on_wrong, mode0);
        let rest_files = files.skip(1);
        let rest = repair_all_spec(w, contents, home, execs, on_wrong, rest_files);
        lemma_repair_one_avoids(w, contents.join(files[0]), home.join(files[0]), on_wrong, mode0, q);
        assert forall|i: int|
            0 <= i < rest_files.len() implies q != contents.join(#[trigger] rest_files[i]) && q
            != home.join(rest_files[i]) by {
            assert(rest_files[i] == files[i + 1]);
        }
        lemma_repair_all_avoids(w, contents, home, execs, on_wrong, rest_files, q);
        let plan = repair_all_spec(w, contents, home, execs, on_wrong, files);
        assert(plan.1 == one.1 + rest.1);
        assert forall|k: int| 0 <= k < plan.1.len() implies action_avoids(
            #[trigger] plan.1[k],
            q,
        ) by {
            if k < one.1.len() {
                assert(plan.1[k] == one.1[k]);
            } else {
                assert(plan.1[k] == rest.1[k - one.1.len()]);
            }
        }
    }
}

/// The status of a link depends only on what sits at its home location.
proof fn lemma_status_local(
    m1: Map<PathV, NodeV>,
    m2: Map<PathV, NodeV>,
    expected: PathV,
    link: PathV,
)
    requires
        m1.contains_key(link) == m2.contains_key(link),
        m1.contains_key(link) ==> m1[link] == m2[link],
    ensures
        symlink_status_spec(m1, expected, link) == symlink_status_spec(m2, expected, link),
{
}

/// The inductive core of the repair law: the plan is computed against `w`,
/// but may be applied to any snapshot `base` that agrees with `w` on every
/// home location involved.
proof fn lemma_repair_fixes_links_gen(
    w: Map<PathV, NodeV>,
    base: Map<PathV, NodeV>,
    contents: PathV,
    home: PathV,
    execs: Seq<PathV>,
    files: Seq<PathV>,
)
    requires
        forall|i: int| 0 <= i < files.len() ==> !(#[trigger] files[i]).absolute,
        files.no_duplicates(),
        forall|i: int, j: int|
            0 <= i < files.len() && 0 <= j < files.len() ==> home.join(#[trigger] files[i])
                != contents.join(#[trigger] files[j]),
        forall|i: int|
            0 <= i < files.len() ==> base.contains_key(home.join(#[trigger] files[i]))
                == w.contains_key(home.join(files[i])),
        forall|i: int|
            0 <= i < files.len() && w.contains_key(home.join(#[trigger] files[i]))
                ==> base[home.join(files[i])] == w[home.join(files[i])],
    ensures
        forall|i: int|
            0 <= i < files.len() ==> symlink_status_spec(
                apply_all_spec(
                    base,
                    repair_all_spec(w, contents, home, execs, RepairAction::Delete, files).1,
                ),
                contents.join(#[trigger] files[i]),
                home.join(files[i]),
            ) == SymlinkStatus::Correct,
    decreases files.len(),
{
    if files.len() == 0 {
        return ;
    }
    let p0 = files[0];
    let link0 = home.join(p0);
    let exp0 = contents.join(p0);
    let mode0 = if contains_path(execs, p0) {
        Executable::Yes
    } else {
        Executable::No
    };
    let one = repair_one_spec(w, exp0, link0, RepairAction::Delete, mode0);
    let rest_files = files.skip(1);
    let rest = repair_all_spec(w, contents, home, execs, RepairAction::Delete, rest_files);
    let plan = repair_all_spec(w, contents, home, execs, RepairAction::Delete, files);
    assert(plan.1 == one.1 + rest.1);
    lemma_apply_all_app(base, one.1, rest.1);
    let base1 = apply_all_spec(base, one.1);
    let final_map = apply_all_spec(base1, rest.1);

    // Joining distinct relative paths to the same base gives distinct
    // locations.
    assert forall|i: int, j: int|
        0 <= i < files.len() && 0 <= j < files.len() && i != j implies home.join(
        #[trigger] files[i],
    ) != home.join(#[trigger] files[j]) by {
        if home.join(files[i]) == home.join(files[j]) {
            crate::paths::lemma_join_injective(home, files[i], files[j]);
        }
    }

    // After its own actions, the first file's link is correct.
    assert(link0 != exp0);
    let st = symlink_status_spec(w, exp0, link0);
    if st is Correct {
        assert(one.1 == set_exec_spec(w, exp0, mode0));
        assert forall|k: int| 0 <= k < one.1.len() implies action_avoids(
            #[trigger] one.1[k],
            link0,
        ) by {
            assert(one.1[k] == (FsActionV::SetExecutable { path: exp0, mode: mode0 }));
        }
        lemma_apply_all_avoids(base, one.1, link0);
        lemma_status_local(base1, base, exp0, link0);
        lemma_status_local(base, w, exp0, link0);
        assert(symlink_status_spec(base1, exp0, link0) == SymlinkStatus::Correct);
    } else if st is Absent {
        reveal_with_fuel(apply_all_spec, 3);
        assert(one.1 == seq![FsActionV::CreateLink { path: link0, target: exp0 }]);
        assert(one.1.skip(1) =~= Seq::<FsActionV>::empty());
        assert(base1 == apply_spec(base, one.1[0]));
        assert(symlink_status_spec(base1, exp0, link0) == SymlinkStatus::Correct);
    } else {
        reveal_with_fuel(apply_all_spec, 4);
        assert(one.1 == seq![
            FsActionV::Remove { path: link0 },
            FsActionV::CreateLink { path: link0, target: exp0 },
        ]);
        assert(one.1[0] == (FsActionV::Remove { path: link0 }));
        assert(one.1.skip(1)[0] == one.1[1]);
        assert(one.1.skip(1).skip(1) =~= Seq::<FsActionV>::empty());
        let m1 = apply_spec(base, one.1[0]);
        assert(base1 == apply_spec(m1, one.1[1]));
        assert(one.1[1] == (FsActionV::CreateLink { path: link0, target: exp0 }));
        assert(symlink_status_spec(base1, exp0, link0) == SymlinkStatus::Correct);
    }

    // The later files' actions leave the first link alone.
    assert forall|i: int|
        0 <= i < rest_files.len() implies link0 != contents.join(#[trigger] rest_files[i]) && link0
        != home.join(rest_files[i]) by {
        assert(rest_files[i] == files[i + 1]);
    }
    lemma_repair_all_avoids(w, contents, home, execs, RepairAction::Delete, rest_files, link0);
    lemma_apply_all_avoids(base1, rest.1, link0);
    lemma_status_local(final_map, base1, exp0, link0);

    // The first file's actions leave every later home location alone, so
    // the rest of the plan starts from a snapshot that still agrees with
    // `w` there.
    assert forall|i: int|
        0 <= i < rest_files.len() implies base1.contains_key(
        home.join(#[trigger] rest_files[i]),
    ) == w.contains_key(home.join(rest_files[i])) && (w.contains_key(home.join(rest_files[i]))
        ==> base1[home.join(rest_files[i])] == w[home.join(rest_files[i])]) by {
        assert(rest_files[i] == files[i + 1]);
        let q = home.join(files[i + 1]);
        lemma_repair_one_avoids(w, exp0, link0, RepairAction::Delete, mode0, q);
        lemma_apply_all_avoids(base, one.1, q);
    }
    assert forall|i: int| 0 <= i < rest_files.len() implies !(#[trigger] rest_files[i]).absolute by {
        assert(rest_files[i] == files[i + 1]);
    }
    assert(rest_files.no_duplicates());
    assert forall|i: int, j: int|
        0 <= i < rest_files.len() && 0 <= j < rest_files.len() implies home.join(
        #[trigger] rest_files[i],
    ) != contents.join(#[trigger] rest_files[j]) by {
        assert(rest_files[i] == files[i + 1]);
        assert(rest_files[j] == files[j + 1]);
    }
    lemma_repair_fixes_links_gen(w, base1, contents, home, execs, rest_files);
    assert forall|i: int|
        0 <= i < files.len() implies symlink_status_spec(
        final_map,
        contents.join(#[trigger] files[i]),
        home.join(files[i]),
    ) == SymlinkStatus::Correct by {
        if i > 0 {
            assert(rest_files[i - 1] == files[i]);
        }
    }
}

/// Repairing with the delete policy reports success and leaves the symlink
/// of every tracked file correct in the snapshot that results from
/// applying the plan: absent links are created, wrong entries are replaced,
/// correct links are kept.  The tracked paths must be distinct relative
/// paths, and no file's home location may coincide with any file's
/// content-store location.
pub proof fn lemma_repair_delete_fixes_links(
    w: Map<PathV, NodeV>,
    contents: PathV,
    home: PathV,
    execs: Seq<PathV>,
    files: Seq<PathV>,
)
    requires
        forall|i: int| 0 <= i < files.len() ==> !(#[trigger] files[i]).absolute,
        files.no_duplicates(),
        forall|i: int, j: int|
            0 <= i < files.len() && 0 <= j < files.len() ==> home.join(#[trigger] files[i])
                != contents.join(#[trigger] files[j]),
    ensures
        repair_all_spec(w, contents, home, execs, RepairAction::Delete, files).0
            == RepairResult::Successful,
        forall|i: int|
            0 <= i < files.len() ==> symlink_status_spec(
                apply_all_spec(
                    w,
                    repair_all_spec(w, contents, home, execs, RepairAction::Delete, files).1,
                ),
                contents.join(#[trigger] files[i]),
                home.join(files[i]),
            ) == SymlinkStatus::Correct,
{
    lemma_repair_delete_successful(w, contents, home, execs, files);
    lemma_repair_fixes_links_gen(w, w, contents, home, execs, files);
}

// ---------------------------------------------------------------------------
// Preservation of the manifest invariants
// ---------------------------------------------------------------------------

/// There is no tracked-and-tombstoned path exactly when no tracked path is
/// tombstoned.
pub proof fn lemma_first_overlap_none_iff(files: Seq<PathV>, deleted: Seq<PathV>)
    ensures
        first_overlap(files, deleted) is None <==> (forall|i: int|
            0 <= i < files.len() ==> !contains_path(deleted, #[trigger] files[i])),
    decreases files.len(),
{
    if files.len() > 0 {
        lemma_first_overlap_none_iff(files.skip(1), deleted);
        if first_overlap(files, deleted) is None {
            assert forall|i: int|
                0 <= i < files.len() implies !contains_path(deleted, #[trigger] files[i]) by {
                if i > 0 {
                    assert(files.skip(1)[i - 1] == files[i]);
                }
            }
        }
        if forall|i: int| 0 <= i < files.len() ==> !contains_path(deleted, #[trigger] files[i]) {
            assert forall|i: int|
                0 <= i < files.skip(1).len() implies !contains_path(
                deleted,
                #[trigger] files.skip(1)[i],
            ) by {
                assert(files.skip(1)[i] == files[i + 1]);
            }
        }
    }
}

/// There is no stray executable flag exactly when every flagged path is
/// tracked.
pub proof fn lemma_first_stray_none_iff(execs: Seq<PathV>, files: Seq<PathV>)
    ensures
        first_stray_exec(execs, files) is None <==> (forall|i: int|
            0 <= i < execs.len() ==> contains_path(files, #[trigger] execs[i])),
    decreases execs.len(),
{
    if execs.len() > 0 {
        lemma_first_stray_none_iff(execs.skip(1), files);
        if first_stray_exec(execs, files) is None {
            assert forall|i: int|
                0 <= i < execs.len() implies contains_path(files, #[trigger] execs[i]) by {
                if i > 0 {
                    assert(execs.skip(1)[i - 1] == execs[i]);
                }
            }
        }
        if forall|i: int| 0 <= i < execs.len() ==> contains_path(files, #[trigger] execs[i]) {
            assert forall|i: int|
                0 <= i < execs.skip(1).len() implies contains_path(
                files,
                #[trigger] execs.skip(1)[i],
            ) by {
                assert(execs.skip(1)[i] == execs[i + 1]);
            }
        }
    }
}

/// A successful `track` preserves the manifest invariants: the lists stay
/// free of duplicates, nothing is both tracked and tombstoned, and only
/// tracked files carry the executable flag.
pub proof fn lemma_track_preserves_consistency(
    d: Dotfiles,
    cfg: Config,
    w: Map<PathV, NodeV>,
    filev: PathV,
    policy: TrackPolicy,
    r: Result<(Dotfiles, Vec<FsAction>), Error>,
)
    requires
        structurally_consistent(d.files_v(), d.executables_v(), d.deleted_v()),
        track_outcome(d, cfg, w, filev, policy, r),
        r is Ok,
    ensures
        structurally_consistent(
            r->Ok_0.0.files_v(),
            r->Ok_0.0.executables_v(),
            r->Ok_0.0.deleted_v(),
        ),
{
    let canon = canon_spec(filev);
    let rel = relative_to_spec(cfg.home_v()->Some_0, canon);
    let d2 = r->Ok_0.0;
    assert(!contains_path(d.files_v(), rel));
    assert(!contains_path(d.deleted_v(), rel));
    assert(d2.files_v() == d.files_v().push(rel));
    lemma_no_duplicates_push(d.files_v(), rel);
    lemma_first_overlap_none_iff(d.files_v(), d.deleted_v());
    lemma_first_overlap_none_iff(d2.files_v(), d2.deleted_v());
    assert forall|i: int|
        0 <= i < d2.files_v().len() implies !contains_path(
        d2.deleted_v(),
        #[trigger] d2.files_v()[i],
    ) by {
        if i < d.files_v().len() {
            assert(d2.files_v()[i] == d.files_v()[i]);
        } else {
            assert(d2.files_v()[i] == rel);
        }
    }
    lemma_first_stray_none_iff(d.executables_v(), d.files_v());
    lemma_first_stray_none_iff(d2.executables_v(), d2.files_v());
    assert forall|i: int|
        0 <= i < d2.executables_v().len() implies contains_path(
        d2.files_v(),
        #[trigger] d2.executables_v()[i],
    ) by {
        assert(contains_path(d.files_v(), d.executables_v()[i]));
        lemma_contains_push(d.files_v(), rel, d.executables_v()[i]);
    }
}

/// A successful `untrack` preserves the manifest invariants.
pub proof fn lemma_untrack_preserves_consistency(
    d: Dotfiles,
    cfg: Config,
    filev: PathV,
    confirm_content: bool,
    confirm_home: bool,
    r: (Vec<FsAction>, Result<Dotfiles, Error>),
)
    requires
        structurally_consistent(d.files_v(), d.executables_v(), d.deleted_v()),
        untrack_outcome(d, cfg, filev, confirm_content, confirm_home, r),
        r.1 is Ok,
    ensures
        structurally_consistent(
            r.1->Ok_0.files_v(),
            r.1->Ok_0.executables_v(),
            r.1->Ok_0.deleted_v(),
        ),
{
    let rel = relative_to_spec(cfg.home_v()->Some_0, filev);
    let d2 = r.1->Ok_0;
    assert(contains_path(d.files_v(), rel));
    assert(!contains_path(d.deleted_v(), rel));
    let fi = first_index_of(d.files_v(), rel)->Some_0;
    lemma_first_index_contains(d.files_v(), rel);
    assert(d2.files_v() == d.files_v().remove(fi));
    assert(d2.deleted_v() == d.deleted_v().push(rel));
    lemma_no_duplicates_remove(d.files_v(), fi);
    lemma_no_duplicates_push(d.deleted_v(), rel);
    let execs2 = d2.executables_v();
    match first_index_of(d.executables_v(), rel) {
        Some(j) => {
            lemma_first_index_contains(d.executables_v(), rel);
            lemma_no_duplicates_remove(d.executables_v(), j);
            assert(execs2 == d.executables_v().remove(j));
        },
        None => {
            assert(execs2 == d.executables_v());
        },
    }
    // No tracked path is tombstoned afterwards.
    lemma_first_overlap_none_iff(d.files_v(), d.deleted_v());
    lemma_first_overlap_none_iff(d2.files_v(), d2.deleted_v());
    assert forall|i: int|
        0 <= i < d2.files_v().len() implies !contains_path(
        d2.deleted_v(),
        #[trigger] d2.files_v()[i],
    ) by {
        let q = d2.files_v()[i];
        lemma_contains_remove(d.files_v(), fi, q);
        assert(contains_path(d.files_v(), q));
        lemma_contains_push(d.deleted_v(), rel, q);
        if q == rel {
            // The tracked list held `rel` exactly once, at `fi`.
            lemma_contains_remove(d.files_v(), fi, rel);
        }
    }
    // Every flagged path is still tracked afterwards.
    lemma_first_stray_none_iff(d.executables_v(), d.files_v());
    lemma_first_stray_none_iff(d2.executables_v(), d2.files_v());
    assert forall|i: int|
        0 <= i < execs2.len() implies contains_path(d2.files_v(), #[trigger] execs2[i]) by {
        let q = execs2[i];
        match first_index_of(d.executables_v(), rel) {
            Some(j) => {
                lemma_first_index_contains(d.executables_v(), rel);
                lemma_contains_remove(d.executables_v(), j, q);
                assert(contains_path(d.executables_v(), q));
                assert(q != rel) by {
                    lemma_contains_remove(d.executables_v(), j, rel);
                }
                lemma_contains_remove(d.files_v(), fi, q);
            },
            None => {
                assert(contains_path(d.executables_v(), q));
                assert(q != rel) by {
                    if q == rel {
                        lemma_first_index_contains(d.executables_v(), rel);
                    }
                }
                lemma_contains_remove(d.files_v(), fi, q);
            },
        }
    }
}

/// A successful `set_executable` preserves the manifest invariants.
pub proof fn lemma_set_executable_preserves_consistency(
    d: Dotfiles,
    cfg: Config,
    w: Map<PathV, NodeV>,
    filev: PathV,
    mode: Executable,
    r: Result<(Dotfiles, Vec<FsAction>), Error>,
)
    requires
        structurally_consistent(d.files_v(), d.executables_v(), d.deleted_v()),
        set_executable_outcome(d, cfg, w, filev, mode, r),
        r is Ok,
    ensures
        structurally_consistent(
            r->Ok_0.0.files_v(),
            r->Ok_0.0.executables_v(),
            r->Ok_0.0.deleted_v(),
        ),
{
    let rel = relative_to_spec(cfg.home_v()->Some_0, filev);
    let d2 = r->Ok_0.0;
    assert(contains_path(d.files_v(), rel));
    assert(d2.files_v() == d.files_v());
    assert(d2.deleted_v() == d.deleted_v());
    let execs2 = d2.executables_v();
    lemma_first_stray_none_iff(d.executables_v(), d.files_v());
    lemma_first_stray_none_iff(execs2, d2.files_v());
    match mode {
        Executable::Yes => {
            if contains_path(d.executables_v(), rel) {
                assert(execs2 == d.executables_v());
            } else {
                assert(execs2 == d.executables_v().push(rel));
                lemma_no_duplicates_push(d.executables_v(), rel);
                assert forall|i: int|
                    0 <= i < execs2.len() implies contains_path(
                    d2.files_v(),
                    #[trigger] execs2[i],
                ) by {
                    if i < d.executables_v().len() {
                        assert(execs2[i] == d.executables_v()[i]);
                    } else {
                        assert(execs2[i] == rel);
                    }
                }
            }
        },
        Executable::No => {
            match first_index_of(d.executables_v(), rel) {
                Some(j) => {
                    lemma_first_index_contains(d.executables_v(), rel);
                    lemma_no_duplicates_remove(d.executables_v(), j);
                    assert(execs2 == d.executables_v().remove(j));
                    assert forall|i: int|
                        0 <= i < execs2.len() implies contains_path(
                        d2.files_v(),
                        #[trigger] execs2[i],
                    ) by {
                        lemma_contains_remove(d.executables_v(), j, execs2[i]);
                        assert(contains_path(d.executables_v(), execs2[i]));
                    }
                },
                None => {
                    assert(execs2 == d.executables_v());
                },
            }
        },
    }
}

} // verus!
