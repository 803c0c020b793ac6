//! The closed set of failures an operation can surface, each carrying the
//! paths or values needed to diagnose it.

use vstd::prelude::*;

use crate::paths::FsPath;
use crate::util::Executable;

verus! {

/// A structural defect of the manifest itself, found before any filesystem
/// state is consulted.
#[derive(Debug, PartialEq, Eq)]
pub enum Inconsistency {
    /// Some list of the manifest (tracked, executable or deleted) holds the
    /// same path twice.
    Duplicates,
    /// A path is both tracked and tombstoned.
    TrackedAndDeleted(FsPath),
    /// A path carries the executable flag without being tracked.
    UntrackedExecutable(FsPath),
}

/// Everything that can go wrong in an operation.
#[derive(Debug, PartialEq, Eq)]
#[allow(inconsistent_fields)]
pub enum Error {
    /// The manifest's lists violate their own invariants.
    InconsistentManifest(Inconsistency),
    /// Tracked files whose content-store entry does not exist; all offenders
    /// are listed at once.
    MissingContent(Vec<FsPath>),
    /// Tombstoned files whose content-store entry still exists; all
    /// offenders are listed at once.
    SpuriousContent(Vec<FsPath>),
    /// The home entry for a tracked file is not the expected symlink:
    /// `absent` tells whether nothing is there at all, or something other
    /// than a link to `expected`.
    SymlinkMismatch { file: FsPath, expected: FsPath, absent: bool },
    /// A tracked regular file's actual executable state differs from the
    /// manifest's declared one.
    PermissionMismatch { file: FsPath, expected: Executable, actual: Executable },
    /// A directory is marked executable; directories are traversable by
    /// default and never carry the flag.
    ExecutableDirectory(FsPath),
    /// The operand does not lie under the home directory.
    NotInHomeDirectory(FsPath),
    /// The operand is already tracked.
    AlreadyTracked(FsPath),
    /// The operand was untracked once; tombstones are permanent.
    AlreadyDeleted(FsPath),
    /// The operand is not tracked.
    NotTracked(FsPath),
    /// The manifest document declares a version this library does not know.
    UnsupportedManifestVersion(i64),
    /// A raw mode word carries bits outside the nine standard positions
    /// (sticky, setuid, setgid).
    InvalidPermissionBits(u32),
    /// The path does not name a regular file.
    NotAFile(FsPath),
    /// Nothing exists at the path.
    NotFound(FsPath),
    /// A symlink cannot itself be tracked.
    CannotTrackSymlink(FsPath),
    /// Something already sits where a symlink was to be created.
    EntryExists(FsPath),
    /// The tracking policy rejected the name (it does not start with a dot).
    NotADotfile(FsPath),
    /// A destructive deletion was not confirmed.
    DeleteDeclined(FsPath),
    /// No home directory is configured.
    NoHomeDirectory,
}

} // verus!
