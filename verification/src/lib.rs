//! A declarative dotfiles manager: tracked files live in a content store and
//! are exposed in the home directory as symbolic links, while a manifest
//! records which files are tracked, which carry an executable flag, and which
//! have been deleted (tombstoned).
//!
//! The filesystem itself is modelled as an explicit value (`world::World`), a
//! snapshot of the entries the manifest cares about.  Every decision the
//! manager makes — consistency checking, repair planning, track/untrack,
//! executable flags — is a verified function from manifest and snapshot to a
//! result and a list of filesystem actions; an unverified shell performs the
//! actual I/O around it.

pub mod commands;
pub mod config;
pub mod dotfiles;
pub mod error;
pub mod paths;
pub mod perm;
pub mod util;
pub mod world;
