//! Scenario tests of the manifest operations, run against snapshot worlds.

use dotfilesctl::config::Config;
use dotfilesctl::dotfiles::{
    Dotfiles, RepairAction, RepairResult, Symlink, SymlinkStatus, TrackPolicy,
};
use dotfilesctl::error::{Error, Inconsistency};
use dotfilesctl::paths::FsPath;
use dotfilesctl::perm::Perms;
use dotfilesctl::util::Executable;
use dotfilesctl::world::{Node, World};

fn path(s: &str) -> FsPath {
    FsPath::from_bytes(&s.as_bytes().to_vec())
}

fn setup_config() -> (Config, World) {
    let config = Config::new(path("/target"), Some(path("/home")));
    (config, World::new())
}

fn setup_content(world: &mut World, config: &Config, file: &str) {
    world.insert(
        config.contents().join(&path(file)),
        Node::File { perms: Perms::from_bits_truncate(0o644) },
    );
}

fn setup_dotfile(world: &mut World, config: &Config, file: &str) -> FsPath {
    let p = config.get_home().unwrap().join(&path(file));
    world.insert(p.clone(), Node::File { perms: Perms::from_bits_truncate(0o644) });
    p
}

fn setup_symlink(world: &mut World, config: &Config, file: &str) {
    let src = config.contents().join(&path(file));
    let dst = config.get_home().unwrap().join(&path(file));
    world.insert(dst, Node::Link { target: src });
}

fn setup_symlink_wrong(world: &mut World, config: &Config, file: &str) {
    let p = config.get_home().unwrap().join(&path(file));
    world.insert(p, Node::File { perms: Perms::from_bits_truncate(0o644) });
}

#[test]
fn test_empty_dotfiles() {
    let dotfiles = Dotfiles::from_document(None, None, None, None).unwrap();
    assert_eq!(
        dotfiles.canonicalize(),
        Dotfiles::new(Some(vec![]), Some(vec![]), Some(vec![]))
    );
}

#[test]
fn test_version_default_and_rejection() {
    assert!(Dotfiles::from_document(Some(1), None, None, None).is_ok());
    match Dotfiles::from_document(Some(2), None, None, None) {
        Err(Error::UnsupportedManifestVersion(v)) => assert_eq!(v, 2),
        other => panic!("unexpected {:?}", other),
    }
}

#[test]
fn test_check_success() {
    let (config, mut world) = setup_config();
    let files = [".test1", ".test2"];
    for f in &files {
        setup_content(&mut world, &config, f);
        setup_symlink(&mut world, &config, f);
    }
    let dotfiles = Dotfiles::new(
        Some(files.iter().map(|f| path(f)).collect()),
        None,
        Some(vec![]),
    );
    dotfiles.check(&config, &world).unwrap();
}

#[test]
#[should_panic(expected = "MissingContent")]
fn test_check_failure_missing() {
    let (config, world) = setup_config();
    let dotfiles = Dotfiles::new(Some(vec![path(".test")]), None, Some(vec![]));
    dotfiles.check(&config, &world).unwrap();
}

#[test]
#[should_panic(expected = "SymlinkMismatch")]
fn test_check_failure_symlink() {
    let (config, mut world) = setup_config();
    setup_content(&mut world, &config, ".test");
    let dotfiles = Dotfiles::new(Some(vec![path(".test")]), None, Some(vec![]));
    dotfiles.check(&config, &world).unwrap();
}

#[test]
fn test_repair_absent() {
    let (config, mut world) = setup_config();
    setup_content(&mut world, &config, ".test");
    let dotfiles = Dotfiles::new(Some(vec![path(".test")]), None, Some(vec![]));
    // The check names the file whose home entry is absent.
    assert_eq!(
        dotfiles.check(&config, &world),
        Err(Error::SymlinkMismatch {
            file: path(".test"),
            expected: config.contents().join(&path(".test")),
            absent: true,
        })
    );
    let (result, actions) = dotfiles.repair(&config, &world, RepairAction::Skip).unwrap();
    assert_eq!(RepairResult::Successful, result);
    world.apply_all(&actions);
    dotfiles.check(&config, &world).unwrap();
}

#[test]
fn test_repair_wrong() {
    let (config, mut world) = setup_config();
    setup_content(&mut world, &config, ".test");
    setup_symlink_wrong(&mut world, &config, ".test");
    let dotfiles = Dotfiles::new(Some(vec![path(".test")]), None, Some(vec![]));
    // The check reports the plain file at the home path as a wrong entry.
    assert_eq!(
        dotfiles.check(&config, &world),
        Err(Error::SymlinkMismatch {
            file: path(".test"),
            expected: config.contents().join(&path(".test")),
            absent: false,
        })
    );
    let (result, actions) = dotfiles.repair(&config, &world, RepairAction::Delete).unwrap();
    assert_eq!(RepairResult::Successful, result);
    world.apply_all(&actions);
    dotfiles.check(&config, &world).unwrap();
}

#[test]
#[should_panic(expected = "SymlinkMismatch")]
fn test_repair_wrong_skip() {
    let (config, mut world) = setup_config();
    setup_content(&mut world, &config, ".test");
    setup_symlink_wrong(&mut world, &config, ".test");
    let dotfiles = Dotfiles::new(Some(vec![path(".test")]), None, Some(vec![]));
    let (result, actions) = dotfiles.repair(&config, &world, RepairAction::Skip).unwrap();
    assert_eq!(RepairResult::Skipped, result);
    world.apply_all(&actions);
    dotfiles.check(&config, &world).unwrap();
}

#[test]
fn test_track_file() {
    let (config, mut world) = setup_config();
    let file = setup_dotfile(&mut world, &config, ".test");
    let dotfiles = Dotfiles::from_document(None, None, None, None).unwrap();
    let (dotfiles, actions) = dotfiles
        .track(&config, &world, &file, TrackPolicy::AcceptAll)
        .unwrap();
    world.apply_all(&actions);
    dotfiles.check(&config, &world).unwrap();
    let stored = config.contents().join(&path(".test"));
    match world.lookup(&stored) {
        Some(Node::File { perms }) => assert_eq!(perms, Perms::from_bits_truncate(0o644)),
        other => panic!("expected the stored file, got {:?}", other),
    }
    match world.lookup(&file) {
        Some(Node::Link { target }) => assert_eq!(target, stored),
        other => panic!("expected a symlink at home, got {:?}", other),
    }
    assert_eq!(dotfiles.get_files(), vec![path(".test")]);
}

#[test]
fn test_track_requires_dotfile() {
    let (config, mut world) = setup_config();
    let file = setup_dotfile(&mut world, &config, "plain.txt");
    let dotfiles = Dotfiles::from_document(None, None, None, None).unwrap();
    match dotfiles.track(&config, &world, &file, TrackPolicy::DotfilesOnly) {
        Err(Error::NotADotfile(p)) => assert_eq!(p, path("plain.txt")),
        other => panic!("unexpected {:?}", other),
    }
    // Nothing was planned, so the candidate file is still in place, untouched.
    match world.lookup(&file) {
        Some(Node::File { perms }) => assert_eq!(perms, Perms::from_bits_truncate(0o644)),
        other => panic!("expected the untouched file, got {:?}", other),
    }
    assert!(world.lookup(&config.contents().join(&path("plain.txt"))).is_none());
}

#[test]
fn test_track_untrack_tombstone() {
    let (config, mut world) = setup_config();
    let file = setup_dotfile(&mut world, &config, ".test");
    let d0 = Dotfiles::from_document(None, None, None, None).unwrap();
    let (d1, actions) = d0.track(&config, &world, &file, TrackPolicy::DotfilesOnly).unwrap();
    world.apply_all(&actions);
    let (actions, result) = d1.untrack(&config, &file, true, true);
    let d2 = result.unwrap();
    world.apply_all(&actions);
    assert_eq!(d2.get_files(), Vec::<FsPath>::new());
    assert_eq!(d2.get_deleted(), vec![path(".test")]);
    // A second untrack of the same path fails: it is no longer tracked.
    let (actions, result) = d2.untrack(&config, &file, true, true);
    assert!(actions.is_empty());
    match result {
        Err(Error::NotTracked(p)) => assert_eq!(p, path(".test")),
        other => panic!("unexpected {:?}", other),
    }
    // Tracking it again fails permanently: the tombstone stays.
    let restored = setup_dotfile(&mut world, &config, ".test");
    match d2.track(&config, &world, &restored, TrackPolicy::DotfilesOnly) {
        Err(Error::AlreadyDeleted(p)) => assert_eq!(p, path("/home/.test")),
        other => panic!("unexpected {:?}", other),
    }
}

#[test]
fn test_set_executable_flag_cycle() {
    let (config, mut world) = setup_config();
    let rel = ".tool";
    let stored = config.contents().join(&path(rel));
    world.insert(stored.clone(), Node::File { perms: Perms::from_bits_truncate(0o400) });
    setup_symlink(&mut world, &config, rel);
    let home_path = config.get_home().unwrap().join(&path(rel));
    let d0 = Dotfiles::new(Some(vec![path(rel)]), None, Some(vec![]));
    let (d1, actions) = d0
        .set_executable(&config, &world, &home_path, Executable::Yes)
        .unwrap();
    world.apply_all(&actions);
    match world.lookup(&stored) {
        Some(Node::File { perms }) => assert_eq!(perms, Perms::from_bits_truncate(0o500)),
        other => panic!("expected the stored file, got {:?}", other),
    }
    assert_eq!(d1.get_executables(), vec![path(rel)]);
    d1.check(&config, &world).unwrap();
    let (d2, actions) = d1
        .set_executable(&config, &world, &home_path, Executable::No)
        .unwrap();
    world.apply_all(&actions);
    match world.lookup(&stored) {
        Some(Node::File { perms }) => assert_eq!(perms, Perms::from_bits_truncate(0o400)),
        other => panic!("expected the stored file, got {:?}", other),
    }
    assert_eq!(d2.get_executables(), Vec::<FsPath>::new());
    d2.check(&config, &world).unwrap();
}

#[test]
fn test_check_duplicates() {
    let (config, world) = setup_config();
    let dotfiles = Dotfiles::new(Some(vec![path(".a"), path(".a")]), None, Some(vec![]));
    assert_eq!(
        dotfiles.check(&config, &world),
        Err(Error::InconsistentManifest(Inconsistency::Duplicates))
    );
    // The structural verdict does not depend on the snapshot at all.
    let mut other_world = World::new();
    setup_content(&mut other_world, &config, ".a");
    assert_eq!(
        dotfiles.check(&config, &other_world),
        Err(Error::InconsistentManifest(Inconsistency::Duplicates))
    );
}

#[test]
fn test_check_tracked_and_deleted() {
    let (config, world) = setup_config();
    let dotfiles = Dotfiles::new(Some(vec![path(".a")]), None, Some(vec![path(".a")]));
    assert_eq!(
        dotfiles.check(&config, &world),
        Err(Error::InconsistentManifest(Inconsistency::TrackedAndDeleted(path(".a"))))
    );
}

#[test]
fn test_check_untracked_executable() {
    let (config, world) = setup_config();
    let dotfiles = Dotfiles::new(Some(vec![]), Some(vec![path(".a")]), Some(vec![]));
    assert_eq!(
        dotfiles.check(&config, &world),
        Err(Error::InconsistentManifest(Inconsistency::UntrackedExecutable(path(".a"))))
    );
}

#[test]
fn test_check_spurious_content() {
    let (config, mut world) = setup_config();
    setup_content(&mut world, &config, ".gone");
    let dotfiles = Dotfiles::new(Some(vec![]), None, Some(vec![path(".gone")]));
    assert_eq!(
        dotfiles.check(&config, &world),
        Err(Error::SpuriousContent(vec![path(".gone")]))
    );
}

#[test]
fn test_check_permission_mismatch() {
    let (config, mut world) = setup_config();
    let stored = config.contents().join(&path(".tool"));
    world.insert(stored.clone(), Node::File { perms: Perms::from_bits_truncate(0o755) });
    setup_symlink(&mut world, &config, ".tool");
    let dotfiles = Dotfiles::new(Some(vec![path(".tool")]), None, Some(vec![]));
    assert_eq!(
        dotfiles.check(&config, &world),
        Err(Error::PermissionMismatch {
            file: stored,
            expected: Executable::No,
            actual: Executable::Yes,
        })
    );
}

#[test]
fn test_check_executable_directory() {
    let (config, mut world) = setup_config();
    let stored = config.contents().join(&path(".dir"));
    world.insert(stored.clone(), Node::Dir);
    setup_symlink(&mut world, &config, ".dir");
    let dotfiles = Dotfiles::new(
        Some(vec![path(".dir")]),
        Some(vec![path(".dir")]),
        Some(vec![]),
    );
    assert_eq!(
        dotfiles.check(&config, &world),
        Err(Error::ExecutableDirectory(stored))
    );
}

#[test]
fn test_track_outside_home() {
    let (config, mut world) = setup_config();
    let outside = path("/elsewhere/.test");
    world.insert(outside.clone(), Node::File { perms: Perms::from_bits_truncate(0o644) });
    let dotfiles = Dotfiles::from_document(None, None, None, None).unwrap();
    match dotfiles.track(&config, &world, &outside, TrackPolicy::DotfilesOnly) {
        Err(Error::NotInHomeDirectory(p)) => assert_eq!(p, outside),
        other => panic!("unexpected {:?}", other),
    }
}

#[test]
fn test_track_symlink_refused() {
    let (config, mut world) = setup_config();
    let file = config.get_home().unwrap().join(&path(".test"));
    world.insert(file.clone(), Node::Link { target: path("/elsewhere") });
    let dotfiles = Dotfiles::from_document(None, None, None, None).unwrap();
    match dotfiles.track(&config, &world, &file, TrackPolicy::DotfilesOnly) {
        Err(Error::CannotTrackSymlink(p)) => assert_eq!(p, file),
        other => panic!("unexpected {:?}", other),
    }
}

#[test]
fn test_track_missing_file() {
    let (config, world) = setup_config();
    let file = config.get_home().unwrap().join(&path(".test"));
    let dotfiles = Dotfiles::from_document(None, None, None, None).unwrap();
    match dotfiles.track(&config, &world, &file, TrackPolicy::DotfilesOnly) {
        Err(Error::NotFound(p)) => assert_eq!(p, file),
        other => panic!("unexpected {:?}", other),
    }
}

#[test]
fn test_track_already_tracked() {
    let (config, mut world) = setup_config();
    let file = setup_dotfile(&mut world, &config, ".test");
    let d0 = Dotfiles::from_document(None, None, None, None).unwrap();
    let (d1, actions) = d0.track(&config, &world, &file, TrackPolicy::DotfilesOnly).unwrap();
    world.apply_all(&actions);
    let again = setup_dotfile(&mut world, &config, ".test");
    match d1.track(&config, &world, &again, TrackPolicy::DotfilesOnly) {
        Err(Error::AlreadyTracked(p)) => assert_eq!(p, path("/home/.test")),
        other => panic!("unexpected {:?}", other),
    }
}

#[test]
fn test_untrack_declined() {
    let (config, mut world) = setup_config();
    let file = setup_dotfile(&mut world, &config, ".test");
    let d0 = Dotfiles::from_document(None, None, None, None).unwrap();
    let (d1, actions) = d0.track(&config, &world, &file, TrackPolicy::DotfilesOnly).unwrap();
    world.apply_all(&actions);
    // First confirmation declined: nothing at all is deleted.
    let (actions, result) = d1.untrack(&config, &file, false, true);
    assert!(actions.is_empty());
    match result {
        Err(Error::DeleteDeclined(p)) => assert_eq!(p, config.contents().join(&path(".test"))),
        other => panic!("unexpected {:?}", other),
    }
    // Second confirmation declined: the content-store copy is already
    // planned for deletion, the home link stays, the manifest is untouched.
    let (actions, result) = d1.untrack(&config, &file, true, false);
    assert_eq!(actions.len(), 1);
    match result {
        Err(Error::DeleteDeclined(p)) => assert_eq!(p, file),
        other => panic!("unexpected {:?}", other),
    }
}

#[test]
fn test_no_home_directory() {
    let config = Config::new(path("/target"), None);
    let world = World::new();
    let dotfiles = Dotfiles::from_document(None, None, None, None).unwrap();
    assert_eq!(dotfiles.check(&config, &world), Err(Error::NoHomeDirectory));
}

#[test]
fn test_symlink_create_refused_when_occupied() {
    let (config, mut world) = setup_config();
    setup_content(&mut world, &config, ".test");
    setup_symlink_wrong(&mut world, &config, ".test");
    let link = Symlink::get(
        &config.contents(),
        &config.get_home().unwrap(),
        &path(".test"),
        &world,
    );
    assert_eq!(link.status, SymlinkStatus::Wrong);
    match link.create(&world) {
        Err(Error::EntryExists(p)) => assert_eq!(p, path("/home/.test")),
        other => panic!("unexpected {:?}", other),
    }
}

#[test]
fn test_commands_check_and_repair() {
    let (config, mut world) = setup_config();
    setup_content(&mut world, &config, ".test");
    let dotfiles = Dotfiles::new(Some(vec![path(".test")]), None, Some(vec![]));
    // Without repair the failure is surfaced.
    assert!(dotfilesctl::commands::check(&config, &dotfiles, &world, false, RepairAction::Skip)
        .is_err());
    // With repair the absent link is planned and the re-check succeeds.
    let actions =
        dotfilesctl::commands::check(&config, &dotfiles, &world, true, RepairAction::Delete)
            .unwrap();
    world.apply_all(&actions);
    dotfiles.check(&config, &world).unwrap();
}

#[test]
fn test_commands_track_checks_first() {
    let (config, mut world) = setup_config();
    // The manifest is inconsistent, so tracking refuses to proceed.
    let bad = Dotfiles::new(Some(vec![path(".a"), path(".a")]), None, Some(vec![]));
    let file = setup_dotfile(&mut world, &config, ".test");
    assert_eq!(
        dotfilesctl::commands::track(&config, &bad, &world, &file, false, false).unwrap_err(),
        Error::InconsistentManifest(Inconsistency::Duplicates)
    );
    // With the check skipped, the same call goes through.
    let (d1, actions) =
        dotfilesctl::commands::track(&config, &bad, &world, &file, true, false).unwrap();
    world.apply_all(&actions);
    assert_eq!(
        d1.get_files(),
        vec![path(".a"), path(".a"), path(".test")]
    );
}
