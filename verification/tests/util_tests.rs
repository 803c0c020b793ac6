//! Tests of the list helpers and the executable flag.

use dotfilesctl::error::Error;
use dotfilesctl::paths::FsPath;
use dotfilesctl::perm::Perms;
use dotfilesctl::util::{is_unique, remove_item, result_from_option, Executable};
use dotfilesctl::world::{Node, World};

fn path(s: &str) -> FsPath {
    FsPath::from_bytes(&s.as_bytes().to_vec())
}

#[test]
fn test_unique() {
    assert!(is_unique(&vec![path("1"), path("2"), path("3")]));
    assert!(!is_unique(&vec![path("1"), path("2"), path("2")]));
    assert!(!is_unique(&vec![path("2"), path("1"), path("2")]));
}

#[test]
fn test_remove_item() {
    let mut v = vec![path("a"), path("b"), path("a")];
    remove_item(&mut v, &path("a"));
    assert_eq!(v, vec![path("b"), path("a")]);
    remove_item(&mut v, &path("c"));
    assert_eq!(v, vec![path("b"), path("a")]);
}

#[test]
fn test_result_from_option() {
    assert_eq!(result_from_option(Some(5), Error::NoHomeDirectory), Ok(5));
    assert_eq!(
        result_from_option::<u32>(None, Error::NoHomeDirectory),
        Err(Error::NoHomeDirectory)
    );
}

#[test]
fn test_add_executable() {
    assert_eq!(
        Perms::from_bits_truncate(0o500),
        Executable::Yes.update_perms(Perms::from_bits_truncate(0o400))
    );
    assert_eq!(
        Perms::from_bits_truncate(0o700),
        Executable::Yes.update_perms(Perms::from_bits_truncate(0o600))
    );
    assert_eq!(
        Perms::from_bits_truncate(0o200),
        Executable::Yes.update_perms(Perms::from_bits_truncate(0o200))
    );
}

#[test]
fn test_remove_executable() {
    assert_eq!(
        Perms::from_bits_truncate(0o400),
        Executable::No.update_perms(Perms::from_bits_truncate(0o500))
    );
    assert_eq!(
        Perms::from_bits_truncate(0o444),
        Executable::No.update_perms(Perms::from_bits_truncate(0o555))
    );
}

#[test]
fn test_set_executable() {
    let file = path("/store/tool");
    let mut world = World::new();
    world.insert(
        file.clone(),
        Node::File { perms: Perms::from_bits_truncate(0o644) },
    );
    let action = Executable::Yes.set(&world, &file).unwrap();
    world.apply(&action);
    match world.lookup(&file) {
        Some(Node::File { perms }) => assert_eq!(perms, Perms::from_bits_truncate(0o755)),
        other => panic!("expected a file, got {:?}", other),
    }
}

#[test]
fn test_executable_get() {
    let mut world = World::new();
    let plain = path("/store/plain");
    let tool = path("/store/tool");
    let dir = path("/store/dir");
    world.insert(
        plain.clone(),
        Node::File { perms: Perms::from_bits_truncate(0o644) },
    );
    world.insert(
        tool.clone(),
        Node::File { perms: Perms::from_bits_truncate(0o755) },
    );
    world.insert(dir.clone(), Node::Dir);
    assert_eq!(Executable::get(&world, &plain), Ok(Executable::No));
    assert_eq!(Executable::get(&world, &tool), Ok(Executable::Yes));
    assert_eq!(Executable::get(&world, &dir), Err(Error::NotAFile(dir)));
    let missing = path("/store/missing");
    assert_eq!(
        Executable::get(&world, &missing),
        Err(Error::NotFound(missing))
    );
}
