//! Tests of the lexical path model.

use dotfilesctl::paths::{canonicalize_light, path_eq, relative_to, FsPath};

fn path(s: &str) -> FsPath {
    FsPath::from_bytes(&s.as_bytes().to_vec())
}

fn assert_relative_to(from: &str, to: &str, res: &str) {
    let from = path(from);
    let to = path(to);
    assert_eq!(relative_to(&from, &to), path(res))
}

#[test]
fn test_relative_to() {
    assert_relative_to("/a/b/c", "/a/e", "../../e");
    assert_relative_to("/a/b/c", "/", "../../../");
    assert_relative_to("/a/b/c", "/a/b/c/d", "d");
}

#[test]
fn test_canonicalize_light() {
    assert_eq!(canonicalize_light(&path("/a/b/..")), path("/a"));
    assert_eq!(canonicalize_light(&path("/a/b/../..")), path("/"));
    assert_eq!(canonicalize_light(&path("../../a")), path("../../a"));
}

#[test]
fn test_relative_to_round_trip() {
    let cases = [
        ("/a/b/c", "/a/e"),
        ("/a/b/c", "/a/b/c/d"),
        ("/home/user", "/srv/store/contents/.bashrc"),
        ("/x", "/x"),
    ];
    for (from, to) in cases {
        let f = path(from);
        let t = path(to);
        let rel = relative_to(&f, &t);
        assert_eq!(canonicalize_light(&f.join(&rel)), path(to));
    }
}

#[test]
fn test_from_bytes_shapes() {
    assert!(path("/a/b").absolute);
    assert!(!path("a/b").absolute);
    assert_eq!(path("/a//b/"), path("/a/b"));
    assert_eq!(canonicalize_light(&path("/a/./b")), path("/a/b"));
    assert!(path_eq(&path("/a/b"), &path("/a/b")));
    assert!(!path_eq(&path("/a/b"), &path("/a/c")));
}

#[test]
fn test_starts_with_and_join() {
    let home = path("/home/user");
    let file = path("/home/user/.bashrc");
    assert!(file.starts_with(&home));
    assert!(!home.starts_with(&file));
    assert!(!path("/home/userx/.bashrc").starts_with(&home));
    assert_eq!(home.join(&path(".bashrc")), file);
}
