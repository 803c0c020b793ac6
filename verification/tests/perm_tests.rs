//! Tests of the permission bit model.

use dotfilesctl::perm::{Perm, Perms};

fn all_perms<F: Fn(Perm)>(f: F) {
    for p in 0..7 {
        f(Perm::from_bits_truncate(p))
    }
}

fn all_permss<F: Fn(Perms)>(f: F) {
    for p in 0..511 {
        f(Perms::from_bits_truncate(p))
    }
}

#[test]
fn test_convert1() {
    all_permss(|perms| {
        assert_eq!(
            perms,
            Perms::from(perms.user(), perms.group(), perms.other())
        )
    })
}

#[test]
fn test_convert2() {
    all_perms(|user| {
        all_perms(|group| {
            all_perms(|other| {
                let perms = Perms::from(user, group, other);
                assert_eq!(user, perms.user());
                assert_eq!(group, perms.group());
                assert_eq!(other, perms.other())
            })
        })
    })
}

#[test]
fn test_combined() {
    let r = Perm::from_bits_truncate(4);
    let w = Perm::from_bits_truncate(2);
    let x = Perm::from_bits_truncate(1);
    assert_eq!(r.union(w).union(x), Perm::from_bits_truncate(7));
    assert_eq!(r.union(w), Perm::from_bits_truncate(6));
    assert_eq!(r.union(x), Perm::from_bits_truncate(5));
    assert_eq!(w.union(x), Perm::from_bits_truncate(3))
}

#[test]
fn test_map_id() {
    all_permss(|perms| assert_eq!(perms, perms.map(|x| x, |x| x, |x| x)))
}

#[test]
fn test_map_user_id() {
    all_permss(|perms| assert_eq!(perms, perms.map_user(|x| x)))
}

#[test]
fn test_map_group_id() {
    all_permss(|perms| assert_eq!(perms, perms.map_group(|x| x)))
}

#[test]
fn test_map_other_id() {
    all_permss(|perms| assert_eq!(perms, perms.map_other(|x| x)))
}

#[test]
fn test_map() {
    let r = Perm::from_bits_truncate(4);
    let w = Perm::from_bits_truncate(2);
    let x = Perm::from_bits_truncate(1);
    all_permss(|perms| {
        let expected = Perms::from(
            perms.user().union(x),
            perms.group().union(w),
            perms.other().union(r),
        );
        let actual = perms.map(|c| c.union(x), |c| c.union(w), |c| c.union(r));
        assert_eq!(expected, actual)
    })
}

#[test]
#[should_panic(expected = "InvalidPermissionBits")]
fn test_unix_sticky() {
    dotfilesctl::perm::Perms::from_mode(0o1111).unwrap();
}

#[test]
fn test_unix_clear() {
    let result = Perms::from_mode(0o10111).unwrap();
    assert_eq!(Perms::from_bits_truncate(0o111), result)
}

#[test]
fn test_from_bits_rejects_high_bits() {
    assert_eq!(Perms::from_bits(0o644), Some(Perms::from_bits_truncate(0o644)));
    assert_eq!(Perms::from_bits(0o1644), None);
}

#[test]
fn test_difference() {
    assert_eq!(
        Perms::from_bits_truncate(0o755).difference(Perms::from_bits_truncate(0o111)),
        Perms::from_bits_truncate(0o644)
    );
}

#[test]
fn test_mode_round_trip() {
    let perms = Perms::from_mode(0o755).unwrap();
    assert_eq!(perms.mode(), 0o755);
}
