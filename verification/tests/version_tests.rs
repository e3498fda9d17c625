use armory::version::{parse_version, ReleaseKind, Version};

#[test]
fn patch_bump() {
    let v = Version { major: 1, minor: 2, patch: 3 };
    let b = v.bump_patch();
    assert_eq!(b, Version { major: 1, minor: 2, patch: 4 });
}

#[test]
fn minor_bump() {
    let v = Version { major: 1, minor: 2, patch: 3 };
    let b = v.bump_minor();
    assert_eq!(b, Version { major: 1, minor: 3, patch: 0 });
}

#[test]
fn major_bump() {
    let v = Version { major: 1, minor: 2, patch: 3 };
    let b = v.bump_major();
    assert_eq!(b, Version { major: 2, minor: 0, patch: 0 });
}

#[test]
fn bumped_selects_kind() {
    let v = Version { major: 0, minor: 9, patch: 9 };
    assert_eq!(v.bumped(ReleaseKind::Patch), Version { major: 0, minor: 9, patch: 10 });
    assert_eq!(v.bumped(ReleaseKind::Minor), Version { major: 0, minor: 10, patch: 0 });
    assert_eq!(v.bumped(ReleaseKind::Major), Version { major: 1, minor: 0, patch: 0 });
}

#[test]
fn version_string_simple() {
    let v = Version { major: 1, minor: 2, patch: 3 };
    assert_eq!(v.version_string(), "1.2.3");
}

#[test]
fn version_string_zero() {
    let v = Version { major: 0, minor: 0, patch: 0 };
    assert_eq!(v.version_string(), "0.0.0");
}

#[test]
fn version_string_multi_digit() {
    let v = Version { major: 10, minor: 204, patch: 3007 };
    assert_eq!(v.version_string(), "10.204.3007");
}

#[test]
fn parse_canonical() {
    assert_eq!(
        parse_version("1.2.3"),
        Some(Version { major: 1, minor: 2, patch: 3 })
    );
    assert_eq!(
        parse_version("0.0.0"),
        Some(Version { major: 0, minor: 0, patch: 0 })
    );
}

#[test]
fn parse_rejects_garbage() {
    assert_eq!(parse_version("not a version"), None);
    assert_eq!(parse_version("1.2"), None);
    assert_eq!(parse_version(""), None);
}

#[test]
fn parse_render_round_trip() {
    let v = Version { major: 12, minor: 0, patch: 345 };
    let s = v.version_string();
    assert_eq!(parse_version(&s), Some(v));
}

#[test]
fn order_is_lexicographic() {
    let a = Version { major: 1, minor: 2, patch: 3 };
    let b = Version { major: 1, minor: 3, patch: 0 };
    let c = Version { major: 2, minor: 0, patch: 0 };
    assert!(a.lt(&b));
    assert!(b.lt(&c));
    assert!(a.lt(&c));
    assert!(!c.lt(&a));
    assert!(!a.lt(&a));
}
