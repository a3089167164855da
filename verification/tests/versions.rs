use recital::version::Identifier::Alpha;
use recital::version::Identifier::Number;
use recital::version::Version;

fn v(major: u64, minor: u64, patch: u64) -> Version {
    Version {
        major,
        minor,
        patch,
        pre: Vec::new(),
        build: Vec::new(),
    }
}

fn vp(major: u64, minor: u64, patch: u64, pre: Vec<recital::version::Identifier>) -> Version {
    Version {
        major,
        minor,
        patch,
        pre,
        build: Vec::new(),
    }
}

fn chain_less(versions: Vec<Version>) {
    let mut offset = 1;

    while offset < versions.len() {
        assert!(
            versions[offset - 1] < versions[offset],
            "{} < {}",
            versions[offset - 1].display(),
            versions[offset].display()
        );

        offset += 1;
    }
}

// Verify that an identifier can be displayed.
#[test]
fn test_identifier_display() {
    assert_eq!("abc", Alpha("abc".to_string()).display());
    assert_eq!("123", Number(123).display());
}

// Verify that default version values are minimal.
#[test]
fn test_version_default() {
    let a: Version = Default::default();
    let b = Version {
        major: 0,
        minor: 0,
        patch: 0,
        pre: Vec::new(),
        build: Vec::new(),
    };

    assert_eq!(a, b);
}

// Verify that the build identifiers can be cleared.
#[test]
fn test_version_clear_build() {
    let mut v = Version {
        major: 0,
        minor: 0,
        patch: 0,
        pre: Vec::new(),
        build: vec![Number(123)],
    };

    v.clear_build();

    assert!(v.build.is_empty());
}

// Verify that all of the identifiers can be cleared.
#[test]
fn test_version_clear_identifiers() {
    let mut v = Version {
        major: 0,
        minor: 0,
        patch: 0,
        pre: vec![Alpha("abc".to_string())],
        build: vec![Number(123)],
    };

    v.clear_identifiers();

    assert!(v.build.is_empty());
    assert!(v.pre.is_empty());
}

// Verify that the pre-release identifiers can be cleared.
#[test]
fn test_version_clear_pre() {
    let mut v = Version {
        major: 0,
        minor: 0,
        patch: 0,
        pre: vec![Number(123)],
        build: Vec::new(),
    };

    v.clear_pre();

    assert!(v.pre.is_empty());
}

// Verify version comparison conforms to spec.
#[test]
fn test_version_cmp_spec() {
    chain_less(vec![v(1, 0, 0), v(2, 0, 0), v(2, 1, 0)]);

    chain_less(vec![vp(1, 0, 0, vec![Alpha("alpha".to_string())]), v(1, 0, 0)]);

    chain_less(vec![
        vp(1, 0, 0, vec![Alpha("alpha".to_string())]),
        vp(1, 0, 0, vec![Alpha("alpha".to_string()), Number(1)]),
        vp(
            1,
            0,
            0,
            vec![Alpha("alpha".to_string()), Alpha("beta".to_string())],
        ),
        vp(1, 0, 0, vec![Alpha("beta".to_string())]),
        vp(1, 0, 0, vec![Alpha("beta".to_string()), Number(2)]),
        vp(1, 0, 0, vec![Alpha("beta".to_string()), Number(11)]),
        vp(1, 0, 0, vec![Alpha("rc".to_string()), Number(1)]),
        v(1, 0, 0),
    ]);
}

// Verify that a version can be displayed.
#[test]
fn test_version_display() {
    let v = Version {
        major: 1,
        minor: 2,
        patch: 3,
        pre: vec![Alpha("abc".to_string()), Number(456)],
        build: vec![Alpha("def".to_string()), Number(789)],
    };

    assert_eq!("1.2.3-abc.456+def.789", v.display());
}

// Verify that the major version number can be incremented.
#[test]
fn test_version_increment_major() {
    let mut v = Version {
        major: 1,
        minor: 2,
        patch: 3,
        pre: vec![Alpha("abc".to_string()), Number(456)],
        build: vec![Alpha("def".to_string()), Number(789)],
    };

    v.increment_major();

    assert_eq!(2, v.major);
    assert_eq!(0, v.minor);
    assert_eq!(0, v.patch);
    assert!(v.pre.is_empty());
    assert!(v.build.is_empty());
}

// Verify that the minor version number can be incremented.
#[test]
fn test_version_increment_minor() {
    let mut v = Version {
        major: 1,
        minor: 2,
        patch: 3,
        pre: vec![Alpha("abc".to_string()), Number(456)],
        build: vec![Alpha("def".to_string()), Number(789)],
    };

    v.increment_minor();

    assert_eq!(1, v.major);
    assert_eq!(3, v.minor);
    assert_eq!(0, v.patch);
    assert!(v.pre.is_empty());
    assert!(v.build.is_empty());
}

// Verify that the patch version number can be incremented.
#[test]
fn test_version_increment_patch() {
    let mut v = Version {
        major: 1,
        minor: 2,
        patch: 3,
        pre: vec![Alpha("abc".to_string()), Number(456)],
        build: vec![Alpha("def".to_string()), Number(789)],
    };

    v.increment_patch();

    assert_eq!(1, v.major);
    assert_eq!(2, v.minor);
    assert_eq!(4, v.patch);
    assert!(v.pre.is_empty());
    assert!(v.build.is_empty());
}

// Verify that a stability check can be performed.
#[test]
fn test_version_is_stable() {
    let mut v = Version {
        major: 0,
        minor: 0,
        patch: 0,
        pre: Vec::new(),
        build: Vec::new(),
    };

    assert!(!v.is_stable());

    v.major = 1;

    assert!(v.is_stable());

    v.pre.push(Alpha("beta".to_string()));

    assert!(!v.is_stable());
}

// A non-empty pre-release is below the stable release with the same triple.
#[test]
fn test_prerelease_below_stable() {
    let a: Version = "1.0.0-alpha".parse().unwrap();
    let b: Version = "1.0.0".parse().unwrap();

    assert!(a < b);
    assert!(!(a > b));
    assert!(a != b);
}

// Build metadata never affects equality or ordering.
#[test]
fn test_build_metadata_inert() {
    let a: Version = "1.2.3+build1".parse().unwrap();
    let b: Version = "1.2.3+build2".parse().unwrap();
    let c: Version = "1.2.3".parse().unwrap();

    assert_eq!(a, b);
    assert_eq!(a, c);
    assert_eq!(b, c);
    assert!(!(a < b));
    assert!(!(b < a));
}

// Incrementing the minor version resets the patch and drops identifiers.
#[test]
fn test_increment_resets() {
    let mut v: Version = "1.2.3-alpha+build".parse().unwrap();

    v.increment_minor();

    assert_eq!("1.3.0", v.display());
}

// A numeric identifier never equals an alphanumeric one and sorts below it.
#[test]
fn test_identifier_variant_order() {
    let n = Number(1);
    let a = Alpha("1".to_string());

    assert_ne!(n, a);
    assert!(n < a);
    assert!(!(a < n));
}

// The all-zero version displays as the plain triple.
#[test]
fn test_display_zero() {
    assert_eq!("0.0.0", Version::new().display());
}

// Display round-trips through the parser, build metadata included.
#[test]
fn test_display_round_trip() {
    let v = Version {
        major: 10,
        minor: 0,
        patch: 205,
        pre: vec![Alpha("rc".to_string()), Number(1)],
        build: vec![Alpha("sha-x".to_string()), Number(42)],
    };

    let back: Version = v.display().parse().unwrap();

    assert_eq!(v, back);
    assert_eq!(v.pre, back.pre);
    assert_eq!(v.build, back.build);
    assert_eq!(v.display(), back.display());
}
