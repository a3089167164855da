use recital::parser::build;
use recital::parser::extensions;
use recital::parser::identifiers;
use recital::parser::is_id_char;
use recital::parser::next_number;
use recital::parser::number;
use recital::parser::parse_ids;
use recital::parser::parse_version;
use recital::version::Identifier::Alpha;
use recital::version::Identifier::Number;
use recital::version::Version;

#[test]
fn test_build() {
    assert_eq!(
        build("+abc.123"),
        Some((vec![Alpha("abc".to_string()), Number(123)], 8))
    );
}

#[test]
fn test_extensions() {
    assert_eq!(
        extensions("-abc.123"),
        Some((Some(vec![Alpha("abc".to_string()), Number(123)]), None))
    );

    assert_eq!(
        extensions("+def.456"),
        Some((None, Some(vec![Alpha("def".to_string()), Number(456)])))
    );

    assert_eq!(
        extensions("-abc.123+def.456"),
        Some((
            Some(vec![Alpha("abc".to_string()), Number(123)]),
            Some(vec![Alpha("def".to_string()), Number(456)])
        ))
    );
}

#[test]
fn test_from_str() {
    assert_eq!(
        "1.2.3-abc.456+def.789".parse::<Version>().unwrap(),
        Version {
            major: 1,
            minor: 2,
            patch: 3,
            pre: vec![Alpha("abc".to_string()), Number(456)],
            build: vec![Alpha("def".to_string()), Number(789)],
        }
    );
}

#[test]
fn test_identifiers() {
    assert_eq!(
        identifiers("abc.123.xyz-890"),
        Some((
            vec![
                Alpha("abc".to_string()),
                Number(123),
                Alpha("xyz-890".to_string())
            ],
            15
        ))
    );
}

#[test]
fn test_is_id_char() {
    let mut matched = 0;

    for c in 0..255 {
        if is_id_char(c) {
            matched += 1;
        }
    }

    assert_eq!(63, matched);
}

#[test]
fn test_next_number() {
    assert_eq!(next_number(".123"), Some((123u64, 4)));
}

#[test]
fn test_number() {
    assert_eq!(number("123"), Some((123u64, 3)));
}

#[test]
fn test_parse_ids() {
    assert_eq!(
        parse_ids(vec!["abc", "123"]),
        vec![Alpha("abc".to_string()), Number(123)]
    );
}

#[test]
fn test_prerelease() {
    assert_eq!(
        recital::parser::prerelease("-abc.123"),
        Some((vec![Alpha("abc".to_string()), Number(123)], 8))
    );
}

#[test]
fn test_version() {
    let a: Version = "12.34.56-ab.78".parse().unwrap();
    assert_eq!(
        a,
        Version {
            major: 12,
            minor: 34,
            patch: 56,
            pre: vec![Alpha("ab".to_string()), Number(78)],
            build: Vec::new(),
        }
    );
    assert!(a.build.is_empty());

    let b: Version = "12.34.56+cd.90".parse().unwrap();
    assert_eq!(
        b,
        Version {
            major: 12,
            minor: 34,
            patch: 56,
            pre: Vec::new(),
            build: vec![Alpha("cd".to_string()), Number(90)],
        }
    );
    assert_eq!(b.build, vec![Alpha("cd".to_string()), Number(90)]);

    let c: Version = "12.34.56-ab.78+cd.90".parse().unwrap();
    assert_eq!(
        c,
        Version {
            major: 12,
            minor: 34,
            patch: 56,
            pre: vec![Alpha("ab".to_string()), Number(78)],
            build: vec![Alpha("cd".to_string()), Number(90)],
        }
    );
    assert_eq!(c.build, vec![Alpha("cd".to_string()), Number(90)]);
}

// Each ill-formed text is rejected whole.
#[test]
fn test_parse_rejections() {
    assert!("1.2".parse::<Version>().is_err());
    assert!("1.2.3-".parse::<Version>().is_err());
    assert!("1.2.3..4".parse::<Version>().is_err());
    assert!("01x.2.3".parse::<Version>().is_err());
    assert!("1.2.3-abc..def".parse::<Version>().is_err());
    assert!("".parse::<Version>().is_err());
    assert!("1.2.3 ".parse::<Version>().is_err());
    assert!("1.2.3+".parse::<Version>().is_err());
    assert!("1.2.3-abc.".parse::<Version>().is_err());
    assert!("a.b.c".parse::<Version>().is_err());
}

// A well-formed text with both extension lists parses to the exact parts.
#[test]
fn test_parse_full() {
    let v: Version = "1.2.3-abc.456+def.789".parse().unwrap();

    assert_eq!(1, v.major);
    assert_eq!(2, v.minor);
    assert_eq!(3, v.patch);
    assert_eq!(v.pre, vec![Alpha("abc".to_string()), Number(456)]);
    assert_eq!(v.build, vec![Alpha("def".to_string()), Number(789)]);
}

// The parse error carries the offending text.
#[test]
fn test_parse_error_text() {
    let e = parse_version("1.2").unwrap_err();

    assert_eq!("Invalid version number: 1.2", e);
}

// Leading zeros are read as their numeric value, both in the numeric
// fields and in numeric identifier segments.
#[test]
fn test_leading_zeros() {
    let v: Version = "01.2.3".parse().unwrap();
    assert_eq!(1, v.major);

    let w: Version = "1.2.3-007".parse().unwrap();
    assert_eq!(w.pre, vec![Number(7)]);
}

// An all-digit segment too large for 64 bits stays alphanumeric, and an
// oversized numeric field rejects the text.
#[test]
fn test_numeric_overflow() {
    let v: Version = "1.2.3-99999999999999999999999".parse().unwrap();
    assert_eq!(v.pre, vec![Alpha("99999999999999999999999".to_string())]);

    assert!("99999999999999999999999.2.3".parse::<Version>().is_err());
    assert_eq!(
        "18446744073709551615.0.0".parse::<Version>().unwrap().major,
        u64::MAX
    );
}
