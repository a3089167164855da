use recital::resolve::resolve;
use recital::resolve::Constraint;
use recital::resolve::Constraints;
use recital::resolve::Node;
use recital::resolve::Operation::Exactly;
use recital::resolve::Operation::ExactlyNot;
use recital::resolve::Operation::GreaterThan;
use recital::resolve::Operation::GreaterThanOrEqualTo;
use recital::resolve::Operation::LessThan;
use recital::resolve::Operation::LessThanOrEqualTo;
use recital::version::Version;

fn v(major: u64, minor: u64, patch: u64) -> Version {
    Version {
        major,
        minor,
        patch,
        pre: Vec::new(),
        build: Vec::new(),
    }
}

#[test]
fn test_exact() {
    assert!(Exactly(v(1, 2, 3)).allows(&v(1, 2, 3)));
    assert!(!Exactly(v(1, 2, 3)).allows(&v(4, 5, 6)));
}

#[test]
fn test_exactly_not() {
    assert!(ExactlyNot(v(1, 2, 3)).allows(&v(1, 0, 0)));
    assert!(!ExactlyNot(v(1, 2, 3)).allows(&v(1, 2, 3)));
}

#[test]
fn test_greater_than() {
    assert!(GreaterThan(v(1, 2, 3)).allows(&v(4, 5, 6)));
}

#[test]
fn test_greater_than_or_equal_to() {
    assert!(GreaterThanOrEqualTo(v(1, 2, 3)).allows(&v(4, 5, 6)));

    assert!(GreaterThanOrEqualTo(v(1, 2, 3)).allows(&v(1, 2, 3)));
}

#[test]
fn test_less_than() {
    assert!(LessThan(v(1, 2, 3)).allows(&v(1, 0, 0)));
}

#[test]
fn test_less_than_or_equal_to() {
    assert!(LessThanOrEqualTo(v(1, 2, 3)).allows(&v(1, 0, 0)));

    assert!(LessThanOrEqualTo(v(1, 2, 3)).allows(&v(1, 2, 3)));
}

#[test]
fn test_and() {
    let a = Constraints::And(vec![
        Node::Op(GreaterThanOrEqualTo(v(1, 1, 0))),
        Node::Op(LessThan(v(1, 2, 0))),
    ]);

    assert!(a.allows(&v(1, 1, 1)));
    assert!(a.allows(&v(1, 1, 999)));
}

#[test]
fn test_or() {
    let a = Constraints::Or(vec![
        Node::Op(Exactly(v(1, 1, 0))),
        Node::Op(Exactly(v(1, 2, 0))),
    ]);

    assert!(a.allows(&v(1, 1, 0)));
    assert!(a.allows(&v(1, 2, 0)));
}

#[test]
fn test_nested() {
    let a = Constraints::And(vec![
        Node::Op(GreaterThanOrEqualTo(v(1, 2, 1))),
        Node::Op(LessThan(v(1, 5, 0))),
    ]);

    let b = Constraints::And(vec![
        Node::Op(GreaterThan(v(1, 5, 0))),
        Node::Op(LessThan(v(2, 0, 0))),
    ]);

    let c = Constraints::Or(vec![Node::Group(a), Node::Group(b)]);

    assert!(c.allows(&v(1, 4, 5)));
    assert!(!c.allows(&v(1, 5, 0)));
    assert!(c.allows(&v(1, 9, 3)));
}

#[test]
fn test_resolve() {
    let c = Constraints::And(vec![
        Node::Op(GreaterThan(v(1, 2, 1))),
        Node::Op(LessThan(v(2, 0, 0))),
    ]);

    let pool = vec![
        v(1, 2, 0),
        v(1, 2, 1),
        v(1, 3, 0),
        v(1, 3, 1),
        v(1, 4, 0),
        v(2, 0, 0),
        v(2, 0, 1),
        v(2, 1, 0),
    ];

    assert_eq!(
        resolve(&pool, &c),
        vec![v(1, 3, 0), v(1, 3, 1), v(1, 4, 0)]
    );
}

// An `And` with no children allows every version.
#[test]
fn test_vacuous_and() {
    let c = Constraints::And(Vec::new());

    assert!(c.allows(&v(0, 0, 0)));
    assert!(c.allows(&v(1, 2, 3)));
    assert!(c.allows(&"1.2.3-alpha+build".parse::<Version>().unwrap()));
}

// An `Or` with no children allows no version.
#[test]
fn test_vacuous_or() {
    let c = Constraints::Or(Vec::new());

    assert!(!c.allows(&v(0, 0, 0)));
    assert!(!c.allows(&v(1, 2, 3)));
    assert!(!c.allows(&"1.2.3-alpha+build".parse::<Version>().unwrap()));
}

// Resolution keeps pool order and returns independent copies.
#[test]
fn test_resolve_keeps_order() {
    let c = Constraints::And(vec![Node::Op(ExactlyNot(v(1, 1, 0)))]);

    let pool = vec![v(2, 0, 0), v(1, 1, 0), v(1, 0, 0)];
    let kept = resolve(&pool, &c);

    assert_eq!(kept, vec![v(2, 0, 0), v(1, 0, 0)]);
    assert_eq!(pool.len(), 3);
}

// Pre-release versions take part in resolution under the version order.
#[test]
fn test_resolve_prerelease() {
    let pool = vec![
        "1.0.0-alpha".parse::<Version>().unwrap(),
        "1.0.0".parse::<Version>().unwrap(),
        "1.0.1".parse::<Version>().unwrap(),
    ];

    let c = Constraints::And(vec![Node::Op(LessThan(v(1, 0, 0)))]);
    let kept = resolve(&pool, &c);

    assert_eq!(kept, vec!["1.0.0-alpha".parse::<Version>().unwrap()]);
}
