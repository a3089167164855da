//! Constraints over semantic version numbers, and pool resolution.
//!
//! A constraint is either a leaf [`Operation`] — a direct comparison
//! against a bound version — or a [`Constraints`] set that combines child
//! constraints with *and* / *or* semantics.  [`resolve`] filters a pool of
//! versions, keeping the ones a constraint tree allows, in pool order.

use crate::version::cmp_versions;
use crate::version::lemma_version_order;
use crate::version::Version;
use crate::version::VersionModel;
use crate::version::version_eq;
use crate::version::version_lt;
use core::cmp::Ordering;
use vstd::prelude::*;

verus! {

broadcast use vstd::std_specs::vec::axiom_vec_index_decreases;

/// A version number constraint as an equality or inequality check against
/// a bound version, under the version order (build metadata inert).
pub enum Operation {
    /// Match the exact version number.
    Exactly(Version),
    /// Exclude the exact version number.
    ExactlyNot(Version),
    /// Exclusively match any greater version number.
    GreaterThan(Version),
    /// Inclusively match any greater version number.
    GreaterThanOrEqualTo(Version),
    /// Exclusively match any lesser version number.
    LessThan(Version),
    /// Inclusively match any lesser version number.
    LessThanOrEqualTo(Version),
}

/// One child of a constraint set: a leaf operation or a nested set.
pub enum Node {
    /// A leaf comparison.
    Op(Operation),
    /// A nested constraint set.
    Group(Constraints),
}

/// A set of constraints over the same version.
pub enum Constraints {
    /// Every child constraint must be satisfied; with no children at all,
    /// every version is allowed.
    And(Vec<Node>),
    /// At least one child constraint must be satisfied; with no children
    /// at all, no version is allowed.
    Or(Vec<Node>),
}

/// What a leaf operation allows: a direct comparison between the bound
/// version and the candidate.
pub open spec fn op_allows(op: Operation, v: VersionModel) -> bool {
    match op {
        Operation::Exactly(base) => version_eq(base@, v),
        Operation::ExactlyNot(base) => !version_eq(base@, v),
        Operation::GreaterThan(base) => version_lt(base@, v),
        Operation::GreaterThanOrEqualTo(base) => version_lt(base@, v) || version_eq(base@, v),
        Operation::LessThan(base) => version_lt(v, base@),
        Operation::LessThanOrEqualTo(base) => version_lt(v, base@) || version_eq(base@, v),
    }
}

/// What a constraint set allows: all children for `And` (vacuously true
/// when empty), at least one child for `Or` (vacuously false when empty).
pub open spec fn tree_allows(c: Constraints, v: VersionModel) -> bool
    decreases c,
{
    match c {
        Constraints::And(children) => forall|k: int|
            0 <= k < children@.len() ==> node_allows(#[trigger] children@[k], v),
        Constraints::Or(children) => exists|k: int|
            0 <= k < children@.len() && node_allows(#[trigger] children@[k], v),
    }
}

/// What one child of a constraint set allows.
pub open spec fn node_allows(n: Node, v: VersionModel) -> bool
    decreases n,
{
    match n {
        Node::Op(op) => op_allows(op, v),
        Node::Group(c) => tree_allows(c, v),
    }
}

/// Defines how a constraint must be implemented.
pub trait Constraint {
    /// What this constraint allows, as a predicate over version models.
    spec fn spec_allows(&self, v: VersionModel) -> bool;

    /// Checks if the given version number satisfies this constraint.
    fn allows(&self, version: &Version) -> (r: bool)
        ensures
            r == self.spec_allows(version@),
    ;
}

impl Constraint for Operation {
    open spec fn spec_allows(&self, v: VersionModel) -> bool {
        op_allows(*self, v)
    }

    fn allows(&self, version: &Version) -> (r: bool) {
        match self {
            Operation::Exactly(base) => {
                let c = cmp_versions(base, version);
                match c {
                    Ordering::Equal => true,
                    _ => false,
                }
            },
            Operation::ExactlyNot(base) => {
                let c = cmp_versions(base, version);
                match c {
                    Ordering::Equal => false,
                    _ => true,
                }
            },
            Operation::GreaterThan(base) => {
                let c = cmp_versions(base, version);
                match c {
                    Ordering::Less => true,
                    _ => false,
                }
            },
            Operation::GreaterThanOrEqualTo(base) => {
                let c = cmp_versions(base, version);
                proof {
                    lemma_version_order(base@, version@);
                }
                match c {
                    Ordering::Greater => false,
                    _ => true,
                }
            },
            Operation::LessThan(base) => {
                let c = cmp_versions(base, version);
                match c {
                    Ordering::Greater => true,
                    _ => false,
                }
            },
            Operation::LessThanOrEqualTo(base) => {
                let c = cmp_versions(base, version);
                proof {
                    lemma_version_order(base@, version@);
                }
                match c {
                    Ordering::Less => false,
                    _ => true,
                }
            },
        }
    }
}

/// Evaluates one child of a constraint set against a version.
fn node_allows_exec(n: &Node, version: &Version) -> (r: bool)
    ensures
        r == node_allows(*n, version@),
    decreases *n,
{
    match n {
        Node::Op(op) => op.allows(version),
        Node::Group(c) => tree_allows_exec(c, version),
    }
}

/// Evaluates a constraint set against a version, short-circuiting at the
/// first deciding child.
#[verifier::loop_isolation(false)]
fn tree_allows_exec(c: &Constraints, version: &Version) -> (r: bool)
    ensures
        r == tree_allows(*c, version@),
    decreases *c,
{
    match c {
        Constraints::And(children) => {
            let mut i: usize = 0;
            while i < children.len()
                invariant
                    i <= children@.len(),
                    forall|k: int| 0 <= k < i ==> node_allows(#[trigger] children@[k], version@),
                decreases children@.len() - i,
            {
                if !node_allows_exec(&children[i], version) {
                    proof {
                        assert(!node_allows(children@[i as int], version@));
                    }
                    return false;
                }
                i = i + 1;
            }
            true
        },
        Constraints::Or(children) => {
            let mut i: usize = 0;
            while i < children.len()
                invariant
                    i <= children@.len(),
                    forall|k: int| 0 <= k < i ==> !node_allows(#[trigger] children@[k], version@),
                decreases children@.len() - i,
            {
                if node_allows_exec(&children[i], version) {
                    proof {
                        assert(node_allows(children@[i as int], version@));
                    }
                    return true;
                }
                i = i + 1;
            }
            false
        },
    }
}

impl Constraint for Node {
    open spec fn spec_allows(&self, v: VersionModel) -> bool {
        node_allows(*self, v)
    }

    fn allows(&self, version: &Version) -> (r: bool) {
        node_allows_exec(self, version)
    }
}

impl Constraint for Constraints {
    open spec fn spec_allows(&self, v: VersionModel) -> bool {
        tree_allows(*self, v)
    }

    fn allows(&self, version: &Version) -> (r: bool) {
        tree_allows_exec(self, version)
    }
}

/// Law: an `And` set with no children allows every version.
pub proof fn lemma_vacuous_and(c: Constraints, v: VersionModel)
    requires
        c matches Constraints::And(children) && children@.len() == 0,
    ensures
        tree_allows(c, v),
{
}

/// Law: an `Or` set with no children allows no version.
pub proof fn lemma_vacuous_or(c: Constraints, v: VersionModel)
    requires
        c matches Constraints::Or(children) && children@.len() == 0,
    ensures
        !tree_allows(c, v),
{
}

/// The subsequence of a pool that a constraint tree allows, in pool order.
pub open spec fn spec_resolve(pool: Seq<VersionModel>, c: Constraints) -> Seq<VersionModel>
    decreases pool.len(),
{
    if pool.len() == 0 {
        Seq::empty()
    } else if tree_allows(c, pool.last()) {
        spec_resolve(pool.drop_last(), c).push(pool.last())
    } else {
        spec_resolve(pool.drop_last(), c)
    }
}

/// Resolves a set of constraints against a pool of version numbers.
///
/// Returns an independent copy of every version of the pool that the
/// constraint set allows, preserving pool order.
pub fn resolve(versions: &Vec<Version>, constraints: &Constraints) -> (r: Vec<Version>)
    ensures
        r@.map_values(|v: Version| v@) == spec_resolve(
            versions@.map_values(|v: Version| v@),
            *constraints,
        ),
{
    let ghost pm = versions@.map_values(|v: Version| v@);
    let mut allowed: Vec<Version> = Vec::new();
    let mut i: usize = 0;
    proof {
        assert(pm.take(0) =~= Seq::<VersionModel>::empty());
        assert(allowed@.map_values(|v: Version| v@) =~= Seq::<VersionModel>::empty());
    }
    while i < versions.len()
        invariant
            i <= versions@.len(),
            pm == versions@.map_values(|v: Version| v@),
            allowed@.map_values(|v: Version| v@) == spec_resolve(pm.take(i as int), *constraints),
        decreases versions@.len() - i,
    {
        let ghost before = allowed@.map_values(|v: Version| v@);
        let version = &versions[i];
        if constraints.allows(version) {
            allowed.push(version.clone());
        }
        proof {
            assert(pm.take(i + 1).drop_last() =~= pm.take(i as int));
            assert(pm.take(i + 1).last() == pm[i as int]);
            if tree_allows(*constraints, pm[i as int]) {
                assert(allowed@.map_values(|v: Version| v@) =~= before.push(version@));
            }
        }
        i = i + 1;
    }
    proof {
        assert(pm.take(versions@.len() as int) =~= pm);
    }
    allowed
}

} // verus!

