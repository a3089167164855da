//! The version value model: identifiers, versions, and their total order.

use core::cmp::Ordering;
use vstd::prelude::*;

verus! {

/// An alphanumeric or numeric identifier: one dot-delimited segment of a
/// pre-release or build metadata list.
///
/// A numeric identifier holds the integer value of an all-digit segment.
/// An alphanumeric identifier holds the raw text of a segment that also
/// contains letters or hyphens.  When compared, numeric identifiers order
/// by value, alphanumeric identifiers order lexicographically, and a
/// numeric identifier is always less than an alphanumeric one.
#[derive(Debug)]
pub enum Identifier {
    /// A numeric identifier: the segment was only decimal digits.
    Number(u64),
    /// An alphanumeric identifier: the raw text of the segment.
    Alpha(String),
}

/// The mathematical value of an [`Identifier`]: the text is a sequence of
/// characters rather than a `String`.
#[verifier::ext_equal]
pub enum IdModel {
    Num(u64),
    Alpha(Seq<char>),
}

impl View for Identifier {
    type V = IdModel;

    open spec fn view(&self) -> IdModel {
        match self {
            Identifier::Number(n) => IdModel::Num(*n),
            Identifier::Alpha(s) => IdModel::Alpha(s@),
        }
    }
}

/// A semantic version number: `major.minor.patch`, an optional pre-release
/// identifier list, and an optional build metadata list.
///
/// The build metadata is carried for display only: it never takes part in
/// comparison or equality.
#[derive(Debug)]
pub struct Version {
    /// The major version number.
    pub major: u64,
    /// The minor version number.
    pub minor: u64,
    /// The patch version number.
    pub patch: u64,
    /// The pre-release identifiers; empty means no pre-release.
    pub pre: Vec<Identifier>,
    /// The build metadata identifiers; empty means no build metadata.
    pub build: Vec<Identifier>,
}

/// The mathematical value of a [`Version`].
#[verifier::ext_equal]
pub struct VersionModel {
    pub major: u64,
    pub minor: u64,
    pub patch: u64,
    pub pre: Seq<IdModel>,
    pub build: Seq<IdModel>,
}

impl View for Version {
    type V = VersionModel;

    open spec fn view(&self) -> VersionModel {
        VersionModel {
            major: self.major,
            minor: self.minor,
            patch: self.patch,
            pre: self.pre@.map_values(|id: Identifier| id@),
            build: self.build@.map_values(|id: Identifier| id@),
        }
    }
}

/// The model of the all-zero version: `0.0.0` with no identifiers.
pub open spec fn init_model() -> VersionModel {
    VersionModel {
        major: 0,
        minor: 0,
        patch: 0,
        pre: Seq::empty(),
        build: Seq::empty(),
    }
}

/// Strict lexicographic order on character sequences: compare character by
/// character by code point; a strict prefix is less than the longer text.
pub open spec fn chars_lt(a: Seq<char>, b: Seq<char>) -> bool
    decreases a.len(),
{
    if b.len() == 0 {
        false
    } else if a.len() == 0 {
        true
    } else if a[0] != b[0] {
        (a[0] as u32) < (b[0] as u32)
    } else {
        chars_lt(a.drop_first(), b.drop_first())
    }
}

/// Strict order on identifiers: numeric before alphanumeric; numeric by
/// value; alphanumeric lexicographically by text.
pub open spec fn id_lt(a: IdModel, b: IdModel) -> bool {
    match (a, b) {
        (IdModel::Num(x), IdModel::Num(y)) => x < y,
        (IdModel::Num(_), IdModel::Alpha(_)) => true,
        (IdModel::Alpha(_), IdModel::Num(_)) => false,
        (IdModel::Alpha(x), IdModel::Alpha(y)) => chars_lt(x, y),
    }
}

/// Strict lexicographic order on identifier lists, element by element, with
/// a strict prefix less than the longer list.
pub open spec fn ids_lt(a: Seq<IdModel>, b: Seq<IdModel>) -> bool
    decreases a.len(),
{
    if b.len() == 0 {
        false
    } else if a.len() == 0 {
        true
    } else if a[0] != b[0] {
        id_lt(a[0], b[0])
    } else {
        ids_lt(a.drop_first(), b.drop_first())
    }
}

/// Version equality: the three numeric fields and the pre-release list;
/// build metadata is ignored entirely.
pub open spec fn version_eq(a: VersionModel, b: VersionModel) -> bool {
    a.major == b.major && a.minor == b.minor && a.patch == b.patch && a.pre == b.pre
}

/// The total order on versions: compare `major`, `minor`, `patch`
/// numerically; on a tie a version with a pre-release is less than the
/// corresponding stable version, and two pre-releases compare by their
/// identifier lists.  Build metadata is ignored.
pub open spec fn version_lt(a: VersionModel, b: VersionModel) -> bool {
    if a.major != b.major {
        a.major < b.major
    } else if a.minor != b.minor {
        a.minor < b.minor
    } else if a.patch != b.patch {
        a.patch < b.patch
    } else if a.pre.len() == 0 {
        false
    } else if b.pre.len() == 0 {
        true
    } else {
        ids_lt(a.pre, b.pre)
    }
}

/// Law: lexicographic order on character sequences is a strict total
/// order — for any two sequences exactly one of `a < b`, `a == b`,
/// `b < a` holds.
pub proof fn lemma_chars_order(a: Seq<char>, b: Seq<char>)
    ensures
        chars_lt(a, b) || chars_lt(b, a) || a == b,
        chars_lt(a, b) ==> !chars_lt(b, a),
        chars_lt(a, b) ==> a != b,
    decreases a.len(),
{
    if b.len() == 0 {
        if a.len() == 0 {
            assert(a =~= b);
        }
    } else if a.len() == 0 {
    } else if a[0] != b[0] {
        // distinct characters have distinct code points
        vstd::utf8::char_u32_cast(a[0], a[0] as u32);
        vstd::utf8::char_u32_cast(b[0], b[0] as u32);
    } else {
        lemma_chars_order(a.drop_first(), b.drop_first());
        if !chars_lt(a, b) && !chars_lt(b, a) {
            assert(a.drop_first() == b.drop_first());
            assert forall|i: int| 0 <= i < a.len() implies a[i] == b[i] by {
                if i >= 1 {
                    assert(a[i] == a.drop_first()[i - 1]);
                    assert(b[i] == b.drop_first()[i - 1]);
                }
            }
            assert(a =~= b);
        }
        if chars_lt(a, b) && a == b {
            assert(a.drop_first() =~= b.drop_first());
        }
    }
}

/// Law: lexicographic order on character sequences is transitive.
pub proof fn lemma_chars_lt_trans(a: Seq<char>, b: Seq<char>, c: Seq<char>)
    requires
        chars_lt(a, b),
        chars_lt(b, c),
    ensures
        chars_lt(a, c),
    decreases a.len(),
{
    if c.len() == 0 {
    } else if a.len() == 0 {
    } else if b.len() == 0 {
    } else {
        if a[0] == b[0] && b[0] == c[0] {
            lemma_chars_lt_trans(a.drop_first(), b.drop_first(), c.drop_first());
        }
    }
}

/// Law: identifier order is a strict total order — numeric identifiers
/// are always below alphanumeric ones, and within each variant exactly one
/// of `a < b`, `a == b`, `b < a` holds.
pub proof fn lemma_id_order(a: IdModel, b: IdModel)
    ensures
        id_lt(a, b) || id_lt(b, a) || a == b,
        id_lt(a, b) ==> !id_lt(b, a),
        id_lt(a, b) ==> a != b,
{
    match (a, b) {
        (IdModel::Alpha(x), IdModel::Alpha(y)) => {
            lemma_chars_order(x, y);
        },
        _ => {},
    }
}

/// Law: identifier order is transitive.
pub proof fn lemma_id_lt_trans(a: IdModel, b: IdModel, c: IdModel)
    requires
        id_lt(a, b),
        id_lt(b, c),
    ensures
        id_lt(a, c),
{
    match (a, b, c) {
        (IdModel::Alpha(x), IdModel::Alpha(y), IdModel::Alpha(z)) => {
            lemma_chars_lt_trans(x, y, z);
        },
        _ => {},
    }
}

/// Law: the order on identifier lists is a strict total order.
pub proof fn lemma_ids_order(a: Seq<IdModel>, b: Seq<IdModel>)
    ensures
        ids_lt(a, b) || ids_lt(b, a) || a == b,
        ids_lt(a, b) ==> !ids_lt(b, a),
        ids_lt(a, b) ==> a != b,
    decreases a.len(),
{
    if b.len() == 0 {
        if a.len() == 0 {
            assert(a =~= b);
        }
    } else if a.len() == 0 {
    } else if a[0] != b[0] {
        lemma_id_order(a[0], b[0]);
    } else {
        lemma_ids_order(a.drop_first(), b.drop_first());
        if !ids_lt(a, b) && !ids_lt(b, a) {
            assert(a.drop_first() == b.drop_first());
            assert forall|i: int| 0 <= i < a.len() implies a[i] == b[i] by {
                if i >= 1 {
                    assert(a[i] == a.drop_first()[i - 1]);
                    assert(b[i] == b.drop_first()[i - 1]);
                }
            }
            assert(a =~= b);
        }
        if ids_lt(a, b) && a == b {
            assert(a.drop_first() =~= b.drop_first());
        }
    }
}

/// Law: the order on identifier lists is transitive.
pub proof fn lemma_ids_lt_trans(a: Seq<IdModel>, b: Seq<IdModel>, c: Seq<IdModel>)
    requires
        ids_lt(a, b),
        ids_lt(b, c),
    ensures
        ids_lt(a, c),
    decreases a.len(),
{
    if c.len() == 0 {
    } else if a.len() == 0 {
    } else if b.len() == 0 {
    } else {
        if a[0] == b[0] && b[0] == c[0] {
            lemma_ids_lt_trans(a.drop_first(), b.drop_first(), c.drop_first());
        } else if a[0] == b[0] {
            // heads of b and c differ and decide
            lemma_id_order(b[0], c[0]);
        } else if b[0] == c[0] {
            lemma_id_order(a[0], b[0]);
        } else {
            lemma_id_lt_trans(a[0], b[0], c[0]);
            lemma_id_order(a[0], c[0]);
        }
    }
}

/// Law: version comparison is total and antisymmetric — for any two
/// versions exactly one of `a < b`, `a == b` (build metadata ignored),
/// `b < a` holds.
pub proof fn lemma_version_order(a: VersionModel, b: VersionModel)
    ensures
        version_lt(a, b) || version_lt(b, a) || version_eq(a, b),
        version_lt(a, b) ==> !version_lt(b, a),
        version_lt(a, b) ==> !version_eq(a, b),
        version_eq(a, b) ==> version_eq(b, a),
        version_eq(a, a),
{
    if a.major == b.major && a.minor == b.minor && a.patch == b.patch {
        if a.pre.len() == 0 && b.pre.len() == 0 {
            assert(a.pre =~= b.pre);
        } else if a.pre.len() != 0 && b.pre.len() != 0 {
            lemma_ids_order(a.pre, b.pre);
        }
    }
}

/// Law: version comparison is transitive.
pub proof fn lemma_version_lt_trans(a: VersionModel, b: VersionModel, c: VersionModel)
    requires
        version_lt(a, b),
        version_lt(b, c),
    ensures
        version_lt(a, c),
{
    if a.major == b.major && b.major == c.major && a.minor == b.minor && b.minor == c.minor
        && a.patch == b.patch && b.patch == c.patch {
        if a.pre.len() != 0 && b.pre.len() != 0 && c.pre.len() != 0 {
            lemma_ids_lt_trans(a.pre, b.pre, c.pre);
        }
    }
}

/// Law: precedence — on the same numeric triple, a version with a
/// non-empty pre-release list is less than the one with none.
pub proof fn lemma_prerelease_below_stable(a: VersionModel, b: VersionModel)
    requires
        a.major == b.major,
        a.minor == b.minor,
        a.patch == b.patch,
        a.pre.len() > 0,
        b.pre.len() == 0,
    ensures
        version_lt(a, b),
{
}

/// Law: build metadata is inert — two versions that agree on the numeric
/// triple and the pre-release list are equal, whatever their build
/// metadata, and neither is less than the other.
pub proof fn lemma_build_inert(a: VersionModel, b: VersionModel)
    requires
        a.major == b.major,
        a.minor == b.minor,
        a.patch == b.patch,
        a.pre == b.pre,
    ensures
        version_eq(a, b),
        !version_lt(a, b),
        !version_lt(b, a),
{
    lemma_version_order(a, b);
    lemma_version_order(b, a);
}

/// The comparison verdict on two identifiers, as a [`Ordering`] value.
pub open spec fn id_cmp(a: IdModel, b: IdModel) -> Ordering {
    if id_lt(a, b) {
        Ordering::Less
    } else if id_lt(b, a) {
        Ordering::Greater
    } else {
        Ordering::Equal
    }
}

/// The comparison verdict on two versions, as a [`Ordering`] value.
pub open spec fn version_cmp(a: VersionModel, b: VersionModel) -> Ordering {
    if version_lt(a, b) {
        Ordering::Less
    } else if version_lt(b, a) {
        Ordering::Greater
    } else {
        Ordering::Equal
    }
}

/// Compares two pieces of text character by character.
fn cmp_chars(a: &str, b: &str) -> (r: Ordering)
    ensures
        (r == Ordering::Less) == chars_lt(a@, b@),
        (r == Ordering::Greater) == chars_lt(b@, a@),
        (r == Ordering::Equal) == (a@ == b@),
{
    let alen = a.unicode_len();
    let blen = b.unicode_len();
    let mut i: usize = 0;
    proof {
        assert(a@.skip(0) =~= a@);
        assert(b@.skip(0) =~= b@);
    }
    loop
        invariant
            i <= alen,
            i <= blen,
            alen == a@.len(),
            blen == b@.len(),
            forall|k: int| 0 <= k < i ==> a@[k] == b@[k],
            chars_lt(a@, b@) == chars_lt(a@.skip(i as int), b@.skip(i as int)),
            chars_lt(b@, a@) == chars_lt(b@.skip(i as int), a@.skip(i as int)),
        decreases alen - i,
    {
        if i == alen && i == blen {
            proof {
                assert(a@.skip(i as int) =~= Seq::<char>::empty());
                assert(b@.skip(i as int) =~= Seq::<char>::empty());
                assert(a@ =~= b@);
            }
            return Ordering::Equal;
        }
        if i == alen {
            proof {
                assert(a@.skip(i as int) =~= Seq::<char>::empty());
                assert(b@.skip(i as int).len() > 0);
            }
            return Ordering::Less;
        }
        if i == blen {
            proof {
                assert(b@.skip(i as int) =~= Seq::<char>::empty());
                assert(a@.skip(i as int).len() > 0);
            }
            return Ordering::Greater;
        }
        let ca = a.get_char(i);
        let cb = b.get_char(i);
        if ca != cb {
            proof {
                assert(a@.skip(i as int)[0] == a@[i as int]);
                assert(b@.skip(i as int)[0] == b@[i as int]);
                vstd::utf8::char_u32_cast(ca, ca as u32);
                vstd::utf8::char_u32_cast(cb, cb as u32);
            }
            if (ca as u32) < (cb as u32) {
                return Ordering::Less;
            } else {
                return Ordering::Greater;
            }
        }
        proof {
            assert(a@.skip(i as int)[0] == a@[i as int]);
            assert(b@.skip(i as int)[0] == b@[i as int]);
            assert(a@.skip(i as int).drop_first() =~= a@.skip(i + 1 as int));
            assert(b@.skip(i as int).drop_first() =~= b@.skip(i + 1 as int));
        }
        i = i + 1;
    }
}

/// Compares two identifiers in the identifier order.
fn cmp_id(a: &Identifier, b: &Identifier) -> (r: Ordering)
    ensures
        (r == Ordering::Less) == id_lt(a@, b@),
        (r == Ordering::Greater) == id_lt(b@, a@),
        (r == Ordering::Equal) == (a@ == b@),
{
    match (a, b) {
        (Identifier::Number(x), Identifier::Number(y)) => {
            if *x < *y {
                Ordering::Less
            } else if *y < *x {
                Ordering::Greater
            } else {
                Ordering::Equal
            }
        },
        (Identifier::Number(_), Identifier::Alpha(_)) => Ordering::Less,
        (Identifier::Alpha(_), Identifier::Number(_)) => Ordering::Greater,
        (Identifier::Alpha(x), Identifier::Alpha(y)) => cmp_chars(x.as_str(), y.as_str()),
    }
}

/// Compares two identifier lists in the lexicographic list order.
fn cmp_ids(a: &Vec<Identifier>, b: &Vec<Identifier>) -> (r: Ordering)
    ensures
        (r == Ordering::Less) == ids_lt(
            a@.map_values(|id: Identifier| id@),
            b@.map_values(|id: Identifier| id@),
        ),
        (r == Ordering::Greater) == ids_lt(
            b@.map_values(|id: Identifier| id@),
            a@.map_values(|id: Identifier| id@),
        ),
        (r == Ordering::Equal) == (a@.map_values(|id: Identifier| id@) == b@.map_values(
            |id: Identifier| id@,
        )),
{
    let ghost am = a@.map_values(|id: Identifier| id@);
    let ghost bm = b@.map_values(|id: Identifier| id@);
    let alen = a.len();
    let blen = b.len();
    let mut i: usize = 0;
    proof {
        assert(am.skip(0) =~= am);
        assert(bm.skip(0) =~= bm);
    }
    loop
        invariant
            i <= alen,
            i <= blen,
            alen == am.len(),
            blen == bm.len(),
            am == a@.map_values(|id: Identifier| id@),
            bm == b@.map_values(|id: Identifier| id@),
            forall|k: int| 0 <= k < i ==> am[k] == bm[k],
            ids_lt(am, bm) == ids_lt(am.skip(i as int), bm.skip(i as int)),
            ids_lt(bm, am) == ids_lt(bm.skip(i as int), am.skip(i as int)),
        decreases alen - i,
    {
        if i == alen && i == blen {
            proof {
                assert(am.skip(i as int) =~= Seq::<IdModel>::empty());
                assert(bm.skip(i as int) =~= Seq::<IdModel>::empty());
                assert(am =~= bm);
            }
            return Ordering::Equal;
        }
        if i == alen {
            proof {
                assert(am.skip(i as int) =~= Seq::<IdModel>::empty());
                assert(bm.skip(i as int).len() > 0);
            }
            return Ordering::Less;
        }
        if i == blen {
            proof {
                assert(bm.skip(i as int) =~= Seq::<IdModel>::empty());
                assert(am.skip(i as int).len() > 0);
            }
            return Ordering::Greater;
        }
        let c = cmp_id(&a[i], &b[i]);
        proof {
            assert(am.skip(i as int)[0] == am[i as int]);
            assert(bm.skip(i as int)[0] == bm[i as int]);
            lemma_id_order(am[i as int], bm[i as int]);
        }
        match c {
            Ordering::Less => {
                return Ordering::Less;
            },
            Ordering::Greater => {
                return Ordering::Greater;
            },
            Ordering::Equal => {
                proof {
                    assert(am.skip(i as int).drop_first() =~= am.skip(i + 1 as int));
                    assert(bm.skip(i as int).drop_first() =~= bm.skip(i + 1 as int));
                }
                i = i + 1;
            },
        }
    }
}

/// Compares two versions in the version order: build metadata is ignored.
pub(crate) fn cmp_versions(a: &Version, b: &Version) -> (r: Ordering)
    ensures
        (r == Ordering::Less) == version_lt(a@, b@),
        (r == Ordering::Greater) == version_lt(b@, a@),
        (r == Ordering::Equal) == version_eq(a@, b@),
{
    if a.major != b.major {
        if a.major < b.major {
            Ordering::Less
        } else {
            Ordering::Greater
        }
    } else if a.minor != b.minor {
        if a.minor < b.minor {
            Ordering::Less
        } else {
            Ordering::Greater
        }
    } else if a.patch != b.patch {
        if a.patch < b.patch {
            Ordering::Less
        } else {
            Ordering::Greater
        }
    } else if a.pre.len() == 0 && b.pre.len() == 0 {
        proof {
            assert(a@.pre =~= b@.pre);
        }
        Ordering::Equal
    } else if a.pre.len() == 0 {
        Ordering::Greater
    } else if b.pre.len() == 0 {
        Ordering::Less
    } else {
        let c = cmp_ids(&a.pre, &b.pre);
        c
    }
}

impl PartialEq for Identifier {
    /// Structural equality within a variant; a numeric identifier never
    /// equals an alphanumeric one.
    fn eq(&self, other: &Identifier) -> (r: bool) {
        match cmp_id(self, other) {
            Ordering::Equal => true,
            _ => false,
        }
    }
}

impl Eq for Identifier {

}

impl vstd::std_specs::cmp::PartialEqSpecImpl for Identifier {
    open spec fn obeys_eq_spec() -> bool {
        true
    }

    open spec fn eq_spec(&self, other: &Identifier) -> bool {
        self@ == other@
    }
}

impl PartialOrd for Identifier {
    /// The identifier order as a standard comparison.
    fn partial_cmp(&self, other: &Identifier) -> (r: Option<Ordering>) {
        proof {
            lemma_id_order(self@, other@);
        }
        Some(cmp_id(self, other))
    }
}

impl vstd::std_specs::cmp::PartialOrdSpecImpl for Identifier {
    open spec fn obeys_partial_cmp_spec() -> bool {
        true
    }

    open spec fn partial_cmp_spec(&self, other: &Identifier) -> Option<Ordering> {
        Some(id_cmp(self@, other@))
    }
}

impl PartialEq for Version {
    /// Version equality: the numeric fields and the pre-release list;
    /// build metadata is ignored entirely.
    fn eq(&self, other: &Version) -> (r: bool) {
        match cmp_versions(self, other) {
            Ordering::Equal => true,
            _ => false,
        }
    }
}

impl Eq for Version {

}

impl vstd::std_specs::cmp::PartialEqSpecImpl for Version {
    open spec fn obeys_eq_spec() -> bool {
        true
    }

    open spec fn eq_spec(&self, other: &Version) -> bool {
        version_eq(self@, other@)
    }
}

impl PartialOrd for Version {
    /// The version order as a standard comparison.
    fn partial_cmp(&self, other: &Version) -> (r: Option<Ordering>) {
        proof {
            lemma_version_order(self@, other@);
        }
        Some(cmp_versions(self, other))
    }
}

impl vstd::std_specs::cmp::PartialOrdSpecImpl for Version {
    open spec fn obeys_partial_cmp_spec() -> bool {
        true
    }

    open spec fn partial_cmp_spec(&self, other: &Version) -> Option<Ordering> {
        Some(version_cmp(self@, other@))
    }
}

/// The digit character of a value below ten.
pub open spec fn digit_char_of(d: nat) -> char {
    if d == 0 {
        '0'
    } else if d == 1 {
        '1'
    } else if d == 2 {
        '2'
    } else if d == 3 {
        '3'
    } else if d == 4 {
        '4'
    } else if d == 5 {
        '5'
    } else if d == 6 {
        '6'
    } else if d == 7 {
        '7'
    } else if d == 8 {
        '8'
    } else {
        '9'
    }
}

/// The decimal text of a number, most significant digit first, with no
/// leading zeros.
pub open spec fn dec_text(n: nat) -> Seq<char>
    decreases n,
{
    if n < 10 {
        seq![digit_char_of(n)]
    } else {
        dec_text(n / 10) + seq![digit_char_of(n % 10)]
    }
}

/// The text of one identifier: decimal digits for a numeric identifier,
/// the stored text verbatim for an alphanumeric one.
pub open spec fn id_text(id: IdModel) -> Seq<char> {
    match id {
        IdModel::Num(n) => dec_text(n as nat),
        IdModel::Alpha(s) => s,
    }
}

/// The dot-joined text of an identifier list.
pub open spec fn ids_text(ids: Seq<IdModel>) -> Seq<char>
    decreases ids.len(),
{
    if ids.len() == 0 {
        Seq::empty()
    } else if ids.len() == 1 {
        id_text(ids[0])
    } else {
        id_text(ids[0]) + seq!['.'] + ids_text(ids.drop_first())
    }
}

/// The canonical text of a version: the dotted numeric triple, `-` and
/// the pre-release list when present, `+` and the build list when
/// present.
pub open spec fn version_text(v: VersionModel) -> Seq<char> {
    dec_text(v.major as nat) + seq!['.'] + dec_text(v.minor as nat) + seq!['.'] + dec_text(
        v.patch as nat,
    ) + (if v.pre.len() > 0 {
        seq!['-'] + ids_text(v.pre)
    } else {
        Seq::<char>::empty()
    }) + (if v.build.len() > 0 {
        seq!['+'] + ids_text(v.build)
    } else {
        Seq::<char>::empty()
    })
}

/// The one-character text of a digit value.
fn digit_str(d: u64) -> (r: &'static str)
    requires
        d < 10,
    ensures
        r@ == seq![digit_char_of(d as nat)],
{
    if d == 0 {
        proof {
            reveal_strlit("0");
            assert(("0")@ =~= seq!['0']);
        }
        "0"
    } else if d == 1 {
        proof {
            reveal_strlit("1");
            assert(("1")@ =~= seq!['1']);
        }
        "1"
    } else if d == 2 {
        proof {
            reveal_strlit("2");
            assert(("2")@ =~= seq!['2']);
        }
        "2"
    } else if d == 3 {
        proof {
            reveal_strlit("3");
            assert(("3")@ =~= seq!['3']);
        }
        "3"
    } else if d == 4 {
        proof {
            reveal_strlit("4");
            assert(("4")@ =~= seq!['4']);
        }
        "4"
    } else if d == 5 {
        proof {
            reveal_strlit("5");
            assert(("5")@ =~= seq!['5']);
        }
        "5"
    } else if d == 6 {
        proof {
            reveal_strlit("6");
            assert(("6")@ =~= seq!['6']);
        }
        "6"
    } else if d == 7 {
        proof {
            reveal_strlit("7");
            assert(("7")@ =~= seq!['7']);
        }
        "7"
    } else if d == 8 {
        proof {
            reveal_strlit("8");
            assert(("8")@ =~= seq!['8']);
        }
        "8"
    } else {
        proof {
            reveal_strlit("9");
            assert(("9")@ =~= seq!['9']);
        }
        "9"
    }
}

/// Appends the decimal text of a value.
fn push_dec(out: &mut String, n: u64)
    ensures
        final(out)@ == old(out)@ + dec_text(n as nat),
    decreases n,
{
    if n < 10 {
        out.append(digit_str(n));
    } else {
        push_dec(out, n / 10);
        out.append(digit_str(n % 10));
        proof {
            assert((old(out)@ + dec_text((n / 10) as nat)) + seq![digit_char_of((n % 10) as nat)]
                =~= old(out)@ + dec_text(n as nat));
        }
    }
}

/// Appends the text of one identifier.
fn push_id(out: &mut String, id: &Identifier)
    ensures
        final(out)@ == old(out)@ + id_text(id@),
{
    match id {
        Identifier::Number(n) => push_dec(out, *n),
        Identifier::Alpha(s) => out.append(s.as_str()),
    }
}

/// Appends the dot-joined text of the identifiers from `from` on.
fn push_ids(out: &mut String, ids: &Vec<Identifier>, from: usize)
    requires
        from <= ids@.len(),
    ensures
        final(out)@ == old(out)@ + ids_text(
            ids@.map_values(|id: Identifier| id@).skip(from as int),
        ),
    decreases ids@.len() - from,
{
    let ghost m = ids@.map_values(|id: Identifier| id@);
    if from == ids.len() {
        proof {
            assert(m.skip(from as int) =~= Seq::<IdModel>::empty());
            assert(old(out)@ + ids_text(m.skip(from as int)) =~= old(out)@);
        }
    } else {
        push_id(out, &ids[from]);
        if from + 1 == ids.len() {
            proof {
                assert(m.skip(from as int) =~= seq![m[from as int]]);
            }
        } else {
            out.append(".");
            let ghost mid = out@;
            push_ids(out, ids, from + 1);
            proof {
                reveal_strlit(".");
                assert((".")@ =~= seq!['.']);
                assert(m.skip(from as int).drop_first() =~= m.skip(from + 1));
                assert(m.skip(from as int)[0] == m[from as int]);
                assert(((old(out)@ + id_text(m[from as int])) + seq!['.']) + ids_text(
                    m.skip(from + 1),
                ) =~= old(out)@ + ids_text(m.skip(from as int)));
            }
        }
    }
}

impl Identifier {
    /// The identifier's text: decimal digits for a numeric identifier,
    /// the stored text verbatim for an alphanumeric one.
    pub fn display(&self) -> (r: String)
        ensures
            r@ == id_text(self@),
    {
        let mut out = String::new();
        push_id(&mut out, self);
        proof {
            assert(Seq::<char>::empty() + id_text(self@) =~= id_text(self@));
        }
        out
    }
}

impl Clone for Identifier {
    /// A clone has the same model.
    fn clone(&self) -> (r: Identifier)
        ensures
            r@ == self@,
    {
        match self {
            Identifier::Number(n) => Identifier::Number(*n),
            Identifier::Alpha(s) => Identifier::Alpha(s.clone()),
        }
    }
}

/// Clones every identifier of a list.
fn clone_ids(ids: &Vec<Identifier>) -> (r: Vec<Identifier>)
    ensures
        r@.map_values(|id: Identifier| id@) == ids@.map_values(|id: Identifier| id@),
{
    let mut r: Vec<Identifier> = Vec::new();
    let mut i: usize = 0;
    while i < ids.len()
        invariant
            i <= ids@.len(),
            r@.len() == i,
            forall|k: int| 0 <= k < i ==> r@[k]@ == ids@[k]@,
        decreases ids@.len() - i,
    {
        r.push(ids[i].clone());
        i = i + 1;
    }
    proof {
        assert(r@.map_values(|id: Identifier| id@) =~= ids@.map_values(|id: Identifier| id@));
    }
    r
}

impl Clone for Version {
    /// A clone has the same model.
    fn clone(&self) -> (r: Version)
        ensures
            r@ == self@,
    {
        let r = Version {
            major: self.major,
            minor: self.minor,
            patch: self.patch,
            pre: clone_ids(&self.pre),
            build: clone_ids(&self.build),
        };
        proof {
            assert(r@ =~= self@);
        }
        r
    }
}

impl Default for Version {
    /// The default version is `0.0.0` with no identifiers.
    fn default() -> (r: Version)
        ensures
            r@ == init_model(),
    {
        let r = Version {
            major: 0,
            minor: 0,
            patch: 0,
            pre: Vec::new(),
            build: Vec::new(),
        };
        proof {
            assert(r@ =~= init_model());
        }
        r
    }
}

impl Version {
    /// Creates a new version number with default values.
    pub fn new() -> (r: Version)
        ensures
            r@ == init_model(),
    {
        Default::default()
    }

    /// Removes all of the build identifiers.
    pub fn clear_build(&mut self)
        ensures
            final(self)@.major == old(self)@.major,
            final(self)@.minor == old(self)@.minor,
            final(self)@.patch == old(self)@.patch,
            final(self)@.pre == old(self)@.pre,
            final(self)@.build.len() == 0,
    {
        self.build = Vec::new();
    }

    /// Removes all of the pre-release identifiers.
    pub fn clear_pre(&mut self)
        ensures
            final(self)@.major == old(self)@.major,
            final(self)@.minor == old(self)@.minor,
            final(self)@.patch == old(self)@.patch,
            final(self)@.pre.len() == 0,
            final(self)@.build == old(self)@.build,
    {
        self.pre = Vec::new();
    }

    /// Removes all of the pre-release and build identifiers.
    pub fn clear_identifiers(&mut self)
        ensures
            final(self)@.major == old(self)@.major,
            final(self)@.minor == old(self)@.minor,
            final(self)@.patch == old(self)@.patch,
            final(self)@.pre.len() == 0,
            final(self)@.build.len() == 0,
    {
        self.clear_build();
        self.clear_pre();
    }

    /// Increments the major version number; the minor and patch numbers
    /// reset to zero and all identifiers are removed.
    pub fn increment_major(&mut self)
        requires
            old(self).major < u64::MAX,
        ensures
            final(self)@.major == old(self)@.major + 1,
            final(self)@.minor == 0,
            final(self)@.patch == 0,
            final(self)@.pre.len() == 0,
            final(self)@.build.len() == 0,
    {
        self.major = self.major + 1;
        self.minor = 0;
        self.patch = 0;
        self.pre = Vec::new();
        self.build = Vec::new();
    }

    /// Increments the minor version number; the patch number resets to zero
    /// and all identifiers are removed.  The major number is untouched.
    pub fn increment_minor(&mut self)
        requires
            old(self).minor < u64::MAX,
        ensures
            final(self)@.major == old(self)@.major,
            final(self)@.minor == old(self)@.minor + 1,
            final(self)@.patch == 0,
            final(self)@.pre.len() == 0,
            final(self)@.build.len() == 0,
    {
        self.minor = self.minor + 1;
        self.patch = 0;
        self.pre = Vec::new();
        self.build = Vec::new();
    }

    /// Increments the patch version number; all identifiers are removed.
    /// The major and minor numbers are untouched.
    pub fn increment_patch(&mut self)
        requires
            old(self).patch < u64::MAX,
        ensures
            final(self)@.major == old(self)@.major,
            final(self)@.minor == old(self)@.minor,
            final(self)@.patch == old(self)@.patch + 1,
            final(self)@.pre.len() == 0,
            final(self)@.build.len() == 0,
    {
        self.patch = self.patch + 1;
        self.pre = Vec::new();
        self.build = Vec::new();
    }

    /// The version's canonical text: `major.minor.patch`, `-` and the
    /// dot-joined pre-release identifiers when present, `+` and the
    /// dot-joined build identifiers when present.
    pub fn display(&self) -> (r: String)
        ensures
            r@ == version_text(self@),
    {
        let mut out = String::new();
        push_dec(&mut out, self.major);
        out.append(".");
        push_dec(&mut out, self.minor);
        out.append(".");
        push_dec(&mut out, self.patch);
        proof {
            reveal_strlit(".");
            assert((".")@ =~= seq!['.']);
        }
        let ghost triple = dec_text(self@.major as nat) + seq!['.'] + dec_text(
            self@.minor as nat,
        ) + seq!['.'] + dec_text(self@.patch as nat);
        proof {
            assert(out@ =~= triple);
        }
        if self.pre.len() > 0 {
            out.append("-");
            push_ids(&mut out, &self.pre, 0);
            proof {
                reveal_strlit("-");
                assert(("-")@ =~= seq!['-']);
                assert(self@.pre.skip(0) =~= self@.pre);
                assert(out@ =~= triple + (seq!['-'] + ids_text(self@.pre)));
            }
        }
        let ghost with_pre = triple + (if self@.pre.len() > 0 {
            seq!['-'] + ids_text(self@.pre)
        } else {
            Seq::<char>::empty()
        });
        proof {
            assert(out@ =~= with_pre);
        }
        if self.build.len() > 0 {
            out.append("+");
            push_ids(&mut out, &self.build, 0);
            proof {
                reveal_strlit("+");
                assert(("+")@ =~= seq!['+']);
                assert(self@.build.skip(0) =~= self@.build);
                assert(out@ =~= with_pre + (seq!['+'] + ids_text(self@.build)));
            }
        }
        proof {
            assert(out@ =~= version_text(self@));
        }
        out
    }

    /// Checks if the version number is stable: a nonzero major version
    /// number and no pre-release identifiers.  Build metadata does not
    /// affect stability.
    pub fn is_stable(&self) -> (r: bool)
        ensures
            r == (self@.major != 0 && self@.pre.len() == 0),
    {
        0 != self.major && self.pre.len() == 0
    }
}

} // verus!
