//! The version grammar: a scanner that turns text into a [`Version`].
//!
//! The grammar is `major.minor.patch`, three runs of decimal digits, then
//! an optional pre-release list introduced by `-` and an optional build
//! metadata list introduced by `+`, each a non-empty dot-separated list of
//! non-empty segments over digits, letters and hyphens.  The parse is all
//! or nothing: any unconsumed input rejects the whole text.

use crate::version::dec_text;
use crate::version::digit_char_of;
use crate::version::id_text;
use crate::version::ids_text;
use crate::version::version_text;
use crate::version::IdModel;
use crate::version::Identifier;
use crate::version::Version;
use crate::version::VersionModel;
use vstd::prelude::*;

verus! {

/// Whether a character is a decimal digit.
pub open spec fn is_digit_char(c: char) -> bool {
    48 <= c as u32 <= 57
}

/// Whether a character may appear in an identifier segment: a digit, a
/// letter, or a hyphen.
pub open spec fn is_ident_char(c: char) -> bool {
    is_digit_char(c) || 65 <= c as u32 <= 90 || 97 <= c as u32 <= 122 || c as u32 == 45
}

/// The numeric value of a digit character.
pub open spec fn char_digit(c: char) -> nat {
    if is_digit_char(c) {
        (c as u32 - 48) as nat
    } else {
        0
    }
}

/// The value of a digit sequence read in base ten.
pub open spec fn dec_value(s: Seq<char>) -> nat
    decreases s.len(),
{
    if s.len() == 0 {
        0
    } else {
        dec_value(s.drop_last()) * 10 + char_digit(s.last())
    }
}

/// Whether a sequence is non-empty and all decimal digits.
pub open spec fn is_digits(s: Seq<char>) -> bool {
    s.len() > 0 && forall|k: int| 0 <= k < s.len() ==> is_digit_char(#[trigger] s[k])
}

/// How a segment is classified: numeric when it is all digits and its
/// value fits in 64 bits, alphanumeric otherwise (the raw text is kept).
pub open spec fn classify(s: Seq<char>) -> IdModel {
    if is_digits(s) && dec_value(s) <= u64::MAX {
        IdModel::Num(dec_value(s) as u64)
    } else {
        IdModel::Alpha(s)
    }
}

/// The end of the run of decimal digits that starts at `i`: the first
/// position at or after `i` that is past the end or not a digit.
pub open spec fn digit_run(s: Seq<char>, i: int) -> int
    decreases s.len() - i,
{
    if i < s.len() && is_digit_char(s[i]) {
        digit_run(s, i + 1)
    } else {
        i
    }
}

/// The end of the run of identifier characters that starts at `i`.
pub open spec fn ident_run(s: Seq<char>, i: int) -> int
    decreases s.len() - i,
{
    if i < s.len() && is_ident_char(s[i]) {
        ident_run(s, i + 1)
    } else {
        i
    }
}

/// What bounds a digit run and what its characters are.
pub proof fn lemma_digit_run(s: Seq<char>, i: int)
    ensures
        i <= digit_run(s, i),
        i <= s.len() ==> digit_run(s, i) <= s.len(),
        forall|k: int| i <= k < digit_run(s, i) ==> is_digit_char(#[trigger] s[k]),
        i <= digit_run(s, i) < s.len() ==> !is_digit_char(s[digit_run(s, i)]),
    decreases s.len() - i,
{
    if i < s.len() && is_digit_char(s[i]) {
        lemma_digit_run(s, i + 1);
    }
}

/// What bounds an identifier run and what its characters are.
pub proof fn lemma_ident_run(s: Seq<char>, i: int)
    ensures
        i <= ident_run(s, i),
        i <= s.len() ==> ident_run(s, i) <= s.len(),
        forall|k: int| i <= k < ident_run(s, i) ==> is_ident_char(#[trigger] s[k]),
        i <= ident_run(s, i) < s.len() ==> !is_ident_char(s[ident_run(s, i)]),
    decreases s.len() - i,
{
    if i < s.len() && is_ident_char(s[i]) {
        lemma_ident_run(s, i + 1);
    }
}

/// The identifier list that starts at position `i`: segments of identifier
/// characters separated by dots, each classified, ending at the end of the
/// text or just before a `+`.  `None` when a segment is empty or an
/// illegal character is hit; otherwise the list and its end position.
pub open spec fn ids_at(s: Seq<char>, i: int) -> Option<(Seq<IdModel>, int)>
    decreases s.len() - i,
    via ids_at_decreases
{
    let e = ident_run(s, i);
    if e <= i {
        None
    } else if e == s.len() || s[e] == '+' {
        Some((seq![classify(s.subrange(i, e))], e))
    } else if s[e] == '.' {
        match ids_at(s, e + 1) {
            None => None,
            Some(p) => Some((seq![classify(s.subrange(i, e))] + p.0, p.1)),
        }
    } else {
        None
    }
}

#[via_fn]
proof fn ids_at_decreases(s: Seq<char>, i: int) {
    lemma_ident_run(s, i);
}

/// The optional pre-release and build parts that start at position `i`:
/// nothing, `-` and a list, `+` and a list, or both in that order, ending
/// exactly at the end of the text.  `None` when the text is rejected;
/// otherwise the two lists, empty when absent.
pub open spec fn ext_at(s: Seq<char>, i: int) -> Option<(Seq<IdModel>, Seq<IdModel>)> {
    if i == s.len() {
        Some((Seq::empty(), Seq::empty()))
    } else if s[i] == '-' {
        match ids_at(s, i + 1) {
            None => None,
            Some(pre) => {
                if pre.1 == s.len() {
                    Some((pre.0, Seq::empty()))
                } else {
                    // the pre-release list stopped just before a `+`
                    match ids_at(s, pre.1 + 1) {
                        None => None,
                        Some(build) => {
                            if build.1 == s.len() {
                                Some((pre.0, build.0))
                            } else {
                                None
                            }
                        },
                    }
                }
            },
        }
    } else if s[i] == '+' {
        match ids_at(s, i + 1) {
            None => None,
            Some(build) => {
                if build.1 == s.len() {
                    Some((Seq::empty(), build.0))
                } else {
                    None
                }
            },
        }
    } else {
        None
    }
}

/// What a version text means: the three digit runs with their values, and
/// the extension lists, or `None` when the grammar rejects the text.
pub open spec fn spec_parse(s: Seq<char>) -> Option<VersionModel> {
    let e1 = digit_run(s, 0);
    let b2 = e1 + 1;
    let e2 = digit_run(s, b2);
    let b3 = e2 + 1;
    let e3 = digit_run(s, b3);
    if e1 <= 0 || dec_value(s.subrange(0, e1)) > u64::MAX || !(e1 < s.len() && s[e1] == '.') {
        None
    } else if e2 <= b2 || dec_value(s.subrange(b2, e2)) > u64::MAX || !(e2 < s.len() && s[e2]
        == '.') {
        None
    } else if e3 <= b3 || dec_value(s.subrange(b3, e3)) > u64::MAX {
        None
    } else {
        match ext_at(s, e3) {
            None => None,
            Some(ext) => Some(
                VersionModel {
                    major: dec_value(s.subrange(0, e1)) as u64,
                    minor: dec_value(s.subrange(b2, e2)) as u64,
                    patch: dec_value(s.subrange(b3, e3)) as u64,
                    pre: ext.0,
                    build: ext.1,
                },
            ),
        }
    }
}

/// Checks if a given byte is part of a valid identifier: a decimal digit,
/// a letter, or a hyphen.
pub fn is_id_char(c: u8) -> (r: bool)
    ensures
        r == (48 <= c <= 57 || 65 <= c <= 90 || 97 <= c <= 122 || c == 45),
{
    (c >= 48 && c <= 57) || (c >= 65 && c <= 90) || (c >= 97 && c <= 122) || c == 45
}

/// Checks if a character is a decimal digit.
fn digit_char_exec(c: char) -> (r: bool)
    ensures
        r == is_digit_char(c),
{
    let u = c as u32;
    u >= 48 && u <= 57
}

/// Checks if a character may appear in an identifier segment.
fn ident_char_exec(c: char) -> (r: bool)
    ensures
        r == is_ident_char(c),
{
    let u = c as u32;
    (u >= 48 && u <= 57) || (u >= 65 && u <= 90) || (u >= 97 && u <= 122) || u == 45
}

/// The characters of a piece of text, one by one.
fn chars_of(s: &str) -> (r: Vec<char>)
    ensures
        r@ == s@,
{
    let n = s.unicode_len();
    let mut r: Vec<char> = Vec::new();
    let mut i: usize = 0;
    while i < n
        invariant
            i <= n,
            n == s@.len(),
            r@.len() == i,
            forall|k: int| 0 <= k < i ==> r@[k] == s@[k],
        decreases n - i,
    {
        r.push(s.get_char(i));
        i = i + 1;
    }
    proof {
        assert(r@ =~= s@);
    }
    r
}

/// Walks to the end of the digit run that starts at `from`.
fn run_digits(cs: &Vec<char>, from: usize) -> (r: usize)
    requires
        from <= cs@.len(),
    ensures
        r == digit_run(cs@, from as int),
        from <= r <= cs@.len(),
{
    let mut j = from;
    while j < cs.len() && digit_char_exec(cs[j])
        invariant
            from <= j <= cs@.len(),
            digit_run(cs@, from as int) == digit_run(cs@, j as int),
        decreases cs@.len() - j,
    {
        j = j + 1;
    }
    proof {
        lemma_digit_run(cs@, from as int);
    }
    j
}

/// Walks to the end of the identifier-character run that starts at `from`.
fn run_idents(cs: &Vec<char>, from: usize) -> (r: usize)
    requires
        from <= cs@.len(),
    ensures
        r == ident_run(cs@, from as int),
        from <= r <= cs@.len(),
{
    let mut j = from;
    while j < cs.len() && ident_char_exec(cs[j])
        invariant
            from <= j <= cs@.len(),
            ident_run(cs@, from as int) == ident_run(cs@, j as int),
        decreases cs@.len() - j,
    {
        j = j + 1;
    }
    proof {
        lemma_ident_run(cs@, from as int);
    }
    j
}

/// A prefix of a text never exceeds the whole text's base-ten value.
proof fn lemma_dec_value_prefix(s: Seq<char>, k: int)
    requires
        0 <= k <= s.len(),
    ensures
        dec_value(s.take(k)) <= dec_value(s),
    decreases s.len(),
{
    if k == s.len() {
        assert(s.take(k) =~= s);
    } else {
        lemma_dec_value_prefix(s.drop_last(), k);
        assert(s.drop_last().take(k) =~= s.take(k));
    }
}

/// Reads the digits of `cs` between `from` and `to` as a 64-bit value;
/// `None` when the value is too large.
fn dec_value_exec(cs: &Vec<char>, from: usize, to: usize) -> (r: Option<u64>)
    requires
        from <= to <= cs@.len(),
    ensures
        ({
            let v = dec_value(cs@.subrange(from as int, to as int));
            match r {
                Some(x) => x == v && v <= u64::MAX,
                None => v > u64::MAX,
            }
        }),
{
    let mut acc: u64 = 0;
    let mut j = from;
    proof {
        assert(cs@.subrange(from as int, from as int) =~= Seq::<char>::empty());
    }
    while j < to
        invariant
            from <= j <= to <= cs@.len(),
            acc == dec_value(cs@.subrange(from as int, j as int)),
        decreases to - j,
    {
        let c = cs[j];
        let u = c as u32;
        let d: u64 = if u >= 48 && u <= 57 {
            (u - 48) as u64
        } else {
            0
        };
        proof {
            assert(d == char_digit(cs@[j as int]));
            assert(cs@.subrange(from as int, j + 1).drop_last() =~= cs@.subrange(
                from as int,
                j as int,
            ));
            assert(cs@.subrange(from as int, j + 1).last() == cs@[j as int]);
        }
        let next = match acc.checked_mul(10) {
            Some(m) => m.checked_add(d),
            None => None,
        };
        match next {
            Some(v) => {
                acc = v;
            },
            None => {
                proof {
                    let whole = cs@.subrange(from as int, to as int);
                    lemma_dec_value_prefix(whole, j + 1 - from);
                    assert(whole.take(j + 1 - from) =~= cs@.subrange(from as int, j + 1));
                }
                return None;
            },
        }
        j = j + 1;
    }
    Some(acc)
}

impl Identifier {
    /// Classifies a piece of text: numeric when it is non-empty, all
    /// decimal digits, and its value fits in 64 bits; alphanumeric
    /// otherwise, keeping the text as it is.
    pub fn from(s: &str) -> (r: Identifier)
        ensures
            r@ == classify(s@),
    {
        let cs = chars_of(s);
        let n = cs.len();
        let e = run_digits(&cs, 0);
        if n > 0 && e == n {
            proof {
                lemma_digit_run(cs@, 0);
                assert(is_digits(cs@));
                assert(cs@.subrange(0, n as int) =~= cs@);
            }
            match dec_value_exec(&cs, 0, n) {
                Some(v) => Identifier::Number(v),
                None => Identifier::Alpha(s.to_owned()),
            }
        } else {
            proof {
                if n > 0 {
                    lemma_digit_run(cs@, 0);
                    assert(!is_digit_char(cs@[e as int]));
                    assert(!is_digits(cs@));
                }
            }
            Identifier::Alpha(s.to_owned())
        }
    }
}

/// Parses a collection of segments into a vector of identifiers, each
/// classified on its own.
pub fn parse_ids(identifiers: Vec<&str>) -> (r: Vec<Identifier>)
    ensures
        r@.len() == identifiers@.len(),
        forall|k: int| 0 <= k < r@.len() ==> r@[k]@ == classify(identifiers@[k]@),
{
    let mut parsed: Vec<Identifier> = Vec::new();
    let mut i: usize = 0;
    while i < identifiers.len()
        invariant
            i <= identifiers@.len(),
            parsed@.len() == i,
            forall|k: int| 0 <= k < i ==> parsed@[k]@ == classify(identifiers@[k]@),
        decreases identifiers@.len() - i,
    {
        parsed.push(Identifier::from(identifiers[i]));
        i = i + 1;
    }
    parsed
}

/// The message of a rejected parse: a fixed prefix and the offending text.
pub open spec fn err_msg(s: Seq<char>) -> Seq<char> {
    "Invalid version number: "@ + s
}

/// The rejection result, carrying the offending text.
fn parse_error(s: &str) -> (r: Result<Version, String>)
    ensures
        r matches Err(e) && e@ == err_msg(s@),
{
    let mut m = "Invalid version number: ".to_owned();
    m.append(s);
    Err(m)
}

/// Scans the identifier list that starts at `from`, segment by segment,
/// collecting classified identifiers until the end of the text or a `+`.
#[verifier::loop_isolation(false)]
fn scan_ids(s: &str, cs: &Vec<char>, from: usize) -> (r: Option<(Vec<Identifier>, usize)>)
    requires
        cs@ == s@,
        from <= cs@.len(),
    ensures
        ids_at(cs@, from as int) is None ==> r is None,
        ids_at(cs@, from as int) matches Some(q) ==> (r matches Some(p) && p.0@.map_values(
            |id: Identifier| id@,
        ) == q.0 && p.1 == q.1 && from < p.1 <= cs@.len()),
{
    let mut acc: Vec<Identifier> = Vec::new();
    let mut i = from;
    loop
        invariant
            from <= i <= cs@.len(),
            ids_at(cs@, i as int) is None ==> ids_at(cs@, from as int) is None,
            ids_at(cs@, i as int) matches Some(q) ==> ids_at(cs@, from as int) == Some(
                (acc@.map_values(|id: Identifier| id@) + q.0, q.1),
            ),
        decreases cs@.len() - i,
    {
        let e = run_idents(cs, i);
        if e == i {
            return None;
        }
        let seg = s.substring_char(i, e);
        let id = Identifier::from(seg);
        let ghost before = acc@.map_values(|id: Identifier| id@);
        let ghost cls = classify(cs@.subrange(i as int, e as int));
        acc.push(id);
        proof {
            assert(acc@.map_values(|id: Identifier| id@) =~= before + seq![cls]);
        }
        if e == cs.len() {
            proof {
                assert(ids_at(cs@, i as int) == Some((seq![cls], e as int)));
            }
            return Some((acc, e));
        }
        let c = cs[e];
        if c == '+' {
            proof {
                assert(ids_at(cs@, i as int) == Some((seq![cls], e as int)));
            }
            return Some((acc, e));
        }
        if c == '.' {
            proof {
                let cur = ids_at(cs@, e + 1);
                match cur {
                    None => {
                        assert(ids_at(cs@, i as int) is None);
                    },
                    Some(q) => {
                        assert(ids_at(cs@, i as int) == Some((seq![cls] + q.0, q.1)));
                        assert(before + (seq![cls] + q.0) =~= (before + seq![cls]) + q.0);
                    },
                }
            }
            i = e + 1;
        } else {
            return None;
        }
    }
}

/// Parses a version string in full: the three numeric fields, then the
/// optional pre-release and build metadata lists; any unconsumed input or
/// ill-formed part rejects the whole text with an error carrying it.
pub fn parse_version(s: &str) -> (r: Result<Version, String>)
    ensures
        spec_parse(s@) matches Some(m) ==> (r matches Ok(v) && v@ == m),
        spec_parse(s@) is None ==> (r matches Err(e) && e@ == err_msg(s@)),
{
    let cs = chars_of(s);
    let n = cs.len();
    let e1 = run_digits(&cs, 0);
    if e1 == 0 {
        return parse_error(s);
    }
    let major = match dec_value_exec(&cs, 0, e1) {
        Some(v) => v,
        None => {
            return parse_error(s);
        },
    };
    if e1 == n {
        return parse_error(s);
    }
    if cs[e1] != '.' {
        return parse_error(s);
    }
    let b2 = e1 + 1;
    let e2 = run_digits(&cs, b2);
    if e2 == b2 {
        return parse_error(s);
    }
    let minor = match dec_value_exec(&cs, b2, e2) {
        Some(v) => v,
        None => {
            return parse_error(s);
        },
    };
    if e2 == n {
        return parse_error(s);
    }
    if cs[e2] != '.' {
        return parse_error(s);
    }
    let b3 = e2 + 1;
    let e3 = run_digits(&cs, b3);
    if e3 == b3 {
        return parse_error(s);
    }
    let patch = match dec_value_exec(&cs, b3, e3) {
        Some(v) => v,
        None => {
            return parse_error(s);
        },
    };
    let mut pre: Vec<Identifier> = Vec::new();
    let mut build: Vec<Identifier> = Vec::new();
    if e3 == n {
    } else if cs[e3] == '-' {
        let pr = match scan_ids(s, &cs, e3 + 1) {
            Some(p) => p,
            None => {
                return parse_error(s);
            },
        };
        pre = pr.0;
        if pr.1 != n {
            let bl = match scan_ids(s, &cs, pr.1 + 1) {
                Some(b) => b,
                None => {
                    return parse_error(s);
                },
            };
            if bl.1 != n {
                return parse_error(s);
            }
            build = bl.0;
        }
    } else if cs[e3] == '+' {
        let bl = match scan_ids(s, &cs, e3 + 1) {
            Some(b) => b,
            None => {
                return parse_error(s);
            },
        };
        if bl.1 != n {
            return parse_error(s);
        }
        build = bl.0;
    } else {
        return parse_error(s);
    }
    let v = Version { major, minor, patch, pre, build };
    proof {
        if v.pre@.len() == 0 {
            assert(v@.pre =~= Seq::<IdModel>::empty());
        }
        if v.build@.len() == 0 {
            assert(v@.build =~= Seq::<IdModel>::empty());
        }
    }
    Ok(v)
}

/// Parses a leading run of decimal digits as a 64-bit value, returning
/// the value and the first unconsumed position.
pub fn number(s: &str) -> (r: Option<(u64, usize)>)
    ensures
        ({
            let e = digit_run(s@, 0);
            match r {
                Some(p) => e > 0 && dec_value(s@.subrange(0, e)) <= u64::MAX && p.0 == dec_value(
                    s@.subrange(0, e),
                ) && p.1 == e,
                None => e <= 0 || dec_value(s@.subrange(0, e)) > u64::MAX,
            }
        }),
{
    let cs = chars_of(s);
    let e = run_digits(&cs, 0);
    if e == 0 {
        return None;
    }
    match dec_value_exec(&cs, 0, e) {
        Some(v) => Some((v, e)),
        None => None,
    }
}

/// Parses a dot followed by a run of decimal digits, returning the value
/// and the first unconsumed position.
pub fn next_number(s: &str) -> (r: Option<(u64, usize)>)
    ensures
        ({
            let e = digit_run(s@, 1);
            match r {
                Some(p) => s@.len() > 0 && s@[0] == '.' && e > 1 && dec_value(s@.subrange(1, e))
                    <= u64::MAX && p.0 == dec_value(s@.subrange(1, e)) && p.1 == e,
                None => s@.len() == 0 || s@[0] != '.' || e <= 1 || dec_value(s@.subrange(1, e))
                    > u64::MAX,
            }
        }),
{
    let cs = chars_of(s);
    if cs.len() == 0 {
        return None;
    }
    if cs[0] != '.' {
        return None;
    }
    let e = run_digits(&cs, 1);
    if e == 1 {
        return None;
    }
    match dec_value_exec(&cs, 1, e) {
        Some(v) => Some((v, e)),
        None => None,
    }
}

/// Parses a dot-separated identifier list from the start of the text,
/// returning the identifiers and the first unconsumed position.
pub fn identifiers(s: &str) -> (r: Option<(Vec<Identifier>, usize)>)
    ensures
        ids_at(s@, 0) is None ==> r is None,
        ids_at(s@, 0) matches Some(q) ==> (r matches Some(p) && p.0@.map_values(
            |id: Identifier| id@,
        ) == q.0 && p.1 == q.1),
{
    let cs = chars_of(s);
    scan_ids(s, &cs, 0)
}

/// Parses a pre-release part: a hyphen followed by an identifier list.
pub fn prerelease(s: &str) -> (r: Option<(Vec<Identifier>, usize)>)
    ensures
        s@.len() == 0 || s@[0] != '-' ==> r is None,
        s@.len() > 0 && s@[0] == '-' && ids_at(s@, 1) is None ==> r is None,
        s@.len() > 0 && s@[0] == '-' ==> (ids_at(s@, 1) matches Some(q) ==> (r matches Some(p)
            && p.0@.map_values(|id: Identifier| id@) == q.0 && p.1 == q.1)),
{
    let cs = chars_of(s);
    if cs.len() == 0 {
        return None;
    }
    if cs[0] != '-' {
        return None;
    }
    scan_ids(s, &cs, 1)
}

/// Parses a build metadata part: a plus sign followed by an identifier
/// list.
pub fn build(s: &str) -> (r: Option<(Vec<Identifier>, usize)>)
    ensures
        s@.len() == 0 || s@[0] != '+' ==> r is None,
        s@.len() > 0 && s@[0] == '+' && ids_at(s@, 1) is None ==> r is None,
        s@.len() > 0 && s@[0] == '+' ==> (ids_at(s@, 1) matches Some(q) ==> (r matches Some(p)
            && p.0@.map_values(|id: Identifier| id@) == q.0 && p.1 == q.1)),
{
    let cs = chars_of(s);
    if cs.len() == 0 {
        return None;
    }
    if cs[0] != '+' {
        return None;
    }
    scan_ids(s, &cs, 1)
}

/// Parses the optional pre-release and build metadata parts, in that
/// order, to the end of the text; an absent part is `None`.
pub fn extensions(s: &str) -> (r: Option<(Option<Vec<Identifier>>, Option<Vec<Identifier>>)>)
    ensures
        ext_at(s@, 0) is None ==> r is None,
        ext_at(s@, 0) matches Some(q) ==> (r matches Some(p) && ({
            &&& (match p.0 {
                Some(v) => v@.map_values(|id: Identifier| id@) == q.0 && q.0.len() > 0,
                None => q.0.len() == 0,
            })
            &&& (match p.1 {
                Some(v) => v@.map_values(|id: Identifier| id@) == q.1 && q.1.len() > 0,
                None => q.1.len() == 0,
            })
        })),
{
    let cs = chars_of(s);
    let n = cs.len();
    if n == 0 {
        return Some((None, None));
    }
    if cs[0] == '-' {
        let pr = match scan_ids(s, &cs, 1) {
            Some(p) => p,
            None => {
                return None;
            },
        };
        if pr.1 == n {
            return Some((Some(pr.0), None));
        }
        let bl = match scan_ids(s, &cs, pr.1 + 1) {
            Some(b) => b,
            None => {
                return None;
            },
        };
        if bl.1 == n {
            Some((Some(pr.0), Some(bl.0)))
        } else {
            None
        }
    } else if cs[0] == '+' {
        let bl = match scan_ids(s, &cs, 1) {
            Some(b) => b,
            None => {
                return None;
            },
        };
        if bl.1 == n {
            Some((None, Some(bl.0)))
        } else {
            None
        }
    } else {
        None
    }
}

/// A well-formed identifier: an alphanumeric identifier is non-empty,
/// uses only identifier characters, and is not a text that the parser
/// would classify as numeric.  (A numeric identifier is always well
/// formed.)
pub open spec fn id_wf(id: IdModel) -> bool {
    match id {
        IdModel::Num(_) => true,
        IdModel::Alpha(s) => s.len() > 0 && (forall|k: int|
            0 <= k < s.len() ==> is_ident_char(#[trigger] s[k])) && !(is_digits(s) && dec_value(s)
            <= u64::MAX),
    }
}

/// A well-formed version: every pre-release and build identifier is well
/// formed.
pub open spec fn version_wf(v: VersionModel) -> bool {
    (forall|k: int| 0 <= k < v.pre.len() ==> id_wf(#[trigger] v.pre[k])) && (forall|k: int|
        0 <= k < v.build.len() ==> id_wf(#[trigger] v.build[k]))
}

/// The decimal text of a value is all digits and reads back to the value.
proof fn lemma_dec_text(n: nat)
    ensures
        dec_text(n).len() >= 1,
        is_digits(dec_text(n)),
        dec_value(dec_text(n)) == n,
    decreases n,
{
    if n < 10 {
        let x = dec_text(n);
        assert(x == seq![digit_char_of(n)]);
        assert(x.drop_last() =~= Seq::<char>::empty());
        assert(x.last() == digit_char_of(n));
        assert(char_digit(digit_char_of(n)) == n);
        assert(dec_value(Seq::<char>::empty()) == 0);
        assert(dec_value(x) == dec_value(x.drop_last()) * 10 + char_digit(x.last()));
    } else {
        lemma_dec_text(n / 10);
        let x = dec_text(n);
        assert(x == dec_text(n / 10) + seq![digit_char_of(n % 10)]);
        assert(x.drop_last() =~= dec_text(n / 10));
        assert(x.last() == digit_char_of(n % 10));
        assert(char_digit(digit_char_of((n % 10) as nat)) == n % 10);
        assert(dec_value(x) == dec_value(x.drop_last()) * 10 + char_digit(x.last()));
        assert(dec_value(x) == (n / 10) * 10 + (n % 10));
        vstd::arithmetic::div_mod::lemma_fundamental_div_mod(n as int, 10);
        assert(n == 10 * (n / 10) + (n % 10));
    }
}

/// A digit run ends exactly where the digits end.
proof fn lemma_digit_run_exact(s: Seq<char>, i: int, j: int)
    requires
        0 <= i <= j <= s.len(),
        forall|k: int| i <= k < j ==> is_digit_char(#[trigger] s[k]),
        j == s.len() || !is_digit_char(s[j]),
    ensures
        digit_run(s, i) == j,
    decreases j - i,
{
    if i < j {
        lemma_digit_run_exact(s, i + 1, j);
    }
}

/// An identifier run ends exactly where the identifier characters end.
proof fn lemma_ident_run_exact(s: Seq<char>, i: int, j: int)
    requires
        0 <= i <= j <= s.len(),
        forall|k: int| i <= k < j ==> is_ident_char(#[trigger] s[k]),
        j == s.len() || !is_ident_char(s[j]),
    ensures
        ident_run(s, i) == j,
    decreases j - i,
{
    if i < j {
        lemma_ident_run_exact(s, i + 1, j);
    }
}

/// The text of a well-formed identifier is non-empty, uses only
/// identifier characters, and classifies back to the identifier.
proof fn lemma_id_text(id: IdModel)
    requires
        id_wf(id),
    ensures
        id_text(id).len() >= 1,
        forall|k: int| 0 <= k < id_text(id).len() ==> is_ident_char(#[trigger] id_text(id)[k]),
        classify(id_text(id)) == id,
{
    match id {
        IdModel::Num(n) => {
            lemma_dec_text(n as nat);
        },
        IdModel::Alpha(s) => {
        },
    }
}

/// Scanning the rendered text of a well-formed identifier list, the
/// scanner reads back exactly the list, ending at the end of the text or
/// at a `+`.
proof fn lemma_ids_at_text(s: Seq<char>, i: int, ids: Seq<IdModel>)
    requires
        0 <= i,
        i + ids_text(ids).len() <= s.len(),
        ids.len() > 0,
        forall|k: int| 0 <= k < ids.len() ==> id_wf(#[trigger] ids[k]),
        s.subrange(i, i + ids_text(ids).len()) == ids_text(ids),
        i + ids_text(ids).len() == s.len() || s[i + ids_text(ids).len()] == '+',
    ensures
        ids_at(s, i) == Some((ids, i + ids_text(ids).len())),
    decreases ids.len(),
{
    let t = ids_text(ids);
    let t0 = id_text(ids[0]);
    lemma_id_text(ids[0]);
    assert(forall|k: int| 0 <= k < t.len() ==> s[i + k] == #[trigger] t[k]) by {
        assert(forall|k: int|
            0 <= k < t.len() ==> s.subrange(i, i + t.len())[k] == #[trigger] t[k]);
    }
    if ids.len() == 1 {
        // the whole list is one segment
        assert(forall|k: int| i <= k < i + t0.len() ==> is_ident_char(#[trigger] s[k])) by {
            assert(forall|k: int| i <= k < i + t0.len() ==> s[k] == t[k - i]);
        }
        lemma_ident_run_exact(s, i, i + t0.len());
        assert(s.subrange(i, i + t0.len()) =~= t0);
        assert(seq![ids[0]] =~= ids);
    } else {
        let rest = ids.drop_first();
        let tr = ids_text(rest);
        // the list's text is the first segment, a dot, and the rest
        assert(t =~= t0 + seq!['.'] + tr);
        assert(forall|k: int| i <= k < i + t0.len() ==> is_ident_char(#[trigger] s[k])) by {
            assert(forall|k: int| i <= k < i + t0.len() ==> s[k] == t[k - i] && t[k - i] == t0[k
                - i]);
        }
        assert(t[t0.len() as int] == '.') by {
            assert(((t0 + seq!['.']) + tr)[t0.len() as int] == '.');
            assert(t =~= (t0 + seq!['.']) + tr);
        }
        assert(s[i + t0.len()] == '.');
        lemma_ident_run_exact(s, i, i + t0.len());
        assert(s.subrange(i, i + t0.len()) =~= t0);
        let j = i + t0.len() + 1;
        assert(s.subrange(j, j + tr.len()) =~= tr) by {
            assert(forall|k: int| 0 <= k < tr.len() ==> s[j + k] == t[t0.len() + 1 + k] && t[
                t0.len() + 1 + k] == tr[k]);
        }
        lemma_ids_at_text(s, j, rest);
        assert(seq![ids[0]] + rest =~= ids);
    }
}

/// The rendered extension text of well-formed lists reads back to exactly
/// those lists.
proof fn lemma_ext_text(s: Seq<char>, i: int, pre: Seq<IdModel>, build: Seq<IdModel>)
    requires
        0 <= i <= s.len(),
        forall|k: int| 0 <= k < pre.len() ==> id_wf(#[trigger] pre[k]),
        forall|k: int| 0 <= k < build.len() ==> id_wf(#[trigger] build[k]),
        s.subrange(i, s.len() as int) == (if pre.len() > 0 {
            seq!['-'] + ids_text(pre)
        } else {
            Seq::<char>::empty()
        }) + (if build.len() > 0 {
            seq!['+'] + ids_text(build)
        } else {
            Seq::<char>::empty()
        }),
    ensures
        ext_at(s, i) == Some((pre, build)),
{
    let pt = if pre.len() > 0 {
        seq!['-'] + ids_text(pre)
    } else {
        Seq::<char>::empty()
    };
    let bt = if build.len() > 0 {
        seq!['+'] + ids_text(build)
    } else {
        Seq::<char>::empty()
    };
    let t = pt + bt;
    assert(s.len() == i + t.len()) by {
        assert(s.subrange(i, s.len() as int).len() == t.len());
    }
    assert(forall|k: int| 0 <= k < t.len() ==> s[i + k] == #[trigger] t[k]) by {
        assert(forall|k: int|
            0 <= k < t.len() ==> s.subrange(i, s.len() as int)[k] == #[trigger] t[k]);
    }
    if pre.len() == 0 && build.len() == 0 {
        assert(i == s.len());
        assert(pre =~= Seq::<IdModel>::empty());
        assert(build =~= Seq::<IdModel>::empty());
    } else if pre.len() > 0 {
        let pl = ids_text(pre).len() as int;
        assert(s[i] == '-') by {
            assert(t[0] == '-');
        }
        assert(s.subrange(i + 1, i + 1 + pl) =~= ids_text(pre)) by {
            assert(forall|k: int|
                0 <= k < pl ==> s[i + 1 + k] == t[1 + k] && t[1 + k] == #[trigger] ids_text(
                    pre,
                )[k]);
        }
        if build.len() == 0 {
            assert(i + 1 + pl == s.len());
            lemma_ids_at_text(s, i + 1, pre);
            assert(build =~= Seq::<IdModel>::empty());
        } else {
            let bl = ids_text(build).len() as int;
            assert(s[i + 1 + pl] == '+') by {
                assert(t[1 + pl] == '+');
            }
            lemma_ids_at_text(s, i + 1, pre);
            let j = i + 1 + pl + 1;
            assert(s.subrange(j, j + bl) =~= ids_text(build)) by {
                assert(forall|k: int|
                    0 <= k < bl ==> s[j + k] == t[1 + pl + 1 + k] && t[1 + pl + 1 + k]
                        == #[trigger] ids_text(build)[k]);
            }
            assert(j + bl == s.len());
            lemma_ids_at_text(s, j, build);
        }
    } else {
        let bl = ids_text(build).len() as int;
        assert(s[i] == '+') by {
            assert(t[0] == '+');
        }
        assert(s.subrange(i + 1, i + 1 + bl) =~= ids_text(build)) by {
            assert(forall|k: int|
                0 <= k < bl ==> s[i + 1 + k] == t[1 + k] && t[1 + k] == #[trigger] ids_text(
                    build,
                )[k]);
        }
        assert(i + 1 + bl == s.len());
        lemma_ids_at_text(s, i + 1, build);
        assert(pre =~= Seq::<IdModel>::empty());
    }
}

/// Law: round trip — the canonical text of any well-formed version
/// parses back to exactly that version, build metadata included.
pub proof fn lemma_parse_display(v: VersionModel)
    requires
        version_wf(v),
    ensures
        spec_parse(version_text(v)) == Some(v),
{
    let s = version_text(v);
    let d1 = dec_text(v.major as nat);
    let d2 = dec_text(v.minor as nat);
    let d3 = dec_text(v.patch as nat);
    lemma_dec_text(v.major as nat);
    lemma_dec_text(v.minor as nat);
    lemma_dec_text(v.patch as nat);
    let pt = if v.pre.len() > 0 {
        seq!['-'] + ids_text(v.pre)
    } else {
        Seq::<char>::empty()
    };
    let bt = if v.build.len() > 0 {
        seq!['+'] + ids_text(v.build)
    } else {
        Seq::<char>::empty()
    };
    let e1 = d1.len() as int;
    let b2 = e1 + 1;
    let e2 = b2 + d2.len();
    let b3 = e2 + 1;
    let e3 = b3 + d3.len();
    assert(s == ((((d1 + seq!['.']) + d2) + seq!['.']) + d3) + pt + bt);
    assert(s.len() == e3 + pt.len() + bt.len());
    // the three digit regions and the separating dots
    assert(forall|k: int| 0 <= k < e1 ==> s[k] == #[trigger] d1[k]);
    assert(s[e1] == '.');
    assert(forall|k: int| 0 <= k < d2.len() ==> s[b2 + k] == #[trigger] d2[k]);
    assert(s[e2] == '.');
    assert(forall|k: int| 0 <= k < d3.len() ==> s[b3 + k] == #[trigger] d3[k]);
    assert(forall|k: int| 0 <= k < pt.len() + bt.len() ==> s[e3 + k] == #[trigger] (pt + bt)[k]);
    // the three digit runs end exactly at the dots and at the extensions
    lemma_digit_run_exact(s, 0, e1);
    lemma_digit_run_exact(s, b2, e2);
    if v.pre.len() > 0 {
        assert(s[e3] == '-') by {
            assert((pt + bt)[0] == '-');
        }
        lemma_digit_run_exact(s, b3, e3);
    } else if v.build.len() > 0 {
        assert(s[e3] == '+') by {
            assert((pt + bt)[0] == '+');
        }
        lemma_digit_run_exact(s, b3, e3);
    } else {
        assert(e3 == s.len());
        lemma_digit_run_exact(s, b3, e3);
    }
    // the numeric fields read back to their values
    assert(s.subrange(0, e1) =~= d1);
    assert(s.subrange(b2, e2) =~= d2);
    assert(s.subrange(b3, e3) =~= d3);
    // the extensions read back to the two lists
    assert(s.subrange(e3, s.len() as int) =~= pt + bt);
    lemma_ext_text(s, e3, v.pre, v.build);
    assert(spec_parse(s) == Some(v));
}

impl core::str::FromStr for Version {
    type Err = String;

    /// Parses a version string; on failure the error carries the text.
    fn from_str(s: &str) -> (r: Result<Version, String>)
        ensures
            spec_parse(s@) matches Some(m) ==> (r matches Ok(v) && v@ == m),
            spec_parse(s@) is None ==> (r matches Err(e) && e@ == err_msg(s@)),
    {
        parse_version(s)
    }
}

} // verus!
