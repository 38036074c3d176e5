//! Semantic version numbers: parsing release tags, printing, and comparing them.

use vstd::prelude::*;
use crate::text::{
    all_digits, chars_of, digit_value, digits_value, is_digit, lemma_split_append,
    lemma_split_no_sep, lemma_value_from_grows, lemma_value_from_push, split_chars, split_on,
    string_from_chars, value_from, views,
};

verus! {

/// Why a piece of text is not a valid `u32` (`std::num::IntErrorKind`).
#[derive(Debug, Clone, Copy, PartialEq, Eq, Structural)]
pub enum IntErrorKind {
    /// The text is empty.
    Empty,
    /// The text holds something other than decimal digits after an optional `+`.
    InvalidDigit,
    /// The number does not fit in a `u32`.
    PosOverflow,
}

/// A failed number parse.
#[derive(Debug, Clone, Copy, PartialEq, Eq, Structural)]
pub struct ParseIntError {
    pub kind: IntErrorKind,
}

/// Reads decimal digits left to right after the value `acc`, stopping at the first
/// character that is not a digit or that would push the value past `u32::MAX`.
pub open spec fn scan_digits(acc: nat, s: Seq<char>) -> Result<nat, IntErrorKind>
    decreases s.len(),
{
    if s.len() == 0 {
        Ok(acc)
    } else if !is_digit(s[0]) {
        Err(IntErrorKind::InvalidDigit)
    } else if acc * 10 + digit_value(s[0]) > u32::MAX {
        Err(IntErrorKind::PosOverflow)
    } else {
        scan_digits(acc * 10 + digit_value(s[0]), s.drop_first())
    }
}

/// What `u32::from_str` gives for the text `s`.
pub open spec fn spec_parse_u32(s: Seq<char>) -> Result<u32, IntErrorKind> {
    if s.len() == 0 {
        Err(IntErrorKind::Empty)
    } else {
        let digits = if s[0] == '+' { s.drop_first() } else { s };
        if digits.len() == 0 {
            Err(IntErrorKind::InvalidDigit)
        } else {
            match scan_digits(0, digits) {
                Ok(v) => Ok(v as u32),
                Err(e) => Err(e),
            }
        }
    }
}

/// Parses a decimal `u32` with an optional leading `+`.
pub fn parse_u32(s: &[char]) -> (r: Result<u32, ParseIntError>)
    ensures
        match spec_parse_u32(s@) {
            Ok(v) => r == Ok::<u32, ParseIntError>(v),
            Err(k) => r == Err::<u32, ParseIntError>(ParseIntError { kind: k }),
        },
{
    if s.len() == 0 {
        return Err(ParseIntError { kind: IntErrorKind::Empty });
    }
    let start: usize = if s[0] == '+' { 1 } else { 0 };
    let ghost digits = s@.skip(start as int);
    assert(digits =~= (if s@[0] == '+' { s@.drop_first() } else { s@ }));
    if start == s.len() {
        return Err(ParseIntError { kind: IntErrorKind::InvalidDigit });
    }
    let mut acc: u32 = 0;
    let mut i: usize = start;
    while i < s.len()
        invariant
            start <= i <= s.len(),
            digits == s@.skip(start as int),
            scan_digits(0, digits) == scan_digits(acc as nat, s@.skip(i as int)),
            spec_parse_u32(s@) == (match scan_digits(0, digits) {
                Ok(v) => Ok::<u32, IntErrorKind>(v as u32),
                Err(e) => Err(e),
            }),
        decreases s.len() - i,
    {
        let c = s[i];
        let ghost rest = s@.skip(i as int);
        assert(rest.len() > 0);
        assert(rest[0] == c);
        assert(rest.drop_first() =~= s@.skip(i + 1));
        if !('0' <= c && c <= '9') {
            assert(scan_digits(acc as nat, rest) == Err::<nat, IntErrorKind>(IntErrorKind::InvalidDigit));
            return Err(ParseIntError { kind: IntErrorKind::InvalidDigit });
        }
        let d: u32 = (c as u32) - ('0' as u32);
        assert(d as nat == digit_value(c));
        if acc > 429496729 || (acc == 429496729 && d > 5) {
            assert(scan_digits(acc as nat, rest) == Err::<nat, IntErrorKind>(IntErrorKind::PosOverflow));
            return Err(ParseIntError { kind: IntErrorKind::PosOverflow });
        }
        acc = acc * 10 + d;
        i = i + 1;
    }
    assert(s@.skip(s.len() as int) =~= Seq::<char>::empty());
    Ok(acc)
}

/// A digit-only text whose value fits in a `u32` parses to that value.
pub proof fn lemma_scan_digits_ok(acc: nat, s: Seq<char>)
    requires
        all_digits(s),
        value_from(acc, s) <= u32::MAX,
    ensures
        scan_digits(acc, s) == Ok::<nat, IntErrorKind>(value_from(acc, s)),
    decreases s.len(),
{
    if s.len() > 0 {
        assert(is_digit(s[0]));
        lemma_value_from_grows(acc * 10 + digit_value(s[0]), s.drop_first());
        assert(all_digits(s.drop_first())) by {
            assert forall|i: int| 0 <= i < s.drop_first().len() implies is_digit(
                #[trigger] s.drop_first()[i],
            ) by {
                assert(s.drop_first()[i] == s[i + 1]);
            }
        }
        lemma_scan_digits_ok(acc * 10 + digit_value(s[0]), s.drop_first());
    }
}

/// The Unicode `Alphabetic` property of a character outside ASCII, as
/// `char::is_alphabetic` reports it.
pub uninterp spec fn unicode_alphabetic(c: char) -> bool;

/// The `Alphabetic` property: the ASCII letters within ASCII, and what
/// `char::is_alphabetic` reports beyond it.
pub open spec fn is_alphabetic(c: char) -> bool {
    if c <= '\x7f' {
        ('a' <= c && c <= 'z') || ('A' <= c && c <= 'Z')
    } else {
        unicode_alphabetic(c)
    }
}

/// `char::is_alphabetic`. Within ASCII the `Alphabetic` property holds exactly for
/// the letters `a`..=`z` and `A`..=`Z`; beyond ASCII the result is left to the name
/// `unicode_alphabetic`.
#[verifier::external_body]
pub(crate) fn char_is_alphabetic(c: char) -> (r: bool)
    ensures
        c <= '\x7f' ==> (r <==> ('a' <= c && c <= 'z') || ('A' <= c && c <= 'Z')),
        c > '\x7f' ==> r == unicode_alphabetic(c),
{
    c.is_alphabetic()
}

/// The number of leading alphabetic characters of `s`.
pub open spec fn alpha_prefix_len(s: Seq<char>) -> nat
    decreases s.len(),
{
    if s.len() > 0 && is_alphabetic(s[0]) {
        1 + alpha_prefix_len(s.drop_first())
    } else {
        0
    }
}

/// `s` without its leading alphabetic characters (`trim_start_matches(char::is_alphabetic)`).
pub open spec fn strip_alpha_prefix(s: Seq<char>) -> Seq<char> {
    s.skip(alpha_prefix_len(s) as int)
}

/// The `i`th dot-separated part of a release tag, `"0"` where it is missing or empty.
pub open spec fn version_part(parts: Seq<Seq<char>>, i: int) -> Seq<char> {
    if i < parts.len() && parts[i].len() > 0 {
        parts[i]
    } else {
        seq!['0']
    }
}

/// A semver version
#[derive(Debug, Default, Clone, Copy, PartialEq, Eq, Structural, PartialOrd, Ord)]
pub struct Version {
    pub major: u32,
    pub minor: u32,
    pub patch: u32,
}

/// What `Version::parse` gives for the text `s`: leading letters are dropped
/// (`"v1.9"` reads as `"1.9"`), the first three dot-separated parts are the major,
/// minor and patch numbers, a missing or empty part counts as `0`, and further parts
/// are ignored.
pub open spec fn spec_parse_version(s: Seq<char>) -> Result<Version, IntErrorKind> {
    let parts = split_on(strip_alpha_prefix(s), '.');
    match spec_parse_u32(version_part(parts, 0)) {
        Err(e) => Err(e),
        Ok(major) => match spec_parse_u32(version_part(parts, 1)) {
            Err(e) => Err(e),
            Ok(minor) => match spec_parse_u32(version_part(parts, 2)) {
                Err(e) => Err(e),
                Ok(patch) => Ok(Version { major, minor, patch }),
            },
        },
    }
}

/// The decimal digit character for `d < 10`.
pub open spec fn digit_char(d: nat) -> char {
    (d + 48) as char
}

/// The decimal notation of `n`, without leading zeros.
pub open spec fn decimal(n: nat) -> Seq<char>
    decreases n,
{
    if n < 10 {
        seq![digit_char(n)]
    } else {
        decimal(n / 10).push(digit_char(n % 10))
    }
}

/// `"major.minor.patch"`, the text a version prints as.
pub open spec fn version_text(v: Version) -> Seq<char> {
    decimal(v.major as nat) + seq!['.'] + decimal(v.minor as nat) + seq!['.'] + decimal(
        v.patch as nat,
    )
}

/// `a` is a strictly later version than `b`, comparing major, then minor, then patch.
pub open spec fn version_newer(a: Version, b: Version) -> bool {
    a.major > b.major || (a.major == b.major && (a.minor > b.minor || (a.minor == b.minor
        && a.patch > b.patch)))
}

/// The version this crate is built as.
pub open spec fn package_version() -> Version {
    Version { major: 10, minor: 2, patch: 0 }
}

proof fn lemma_decimal_shape(n: nat)
    ensures
        decimal(n).len() >= 1,
        all_digits(decimal(n)),
        digits_value(decimal(n)) == n,
        !decimal(n).contains('.'),
    decreases n,
{
    if n < 10 {
        assert(digit_char(n) as int == n + 48);
        assert(decimal(n) =~= seq![digit_char(n)]);
        assert(decimal(n)[0] == digit_char(n));
        assert(decimal(n).drop_first() =~= Seq::<char>::empty());
        assert(value_from(0, decimal(n)) == value_from(digit_value(digit_char(n)), Seq::<char>::empty()));
        if decimal(n).contains('.') {
            let k = choose|k: int| 0 <= k < decimal(n).len() && decimal(n)[k] == '.';
            assert(k == 0);
        }
    } else {
        lemma_decimal_shape(n / 10);
        let p = decimal(n / 10);
        let c = digit_char(n % 10);
        assert(c as int == n % 10 + 48);
        lemma_value_from_push(0, p, c);
        assert(decimal(n) == p.push(c));
        assert forall|i: int| 0 <= i < p.push(c).len() implies is_digit(#[trigger] p.push(c)[i]) by {
            if i < p.len() {
                assert(p.push(c)[i] == p[i]);
            }
        }
        if p.push(c).contains('.') {
            let k = choose|k: int| 0 <= k < p.push(c).len() && p.push(c)[k] == '.';
            if k < p.len() {
                assert(p[k] == '.');
            }
        }
    }
}

proof fn lemma_parse_decimal(n: nat)
    requires
        n <= u32::MAX,
    ensures
        spec_parse_u32(decimal(n)) == Ok::<u32, IntErrorKind>(n as u32),
        decimal(n).len() > 0,
        !is_alphabetic(decimal(n)[0]),
        !decimal(n).contains('.'),
{
    lemma_decimal_shape(n);
    lemma_scan_digits_ok(0, decimal(n));
    assert(is_digit(decimal(n)[0]));
}

/// Printing a version and parsing the text back gives the same version.
pub proof fn lemma_version_text_parses_back(v: Version)
    ensures
        spec_parse_version(version_text(v)) == Ok::<Version, IntErrorKind>(v),
{
    let a = decimal(v.major as nat);
    let b = decimal(v.minor as nat);
    let c = decimal(v.patch as nat);
    lemma_parse_decimal(v.major as nat);
    lemma_parse_decimal(v.minor as nat);
    lemma_parse_decimal(v.patch as nat);
    let t = version_text(v);
    assert(t[0] == a[0]);
    assert(alpha_prefix_len(t) == 0);
    assert(strip_alpha_prefix(t) =~= t);
    lemma_split_no_sep(a, '.');
    lemma_split_append(a, b, '.');
    lemma_split_append(a + seq!['.'] + b, c, '.');
    let parts = split_on(t, '.');
    assert(parts =~= seq![a, b, c]);
    assert(version_part(parts, 0) == a);
    assert(version_part(parts, 1) == b);
    assert(version_part(parts, 2) == c);
}

/// Appends the decimal notation of `n` to `out`.
fn push_decimal(n: u32, out: &mut Vec<char>)
    ensures
        final(out)@ == old(out)@ + decimal(n as nat),
    decreases n,
{
    if n >= 10 {
        push_decimal(n / 10, out);
    }
    let d: u8 = (n % 10) as u8;
    let c: char = (48u8 + d) as char;
    assert(c == digit_char((n % 10) as nat));
    out.push(c);
    assert(old(out)@ + decimal(n as nat) =~= (if n >= 10 {
        old(out)@ + decimal((n / 10) as nat)
    } else {
        old(out)@
    }).push(c));
}

impl Version {
    /// Return the version of the cargo build
    pub fn cargo_pkg_version() -> (r: Version)
        ensures
            r == package_version(),
    {
        Version { major: 10, minor: 2, patch: 0 }
    }

    /// Parses a release tag such as `"v1.9"` or `"10.2.0"`.
    pub fn parse(s: &str) -> (r: Result<Version, ParseIntError>)
        ensures
            match spec_parse_version(s@) {
                Ok(v) => r == Ok::<Version, ParseIntError>(v),
                Err(k) => r == Err::<Version, ParseIntError>(ParseIntError { kind: k }),
            },
    {
        let mut cs = chars_of(s);
        let mut start: usize = 0;
        assert(s@.skip(0) =~= s@);
        while start < cs.len() && char_is_alphabetic(cs[start])
            invariant
                start <= cs.len(),
                cs@ == s@,
                alpha_prefix_len(s@) == start + alpha_prefix_len(s@.skip(start as int)),
            decreases cs.len() - start,
        {
            assert(s@.skip(start as int)[0] == cs@[start as int]);
            assert(s@.skip(start as int).drop_first() =~= s@.skip(start + 1));
            start = start + 1;
        }
        proof {
            if start < cs.len() {
                assert(s@.skip(start as int)[0] == cs@[start as int]);
            } else {
                assert(s@.skip(start as int) =~= Seq::<char>::empty());
            }
        }
        let rest: Vec<char> = cs.split_off(start);
        assert(rest@ == strip_alpha_prefix(s@));
        let parts = split_chars(&rest, '.');
        let ghost pv = views(parts@);
        let mut zero: Vec<char> = Vec::new();
        zero.push('0');
        assert(zero@ =~= seq!['0']);
        let major = match parse_u32(Self::part_or_zero(&parts, 0, &zero)) {
            Ok(v) => v,
            Err(e) => return Err(e),
        };
        let minor = match parse_u32(Self::part_or_zero(&parts, 1, &zero)) {
            Ok(v) => v,
            Err(e) => return Err(e),
        };
        let patch = match parse_u32(Self::part_or_zero(&parts, 2, &zero)) {
            Ok(v) => v,
            Err(e) => return Err(e),
        };
        Ok(Version { major, minor, patch })
    }

    fn part_or_zero<'a>(parts: &'a Vec<Vec<char>>, i: usize, zero: &'a Vec<char>) -> (r: &'a [char])
        requires
            zero@ == seq!['0'],
        ensures
            r@ == version_part(views(parts@), i as int),
    {
        if i < parts.len() && parts[i].len() > 0 {
            parts[i].as_slice()
        } else {
            zero.as_slice()
        }
    }

    /// The text `"major.minor.patch"`.
    pub fn to_string(&self) -> (r: String)
        ensures
            r@ == version_text(*self),
    {
        let mut out: Vec<char> = Vec::new();
        push_decimal(self.major, &mut out);
        out.push('.');
        push_decimal(self.minor, &mut out);
        out.push('.');
        push_decimal(self.patch, &mut out);
        assert(out@ =~= version_text(*self));
        string_from_chars(out.as_slice())
    }

    /// `self` is a strictly later version than `other`.
    pub fn is_newer_than(&self, other: &Version) -> (r: bool)
        ensures
            r == version_newer(*self, *other),
    {
        if self.major != other.major {
            self.major > other.major
        } else if self.minor != other.minor {
            self.minor > other.minor
        } else {
            self.patch > other.patch
        }
    }
}

/// Compares the latest release tag against the version of this build:
/// `Ok(true)` when the tag names a later version.
pub fn compare_release(tag_name: &str) -> (r: Result<bool, ParseIntError>)
    ensures
        match spec_parse_version(tag_name@) {
            Ok(latest) => r == Ok::<bool, ParseIntError>(version_newer(latest, package_version())),
            Err(k) => r == Err::<bool, ParseIntError>(ParseIntError { kind: k }),
        },
{
    let current = Version::cargo_pkg_version();
    match Version::parse(tag_name) {
        Ok(latest) => Ok(latest.is_newer_than(&current)),
        Err(e) => Err(e),
    }
}

/// Returns true if updates are available. A build without networking never
/// finds one.
pub fn check_for_updates() -> (r: bool)
    ensures
        !r,
{
    false
}

/// `version_newer` is a strict order: never both ways.
pub proof fn lemma_newer_asymmetric(a: Version, b: Version)
    ensures
        !(version_newer(a, b) && version_newer(b, a)),
{
}

/// `version_newer` is transitive.
pub proof fn lemma_newer_transitive(a: Version, b: Version, c: Version)
    requires
        version_newer(a, b),
        version_newer(b, c),
    ensures
        version_newer(a, c),
{
}

/// Any two versions are equal or one of them is newer.
pub proof fn lemma_newer_total(a: Version, b: Version)
    ensures
        a == b || version_newer(a, b) || version_newer(b, a),
{
}

} // verus!
