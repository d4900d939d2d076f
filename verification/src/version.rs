//! Semantic versions and version ranges, parsed and ordered by the `semver` crate.

use vstd::prelude::*;
use crate::text::decimal;

verus! {

#[verifier::external_type_specification]
#[verifier::external_body]
pub struct ExSemverVersion(semver::Version);

#[verifier::external_type_specification]
#[verifier::external_body]
pub struct ExSemverVersionReq(semver::VersionReq);

/// The parts of a version that this library reads: the three numbers, the
/// pre-release identifiers and the build metadata, as text.
pub struct SemVerModel {
    pub major: u64,
    pub minor: u64,
    pub patch: u64,
    pub pre: Seq<char>,
    pub build: Seq<char>,
}

/// What `semver::Version::parse` gives for a text, as its parts.
pub uninterp spec fn semver_parse(text: Seq<char>) -> Option<SemVerModel>;

/// What `Ord::cmp` of two `semver::Version`s gives: -1, 0 or 1.
pub uninterp spec fn semver_order(a: SemVerModel, b: SemVerModel) -> int;

/// Whether `semver::VersionReq::parse` accepts a text.
pub uninterp spec fn semver_req_parses(text: Seq<char>) -> bool;

/// What `semver::VersionReq::matches` gives for the requirement parsed from `req`.
pub uninterp spec fn semver_req_matches(req: Seq<char>, v: SemVerModel) -> bool;

/// A character that `semver` accepts in pre-release and build identifiers: an ASCII
/// letter or digit, `-`, or the `.` between identifiers.
pub open spec fn is_ident_char(c: char) -> bool {
    ('0' <= c && c <= '9') || ('a' <= c && c <= 'z') || ('A' <= c && c <= 'Z') || c == '-'
        || c == '.'
}

/// Every character of `s` may stand in an identifier.
pub open spec fn ident_text(s: Seq<char>) -> bool {
    forall|i: int| 0 <= i < s.len() ==> is_ident_char(#[trigger] s[i])
}

/// A version that `semver::Version::parse` can produce.
pub open spec fn semver_wf(m: SemVerModel) -> bool {
    exists|t: Seq<char>| #[trigger] semver_parse(t) == Some(m)
}

/// How `semver::Version` displays itself: `major.minor.patch`, then `-pre` and `+build`
/// where those are not empty.
pub open spec fn version_text(m: SemVerModel) -> Seq<char> {
    decimal(m.major as nat) + seq!['.'] + decimal(m.minor as nat) + seq!['.'] + decimal(
        m.patch as nat,
    ) + (if m.pre.len() > 0 {
        seq!['-'] + m.pre
    } else {
        Seq::empty()
    }) + (if m.build.len() > 0 {
        seq!['+'] + m.build
    } else {
        Seq::empty()
    })
}

/// The order that the three numbers and the presence of pre-release identifiers decide
/// alone: the first number that differs decides, then a release is newer than a
/// pre-release of the same numbers; `None` where they all agree.
pub open spec fn release_precedence(a: SemVerModel, b: SemVerModel) -> Option<int> {
    if a.major != b.major {
        Some(if a.major < b.major { -1int } else { 1int })
    } else if a.minor != b.minor {
        Some(if a.minor < b.minor { -1int } else { 1int })
    } else if a.patch != b.patch {
        Some(if a.patch < b.patch { -1int } else { 1int })
    } else if a.pre.len() == 0 && b.pre.len() > 0 {
        Some(1int)
    } else if a.pre.len() > 0 && b.pre.len() == 0 {
        Some(-1int)
    } else {
        None
    }
}

/// A semantic version. Its parts are held as plain values beside the `semver::Version`
/// they were read from; a value is only ever made by parsing or by copying one, so the
/// two always agree.
pub struct SemVer {
    major: u64,
    minor: u64,
    patch: u64,
    pre: String,
    build: String,
    inner: semver::Version,
}

impl View for SemVer {
    type V = SemVerModel;

    closed spec fn view(&self) -> SemVerModel {
        SemVerModel {
            major: self.major,
            minor: self.minor,
            patch: self.patch,
            pre: self.pre@,
            build: self.build@,
        }
    }
}

/// `semver::Version::parse`: its result is named by `semver_parse`; the parts are
/// copied out of the parsed value. The pre-release and build texts hold only what the
/// crate's identifier parser accepts (ASCII letters and digits, `-`, and `.`).
#[verifier::external_body]
fn semver_parse_text(text: &str) -> (r: Option<SemVer>)
    ensures
        match r {
            Some(v) => semver_parse(text@) == Some(v@) && ident_text(v@.pre) && ident_text(
                v@.build,
            ),
            None => semver_parse(text@) is None,
        },
{
    match semver::Version::parse(text) {
        Ok(v) => Some(
            SemVer {
                major: v.major,
                minor: v.minor,
                patch: v.patch,
                pre: v.pre.as_str().to_string(),
                build: v.build.as_str().to_string(),
                inner: v,
            },
        ),
        Err(_) => None,
    }
}

/// `Ord::cmp` on `semver::Version`. Besides naming the result, the contract states
/// what the derived, lexicographic `Ord` of the crate gives for any version: the
/// numbers decide first, then a release is newer than a pre-release (`Ord` of
/// `Prerelease`); only equal versions compare equal; the result flips when the
/// arguments are swapped, and "not newer" carries over from `b` to `a` when `a` is
/// not older than `b`. How two pre-release or build texts compare is left to the name.
/// The parts read are the plain fields of `SemVer`, which agree with `inner` because a
/// `SemVer` is only made by parsing or copying.
#[verifier::external_body]
fn semver_compare(a: &SemVer, b: &SemVer) -> (r: i8)
    ensures
        -1 <= r <= 1,
        r == semver_order(a@, b@),
        r == -semver_order(b@, a@),
        release_precedence(a@, b@) matches Some(o) ==> r == o,
        (r == 0) == (a@ == b@),
        forall|c: SemVerModel|
            semver_wf(c) && r >= 0 && #[trigger] semver_order(c, b@) <= 0 ==> semver_order(
                c,
                a@,
            ) <= 0,
{
    match a.inner.cmp(&b.inner) {
        std::cmp::Ordering::Less => -1,
        std::cmp::Ordering::Equal => 0,
        std::cmp::Ordering::Greater => 1,
    }
}

/// `Clone` on `semver::Version`; the copy is an equal value.
#[verifier::external_body]
fn semver_clone(v: &semver::Version) -> semver::Version {
    v.clone()
}

/// `Display` of `semver::Version`, as `version_text` states it, over the plain fields
/// of `SemVer` (which agree with `inner`: a `SemVer` is only made by parsing or copying).
#[verifier::external_body]
fn semver_display(v: &SemVer) -> (r: String)
    ensures
        r@ == version_text(v@),
{
    v.inner.to_string()
}

impl SemVer {
    #[verifier::type_invariant]
    spec fn parts_are_identifiers(self) -> bool {
        ident_text(self.pre@) && ident_text(self.build@)
    }

    /// Parses a version the way `semver::Version::parse` does.
    pub fn parse(text: &str) -> (r: Option<SemVer>)
        ensures
            match r {
                Some(v) => semver_parse(text@) == Some(v@) && semver_wf(v@),
                None => semver_parse(text@) is None,
            },
    {
        semver_parse_text(text)
    }

    pub fn major(&self) -> (r: u64)
        ensures
            r == self@.major,
    {
        self.major
    }

    pub fn minor(&self) -> (r: u64)
        ensures
            r == self@.minor,
    {
        self.minor
    }

    pub fn patch(&self) -> (r: u64)
        ensures
            r == self@.patch,
    {
        self.patch
    }

    /// Whether the version carries pre-release identifiers.
    pub fn is_prerelease(&self) -> (r: bool)
        ensures
            r == (self@.pre.len() > 0),
    {
        self.pre.as_str().unicode_len() > 0
    }

    /// The version's text, as `semver` displays it.
    pub fn to_text(&self) -> (r: String)
        ensures
            r@ == version_text(self@),
            ident_text(self@.pre) && ident_text(self@.build),
    {
        proof {
            use_type_invariant(self);
        }
        semver_display(self)
    }

    /// -1, 0 or 1 as `self` is older than, equal to or newer than `other` in semver
    /// order. Where `self` is not older than `other`, every valid version not newer than
    /// `other` is not newer than `self`.
    pub fn compare(&self, other: &SemVer) -> (r: i8)
        ensures
            -1 <= r <= 1,
            r == semver_order(self@, other@),
            r == -semver_order(other@, self@),
            release_precedence(self@, other@) matches Some(o) ==> r == o,
            (r == 0) == (self@ == other@),
            forall|c: SemVerModel|
                semver_wf(c) && r >= 0 && #[trigger] semver_order(c, other@) <= 0
                    ==> semver_order(c, self@) <= 0,
    {
        semver_compare(self, other)
    }

    /// A copy of the version.
    pub fn duplicate(&self) -> (r: SemVer)
        ensures
            r@ == self@,
    {
        proof {
            use_type_invariant(self);
        }
        SemVer {
            major: self.major,
            minor: self.minor,
            patch: self.patch,
            pre: self.pre.clone(),
            build: self.build.clone(),
            inner: semver_clone(&self.inner),
        }
    }
}

/// A version requirement (such as `^4.18.2`), with the text it was parsed from.
/// A value is only made by parsing that text.
pub struct VersionRange {
    text: String,
    inner: semver::VersionReq,
}

impl View for VersionRange {
    type V = Seq<char>;

    closed spec fn view(&self) -> Seq<char> {
        self.text@
    }
}

/// `semver::VersionReq::parse`: whether it succeeds is named by `semver_req_parses`.
#[verifier::external_body]
fn semver_req_parse_text(text: &str) -> (r: Option<VersionRange>)
    ensures
        r is Some <==> semver_req_parses(text@),
        r matches Some(q) ==> q@ == text@,
{
    match semver::VersionReq::parse(text) {
        Ok(q) => Some(VersionRange { text: text.to_string(), inner: q }),
        Err(_) => None,
    }
}

/// `semver::VersionReq::matches`: its result is named by `semver_req_matches`, applied
/// to the requirement's text and the version's plain fields (both agree with the
/// `inner` values, which are only made by parsing those texts or by copying).
#[verifier::external_body]
fn semver_req_match(q: &VersionRange, v: &SemVer) -> (r: bool)
    ensures
        r == semver_req_matches(q@, v@),
{
    q.inner.matches(&v.inner)
}

impl VersionRange {
    /// Parses a requirement the way `semver::VersionReq::parse` does.
    pub fn parse(text: &str) -> (r: Option<VersionRange>)
        ensures
            r is Some <==> semver_req_parses(text@),
            r matches Some(q) ==> q@ == text@,
    {
        semver_req_parse_text(text)
    }

    /// Whether `v` satisfies the requirement.
    pub fn matches(&self, v: &SemVer) -> (r: bool)
        ensures
            r == semver_req_matches(self@, v@),
    {
        semver_req_match(self, v)
    }
}

} // verus!
