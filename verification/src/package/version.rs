use vstd::prelude::*;

use crate::text::{is_ascii_digit, is_ascii_letter, Order};

verus! {

/// What `semver::Version::parse` reports for a text: `None` when it accepts
/// the text, else the message of its error.
pub uninterp spec fn semver_parse_error(s: Seq<char>) -> Option<Seq<char>>;

/// Where `semver::Version`'s order puts the version parsed from `a` against
/// the one parsed from `b`: -1, 0 or 1.
pub uninterp spec fn semver_order(a: Seq<char>, b: Seq<char>) -> int;

/// Whether the version parsed from `s` carries a pre-release part.
pub uninterp spec fn semver_is_prerelease(s: Seq<char>) -> bool;

/// The characters of the SemVer grammar.
pub open spec fn is_version_char(c: char) -> bool {
    is_ascii_letter(c) || is_ascii_digit(c) || c == '.' || c == '-' || c == '+'
}

/// A text that `semver` accepts.
pub open spec fn semver_accepts(s: Seq<char>) -> bool {
    semver_parse_error(s) is None
}

/// Calls `semver::Version::parse`. The contract claims that the result is a
/// function of the text (named `semver_parse_error`), and that an accepted
/// text is non-empty and made only of ASCII letters, digits, `.`, `-` and
/// `+`, as the crate's parser reads no other character.
#[verifier::external_body]
fn semver_check(s: &str) -> (r: Option<String>)
    ensures
        match r {
            None => semver_parse_error(s@) is None,
            Some(m) => semver_parse_error(s@) == Some(m@),
        },
        r is None ==> s@.len() > 0 && forall|i: int| 0 <= i < s@.len() ==> is_version_char(#[trigger] s@[i]),
{
    match semver::Version::parse(s) {
        Ok(_) => None,
        Err(e) => Some(e.to_string()),
    }
}

/// Compares the versions parsed from `a` and `b` with `semver::Version`'s
/// `Ord`. The contract claims the result is named by `semver_order`, that the
/// order is antisymmetric (it is derived field by field in the crate), and
/// that it reports `Equal` exactly for equal texts: the crate's parser rejects
/// leading zeros in numeric fields and keeps identifiers verbatim, so distinct
/// accepted texts parse to distinct versions. It also claims the order is
/// transitive, as std's `Ord` requires of every implementation: a version at
/// or below the lower side of the comparison is at or below the other side.
#[verifier::external_body]
fn semver_compare(a: &str, b: &str) -> (r: Order)
    requires
        semver_accepts(a@),
        semver_accepts(b@),
    ensures
        r.as_int() == semver_order(a@, b@),
        semver_order(b@, a@) == -r.as_int(),
        (r == Order::Equal) <==> a@ == b@,
        forall|c: Seq<char>|
            semver_accepts(c) && r.as_int() >= 0 && #[trigger] semver_order(c, b@) <= 0 ==> semver_order(c, a@) <= 0,
        forall|c: Seq<char>|
            semver_accepts(c) && r.as_int() <= 0 && #[trigger] semver_order(c, a@) <= 0 ==> semver_order(c, b@) <= 0,
{
    match (semver::Version::parse(a), semver::Version::parse(b)) {
        (Ok(x), Ok(y)) => match x.cmp(&y) {
            std::cmp::Ordering::Less => Order::Less,
            std::cmp::Ordering::Equal => Order::Equal,
            std::cmp::Ordering::Greater => Order::Greater,
        },
        _ => Order::Equal,
    }
}

/// Reads the pre-release part of the version parsed from `s` with
/// `semver::Prerelease::is_empty`. The contract names the answer by
/// `semver_is_prerelease`.
#[verifier::external_body]
fn semver_prerelease(s: &str) -> (r: bool)
    requires
        semver_accepts(s@),
    ensures
        r == semver_is_prerelease(s@),
{
    match semver::Version::parse(s) {
        Ok(v) => !v.pre.is_empty(),
        Err(_) => false,
    }
}

/// A package version: a SemVer text that `semver` accepts, kept verbatim.
#[derive(Debug, PartialEq, Eq, Hash)]
pub struct PackageVersion {
    text: String,
}

#[derive(Debug, Clone, PartialEq, Eq)]
pub enum ParsePackageVersionError {
    SemVer { message: String },
}

impl View for PackageVersion {
    type V = Seq<char>;

    closed spec fn view(&self) -> Seq<char> {
        self.text@
    }
}

/// A version text: accepted by `semver` and written in its grammar.
pub open spec fn valid_version(s: Seq<char>) -> bool {
    &&& semver_accepts(s)
    &&& s.len() > 0
    &&& forall|i: int| 0 <= i < s.len() ==> is_version_char(#[trigger] s[i])
}

impl PackageVersion {
    pub open spec fn wf(&self) -> bool {
        valid_version(self@)
    }

    /// Accepts exactly the texts that `semver` accepts.
    pub fn parse(s: &str) -> (r: Result<PackageVersion, ParsePackageVersionError>)
        ensures
            r is Ok <==> semver_accepts(s@),
            r matches Ok(v) ==> v@ == s@ && v.wf(),
            r matches Err(ParsePackageVersionError::SemVer { message }) ==> semver_parse_error(s@)
                == Some(message@),
    {
        match semver_check(s) {
            None => Ok(PackageVersion { text: s.to_owned() }),
            Some(message) => Err(ParsePackageVersionError::SemVer { message }),
        }
    }

    pub fn as_str(&self) -> (r: &str)
        ensures
            r@ == self@,
    {
        self.text.as_str()
    }

    /// Where `self` stands against `other` in SemVer order.
    pub fn compare(&self, other: &PackageVersion) -> (r: Order)
        requires
            self.wf(),
            other.wf(),
        ensures
            r.as_int() == semver_order(self@, other@),
            semver_order(other@, self@) == -r.as_int(),
            (r == Order::Equal) <==> self@ == other@,
            forall|c: Seq<char>|
                semver_accepts(c) && r.as_int() >= 0 && #[trigger] semver_order(c, other@) <= 0 ==> semver_order(c, self@)
                    <= 0,
            forall|c: Seq<char>|
                semver_accepts(c) && r.as_int() <= 0 && #[trigger] semver_order(c, self@) <= 0 ==> semver_order(c, other@)
                    <= 0,
    {
        semver_compare(self.text.as_str(), other.text.as_str())
    }

    /// Whether this version is a pre-release.
    pub fn is_prerelease(&self) -> (r: bool)
        requires
            self.wf(),
        ensures
            r == semver_is_prerelease(self@),
    {
        semver_prerelease(self.text.as_str())
    }
}

impl Clone for PackageVersion {
    fn clone(&self) -> (r: Self)
        ensures
            r == *self,
    {
        PackageVersion { text: self.text.clone() }
    }
}

} // verus!
