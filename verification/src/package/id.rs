use vstd::prelude::*;

use super::name::{is_name_tail_char, valid_identifier, PackageName, ParsePackageNameError};
use super::version::{
    is_version_char, semver_accepts, valid_version, PackageVersion, ParsePackageVersionError,
};
use super::version::semver_order;
use crate::text::{
    compare_str, contains_char, join_with, lemma_lex_order_antisymmetric, lemma_split_once_concat,
    lex_order, split_once, split_once_spec, Order,
};

verus! {

/// A package at one version, written `name@version`.
#[derive(Debug, PartialEq, Eq, Hash)]
pub struct PackageId {
    name: PackageName,
    version: PackageVersion,
}

#[derive(Debug, Clone, PartialEq, Eq)]
pub enum ParsePackageIdError {
    InvalidFormat,
    InvalidName { source: ParsePackageNameError },
    InvalidVersion { source: ParsePackageVersionError },
}

/// The view of a package ID: its name and its version text.
pub type PackageIdView = (Seq<char>, Seq<char>);

impl View for PackageId {
    type V = PackageIdView;

    closed spec fn view(&self) -> PackageIdView {
        (self.name@, self.version@)
    }
}

/// The text `name@version`.
pub open spec fn package_id_text(v: PackageIdView) -> Seq<char> {
    v.0 + seq!['@'] + v.1
}

/// A well-formed package ID view.
pub open spec fn valid_package_id(v: PackageIdView) -> bool {
    valid_identifier(v.0) && valid_version(v.1)
}

/// The layout of `name@version`: one `@`, both sides non-empty.
pub open spec fn package_id_format_ok(s: Seq<char>) -> bool {
    match split_once_spec(s, '@') {
        Some((n, v)) => !v.contains('@') && n.len() > 0 && v.len() > 0,
        None => false,
    }
}

pub open spec fn package_id_parts(s: Seq<char>) -> (Seq<char>, Seq<char>) {
    split_once_spec(s, '@')->0
}

/// The IDs that `PackageId::parse` accepts.
pub open spec fn package_id_accepts(s: Seq<char>) -> bool {
    package_id_format_ok(s) && valid_identifier(package_id_parts(s).0) && semver_accepts(
        package_id_parts(s).1,
    )
}

impl PackageId {
    pub open spec fn wf(&self) -> bool {
        valid_package_id(self@)
    }

    pub fn new(name: PackageName, version: PackageVersion) -> (r: PackageId)
        ensures
            r@ == (name@, version@),
    {
        PackageId { name, version }
    }

    pub fn name(&self) -> (r: &PackageName)
        ensures
            r@ == self@.0,
    {
        &self.name
    }

    pub fn version(&self) -> (r: &PackageVersion)
        ensures
            r@ == self@.1,
            self.wf() ==> r.wf(),
    {
        &self.version
    }

    /// The text `name@version`.
    pub fn to_string(&self) -> (r: String)
        ensures
            r@ == package_id_text(self@),
    {
        proof {
            reveal_strlit("@");
        }
        join_with(self.name.as_str(), "@", self.version.as_str())
    }

    /// Whether the two IDs are the same.
    pub fn equals(&self, other: &PackageId) -> (r: bool)
        ensures
            r == (self@ == other@),
    {
        crate::text::str_eq(self.name.as_str(), other.name.as_str()) && crate::text::str_eq(
            self.version.as_str(),
            other.version.as_str(),
        )
    }

    /// Parses `name@version`; the format is checked first, then the name,
    /// then the version.
    pub fn parse(s: &str) -> (r: Result<PackageId, ParsePackageIdError>)
        ensures
            r is Ok <==> package_id_accepts(s@),
            r matches Ok(id) ==> id@ == package_id_parts(s@) && id.wf(),
            (r matches Err(ParsePackageIdError::InvalidFormat)) <==> !package_id_format_ok(s@),
            (r matches Err(ParsePackageIdError::InvalidName { .. })) <==> package_id_format_ok(s@)
                && !valid_identifier(package_id_parts(s@).0),
            (r matches Err(ParsePackageIdError::InvalidVersion { .. })) <==> package_id_format_ok(s@)
                && valid_identifier(package_id_parts(s@).0) && !semver_accepts(package_id_parts(s@).1),
    {
        let (name, version) = match split_once(s, '@') {
            Some(parts) => parts,
            None => return Err(ParsePackageIdError::InvalidFormat),
        };
        if contains_char(version.as_str(), '@') || name.as_str().unicode_len() == 0
            || version.as_str().unicode_len() == 0 {
            return Err(ParsePackageIdError::InvalidFormat);
        }
        let name = match PackageName::new(name.as_str()) {
            Ok(n) => n,
            Err(source) => return Err(ParsePackageIdError::InvalidName { source }),
        };
        let version = match PackageVersion::parse(version.as_str()) {
            Ok(v) => v,
            Err(source) => return Err(ParsePackageIdError::InvalidVersion { source }),
        };
        Ok(PackageId { name, version })
    }
}

pub proof fn lemma_identifier_has_no(s: Seq<char>, c: char)
    requires
        valid_identifier(s),
        !is_name_tail_char(c),
    ensures
        !s.contains(c),
{
    if s.contains(c) {
        let k = choose|k: int| 0 <= k < s.len() && s[k] == c;
        if k > 0 {
            assert(is_name_tail_char(s[k]));
        }
    }
}

/// Writing a well-formed package ID and parsing the text gives back the same
/// name and version.
pub proof fn law_package_id_text_roundtrip(v: PackageIdView)
    requires
        valid_package_id(v),
    ensures
        package_id_accepts(package_id_text(v)),
        package_id_parts(package_id_text(v)) == v,
{
    lemma_identifier_has_no(v.0, '@');
    assert(!v.1.contains('@')) by {
        if v.1.contains('@') {
            let k = choose|k: int| 0 <= k < v.1.len() && v.1[k] == '@';
            assert(is_version_char(v.1[k]));
        }
    }
    lemma_split_once_concat(v.0, v.1, '@');
}

/// The order of package IDs: by name, then by SemVer order of the version.
pub open spec fn id_order(a: PackageIdView, b: PackageIdView) -> int {
    if a.0 != b.0 {
        lex_order(a.0, b.0)
    } else {
        semver_order(a.1, b.1)
    }
}

impl PackageId {
    /// Where `self` stands against `other`: by name, then by version.
    pub fn compare(&self, other: &PackageId) -> (r: Order)
        requires
            self.wf(),
            other.wf(),
        ensures
            r.as_int() == id_order(self@, other@),
            id_order(other@, self@) == -r.as_int(),
            (r == Order::Equal) <==> self@ == other@,
    {
        proof {
            lemma_lex_order_antisymmetric(self@.0, other@.0);
        }
        match compare_str(self.name.as_str(), other.name.as_str()) {
            Order::Equal => self.version.compare(&other.version),
            r => r,
        }
    }
}

impl Clone for PackageId {
    fn clone(&self) -> (r: Self)
        ensures
            r == *self,
    {
        PackageId { name: self.name.clone(), version: self.version.clone() }
    }
}

} // verus!
