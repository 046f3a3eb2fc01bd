use vstd::prelude::*;

use super::id::{
    lemma_identifier_has_no, package_id_text, valid_package_id, PackageId, PackageIdView,
    ParsePackageIdError,
};
use super::name::{valid_identifier, PackageName, ParsePackageNameError};
use crate::text::contains_char;

verus! {

/// What a user names a package by: a name, or an exact ID.
#[derive(Debug, PartialEq, Eq, Hash)]
pub enum PackageSpec {
    Name(PackageName),
    Id(PackageId),
}

#[derive(Debug, Clone, PartialEq, Eq)]
pub enum ParsePackageSpecError {
    InvalidName { source: ParsePackageNameError },
    InvalidId { source: ParsePackageIdError },
}

/// The view of a package specifier.
pub enum PackageSpecView {
    Name(Seq<char>),
    Id(PackageIdView),
}

impl View for PackageSpec {
    type V = PackageSpecView;

    open spec fn view(&self) -> PackageSpecView {
        match self {
            PackageSpec::Name(n) => PackageSpecView::Name(n@),
            PackageSpec::Id(id) => PackageSpecView::Id(id@),
        }
    }
}

/// Whether the specifier selects the package ID: a name selects every
/// version of that name, an ID selects itself.
pub open spec fn spec_selects(spec: PackageSpecView, id: PackageIdView) -> bool {
    match spec {
        PackageSpecView::Name(n) => id.0 == n,
        PackageSpecView::Id(i) => id == i,
    }
}

/// The text of a specifier.
pub open spec fn package_spec_text(spec: PackageSpecView) -> Seq<char> {
    match spec {
        PackageSpecView::Name(n) => n,
        PackageSpecView::Id(i) => package_id_text(i),
    }
}

impl PackageSpec {
    pub open spec fn wf(&self) -> bool {
        match self {
            PackageSpec::Name(n) => n.wf(),
            PackageSpec::Id(id) => id.wf(),
        }
    }

    /// A text with an `@` is read as an ID, any other as a name.
    pub fn parse(s: &str) -> (r: Result<PackageSpec, ParsePackageSpecError>)
        ensures
            s@.contains('@') ==> match r {
                Ok(PackageSpec::Id(id)) => PackageId::parse_ok(s@, id@),
                Ok(PackageSpec::Name(_)) => false,
                Err(ParsePackageSpecError::InvalidId { .. }) => !super::id::package_id_accepts(s@),
                Err(_) => false,
            },
            !s@.contains('@') ==> match r {
                Ok(PackageSpec::Name(n)) => n@ == s@ && valid_identifier(s@),
                Ok(PackageSpec::Id(_)) => false,
                Err(ParsePackageSpecError::InvalidName { .. }) => !valid_identifier(s@),
                Err(_) => false,
            },
            r matches Ok(spec) ==> spec.wf(),
    {
        if contains_char(s, '@') {
            match PackageId::parse(s) {
                Ok(id) => Ok(PackageSpec::Id(id)),
                Err(source) => Err(ParsePackageSpecError::InvalidId { source }),
            }
        } else {
            match PackageName::new(s) {
                Ok(n) => Ok(PackageSpec::Name(n)),
                Err(source) => Err(ParsePackageSpecError::InvalidName { source }),
            }
        }
    }

    /// The text of the specifier.
    pub fn to_string(&self) -> (r: String)
        ensures
            r@ == package_spec_text(self@),
    {
        match self {
            PackageSpec::Name(n) => n.as_str().to_owned(),
            PackageSpec::Id(id) => id.to_string(),
        }
    }

    /// Whether the two specifiers are the same.
    pub fn equals(&self, other: &PackageSpec) -> (r: bool)
        ensures
            r == (self@ == other@),
    {
        match (self, other) {
            (PackageSpec::Name(a), PackageSpec::Name(b)) => crate::text::str_eq(a.as_str(), b.as_str()),
            (PackageSpec::Id(a), PackageSpec::Id(b)) => a.equals(b),
            _ => false,
        }
    }

    /// The specifier that selects exactly this ID.
    pub fn from_id(id: PackageId) -> (r: PackageSpec)
        ensures
            r@ == PackageSpecView::Id(id@),
    {
        PackageSpec::Id(id)
    }

    /// Whether this specifier selects the package ID.
    pub fn selects(&self, id: &PackageId) -> (r: bool)
        ensures
            r == spec_selects(self@, id@),
    {
        match self {
            PackageSpec::Name(n) => crate::text::str_eq(n.as_str(), id.name().as_str()),
            PackageSpec::Id(i) => i.equals(id),
        }
    }
}

impl PackageId {
    /// `id` is what `PackageId::parse` gives for `s`.
    pub open spec fn parse_ok(s: Seq<char>, id: PackageIdView) -> bool {
        super::id::package_id_accepts(s) && id == super::id::package_id_parts(s)
    }
}

/// Writing a well-formed specifier and reading the text back gives the same
/// specifier.
pub proof fn law_package_spec_text_roundtrip(spec: PackageSpecView)
    requires
        match spec {
            PackageSpecView::Name(n) => valid_identifier(n),
            PackageSpecView::Id(i) => valid_package_id(i),
        },
    ensures
        match spec {
            PackageSpecView::Name(n) => !package_spec_text(spec).contains('@') && valid_identifier(
                package_spec_text(spec),
            ) && package_spec_text(spec) == n,
            PackageSpecView::Id(i) => package_spec_text(spec).contains('@') && PackageId::parse_ok(
                package_spec_text(spec),
                i,
            ),
        },
{
    match spec {
        PackageSpecView::Name(n) => {
            lemma_identifier_has_no(n, '@');
        },
        PackageSpecView::Id(i) => {
            super::id::law_package_id_text_roundtrip(i);
            let t = package_id_text(i);
            assert(t[i.0.len() as int] == '@');
        },
    }
}

impl Clone for PackageSpec {
    fn clone(&self) -> (r: Self)
        ensures
            r == *self,
    {
        match self {
            PackageSpec::Name(n) => PackageSpec::Name(n.clone()),
            PackageSpec::Id(id) => PackageSpec::Id(id.clone()),
        }
    }
}

} // verus!
