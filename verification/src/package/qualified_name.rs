use vstd::prelude::*;

use super::name::{valid_identifier, PackageName, ParsePackageNameError};
use super::namespace::{PackageNamespace, ParsePackageNamespaceError};
use crate::text::{join_with, lemma_split_once_concat, split_once, split_once_spec};

verus! {

/// A package name qualified by its namespace, written `namespace/name`.
#[derive(Debug, PartialEq, Eq, Hash)]
pub struct PackageQualifiedName {
    namespace: PackageNamespace,
    name: PackageName,
}

#[derive(Debug, Clone, PartialEq, Eq)]
pub enum ParsePackageQualifiedNameError {
    InvalidFormat,
    InvalidNamespace { source: ParsePackageNamespaceError },
    InvalidName { source: ParsePackageNameError },
}

impl View for PackageQualifiedName {
    type V = (Seq<char>, Seq<char>);

    closed spec fn view(&self) -> (Seq<char>, Seq<char>) {
        (self.namespace@, self.name@)
    }
}

/// The text `namespace/name`.
pub open spec fn qualified_name_text(v: (Seq<char>, Seq<char>)) -> Seq<char> {
    v.0 + seq!['/'] + v.1
}

/// The layout of `namespace/name`: one `/`, both sides non-empty.
pub open spec fn qualified_name_format_ok(s: Seq<char>) -> bool {
    match split_once_spec(s, '/') {
        Some((ns, n)) => !n.contains('/') && ns.len() > 0 && n.len() > 0,
        None => false,
    }
}

pub open spec fn qualified_name_parts(s: Seq<char>) -> (Seq<char>, Seq<char>) {
    split_once_spec(s, '/')->0
}

impl PackageQualifiedName {
    pub open spec fn wf(&self) -> bool {
        valid_identifier(self@.0) && valid_identifier(self@.1)
    }

    pub fn new(namespace: PackageNamespace, name: PackageName) -> (r: PackageQualifiedName)
        ensures
            r@ == (namespace@, name@),
    {
        PackageQualifiedName { namespace, name }
    }

    pub fn namespace(&self) -> (r: &PackageNamespace)
        ensures
            r@ == self@.0,
    {
        &self.namespace
    }

    pub fn name(&self) -> (r: &PackageName)
        ensures
            r@ == self@.1,
    {
        &self.name
    }

    /// The text `namespace/name`.
    pub fn to_string(&self) -> (r: String)
        ensures
            r@ == qualified_name_text(self@),
    {
        proof {
            reveal_strlit("/");
        }
        join_with(self.namespace.as_str(), "/", self.name.as_str())
    }

    /// Parses `namespace/name`; the format is checked before either part.
    pub fn parse(s: &str) -> (r: Result<PackageQualifiedName, ParsePackageQualifiedNameError>)
        ensures
            r is Ok <==> qualified_name_format_ok(s@) && valid_identifier(qualified_name_parts(s@).0)
                && valid_identifier(qualified_name_parts(s@).1),
            r matches Ok(q) ==> q@ == qualified_name_parts(s@) && q.wf(),
            (r matches Err(ParsePackageQualifiedNameError::InvalidFormat)) <==> !qualified_name_format_ok(s@),
            (r matches Err(ParsePackageQualifiedNameError::InvalidNamespace { .. })) <==> qualified_name_format_ok(s@)
                && !valid_identifier(qualified_name_parts(s@).0),
            (r matches Err(ParsePackageQualifiedNameError::InvalidName { .. })) <==> qualified_name_format_ok(s@)
                && valid_identifier(qualified_name_parts(s@).0) && !valid_identifier(qualified_name_parts(s@).1),
    {
        let (namespace, name) = match split_once(s, '/') {
            Some(parts) => parts,
            None => return Err(ParsePackageQualifiedNameError::InvalidFormat),
        };
        if crate::text::contains_char(name.as_str(), '/') || namespace.as_str().unicode_len() == 0
            || name.as_str().unicode_len() == 0 {
            return Err(ParsePackageQualifiedNameError::InvalidFormat);
        }
        let namespace = match PackageNamespace::new(namespace.as_str()) {
            Ok(ns) => ns,
            Err(source) => return Err(ParsePackageQualifiedNameError::InvalidNamespace { source }),
        };
        let name = match PackageName::new(name.as_str()) {
            Ok(n) => n,
            Err(source) => return Err(ParsePackageQualifiedNameError::InvalidName { source }),
        };
        Ok(PackageQualifiedName { namespace, name })
    }
}

/// Writing a well-formed qualified name and parsing the text gives back the
/// same namespace and name.
pub proof fn law_qualified_name_text_roundtrip(v: (Seq<char>, Seq<char>))
    requires
        valid_identifier(v.0),
        valid_identifier(v.1),
    ensures
        qualified_name_format_ok(qualified_name_text(v)),
        qualified_name_parts(qualified_name_text(v)) == v,
{
    assert(!v.0.contains('/')) by {
        if v.0.contains('/') {
            let k = choose|k: int| 0 <= k < v.0.len() && v.0[k] == '/';
            if k > 0 {
                assert(crate::package::name::is_name_tail_char(v.0[k]));
            }
        }
    }
    assert(!v.1.contains('/')) by {
        if v.1.contains('/') {
            let k = choose|k: int| 0 <= k < v.1.len() && v.1[k] == '/';
            if k > 0 {
                assert(crate::package::name::is_name_tail_char(v.1[k]));
            }
        }
    }
    lemma_split_once_concat(v.0, v.1, '/');
}

impl Clone for PackageQualifiedName {
    fn clone(&self) -> (r: Self)
        ensures
            r == *self,
    {
        PackageQualifiedName { namespace: self.namespace.clone(), name: self.name.clone() }
    }
}

} // verus!
