use vstd::prelude::*;

use super::name::{is_valid_identifier, valid_identifier};

verus! {

/// The namespace of a package, such as the registry it belongs to.
#[derive(Debug, PartialEq, Eq, Hash)]
pub struct PackageNamespace {
    name: String,
}

#[derive(Debug, Clone, PartialEq, Eq)]
pub enum ParsePackageNamespaceError {
    InvalidFormat { name: String },
}

impl View for PackageNamespace {
    type V = Seq<char>;

    closed spec fn view(&self) -> Seq<char> {
        self.name@
    }
}

impl PackageNamespace {
    pub open spec fn wf(&self) -> bool {
        valid_identifier(self@)
    }

    /// Accepts exactly the strings of `valid_identifier`.
    pub fn new(name: &str) -> (r: Result<PackageNamespace, ParsePackageNamespaceError>)
        ensures
            r is Ok <==> valid_identifier(name@),
            r matches Ok(n) ==> n@ == name@ && n.wf(),
            r matches Err(ParsePackageNamespaceError::InvalidFormat { name: e }) ==> e@ == name@,
    {
        if is_valid_identifier(name) {
            Ok(PackageNamespace { name: name.to_owned() })
        } else {
            Err(ParsePackageNamespaceError::InvalidFormat { name: name.to_owned() })
        }
    }

    pub fn as_str(&self) -> (r: &str)
        ensures
            r@ == self@,
    {
        self.name.as_str()
    }
}

impl Clone for PackageNamespace {
    fn clone(&self) -> (r: Self)
        ensures
            r == *self,
    {
        PackageNamespace { name: self.name.clone() }
    }
}

} // verus!
