use vstd::prelude::*;

use crate::text::{is_ascii_digit, is_ascii_letter};

verus! {

/// A character allowed after the first one of a package name or namespace.
pub open spec fn is_name_tail_char(c: char) -> bool {
    is_ascii_letter(c) || is_ascii_digit(c) || c == '-' || c == '_'
}

/// The grammar shared by package names and namespaces: an ASCII letter
/// followed by ASCII letters, digits, `-` or `_`.
pub open spec fn valid_identifier(s: Seq<char>) -> bool {
    &&& s.len() > 0
    &&& is_ascii_letter(s[0])
    &&& forall|i: int| 1 <= i < s.len() ==> is_name_tail_char(#[trigger] s[i])
}

/// Decides `valid_identifier` by a scan over the characters.
pub fn is_valid_identifier(s: &str) -> (r: bool)
    ensures
        r == valid_identifier(s@),
{
    let n = s.unicode_len();
    if n == 0 {
        return false;
    }
    let first = s.get_char(0);
    if !(('a' <= first && first <= 'z') || ('A' <= first && first <= 'Z')) {
        return false;
    }
    let mut i: usize = 1;
    while i < n
        invariant
            n == s@.len(),
            1 <= i <= n,
            forall|j: int| 1 <= j < i ==> is_name_tail_char(#[trigger] s@[j]),
        decreases n - i,
    {
        let c = s.get_char(i);
        if !(('a' <= c && c <= 'z') || ('A' <= c && c <= 'Z') || ('0' <= c && c <= '9') || c == '-'
            || c == '_') {
            return false;
        }
        i = i + 1;
    }
    true
}

/// The canonical name of a package, such as `hackgen`.
#[derive(Debug, PartialEq, Eq, Hash)]
pub struct PackageName {
    name: String,
}

#[derive(Debug, Clone, PartialEq, Eq)]
pub enum ParsePackageNameError {
    InvalidFormat { name: String },
}

impl View for PackageName {
    type V = Seq<char>;

    closed spec fn view(&self) -> Seq<char> {
        self.name@
    }
}

impl PackageName {
    pub open spec fn wf(&self) -> bool {
        valid_identifier(self@)
    }

    /// Accepts exactly the strings of `valid_identifier`.
    pub fn new(name: &str) -> (r: Result<PackageName, ParsePackageNameError>)
        ensures
            r is Ok <==> valid_identifier(name@),
            r matches Ok(n) ==> n@ == name@ && n.wf(),
            r matches Err(ParsePackageNameError::InvalidFormat { name: e }) ==> e@ == name@,
    {
        if is_valid_identifier(name) {
            Ok(PackageName { name: name.to_owned() })
        } else {
            Err(ParsePackageNameError::InvalidFormat { name: name.to_owned() })
        }
    }

    pub fn as_str(&self) -> (r: &str)
        ensures
            r@ == self@,
    {
        self.name.as_str()
    }
}

impl Clone for PackageName {
    fn clone(&self) -> (r: Self)
        ensures
            r == *self,
    {
        PackageName { name: self.name.clone() }
    }
}

} // verus!
