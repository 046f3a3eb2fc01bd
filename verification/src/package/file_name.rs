use vstd::prelude::*;

verus! {

/// A character that a file name may not hold.
pub open spec fn is_forbidden_file_name_char(c: char) -> bool {
    c == '/' || c == '\\' || c == ':' || c == '*' || c == '?' || c == '"' || c == '<' || c == '>'
        || c == '|'
}

/// A single path component that names a file: non-empty, neither `.` nor
/// `..`, and free of separators and the characters Windows forbids.
pub open spec fn valid_file_name(s: Seq<char>) -> bool {
    &&& s.len() > 0
    &&& s != seq!['.']
    &&& s != seq!['.', '.']
    &&& forall|i: int| 0 <= i < s.len() ==> !is_forbidden_file_name_char(#[trigger] s[i])
}

/// The name of a file inside a package's fonts directory.
#[derive(Debug, PartialEq, Eq, Hash)]
pub struct FileName {
    name: String,
}

impl View for FileName {
    type V = Seq<char>;

    closed spec fn view(&self) -> Seq<char> {
        self.name@
    }
}

impl Clone for FileName {
    fn clone(&self) -> (r: Self)
        ensures
            r == *self,
    {
        FileName { name: self.name.clone() }
    }
}

impl FileName {
    pub open spec fn wf(&self) -> bool {
        valid_file_name(self@)
    }

    /// Accepts exactly the strings of `valid_file_name`.
    pub fn new(name: &str) -> (r: Option<FileName>)
        ensures
            r is Some <==> valid_file_name(name@),
            r matches Some(f) ==> f@ == name@ && f.wf(),
    {
        let n = name.unicode_len();
        if n == 0 {
            return None;
        }
        if n == 1 && name.get_char(0) == '.' {
            assert(name@ =~= seq!['.']);
            return None;
        }
        if n == 2 && name.get_char(0) == '.' && name.get_char(1) == '.' {
            assert(name@ =~= seq!['.', '.']);
            return None;
        }
        let mut i: usize = 0;
        while i < n
            invariant
                n == name@.len(),
                i <= n,
                forall|j: int| 0 <= j < i ==> !is_forbidden_file_name_char(#[trigger] name@[j]),
            decreases n - i,
        {
            let c = name.get_char(i);
            if c == '/' || c == '\\' || c == ':' || c == '*' || c == '?' || c == '"' || c == '<' || c
                == '>' || c == '|' {
                return None;
            }
            i = i + 1;
        }
        proof {
            if name@ == seq!['.'] {
                assert(name@.len() == 1);
            }
            if name@ == seq!['.', '.'] {
                assert(name@.len() == 2 && name@[0] == '.' && name@[1] == '.');
            }
        }
        Some(FileName { name: name.to_owned() })
    }

    pub fn as_str(&self) -> (r: &str)
        ensures
            r@ == self@,
    {
        self.name.as_str()
    }
}

/// A font file recorded for an installed package.
#[derive(Debug, PartialEq, Eq)]
pub struct FontEntry {
    file_name: FileName,
}

impl Clone for FontEntry {
    fn clone(&self) -> (r: Self)
        ensures
            r == *self,
    {
        FontEntry { file_name: self.file_name.clone() }
    }
}

impl View for FontEntry {
    type V = Seq<char>;

    closed spec fn view(&self) -> Seq<char> {
        self.file_name@
    }
}

impl FontEntry {
    pub open spec fn wf(&self) -> bool {
        valid_file_name(self@)
    }

    pub fn new(file_name: FileName) -> (r: FontEntry)
        ensures
            r@ == file_name@,
            file_name.wf() ==> r.wf(),
    {
        FontEntry { file_name }
    }

    pub fn file_name(&self) -> (r: &FileName)
        ensures
            r@ == self@,
    {
        &self.file_name
    }
}

} // verus!
