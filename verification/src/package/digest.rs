//! Content digests written `sha256:<hex>`.
use vstd::prelude::*;

use sha2::Digest;

verus! {

/// The SHA-256 digest of the bytes, as `sha2::Sha256::digest` computes it.
pub uninterp spec fn sha256_digest(data: Seq<u8>) -> Seq<u8>;

/// Calls `sha2::Sha256::digest` on the bytes and copies its output out. The
/// contract names the digest by `sha256_digest`, a function of the bytes,
/// and states its length of 32 bytes, the output size of `Sha256`.
#[verifier::external_body]
pub(crate) fn sha256(data: &[u8]) -> (r: Vec<u8>)
    ensures
        r@ == sha256_digest(data@),
        r@.len() == 32,
{
    sha2::Sha256::digest(data).to_vec()
}

/// The value of a hexadecimal digit, if it is one.
pub open spec fn hex_digit_value(c: char) -> Option<int> {
    if '0' <= c && c <= '9' {
        Some(c as int - '0' as int)
    } else if 'a' <= c && c <= 'f' {
        Some(c as int - 'a' as int + 10)
    } else if 'A' <= c && c <= 'F' {
        Some(c as int - 'A' as int + 10)
    } else {
        None
    }
}

/// The lowercase hexadecimal digit of a value below 16.
pub open spec fn hex_digit_char(v: int) -> char {
    if v < 10 {
        ('0' as int + v) as char
    } else {
        ('a' as int + v - 10) as char
    }
}

/// The prefix that names the algorithm.
pub open spec fn sha256_prefix() -> Seq<char> {
    seq!['s', 'h', 'a', '2', '5', '6', ':']
}

/// A digest text: the prefix and 64 hexadecimal digits.
pub open spec fn digest_text_ok(s: Seq<char>) -> bool {
    &&& s.len() == 71
    &&& s.take(7) == sha256_prefix()
    &&& forall|i: int| 7 <= i < 71 ==> hex_digit_value(#[trigger] s[i]) is Some
}

/// The bytes a digest text encodes, two digits per byte.
pub open spec fn digest_text_bytes(s: Seq<char>) -> Seq<u8> {
    Seq::new(
        32,
        |k: int| (16 * hex_digit_value(s[7 + 2 * k])->0 + hex_digit_value(s[8 + 2 * k])->0) as u8,
    )
}

/// The lowercase hexadecimal text of bytes.
pub open spec fn hex_text(b: Seq<u8>) -> Seq<char> {
    Seq::new(
        2 * b.len(),
        |i: int|
            if i % 2 == 0 {
                hex_digit_char(b[i / 2] as int / 16)
            } else {
                hex_digit_char(b[i / 2] as int % 16)
            },
    )
}

/// A SHA-256 digest that a downloaded source must have.
#[derive(Debug, PartialEq, Eq, Hash)]
pub struct GenericDigest {
    bytes: Vec<u8>,
}

impl View for GenericDigest {
    type V = Seq<u8>;

    closed spec fn view(&self) -> Seq<u8> {
        self.bytes@
    }
}

impl Clone for GenericDigest {
    fn clone(&self) -> (r: Self)
        ensures
            r@ == self@,
    {
        let bytes = self.bytes.clone();
        assert(bytes@ =~= self.bytes@);
        GenericDigest { bytes }
    }
}

#[derive(Debug, Clone, Copy, PartialEq, Eq, Structural)]
pub enum ParseDigestError {
    UnknownAlgorithm,
    InvalidHex,
}

fn hex_value(c: char) -> (r: Option<u8>)
    ensures
        match r {
            Some(v) => hex_digit_value(c) == Some(v as int),
            None => hex_digit_value(c) is None,
        },
{
    if '0' <= c && c <= '9' {
        Some((c as u32 - '0' as u32) as u8)
    } else if 'a' <= c && c <= 'f' {
        Some((c as u32 - 'a' as u32 + 10) as u8)
    } else if 'A' <= c && c <= 'F' {
        Some((c as u32 - 'A' as u32 + 10) as u8)
    } else {
        None
    }
}

fn hex_char(v: u8) -> (r: &'static str)
    requires
        v < 16,
    ensures
        r@ == seq![hex_digit_char(v as int)],
{
    let digits = ["0", "1", "2", "3", "4", "5", "6", "7", "8", "9", "a", "b", "c", "d", "e", "f"];
    proof {
        reveal_strlit("0");
        reveal_strlit("1");
        reveal_strlit("2");
        reveal_strlit("3");
        reveal_strlit("4");
        reveal_strlit("5");
        reveal_strlit("6");
        reveal_strlit("7");
        reveal_strlit("8");
        reveal_strlit("9");
        reveal_strlit("a");
        reveal_strlit("b");
        reveal_strlit("c");
        reveal_strlit("d");
        reveal_strlit("e");
        reveal_strlit("f");
    }
    digits[v as usize]
}

impl GenericDigest {
    pub open spec fn wf(&self) -> bool {
        self@.len() == 32
    }

    /// Parses `sha256:` followed by 64 hexadecimal digits of either case.
    pub fn parse(s: &str) -> (r: Result<GenericDigest, ParseDigestError>)
        ensures
            r is Ok <==> digest_text_ok(s@),
            r matches Ok(d) ==> d@ == digest_text_bytes(s@) && d.wf(),
            r == Err::<GenericDigest, _>(ParseDigestError::UnknownAlgorithm) <==> !(s@.len() >= 7 && s@.take(7) == sha256_prefix()),
    {
        let n = s.unicode_len();
        if n < 7 || !crate::text::str_eq(s.substring_char(0, 7), "sha256:") {
            proof {
                reveal_strlit("sha256:");
                assert("sha256:"@ =~= sha256_prefix());
                if n >= 7 {
                    assert(s@.subrange(0, 7) =~= s@.take(7));
                }
            }
            return Err(ParseDigestError::UnknownAlgorithm);
        }
        proof {
            reveal_strlit("sha256:");
            assert(s@.subrange(0, 7) =~= s@.take(7));
            assert(s@.take(7) =~= sha256_prefix());
        }
        if n != 71 {
            return Err(ParseDigestError::InvalidHex);
        }
        let mut bytes: Vec<u8> = Vec::new();
        let mut k: usize = 0;
        while k < 32
            invariant
                n == 71,
                s@.len() == 71,
                s@.take(7) == sha256_prefix(),
                k <= 32,
                bytes@.len() == k,
                forall|i: int| 7 <= i < 7 + 2 * k ==> hex_digit_value(#[trigger] s@[i]) is Some,
                forall|j: int| 0 <= j < k ==> bytes@[j] == digest_text_bytes(s@)[j],
            decreases 32 - k,
        {
            let hi = hex_value(s.get_char(7 + 2 * k));
            let lo = hex_value(s.get_char(8 + 2 * k));
            match (hi, lo) {
                (Some(h), Some(l)) => {
                    bytes.push(h * 16 + l);
                    proof {
                        assert forall|i: int| 7 <= i < 7 + 2 * (k + 1) implies hex_digit_value(#[trigger] s@[i]) is Some by {
                            if i >= 7 + 2 * k {
                                assert(i == 7 + 2 * k || i == 8 + 2 * k);
                            }
                        }
                    }
                },
                _ => {
                    return Err(ParseDigestError::InvalidHex);
                },
            }
            k = k + 1;
        }
        let d = GenericDigest { bytes };
        assert(d@ =~= digest_text_bytes(s@));
        Ok(d)
    }

    /// The text `sha256:` followed by the lowercase hexadecimal bytes.
    pub fn to_string(&self) -> (r: String)
        ensures
            r@ == sha256_prefix() + hex_text(self@),
    {
        let mut r = "sha256:".to_owned();
        proof {
            reveal_strlit("sha256:");
            assert(r@ =~= sha256_prefix());
        }
        let mut k: usize = 0;
        while k < self.bytes.len()
            invariant
                k <= self@.len(),
                self.bytes@ == self@,
                r@ =~= sha256_prefix() + hex_text(self@).take(2 * k),
            decreases self@.len() - k,
        {
            let b = self.bytes[k];
            r.append(hex_char(b / 16));
            r.append(hex_char(b % 16));
            proof {
                assert(hex_text(self@).take(2 * (k + 1)) =~= hex_text(self@).take(2 * k).push(hex_text(self@)[2 * k]).push(hex_text(self@)[2 * k + 1]));
            }
            k = k + 1;
        }
        proof {
            assert(hex_text(self@).take(2 * self@.len() as int) =~= hex_text(self@));
        }
        r
    }

    /// The digest with the given bytes.
    pub fn from_bytes(bytes: &[u8]) -> (r: GenericDigest)
        ensures
            r@ == bytes@,
    {
        let mut v: Vec<u8> = Vec::new();
        let mut k: usize = 0;
        while k < bytes.len()
            invariant
                k <= bytes@.len(),
                v@ =~= bytes@.take(k as int),
            decreases bytes@.len() - k,
        {
            v.push(bytes[k]);
            k = k + 1;
        }
        assert(bytes@.take(bytes@.len() as int) =~= bytes@);
        GenericDigest { bytes: v }
    }

    pub fn as_bytes(&self) -> (r: &[u8])
        ensures
            r@ == self@,
    {
        self.bytes.as_slice()
    }

    /// Whether computed digest bytes are this digest.
    pub fn matches_bytes(&self, computed: &[u8]) -> (r: bool)
        ensures
            r == (self@ == computed@),
    {
        if self.bytes.len() != computed.len() {
            return false;
        }
        let mut k: usize = 0;
        while k < computed.len()
            invariant
                k <= computed@.len(),
                self@.len() == computed@.len(),
                self.bytes@ == self@,
                forall|j: int| 0 <= j < k ==> self@[j] == computed@[j],
            decreases computed@.len() - k,
        {
            if self.bytes[k] != computed[k] {
                return false;
            }
            k = k + 1;
        }
        assert(self@ =~= computed@);
        true
    }
}

} // verus!
