//! Validated 4-byte chunk type codes and their case-derived properties.
use vstd::prelude::*;
use vstd::string::StringSliceAdditionalSpecFns;
use crate::error::PngError;
use crate::is_alpha;
use crate::is_lower;
use crate::is_upper;

verus! {

/// A 4-byte chunk type code. Only ASCII letters make a spec-valid code;
/// the bytes are stored in the order `critical`, `public/private`,
/// `reserved`, `safe-to-copy`.
#[derive(Debug)]
pub struct ChunkType {
    /// The four raw bytes of the code.
    pub inner: [u8; 4],
}

impl View for ChunkType {
    type V = Seq<u8>;

    open spec fn view(&self) -> Seq<u8> {
        self.inner@
    }
}

/// A type code passes the strict rule: 4 bytes, each an ASCII letter,
/// with the reserved bit clear (third byte uppercase).
pub open spec fn spec_type_valid(t: Seq<u8>) -> bool {
    &&& t.len() == 4
    &&& forall|i: int| 0 <= i < 4 ==> is_alpha(#[trigger] t[i])
    &&& is_upper(t[2])
}

/// True when `b` is an ASCII uppercase letter.
fn byte_is_upper(b: u8) -> (r: bool)
    ensures
        r == is_upper(b),
{
    65 <= b && b <= 90
}

/// True when `b` is an ASCII lowercase letter.
fn byte_is_lower(b: u8) -> (r: bool)
    ensures
        r == is_lower(b),
{
    97 <= b && b <= 122
}

/// True when `b` is an ASCII letter.
fn byte_is_alpha(b: u8) -> (r: bool)
    ensures
        r == is_alpha(b),
{
    byte_is_upper(b) || byte_is_lower(b)
}

impl ChunkType {
    /// The four bytes of this type code, copied out.
    pub fn bytes(&self) -> (r: [u8; 4])
        ensures
            r@ == self@,
    {
        self.inner
    }

    /// Whether this code is valid per the PNG rules: all four bytes are
    /// ASCII letters and the reserved bit is clear (third byte uppercase).
    pub fn is_valid(&self) -> (r: bool)
        ensures
            r == spec_type_valid(self@),
    {
        let r = byte_is_alpha(self.inner[0]) && byte_is_alpha(self.inner[1]) && byte_is_alpha(
            self.inner[2],
        ) && byte_is_alpha(self.inner[3]) && self.is_reserved_bit_valid();
        assert(forall|i: int| 0 <= i < 4 ==> self@[i] == self.inner@[i]);
        assert(r == spec_type_valid(self@)) by {
            if r {
                assert forall|i: int| 0 <= i < 4 implies is_alpha(#[trigger] self@[i]) by {
                    assert(i == 0 || i == 1 || i == 2 || i == 3);
                }
            }
        }
        r
    }

    /// A chunk is critical when the first byte is uppercase.
    pub fn is_critical(&self) -> (r: bool)
        ensures
            r == is_upper(self@[0]),
    {
        byte_is_upper(self.inner[0])
    }

    /// A chunk is public when the second byte is uppercase.
    pub fn is_public(&self) -> (r: bool)
        ensures
            r == is_upper(self@[1]),
    {
        byte_is_upper(self.inner[1])
    }

    /// The reserved bit is valid when the third byte is uppercase.
    pub fn is_reserved_bit_valid(&self) -> (r: bool)
        ensures
            r == is_upper(self@[2]),
    {
        byte_is_upper(self.inner[2])
    }

    /// A chunk is safe to copy when the fourth byte is lowercase.
    pub fn is_safe_to_copy(&self) -> (r: bool)
        ensures
            r == is_lower(self@[3]),
    {
        byte_is_lower(self.inner[3])
    }

    /// Builds a type code from four raw bytes. Succeeds exactly when the
    /// strict rule holds (all letters, reserved bit clear); the returned
    /// code carries the given bytes unchanged.
    pub fn from_bytes(value: [u8; 4]) -> (r: Result<ChunkType, PngError>)
        ensures
            spec_type_valid(value@) ==> (r matches Ok(t) && t@ == value@),
            !spec_type_valid(value@) ==> r == Err::<ChunkType, PngError>(PngError::InvalidTypeCode),
    {
        let t = ChunkType { inner: value };
        if t.is_valid() {
            Ok(t)
        } else {
            Err(PngError::InvalidTypeCode)
        }
    }

    /// Builds a type code from a string. Succeeds exactly when the string
    /// is 4 bytes of ASCII letters; unlike `from_bytes` it does not check
    /// the reserved bit, so a syntactically well-formed but spec-invalid
    /// code can be constructed this way on purpose.
    pub fn from_string(s: &str) -> (r: Result<ChunkType, PngError>)
        ensures
            s.spec_bytes().len() != 4 ==> r == Err::<ChunkType, PngError>(PngError::WrongLength),
            (s.spec_bytes().len() == 4 && (forall|i: int|
                0 <= i < 4 ==> is_alpha(#[trigger] s.spec_bytes()[i]))) ==> (r matches Ok(t)
                && t@ == s.spec_bytes()),
            (s.spec_bytes().len() == 4 && !(forall|i: int|
                0 <= i < 4 ==> is_alpha(#[trigger] s.spec_bytes()[i]))) ==> (exists|i: int|
                0 <= i < 4 && !is_alpha(s.spec_bytes()[i]) && (forall|k: int|
                    0 <= k < i ==> is_alpha(#[trigger] s.spec_bytes()[k])) && r == Err::<
                    ChunkType,
                    PngError,
                >(PngError::InvalidCharacter(s.spec_bytes()[i]))),
    {
        let b: &[u8] = s.as_bytes();
        if b.len() != 4 {
            return Err(PngError::WrongLength);
        }
        let b0 = *vstd::slice::slice_index_get(b, 0);
        let b1 = *vstd::slice::slice_index_get(b, 1);
        let b2 = *vstd::slice::slice_index_get(b, 2);
        let b3 = *vstd::slice::slice_index_get(b, 3);
        if !byte_is_alpha(b0) {
            return Err(PngError::InvalidCharacter(b0));
        }
        if !byte_is_alpha(b1) {
            return Err(PngError::InvalidCharacter(b1));
        }
        if !byte_is_alpha(b2) {
            return Err(PngError::InvalidCharacter(b2));
        }
        if !byte_is_alpha(b3) {
            return Err(PngError::InvalidCharacter(b3));
        }
        let t = ChunkType { inner: [b0, b1, b2, b3] };
        proof {
            assert(t@ =~= s.spec_bytes());
        }
        Ok(t)
    }

    /// The code as a 4-character string; ASCII letters always decode, and
    /// a placeholder is returned for bytes that are not valid UTF-8.
    pub fn to_display_string(&self) -> (r: String)
        ensures
            vstd::utf8::valid_utf8(self@) ==> r@ == vstd::utf8::decode_utf8(self@),
    {
        let v = self.bytes_vec();
        match crate::text::utf8_from_bytes(v.as_slice()) {
            Some(s) => s.to_owned(),
            None => "Unknown".to_owned(),
        }
    }

    /// The four bytes of the code as a vector.
    fn bytes_vec(&self) -> (r: Vec<u8>)
        ensures
            r@ == self@,
    {
        let mut r: Vec<u8> = Vec::new();
        r.push(self.inner[0]);
        r.push(self.inner[1]);
        r.push(self.inner[2]);
        r.push(self.inner[3]);
        proof {
            assert(r@ =~= self@);
        }
        r
    }
}

/// `==` on type codes compares the four bytes.
impl PartialEq for ChunkType {
    fn eq(&self, other: &Self) -> (r: bool) {
        let r = self.inner[0] == other.inner[0] && self.inner[1] == other.inner[1]
            && self.inner[2] == other.inner[2] && self.inner[3] == other.inner[3];
        proof {
            if r {
                assert(self@ =~= other@);
            }
        }
        r
    }
}

impl vstd::std_specs::cmp::PartialEqSpecImpl for ChunkType {
    open spec fn obeys_eq_spec() -> bool {
        true
    }

    open spec fn eq_spec(&self, other: &Self) -> bool {
        self@ == other@
    }
}

impl Eq for ChunkType {}

} // verus!
