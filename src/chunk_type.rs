use crate::error::PngError;
use crate::text::{ascii_chars, lemma_ascii_utf8, string_from_utf8};
use vstd::prelude::*;

verus! {

/// The bit that carries a flag in each byte of a chunk type: the ASCII
/// lowercase bit.
pub const BIT_FIVE: u8 = 32;

pub open spec fn is_alpha_byte(b: u8) -> bool {
    (65 <= b && b <= 90) || (97 <= b && b <= 122)
}

pub open spec fn is_alpha_char(c: char) -> bool {
    ('A' <= c && c <= 'Z') || ('a' <= c && c <= 'z')
}

/// Whether bit five of `b` is set.
pub open spec fn bit_five(b: u8) -> bool {
    b & 32u8 == 32u8
}

pub open spec fn all_alpha(b: Seq<u8>) -> bool {
    forall|i: int| 0 <= i < b.len() ==> is_alpha_byte(#[trigger] b[i])
}

/// A four-byte chunk type code. Every byte is an ASCII letter, and the case
/// of each letter carries one flag.
#[derive(Clone, Copy, Debug, Eq)]
pub struct ChunkType {
    pub(crate) name: [u8; 4],
}

impl View for ChunkType {
    type V = Seq<u8>;

    closed spec fn view(&self) -> Seq<u8> {
        self.name@
    }
}

impl ChunkType {
    /// Every byte is an ASCII letter.
    pub open spec fn wf(&self) -> bool {
        all_alpha(self@)
    }

    /// The code as text: one character per byte.
    pub open spec fn text(&self) -> Seq<char> {
        ascii_chars(self@)
    }

    /// Builds a chunk type from four bytes, each of which must be an ASCII letter.
    pub fn from_bytes(bytes: [u8; 4]) -> (r: Result<ChunkType, PngError>)
        ensures
            r is Ok <==> all_alpha(bytes@),
            r matches Ok(t) ==> t@ == bytes@ && t.wf(),
            r matches Err(e) ==> e == PngError::InvalidFormat,
    {
        let mut i: usize = 0;
        while i < 4
            invariant
                0 <= i <= 4,
                bytes@.len() == 4,
                forall|j: int| 0 <= j < i ==> is_alpha_byte(#[trigger] bytes@[j]),
            decreases 4 - i,
        {
            let b = bytes[i];
            if !((65 <= b && b <= 90) || (97 <= b && b <= 122)) {
                return Err(PngError::InvalidFormat);
            }
            i = i + 1;
        }
        Ok(ChunkType { name: bytes })
    }

    /// Parses a chunk type from text: exactly four ASCII letters.
    pub fn from_str(s: &str) -> (r: Result<ChunkType, PngError>)
        ensures
            r is Ok <==> (s@.len() == 4 && forall|i: int|
                0 <= i < 4 ==> is_alpha_char(#[trigger] s@[i])),
            r matches Ok(t) ==> t.text() == s@ && t.wf(),
            r matches Err(e) ==> e == PngError::InvalidFormat,
    {
        if !s.is_ascii() {
            proof {
                if s@.len() == 4 && forall|i: int| 0 <= i < 4 ==> is_alpha_char(#[trigger] s@[i]) {
                    assert(vstd::utf8::is_ascii_chars(s@));
                }
            }
            return Err(PngError::InvalidFormat);
        }
        let b = s.as_bytes();
        proof {
            vstd::string::is_ascii_spec_bytes(s);
        }
        if b.len() != 4 {
            return Err(PngError::InvalidFormat);
        }
        let bytes: [u8; 4] = [b[0], b[1], b[2], b[3]];
        proof {
            assert(bytes@ =~= b@);
            assert forall|i: int| 0 <= i < 4 implies is_alpha_byte(#[trigger] bytes@[i])
                == is_alpha_char(s@[i]) by {
                vstd::utf8::is_ascii_chars_nat_bound(s@);
            }
            assert(ascii_chars(b@) =~= s@) by {
                vstd::utf8::is_ascii_chars_nat_bound(s@);
            }
        }
        ChunkType::from_bytes(bytes)
    }

    /// The raw four-byte code.
    pub fn bytes(&self) -> (r: [u8; 4])
        ensures
            r@ == self@,
    {
        self.name
    }

    /// Whether the code is valid: its reserved bit is clear. That every byte
    /// is a letter is already known from construction.
    pub fn is_valid(&self) -> (r: bool)
        ensures
            r == !bit_five(self@[2]),
    {
        self.is_reserved_bit_valid()
    }

    /// Critical chunks have bit five of the first byte clear.
    pub fn is_critical(&self) -> (r: bool)
        ensures
            r == !bit_five(self@[0]),
    {
        self.name[0] & BIT_FIVE != BIT_FIVE
    }

    /// Public chunks have bit five of the second byte clear.
    pub fn is_public(&self) -> (r: bool)
        ensures
            r == !bit_five(self@[1]),
    {
        self.name[1] & BIT_FIVE != BIT_FIVE
    }

    /// The reserved bit, bit five of the third byte, must be clear.
    pub fn is_reserved_bit_valid(&self) -> (r: bool)
        ensures
            r == !bit_five(self@[2]),
    {
        self.name[2] & BIT_FIVE != BIT_FIVE
    }

    /// Chunks that are safe to copy have bit five of the fourth byte set.
    pub fn is_safe_to_copy(&self) -> (r: bool)
        ensures
            r == bit_five(self@[3]),
    {
        self.name[3] & BIT_FIVE == BIT_FIVE
    }

    /// The code as text.
    pub fn to_string(&self) -> (r: String)
        requires
            self.wf(),
        ensures
            r@ == self.text(),
    {
        let v: Vec<u8> = vec![self.name[0], self.name[1], self.name[2], self.name[3]];
        proof {
            assert(v@ =~= self@);
            lemma_ascii_utf8(v@);
        }
        match string_from_utf8(v) {
            Some(s) => s,
            None => String::new(),
        }
    }
}

/// Two chunk types are equal when their four bytes are.
impl PartialEq for ChunkType {
    fn eq(&self, other: &ChunkType) -> (r: bool) {
        let r = self.name[0] == other.name[0] && self.name[1] == other.name[1]
            && self.name[2] == other.name[2] && self.name[3] == other.name[3];
        proof {
            if r {
                assert(self@ =~= other@);
            }
        }
        r
    }
}

impl vstd::std_specs::cmp::PartialEqSpecImpl for ChunkType {
    open spec fn obeys_eq_spec() -> bool {
        true
    }

    open spec fn eq_spec(&self, other: &ChunkType) -> bool {
        self@ == other@
    }
}

impl TryFrom<[u8; 4]> for ChunkType {
    type Error = PngError;

    fn try_from(bytes: [u8; 4]) -> (r: Result<ChunkType, PngError>)
        ensures
            r is Ok <==> all_alpha(bytes@),
            r matches Ok(t) ==> t@ == bytes@ && t.wf(),
            r matches Err(e) ==> e == PngError::InvalidFormat,
    {
        ChunkType::from_bytes(bytes)
    }
}

impl vstd::std_specs::convert::TryFromSpecImpl<[u8; 4]> for ChunkType {
    open spec fn obeys_try_from_spec() -> bool {
        false
    }

    open spec fn try_from_spec(bytes: [u8; 4]) -> Result<ChunkType, PngError> {
        arbitrary()
    }
}

impl std::str::FromStr for ChunkType {
    type Err = PngError;

    fn from_str(s: &str) -> (r: Result<ChunkType, PngError>)
        ensures
            r is Ok <==> (s@.len() == 4 && forall|i: int|
                0 <= i < 4 ==> is_alpha_char(#[trigger] s@[i])),
            r matches Ok(t) ==> t.text() == s@ && t.wf(),
            r matches Err(e) ==> e == PngError::InvalidFormat,
    {
        ChunkType::from_str(s)
    }
}

} // verus!
