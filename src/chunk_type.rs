//! Four-byte chunk type codes and the property bits they carry.

use vstd::prelude::*;
use vstd::string::StringSliceAdditionalSpecFns;
use vstd::utf8::*;

verus! {

broadcast use vstd::utf8::group_utf8_lib;

/// Number of bytes in a chunk type code.
pub const CHUNK_TYPE_NUM_BYTES: usize = 4;

/// Why a chunk type code was rejected.
#[derive(Debug, PartialEq, Eq, Clone, Copy, Structural)]
pub enum ChunkTypeError {
    /// A byte of the code is not an ASCII letter.
    NonAlphabetic,
    /// The text is not exactly four bytes long.
    InvalidLength,
}

/// An ASCII letter, upper or lower case.
pub open spec fn is_ascii_letter(b: u8) -> bool {
    (65 <= b && b <= 90) || (97 <= b && b <= 122)
}

/// Four bytes, each an ASCII letter: the codes that can be built.
pub open spec fn is_type_code(code: Seq<u8>) -> bool {
    code.len() == 4 && forall|i: int| 0 <= i < 4 ==> is_ascii_letter(#[trigger] code[i])
}

/// Bit five (value 0x20) of a byte, the flag bit of each code byte.
pub open spec fn bit_five_high(b: u8) -> bool {
    b & 0x20u8 != 0
}

/// The code's bytes read as characters, one character per byte.
pub open spec fn code_text(code: Seq<u8>) -> Seq<char> {
    code.map_values(|b: u8| b as char)
}

/// A four-byte chunk type code made of ASCII letters.
#[derive(Debug, PartialEq, Eq)]
pub struct ChunkType {
    data: [u8; 4],
}

impl View for ChunkType {
    type V = Seq<u8>;

    closed spec fn view(&self) -> Seq<u8> {
        self.data@
    }
}

/// Bytes below 128 are valid UTF-8 and decode to one character each.
proof fn lemma_ascii_decodes(bytes: Seq<u8>)
    requires
        forall|i: int| 0 <= i < bytes.len() ==> #[trigger] bytes[i] < 128,
    ensures
        valid_utf8(bytes),
        decode_utf8(bytes) == code_text(bytes),
{
    let chars = code_text(bytes);
    assert(is_ascii_chars(chars));
    is_ascii_chars_encode_utf8(chars);
    assert(encode_utf8(chars) =~= bytes);
}

impl ChunkType {
    #[verifier::type_invariant]
    spec fn inv(&self) -> bool {
        is_type_code(self.data@)
    }

    /// The raw four bytes of the code.
    pub fn bytes(&self) -> (r: [u8; 4])
        ensures
            r@ == self@,
            is_type_code(r@),
    {
        proof {
            use_type_invariant(self);
        }
        self.data
    }

    fn is_letter(b: u8) -> (r: bool)
        ensures
            r == is_ascii_letter(b),
    {
        (65 <= b && b <= 90) || (97 <= b && b <= 122)
    }

    fn are_valid_bytes(bytes: [u8; 4]) -> (r: bool)
        ensures
            r == is_type_code(bytes@),
    {
        let mut i: usize = 0;
        while i < 4
            invariant
                0 <= i <= 4,
                forall|j: int| 0 <= j < i ==> is_ascii_letter(#[trigger] bytes@[j]),
            decreases 4 - i,
        {
            if !Self::is_letter(bytes[i]) {
                return false;
            }
            i = i + 1;
        }
        true
    }

    fn is_bit_five_high(byte: u8) -> (r: bool)
        ensures
            r == bit_five_high(byte),
    {
        (byte & 0x20u8) != 0
    }

    /// A code whose bytes are letters and whose reserved bit is clear.
    pub fn is_valid(&self) -> (r: bool)
        ensures
            r == (is_type_code(self@) && !bit_five_high(self@[2])),
    {
        Self::are_valid_bytes(self.data) && self.is_reserved_bit_valid()
    }

    /// Critical chunks have bit five of the first byte clear.
    pub fn is_critical(&self) -> (r: bool)
        ensures
            r == !bit_five_high(self@[0]),
    {
        !Self::is_bit_five_high(self.data[0])
    }

    /// Public chunks have bit five of the second byte clear.
    pub fn is_public(&self) -> (r: bool)
        ensures
            r == !bit_five_high(self@[1]),
    {
        !Self::is_bit_five_high(self.data[1])
    }

    /// The reserved bit, bit five of the third byte, must be clear.
    pub fn is_reserved_bit_valid(&self) -> (r: bool)
        ensures
            r == !bit_five_high(self@[2]),
    {
        !Self::is_bit_five_high(self.data[2])
    }

    /// Safe-to-copy chunks have bit five of the fourth byte set.
    pub fn is_safe_to_copy(&self) -> (r: bool)
        ensures
            r == bit_five_high(self@[3]),
    {
        Self::is_bit_five_high(self.data[3])
    }

    /// Builds a code from four bytes, which must all be ASCII letters.
    pub fn try_from(value: [u8; 4]) -> (r: Result<ChunkType, ChunkTypeError>)
        ensures
            is_type_code(value@) ==> (r matches Ok(t) && t@ == value@),
            !is_type_code(value@) ==> r == Err::<ChunkType, ChunkTypeError>(
                ChunkTypeError::NonAlphabetic,
            ),
    {
        if Self::are_valid_bytes(value) {
            Ok(ChunkType { data: value })
        } else {
            Err(ChunkTypeError::NonAlphabetic)
        }
    }

    /// Builds a code from text, which must be exactly four bytes long.
    pub fn from_str(s: &str) -> (r: Result<ChunkType, ChunkTypeError>)
        ensures
            s.spec_bytes().len() != 4 ==> r == Err::<ChunkType, ChunkTypeError>(
                ChunkTypeError::InvalidLength,
            ),
            s.spec_bytes().len() == 4 && is_type_code(s.spec_bytes()) ==> (r matches Ok(t)
                && t@ == s.spec_bytes()),
            s.spec_bytes().len() == 4 && !is_type_code(s.spec_bytes()) ==> r == Err::<
                ChunkType,
                ChunkTypeError,
            >(ChunkTypeError::NonAlphabetic),
    {
        let b = s.as_bytes();
        if b.len() != CHUNK_TYPE_NUM_BYTES {
            return Err(ChunkTypeError::InvalidLength);
        }
        let value: [u8; 4] = [b[0], b[1], b[2], b[3]];
        assert(value@ =~= s.spec_bytes());
        Self::try_from(value)
    }

    /// The code as text: four ASCII letters.
    pub fn to_string(&self) -> (r: String)
        ensures
            r@ == code_text(self@),
    {
        proof {
            use_type_invariant(self);
            lemma_ascii_decodes(self.data@);
        }
        let bytes = vstd::slice::slice_to_vec(self.data.as_slice());
        match crate::text::utf8_to_string(bytes) {
            Ok(s) => s,
            // Not reached: letters are valid UTF-8.
            Err(_) => String::new(),
        }
    }
}

impl TryFrom<[u8; 4]> for ChunkType {
    type Error = ChunkTypeError;

    fn try_from(value: [u8; 4]) -> Result<ChunkType, ChunkTypeError> {
        let r = ChunkType::try_from(value);
        proof {
            if r is Ok {
                assert(r->Ok_0.data =~= value);
            }
        }
        r
    }
}

impl vstd::std_specs::convert::TryFromSpecImpl<[u8; 4]> for ChunkType {
    open spec fn obeys_try_from_spec() -> bool {
        true
    }

    closed spec fn try_from_spec(value: [u8; 4]) -> Result<ChunkType, ChunkTypeError> {
        if is_type_code(value@) {
            Ok(ChunkType { data: value })
        } else {
            Err(ChunkTypeError::NonAlphabetic)
        }
    }
}

impl std::str::FromStr for ChunkType {
    type Err = ChunkTypeError;

    fn from_str(s: &str) -> Result<ChunkType, ChunkTypeError> {
        ChunkType::from_str(s)
    }
}

} // verus!
