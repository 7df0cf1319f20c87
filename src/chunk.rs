//! Chunks: length-prefixed, typed records closed by a CRC-32 checksum.
//!
//! On the wire a chunk is `length (4 bytes, big-endian) ++ type (4 bytes)
//! ++ data (length bytes) ++ crc (4 bytes, big-endian)`, where the crc is the
//! CRC-32/ISO-HDLC checksum of the type bytes followed by the data.

use crate::chunk_type::{is_type_code, ChunkType, ChunkTypeError};
use crate::text::utf8_to_string;
use vstd::prelude::*;
use vstd::utf8::*;

verus! {

/// Bytes taken by the length field.
pub const CHUNK_LENGTH_NUM_BYTES: usize = 4;

/// Bytes taken by the checksum field.
pub const CHUNK_CHECK_NUM_BYTES: usize = 4;

/// Bytes of a chunk besides its data: length, type and checksum.
pub const CHUNK_METADATA_NUM_BYTES: usize = 12;

/// Why a byte buffer does not hold a chunk.
#[derive(Debug, PartialEq, Eq, Clone, Copy, Structural)]
pub enum ChunkError {
    /// The type field is not a valid chunk type code.
    BadType(ChunkTypeError),
    /// The buffer, of the given length, ends before the chunk does.
    InsufficientBytes(usize),
    /// The stored checksum differs from the one computed over type and data.
    BadChecksum { expected: u32, actual: u32 },
}

/// What a chunk holds: its type code and its data. The length and the
/// checksum follow from these two.
pub struct ChunkView {
    pub kind: Seq<u8>,
    pub data: Seq<u8>,
}

/// The CRC-32/ISO-HDLC checksum of a byte sequence.
pub uninterp spec fn crc32_iso_hdlc(bytes: Seq<u8>) -> u32;

/// Relies on `crc::Crc::<u32>::checksum` over the `CRC_32_ISO_HDLC`
/// algorithm: the checksum is a function of the bytes alone.
#[verifier::external_body]
fn crc32_checksum(bytes: &[u8]) -> (r: u32)
    ensures
        r == crc32_iso_hdlc(bytes@),
{
    crc::Crc::<u32>::new(&crc::CRC_32_ISO_HDLC).checksum(bytes)
}

/// The checksum that a chunk of this type and data carries.
pub open spec fn chunk_checksum(kind: Seq<u8>, data: Seq<u8>) -> u32 {
    crc32_iso_hdlc(kind + data)
}

/// The four big-endian bytes of `n`.
pub open spec fn be_bytes(n: u32) -> Seq<u8> {
    seq![
        (n / 0x100_0000) as u8,
        (n / 0x1_0000 % 0x100) as u8,
        (n / 0x100 % 0x100) as u8,
        (n % 0x100) as u8,
    ]
}

/// The number that four bytes give when read big-endian.
pub open spec fn be_value(b: Seq<u8>) -> u32 {
    (b[0] as int * 0x100_0000 + b[1] as int * 0x1_0000 + b[2] as int * 0x100 + b[3] as int) as u32
}

/// The wire form of a chunk.
pub open spec fn encode_chunk(c: ChunkView) -> Seq<u8> {
    be_bytes(c.data.len() as u32) + c.kind + c.data + be_bytes(chunk_checksum(c.kind, c.data))
}

/// Number of bytes that the chunk at the start of `b` declares it takes.
pub open spec fn declared_size(b: Seq<u8>) -> int {
    12 + be_value(b.subrange(0, 4)) as int
}

/// The chunk at the start of `b`, or why there is none. Bytes after the
/// chunk's checksum are not looked at.
pub open spec fn decode_chunk(b: Seq<u8>) -> Result<ChunkView, ChunkError> {
    if b.len() < 12 {
        Err(ChunkError::InsufficientBytes(b.len() as usize))
    } else if !is_type_code(b.subrange(4, 8)) {
        Err(ChunkError::BadType(ChunkTypeError::NonAlphabetic))
    } else if b.len() < declared_size(b) {
        Err(ChunkError::InsufficientBytes(b.len() as usize))
    } else {
        let end = declared_size(b) - 4;
        let kind = b.subrange(4, 8);
        let data = b.subrange(8, end);
        let expected = chunk_checksum(kind, data);
        let actual = be_value(b.subrange(end, end + 4));
        if expected == actual {
            Ok(ChunkView { kind, data })
        } else {
            Err(ChunkError::BadChecksum { expected, actual })
        }
    }
}

/// Reading back the big-endian bytes of a number gives the number.
pub proof fn lemma_be_round_trip(n: u32)
    ensures
        be_bytes(n).len() == 4,
        be_value(be_bytes(n)) == n,
{
    let b = be_bytes(n);
    assert(b[0] as int == n as int / 0x100_0000);
    assert(b[1] as int == n as int / 0x1_0000 % 0x100);
    assert(b[2] as int == n as int / 0x100 % 0x100);
    assert(b[3] as int == n as int % 0x100);
    assert((n as int / 0x100_0000) * 0x100_0000 + (n as int / 0x1_0000 % 0x100) * 0x1_0000 + (
    n as int / 0x100 % 0x100) * 0x100 + n as int % 0x100 == n as int) by (nonlinear_arith);
}

/// A chunk that can be written out: a valid type code and a length that
/// fits the length field.
pub open spec fn is_encodable(c: ChunkView) -> bool {
    is_type_code(c.kind) && c.data.len() <= u32::MAX
}

/// The wire form of a chunk, followed by any bytes, decodes to that chunk,
/// and declares exactly its own size.
pub proof fn lemma_decode_prefix(c: ChunkView, tail: Seq<u8>)
    requires
        is_encodable(c),
    ensures
        declared_size(encode_chunk(c) + tail) == encode_chunk(c).len(),
        decode_chunk(encode_chunk(c) + tail) == Ok::<ChunkView, ChunkError>(c),
{
    let b = encode_chunk(c) + tail;
    let n = c.data.len() as u32;
    let end: int = 8 + c.data.len() as int;
    lemma_be_round_trip(n);
    lemma_be_round_trip(chunk_checksum(c.kind, c.data));
    assert(b.subrange(0, 4) =~= be_bytes(n));
    assert(b.subrange(4, 8) =~= c.kind);
    assert(b.subrange(8, end) =~= c.data);
    assert(b.subrange(end, end + 4) =~= be_bytes(chunk_checksum(c.kind, c.data)));
    assert(c == ChunkView { kind: c.kind, data: c.data });
}

/// Decoding the wire form of a chunk of any valid type and any data gives
/// back that chunk: same type and data, hence same length and checksum.
pub proof fn lemma_round_trip(kind: Seq<u8>, data: Seq<u8>)
    requires
        is_type_code(kind),
        data.len() <= u32::MAX,
    ensures
        decode_chunk(encode_chunk(ChunkView { kind, data })) == Ok::<ChunkView, ChunkError>(
            ChunkView { kind, data },
        ),
{
    let c = ChunkView { kind, data };
    lemma_decode_prefix(c, Seq::empty());
    assert(encode_chunk(c) + Seq::<u8>::empty() =~= encode_chunk(c));
}

/// A chunk whose declared length runs past the end of the buffer is
/// refused with `InsufficientBytes`, whatever the buffer holds after its
/// type field. (Where the type field is not a valid code, the type is
/// refused first.)
pub proof fn lemma_length_enforced(b: Seq<u8>)
    requires
        b.len() >= 8,
        is_type_code(b.subrange(4, 8)),
        be_value(b.subrange(0, 4)) as int > b.len() - 8,
    ensures
        decode_chunk(b) == Err::<ChunkView, ChunkError>(ChunkError::InsufficientBytes(b.len() as usize)),
{
}

/// Flipping one bit of the type or data of an encoded chunk, length and
/// checksum fields left as they were, while the type stays a valid code:
/// decoding then reaches the checksum test, and fails with `BadChecksum`
/// unless the checksum of the altered type and data equals the stored one.
pub proof fn lemma_bit_flip_reaches_checksum(kind: Seq<u8>, data: Seq<u8>, pos: int, bit: u32)
    requires
        is_type_code(kind),
        data.len() <= u32::MAX,
        0 <= pos < 4 + data.len(),
        bit < 8,
        is_type_code(flip_bit(encode_chunk(ChunkView { kind, data }), 4 + pos, bit).subrange(4, 8)),
    ensures
        ({
            let f = flip_bit(encode_chunk(ChunkView { kind, data }), 4 + pos, bit);
            let kind2 = f.subrange(4, 8);
            let data2 = f.subrange(8, 8 + data.len() as int);
            let stored = chunk_checksum(kind, data);
            let computed = chunk_checksum(kind2, data2);
            &&& f[4 + pos] != encode_chunk(ChunkView { kind, data })[4 + pos]
            &&& computed != stored ==> decode_chunk(f) == Err::<ChunkView, ChunkError>(
                ChunkError::BadChecksum { expected: computed, actual: stored },
            )
            &&& computed == stored ==> decode_chunk(f) == Ok::<ChunkView, ChunkError>(
                ChunkView { kind: kind2, data: data2 },
            )
        }),
{
    let c = ChunkView { kind, data };
    let b = encode_chunk(c);
    let f = flip_bit(b, 4 + pos, bit);
    let n = data.len() as u32;
    let end: int = 8 + data.len() as int;
    lemma_be_round_trip(n);
    lemma_be_round_trip(chunk_checksum(kind, data));
    assert(f.subrange(0, 4) =~= be_bytes(n));
    assert(f.subrange(end, end + 4) =~= be_bytes(chunk_checksum(kind, data)));
    let x = b[4 + pos];
    assert(x ^ (1u8 << bit as u8) != x) by (bit_vector)
        requires
            bit < 8,
    ;
}

/// `b` with bit number `bit` (0 the lowest) of byte `pos` inverted.
pub open spec fn flip_bit(b: Seq<u8>, pos: int, bit: u32) -> Seq<u8> {
    b.update(pos, b[pos] ^ (1u8 << bit as u8))
}

/// A chunk whose length and checksum agree with its type and data.
pub struct Chunk {
    length: u32,
    chunk_type: ChunkType,
    data: Vec<u8>,
    checksum: u32,
}

impl View for Chunk {
    type V = ChunkView;

    closed spec fn view(&self) -> ChunkView {
        ChunkView { kind: self.chunk_type@, data: self.data@ }
    }
}

/// Appends `b` to `out`.
fn append_bytes(out: &mut Vec<u8>, b: &[u8])
    ensures
        final(out)@ == old(out)@ + b@,
{
    let mut i: usize = 0;
    while i < b.len()
        invariant
            0 <= i <= b@.len(),
            out@ == old(out)@ + b@.subrange(0, i as int),
        decreases b@.len() - i,
    {
        out.push(b[i]);
        i = i + 1;
        assert(out@ =~= old(out)@ + b@.subrange(0, i as int));
    }
    assert(b@.subrange(0, b@.len() as int) =~= b@);
}

/// Appends the four big-endian bytes of `n` to `out`.
fn append_be_u32(out: &mut Vec<u8>, n: u32)
    ensures
        final(out)@ == old(out)@ + be_bytes(n),
{
    out.push((n / 0x100_0000) as u8);
    out.push((n / 0x1_0000 % 0x100) as u8);
    out.push((n / 0x100 % 0x100) as u8);
    out.push((n % 0x100) as u8);
    assert(out@ =~= old(out)@ + be_bytes(n));
}

/// Reads the big-endian number in `b[at..at + 4]`.
fn read_be_u32(b: &[u8], at: usize) -> (r: u32)
    requires
        at + 4 <= b@.len(),
    ensures
        r == be_value(b@.subrange(at as int, at + 4)),
{
    (b[at] as u32) * 0x100_0000 + (b[at + 1] as u32) * 0x1_0000 + (b[at + 2] as u32) * 0x100 + (
    b[at + 3] as u32)
}

impl Chunk {
    #[verifier::type_invariant]
    spec fn inv(&self) -> bool {
        &&& self.length as int == self.data@.len()
        &&& self.checksum == chunk_checksum(self.chunk_type@, self.data@)
        &&& is_type_code(self.chunk_type@)
    }

    /// Makes a chunk of the given type around `data`, computing its length
    /// and checksum.
    pub fn new(chunk_type: ChunkType, data: Vec<u8>) -> (r: Chunk)
        requires
            data@.len() <= u32::MAX,
        ensures
            r@ == (ChunkView { kind: chunk_type@, data: data@ }),
    {
        let kind = chunk_type.bytes();
        let mut covered: Vec<u8> = Vec::new();
        append_bytes(&mut covered, kind.as_slice());
        append_bytes(&mut covered, data.as_slice());
        let checksum = crc32_checksum(covered.as_slice());
        Chunk { length: data.len() as u32, chunk_type, data, checksum }
    }

    /// Number of data bytes.
    pub fn length(&self) -> (r: u32)
        ensures
            r as int == self@.data.len(),
    {
        proof {
            use_type_invariant(self);
        }
        self.length
    }

    /// The chunk's type code.
    pub fn chunk_type(&self) -> (r: &ChunkType)
        ensures
            r@ == self@.kind,
    {
        &self.chunk_type
    }

    /// The chunk's data.
    pub fn data(&self) -> (r: &[u8])
        ensures
            r@ == self@.data,
    {
        self.data.as_slice()
    }

    /// The checksum over type and data.
    pub fn crc(&self) -> (r: u32)
        ensures
            r == chunk_checksum(self@.kind, self@.data),
    {
        proof {
            use_type_invariant(self);
        }
        self.checksum
    }

    /// The data read as UTF-8 text; fails where the data is not UTF-8.
    pub fn data_as_string(&self) -> (r: Result<String, std::string::FromUtf8Error>)
        ensures
            r is Ok <==> valid_utf8(self@.data),
            r matches Ok(s) ==> s@ == decode_utf8(self@.data),
    {
        utf8_to_string(vstd::slice::slice_to_vec(self.data.as_slice()))
    }

    /// The chunk's wire form.
    pub fn as_bytes(&self) -> (r: Vec<u8>)
        ensures
            r@ == encode_chunk(self@),
    {
        proof {
            use_type_invariant(self);
        }
        let kind = self.chunk_type.bytes();
        let mut out: Vec<u8> = Vec::new();
        append_be_u32(&mut out, self.length);
        append_bytes(&mut out, kind.as_slice());
        append_bytes(&mut out, self.data.as_slice());
        append_be_u32(&mut out, self.checksum);
        out
    }

    /// Reads the chunk at the start of `value`, checking its length, type
    /// and checksum.
    pub fn try_from(value: &[u8]) -> (r: Result<Chunk, ChunkError>)
        ensures
            r matches Ok(c) ==> decode_chunk(value@) == Ok::<ChunkView, ChunkError>(c@),
            r matches Err(e) ==> decode_chunk(value@) == Err::<ChunkView, ChunkError>(e),
    {
        let value_len = value.len();
        if value_len < CHUNK_METADATA_NUM_BYTES {
            return Err(ChunkError::InsufficientBytes(value_len));
        }
        let length = read_be_u32(value, 0);
        let kind: [u8; 4] = [value[4], value[5], value[6], value[7]];
        assert(kind@ =~= value@.subrange(4, 8));
        let chunk_type = match ChunkType::try_from(kind) {
            Ok(t) => t,
            Err(e) => {
                return Err(ChunkError::BadType(e));
            },
        };
        if value_len - CHUNK_METADATA_NUM_BYTES < length as usize {
            return Err(ChunkError::InsufficientBytes(value_len));
        }
        let end = 8 + length as usize;
        let data = vstd::slice::slice_to_vec(&value[8..end]);
        let actual = read_be_u32(value, end);
        let chunk = Chunk::new(chunk_type, data);
        let expected = chunk.crc();
        if expected == actual {
            Ok(chunk)
        } else {
            Err(ChunkError::BadChecksum { expected, actual })
        }
    }
}

impl<'a> TryFrom<&'a [u8]> for Chunk {
    type Error = ChunkError;

    fn try_from(value: &'a [u8]) -> Result<Chunk, ChunkError> {
        Chunk::try_from(value)
    }
}

/// The conversion's outcome is stated by the inherent `Chunk::try_from`, over
/// the chunk's view: two chunks with one view are not told apart here.
impl<'a> vstd::std_specs::convert::TryFromSpecImpl<&'a [u8]> for Chunk {
    open spec fn obeys_try_from_spec() -> bool {
        false
    }

    open spec fn try_from_spec(value: &'a [u8]) -> Result<Chunk, ChunkError> {
        arbitrary()
    }
}

} // verus!
