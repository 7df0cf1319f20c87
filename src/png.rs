//! A PNG file as a signature followed by an ordered sequence of chunks.

use crate::chunk::{
    declared_size, decode_chunk, encode_chunk, is_encodable, lemma_decode_prefix, Chunk, ChunkError,
    ChunkView,
};
use vstd::prelude::*;
use vstd::string::StringSliceAdditionalSpecFns;

verus! {

/// The eight bytes that every PNG file starts with.
pub const STANDARD_HEADER: [u8; 8] = [137, 80, 78, 71, 13, 10, 26, 10];

/// The PNG signature as a sequence.
pub open spec fn signature() -> Seq<u8> {
    seq![137u8, 80u8, 78u8, 71u8, 13u8, 10u8, 26u8, 10u8]
}

/// Why a buffer cannot be read as a PNG file, or a chunk cannot be taken out.
#[derive(Debug, PartialEq, Eq, Clone, Copy, Structural)]
pub enum PngError {
    /// The buffer does not start with the PNG signature.
    BadSignature,
    /// A chunk after the signature could not be read.
    BadChunk(ChunkError),
    /// No chunk has the requested type.
    ChunkTypeNotFound,
}

/// The chunks that follow one another from the start of `b` to its end, or
/// the error of the first one that cannot be read.
pub open spec fn decode_chunks(b: Seq<u8>) -> Result<Seq<ChunkView>, ChunkError>
    decreases b.len(),
{
    if b.len() == 0 {
        Ok(Seq::empty())
    } else {
        match decode_chunk(b) {
            Err(e) => Err(e),
            Ok(c) => match decode_chunks(b.subrange(declared_size(b), b.len() as int)) {
                Ok(rest) => Ok(seq![c] + rest),
                Err(e) => Err(e),
            },
        }
    }
}

/// The chunks of a PNG file held in `b`, or why there are none.
pub open spec fn decode_png(b: Seq<u8>) -> Result<Seq<ChunkView>, PngError> {
    if b.len() < 8 || b.subrange(0, 8) != signature() {
        Err(PngError::BadSignature)
    } else {
        match decode_chunks(b.subrange(8, b.len() as int)) {
            Ok(s) => Ok(s),
            Err(e) => Err(PngError::BadChunk(e)),
        }
    }
}

/// The wire forms of the chunks, one after the other.
pub open spec fn encode_chunks(s: Seq<ChunkView>) -> Seq<u8>
    decreases s.len(),
{
    if s.len() == 0 {
        Seq::empty()
    } else {
        encode_chunks(s.drop_last()) + encode_chunk(s.last())
    }
}

/// A PNG file's bytes: the signature, then each chunk in order.
pub open spec fn encode_png(s: Seq<ChunkView>) -> Seq<u8> {
    signature() + encode_chunks(s)
}

/// The chunk's type code is the given name's bytes.
pub open spec fn has_type(c: ChunkView, name: Seq<u8>) -> bool {
    c.kind == name
}

/// `i` is the position of the first chunk of type `name` in `s`.
pub open spec fn is_first_match(s: Seq<ChunkView>, name: Seq<u8>, i: int) -> bool {
    &&& 0 <= i < s.len()
    &&& has_type(s[i], name)
    &&& forall|j: int| 0 <= j < i ==> !has_type(#[trigger] s[j], name)
}

/// No chunk of `s` has type `name`.
pub open spec fn no_match(s: Seq<ChunkView>, name: Seq<u8>) -> bool {
    forall|j: int| 0 <= j < s.len() ==> !has_type(#[trigger] s[j], name)
}

/// What each chunk of `s` holds.
pub open spec fn views(s: Seq<Chunk>) -> Seq<ChunkView> {
    s.map_values(|c: Chunk| c@)
}

/// `r` with `p` put in front of its chunks.
pub open spec fn prepend(p: Seq<ChunkView>, r: Result<Seq<ChunkView>, ChunkError>) -> Result<
    Seq<ChunkView>,
    ChunkError,
> {
    match r {
        Ok(s) => Ok(p + s),
        Err(e) => Err(e),
    }
}

/// Writing out a chunk in front of others writes it first.
proof fn lemma_encode_chunks_front(c: ChunkView, rest: Seq<ChunkView>)
    ensures
        encode_chunks(seq![c] + rest) == encode_chunk(c) + encode_chunks(rest),
    decreases rest.len(),
{
    let s = seq![c] + rest;
    if rest.len() == 0 {
        assert(s.drop_last() =~= Seq::<ChunkView>::empty());
        assert(s.last() == c);
        assert(encode_chunks(s) == encode_chunks(s.drop_last()) + encode_chunk(s.last()));
        assert(encode_chunks(s.drop_last()) == Seq::<u8>::empty());
        assert(encode_chunks(rest) == Seq::<u8>::empty());
        assert(encode_chunks(s) =~= encode_chunk(c) + encode_chunks(rest));
    } else {
        assert(s.drop_last() =~= seq![c] + rest.drop_last());
        assert(s.last() == rest.last());
        lemma_encode_chunks_front(c, rest.drop_last());
        assert(encode_chunks(s) == encode_chunks(s.drop_last()) + encode_chunk(s.last()));
        assert(encode_chunks(rest) == encode_chunks(rest.drop_last()) + encode_chunk(rest.last()));
        assert(encode_chunks(s) =~= encode_chunk(c) + encode_chunks(rest));
    }
}

/// Chunks that can be written out decode back from their written form.
proof fn lemma_decode_encoded_chunks(s: Seq<ChunkView>)
    requires
        forall|i: int| 0 <= i < s.len() ==> is_encodable(#[trigger] s[i]),
    ensures
        decode_chunks(encode_chunks(s)) == Ok::<Seq<ChunkView>, ChunkError>(s),
    decreases s.len(),
{
    if s.len() > 0 {
        let c = s[0];
        let rest = s.drop_first();
        assert(s =~= seq![c] + rest);
        lemma_encode_chunks_front(c, rest);
        let b = encode_chunks(s);
        lemma_decode_prefix(c, encode_chunks(rest));
        assert(b.subrange(declared_size(b), b.len() as int) =~= encode_chunks(rest));
        assert forall|i: int| 0 <= i < rest.len() implies is_encodable(#[trigger] rest[i]) by {
            assert(rest[i] == s[i + 1]);
        }
        lemma_decode_encoded_chunks(rest);
        assert(b.len() > 0);
        assert(decode_chunk(b) == Ok::<ChunkView, ChunkError>(c));
        assert(decode_chunks(b) == Ok::<Seq<ChunkView>, ChunkError>(seq![c] + rest));
    } else {
        assert(s =~= Seq::<ChunkView>::empty());
    }
}

/// Reading a written-out PNG file gives back its chunks, in order.
pub proof fn lemma_png_round_trip(s: Seq<ChunkView>)
    requires
        forall|i: int| 0 <= i < s.len() ==> is_encodable(#[trigger] s[i]),
    ensures
        decode_png(encode_png(s)) == Ok::<Seq<ChunkView>, PngError>(s),
{
    let b = encode_png(s);
    assert(b.subrange(0, 8) =~= signature());
    assert(b.subrange(8, b.len() as int) =~= encode_chunks(s));
    lemma_decode_encoded_chunks(s);
}

/// After a chunk is appended to chunks none of which has its type, the first
/// chunk of that type is the appended one: finding by its type code gives
/// back its data. (Where an earlier chunk has the same type, that one is
/// found instead.)
pub proof fn lemma_append_then_find(s: Seq<ChunkView>, c: ChunkView)
    requires
        no_match(s, c.kind),
    ensures
        is_first_match(s.push(c), c.kind, s.len() as int),
        forall|i: int| #[trigger]
            is_first_match(s.push(c), c.kind, i) ==> i == s.len() && s.push(c)[i].data == c.data,
{
    let t = s.push(c);
    assert forall|j: int| 0 <= j < s.len() implies !has_type(#[trigger] t[j], c.kind) by {
        assert(t[j] == s[j]);
    }
    assert forall|i: int| #[trigger] is_first_match(t, c.kind, i) implies i == s.len() by {
        if i < s.len() {
            assert(t[i] == s[i]);
        }
    }
}

/// Where two chunks share a type code, removal by that code takes out the
/// first match, which is never after the earlier of the two; the later one
/// stays, shifted down by one place.
pub proof fn lemma_first_match_is_earliest(
    s: Seq<ChunkView>,
    name: Seq<u8>,
    i: int,
    j: int,
    k: int,
)
    requires
        0 <= i < j < s.len(),
        has_type(s[i], name),
        has_type(s[j], name),
        is_first_match(s, name, k),
    ensures
        k <= i,
        s.remove(k)[j - 1] == s[j],
{
}

/// A PNG file: its chunks in file order. The signature is implied.
pub struct Png {
    chunks: Vec<Chunk>,
}

impl View for Png {
    type V = Seq<ChunkView>;

    closed spec fn view(&self) -> Seq<ChunkView> {
        views(self.chunks@)
    }
}

/// Whether `b` starts with the PNG signature.
fn starts_with_signature(b: &[u8]) -> (r: bool)
    ensures
        r == (b@.len() >= 8 && b@.subrange(0, 8) == signature()),
{
    if b.len() < 8 {
        return false;
    }
    let mut i: usize = 0;
    while i < 8
        invariant
            0 <= i <= 8,
            b@.len() >= 8,
            forall|j: int| 0 <= j < i ==> b@[j] == signature()[j],
        decreases 8 - i,
    {
        if b[i] != STANDARD_HEADER[i] {
            assert(b@.subrange(0, 8)[i as int] != signature()[i as int]);
            return false;
        }
        i = i + 1;
    }
    assert(b@.subrange(0, 8) =~= signature());
    true
}

/// Whether the chunk's type code is `name`.
fn chunk_has_type(c: &Chunk, name: &[u8]) -> (r: bool)
    ensures
        r == has_type(c@, name@),
{
    let kind = c.chunk_type().bytes();
    if name.len() != 4 {
        return false;
    }
    let r = kind[0] == name[0] && kind[1] == name[1] && kind[2] == name[2] && kind[3] == name[3];
    assert(r ==> kind@ =~= name@);
    r
}

impl Png {
    /// A file holding the given chunks, in that order.
    pub fn from_chunks(chunks: Vec<Chunk>) -> (r: Png)
        ensures
            r@ == views(chunks@),
    {
        Png { chunks }
    }

    /// Reads a PNG file: the signature, then chunks until the buffer ends.
    pub fn try_from(bytes: &[u8]) -> (r: Result<Png, PngError>)
        ensures
            r matches Ok(p) ==> decode_png(bytes@) == Ok::<Seq<ChunkView>, PngError>(p@),
            r matches Err(e) ==> decode_png(bytes@) == Err::<Seq<ChunkView>, PngError>(e),
    {
        if !starts_with_signature(bytes) {
            return Err(PngError::BadSignature);
        }
        let n = bytes.len();
        let mut chunks: Vec<Chunk> = Vec::new();
        let mut offset: usize = 8;
        proof {
            let r = decode_chunks(bytes@.subrange(8, n as int));
            assert(prepend(views(chunks@), r) == r) by {
                match r {
                    Ok(s) => {
                        assert(views(chunks@) + s =~= s);
                    },
                    Err(e) => {},
                }
            }
        }
        while offset < n
            invariant
                n == bytes@.len(),
                8 <= offset <= n,
                bytes@.subrange(0, 8) == signature(),
                decode_chunks(bytes@.subrange(8, n as int)) == prepend(
                    views(chunks@),
                    decode_chunks(bytes@.subrange(offset as int, n as int)),
                ),
            decreases n - offset,
        {
            let rest = &bytes[offset..n];
            match Chunk::try_from(rest) {
                Ok(chunk) => {
                    let size = 12 + chunk.length() as usize;
                    proof {
                        let tail = bytes@.subrange(offset + size, n as int);
                        assert(rest@.subrange(declared_size(rest@), rest@.len() as int) =~= tail);
                        let old_views = views(chunks@);
                        let r = decode_chunks(tail);
                        assert(views(chunks@.push(chunk)) =~= old_views.push(chunk@));
                        match r {
                            Ok(s) => {
                                assert(old_views + (seq![chunk@] + s) =~= old_views.push(chunk@)
                                    + s);
                            },
                            Err(e) => {},
                        }
                    }
                    chunks.push(chunk);
                    offset = offset + size;
                },
                Err(e) => {
                    assert(rest@ =~= bytes@.subrange(offset as int, n as int));
                    assert(decode_chunks(rest@) == Err::<Seq<ChunkView>, ChunkError>(e));
                    assert(decode_chunks(bytes@.subrange(8, n as int)) == Err::<
                        Seq<ChunkView>,
                        ChunkError,
                    >(e));
                    return Err(PngError::BadChunk(e));
                },
            }
        }
        proof {
            assert(bytes@.subrange(n as int, n as int) =~= Seq::<u8>::empty());
            assert(views(chunks@) + Seq::<ChunkView>::empty() =~= views(chunks@));
        }
        Ok(Png { chunks })
    }

    /// Adds a chunk after the last one.
    pub fn append_chunk(&mut self, chunk: Chunk)
        ensures
            final(self)@ == old(self)@.push(chunk@),
    {
        self.chunks.push(chunk);
        assert(views(self.chunks@) =~= views(old(self).chunks@).push(chunk@));
    }

    /// Position of the first chunk whose type code is `name`.
    fn position_of(&self, name: &[u8]) -> (r: Option<usize>)
        ensures
            r matches Some(i) ==> is_first_match(self@, name@, i as int),
            r is None <==> no_match(self@, name@),
    {
        let mut i: usize = 0;
        while i < self.chunks.len()
            invariant
                0 <= i <= self.chunks@.len(),
                forall|j: int| 0 <= j < i ==> !has_type(#[trigger] self@[j], name@),
            decreases self.chunks@.len() - i,
        {
            if chunk_has_type(&self.chunks[i], name) {
                assert(has_type(self@[i as int], name@));
                return Some(i);
            }
            i = i + 1;
        }
        None
    }

    /// Takes out the first chunk whose type code is `chunk_type`, keeping the
    /// order of the others; fails, changing nothing, where there is none.
    pub fn remove_first_chunk(&mut self, chunk_type: &str) -> (r: Result<Chunk, PngError>)
        ensures
            r is Err <==> no_match(old(self)@, chunk_type.spec_bytes()),
            r matches Err(e) ==> e == PngError::ChunkTypeNotFound && final(self)@ == old(self)@,
            r matches Ok(c) ==> exists|i: int|
                is_first_match(old(self)@, chunk_type.spec_bytes(), i) && c@ == old(self)@[i]
                    && final(self)@ == old(self)@.remove(i),
            r is Ok ==> final(self)@.len() == old(self)@.len() - 1,
    {
        let name = chunk_type.as_bytes();
        match self.position_of(name) {
            Some(i) => {
                let c = self.chunks.remove(i);
                assert(views(self.chunks@) =~= views(old(self).chunks@).remove(i as int));
                Ok(c)
            },
            None => Err(PngError::ChunkTypeNotFound),
        }
    }

    /// The signature that the file starts with.
    pub fn header(&self) -> (r: [u8; 8])
        ensures
            r@ == signature(),
    {
        assert(STANDARD_HEADER@ =~= signature());
        STANDARD_HEADER
    }

    /// The chunks, in file order.
    pub fn chunks(&self) -> (r: &[Chunk])
        ensures
            views(r@) == self@,
    {
        self.chunks.as_slice()
    }

    /// The first chunk whose type code is `chunk_type`, if any.
    pub fn chunk_by_type(&self, chunk_type: &str) -> (r: Option<&Chunk>)
        ensures
            r is None <==> no_match(self@, chunk_type.spec_bytes()),
            r matches Some(c) ==> exists|i: int|
                is_first_match(self@, chunk_type.spec_bytes(), i) && c@ == self@[i],
    {
        match self.position_of(chunk_type.as_bytes()) {
            Some(i) => Some(&self.chunks[i]),
            None => None,
        }
    }

    /// The file's bytes: the signature, then each chunk's wire form in order.
    pub fn as_bytes(&self) -> (r: Vec<u8>)
        ensures
            r@ == encode_png(self@),
    {
        let mut out: Vec<u8> = Vec::new();
        let mut k: usize = 0;
        while k < 8
            invariant
                0 <= k <= 8,
                out@ == signature().subrange(0, k as int),
            decreases 8 - k,
        {
            out.push(STANDARD_HEADER[k]);
            k = k + 1;
            assert(out@ =~= signature().subrange(0, k as int));
        }
        assert(signature().subrange(0, 8) =~= signature());
        assert(self@.subrange(0, 0) =~= Seq::<ChunkView>::empty());
        assert(out@ =~= signature() + encode_chunks(self@.subrange(0, 0)));
        let mut i: usize = 0;
        while i < self.chunks.len()
            invariant
                0 <= i <= self.chunks@.len(),
                self@.len() == self.chunks@.len(),
                out@ == signature() + encode_chunks(self@.subrange(0, i as int)),
            decreases self.chunks@.len() - i,
        {
            let mut bytes = self.chunks[i].as_bytes();
            out.append(&mut bytes);
            proof {
                let next = self@.subrange(0, i + 1);
                assert(next.drop_last() =~= self@.subrange(0, i as int));
                assert(out@ =~= signature() + encode_chunks(next));
            }
            i = i + 1;
        }
        assert(self@.subrange(0, self@.len() as int) =~= self@);
        out
    }
}

} // verus!
