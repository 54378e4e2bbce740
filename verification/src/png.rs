//! The container: a fixed 8-byte magic signature plus an ordered sequence of
//! chunks.

use crate::chunk::{
    lemma_parse_chunk_serialize, push_all, spec_parse_chunk, spec_serialize_chunk, Chunk,
    ChunkError, ChunkModel,
};
use crate::chunk_type::ChunkType;
use crate::PngmeError;
use vstd::prelude::*;
use vstd::slice::{slice_subrange, slice_to_vec};

verus! {

broadcast use crate::chunk_type::lemma_chunk_type_len;

/// The fixed 8-byte magic signature that opens every container.
pub open spec fn spec_signature() -> Seq<u8> {
    seq![137u8, 80u8, 78u8, 71u8, 13u8, 10u8, 26u8, 10u8]
}

/// The signature as an array of bytes.
fn signature_bytes() -> (r: [u8; 8])
    ensures
        r@ == spec_signature(),
{
    let r = [137u8, 80u8, 78u8, 71u8, 13u8, 10u8, 26u8, 10u8];
    proof {
        assert(r@ =~= spec_signature());
    }
    r
}

/// The serialization of a chunk sequence: each chunk's bytes, in order.
pub open spec fn spec_serialize_chunks(cs: Seq<ChunkModel>) -> Seq<u8>
    decreases cs.len(),
{
    if cs.len() == 0 {
        Seq::empty()
    } else {
        spec_serialize_chunk(cs[0]) + spec_serialize_chunks(cs.drop_first())
    }
}

/// The serialization of a whole container: the signature, then every chunk.
pub open spec fn spec_serialize_png(cs: Seq<ChunkModel>) -> Seq<u8> {
    spec_signature() + spec_serialize_chunks(cs)
}

/// What parsing a byte stream as consecutive chunks yields: chunks until the
/// buffer is exhausted, or the first chunk error. All-or-nothing: boundaries
/// cannot be trusted past a bad chunk.
pub open spec fn spec_parse_chunks(b: Seq<u8>) -> Result<Seq<ChunkModel>, ChunkError>
    decreases b.len(),
{
    if b.len() == 0 {
        Ok(Seq::empty())
    } else {
        match spec_parse_chunk(b) {
            Err(e) => Err(e),
            Ok(m) => match spec_parse_chunks(b.skip(12 + m.data.len() as int)) {
                Err(e) => Err(e),
                Ok(rest) => Ok(seq![m] + rest),
            },
        }
    }
}

/// What parsing a whole buffer yields: `BadSignature` unless the first 8
/// bytes are the magic; then the chunk sequence, any chunk error wrapped as a
/// container-level error.
pub open spec fn spec_parse_png(b: Seq<u8>) -> Result<Seq<ChunkModel>, PngmeError> {
    if b.len() < 8 || b.subrange(0, 8) != spec_signature() {
        Err(PngmeError::BadSignature)
    } else {
        match spec_parse_chunks(b.skip(8)) {
            Ok(cs) => Ok(cs),
            Err(e) => Err(PngmeError::Chunk(e)),
        }
    }
}

/// Prepends already-parsed chunks to the outcome of parsing the rest.
spec fn spec_resume(acc: Seq<ChunkModel>, rem: Result<Seq<ChunkModel>, ChunkError>) -> Result<
    Seq<ChunkModel>,
    ChunkError,
> {
    match rem {
        Ok(cs) => Ok(acc + cs),
        Err(e) => Err(e),
    }
}

/// The spec-level image of a chunk vector.
pub open spec fn chunks_view(v: Seq<Chunk>) -> Seq<ChunkModel> {
    Seq::new(v.len(), |i: int| v[i]@)
}

/// A chunk type tag matches a code text exactly when the tag's bytes are the
/// code's UTF-8 encoding, which is to say when the tag's text rendering
/// equals the code.
pub open spec fn code_matches(ty: Seq<u8>, code: Seq<char>) -> bool {
    ty == vstd::utf8::encode_utf8(code)
}

/// The first match wins: a match at `i` with no match before it.
pub open spec fn found_at(cs: Seq<ChunkModel>, code: Seq<char>, i: int) -> bool {
    &&& 0 <= i < cs.len()
    &&& code_matches(cs[i].chunk_type, code)
    &&& forall|j: int| 0 <= j < i ==> !code_matches(cs[j].chunk_type, code)
}

/// Whether a tag's bytes equal the code's UTF-8 encoding.
fn type_matches(ct: &ChunkType, code: &str) -> (r: bool)
    ensures
        r == code_matches(ct@, code@),
{
    let cb = code.as_bytes();
    let tb = ct.bytes();
    if cb.len() != 4 {
        return false;
    }
    let r = cb[0] == tb[0] && cb[1] == tb[1] && cb[2] == tb[2] && cb[3] == tb[3];
    proof {
        if r {
            assert(ct@ =~= vstd::utf8::encode_utf8(code@));
        }
    }
    r
}

/// Serialization is a homomorphism over concatenation of chunk sequences.
proof fn lemma_serialize_chunks_append(a: Seq<ChunkModel>, b: Seq<ChunkModel>)
    ensures
        spec_serialize_chunks(a + b) == spec_serialize_chunks(a) + spec_serialize_chunks(b),
    decreases a.len(),
{
    if a.len() == 0 {
        assert(a + b =~= b);
        assert(spec_serialize_chunks(a) + spec_serialize_chunks(b) =~= spec_serialize_chunks(b));
    } else {
        assert((a + b).drop_first() =~= a.drop_first() + b);
        assert((a + b)[0] == a[0]);
        lemma_serialize_chunks_append(a.drop_first(), b);
        assert(spec_serialize_chunk(a[0]) + (spec_serialize_chunks(a.drop_first())
            + spec_serialize_chunks(b)) =~= (spec_serialize_chunk(a[0]) + spec_serialize_chunks(
            a.drop_first(),
        )) + spec_serialize_chunks(b));
    }
}

/// The serialization of a single chunk's sequence is that chunk's bytes.
proof fn lemma_serialize_chunks_one(m: ChunkModel)
    ensures
        spec_serialize_chunks(seq![m]) == spec_serialize_chunk(m),
{
    assert(seq![m][0] == m);
    assert(seq![m].drop_first() =~= Seq::<ChunkModel>::empty());
    assert(spec_serialize_chunks(Seq::<ChunkModel>::empty()) == Seq::<u8>::empty());
    assert(spec_serialize_chunks(seq![m]) == spec_serialize_chunk(m) + Seq::<u8>::empty());
    assert(spec_serialize_chunk(m) + Seq::<u8>::empty() =~= spec_serialize_chunk(m));
}

/// A buffer that parses into a chunk sequence is exactly that sequence's
/// serialization.
#[verifier::spinoff_prover]
#[verifier::rlimit(100)]
pub proof fn lemma_parse_chunks_serialize(b: Seq<u8>)
    requires
        spec_parse_chunks(b) is Ok,
    ensures
        spec_serialize_chunks(spec_parse_chunks(b)->Ok_0) == b,
    decreases b.len(),
{
    if b.len() == 0 {
        assert(spec_serialize_chunks(spec_parse_chunks(b)->Ok_0) =~= b);
    } else {
        let m = spec_parse_chunk(b)->Ok_0;
        lemma_parse_chunk_serialize(b);
        let k = 12 + m.data.len() as int;
        lemma_parse_chunks_serialize(b.skip(k));
        let rest = spec_parse_chunks(b.skip(k))->Ok_0;
        assert(spec_parse_chunks(b)->Ok_0 == seq![m] + rest);
        lemma_serialize_chunks_append(seq![m], rest);
        lemma_serialize_chunks_one(m);
        assert(spec_serialize_chunks(seq![m] + rest) == spec_serialize_chunk(m) + b.skip(k));
        assert(spec_serialize_chunk(m) == b.subrange(0, k));
        assert(b.subrange(0, k) + b.skip(k) =~= b);
    }
}

/// The container: the fixed signature plus an ordered chunk sequence, in
/// on-disk order.
#[derive(Debug)]
pub struct Png {
    chunks: Vec<Chunk>,
}

impl View for Png {
    type V = Seq<ChunkModel>;

    closed spec fn view(&self) -> Seq<ChunkModel> {
        chunks_view(self.chunks@)
    }
}

impl Png {
    /// Parses a complete buffer: the signature check, then chunks until the
    /// bytes are exhausted. All-or-nothing; a successful result
    /// re-serializes to exactly the input bytes.
    pub fn parse(bytes: &[u8]) -> (r: Result<Png, PngmeError>)
        ensures
            (match r {
                Ok(p) => Ok::<Seq<ChunkModel>, PngmeError>(p@),
                Err(e) => Err(e),
            }) == spec_parse_png(bytes@),
            r is Ok ==> spec_serialize_png(r->Ok_0@) == bytes@,
    {
        if bytes.len() < 8 {
            return Err(PngmeError::BadSignature);
        }
        let sig = signature_bytes();
        let mut s: usize = 0;
        while s < 8
            invariant
                s <= 8,
                bytes@.len() >= 8,
                sig@ == spec_signature(),
                forall|j: int| 0 <= j < s ==> bytes@[j] == spec_signature()[j],
            decreases 8 - s,
        {
            if bytes[s] != sig[s] {
                proof {
                    assert(bytes@.subrange(0, 8)[s as int] != spec_signature()[s as int]);
                }
                return Err(PngmeError::BadSignature);
            }
            s += 1;
        }
        proof {
            assert(bytes@.subrange(0, 8) =~= spec_signature());
        }
        let mut chunks: Vec<Chunk> = Vec::new();
        let mut idx: usize = 8;
        proof {
            if spec_parse_chunks(bytes@.skip(8)) is Ok {
                assert(chunks_view(chunks@) + spec_parse_chunks(bytes@.skip(8))->Ok_0
                    =~= spec_parse_chunks(bytes@.skip(8))->Ok_0);
            }
        }
        while idx < bytes.len()
            invariant
                8 <= idx <= bytes@.len(),
                bytes@.subrange(0, 8) == spec_signature(),
                spec_parse_chunks(bytes@.skip(8)) == spec_resume(
                    chunks_view(chunks@),
                    spec_parse_chunks(bytes@.skip(idx as int)),
                ),
            decreases bytes@.len() - idx,
        {
            let rem = slice_subrange(bytes, idx, bytes.len());
            match Chunk::parse(rem) {
                Err(e) => {
                    proof {
                        assert(spec_parse_chunks(bytes@.skip(idx as int)) == Err::<
                            Seq<ChunkModel>,
                            ChunkError,
                        >(e));
                    }
                    return Err(PngmeError::Chunk(e));
                },
                Ok(c) => {
                    proof {
                        lemma_parse_chunk_serialize(rem@);
                    }
                    let size = 12 + (c.length() as usize);
                    proof {
                        let acc = chunks_view(chunks@);
                        let k = 12 + c@.data.len() as int;
                        assert(rem@.skip(k) =~= bytes@.skip(idx + k));
                        assert(chunks_view(chunks@.push(c)) =~= acc.push(c@));
                        if spec_parse_chunks(bytes@.skip(idx + k)) is Ok {
                            let rest = spec_parse_chunks(bytes@.skip(idx + k))->Ok_0;
                            assert(acc + (seq![c@] + rest) =~= acc.push(c@) + rest);
                        }
                    }
                    chunks.push(c);
                    idx = idx + size;
                },
            }
        }
        proof {
            assert(bytes@.skip(idx as int) =~= Seq::<u8>::empty());
            assert(chunks_view(chunks@) + Seq::<ChunkModel>::empty() =~= chunks_view(chunks@));
            lemma_parse_chunks_serialize(bytes@.skip(8));
            assert(bytes@.subrange(0, 8) + bytes@.skip(8) =~= bytes@);
        }
        Ok(Png { chunks })
    }

    /// Serializes the container: the signature, then each chunk's bytes in
    /// sequence order.
    pub fn as_bytes(&self) -> (r: Vec<u8>)
        ensures
            r@ == spec_serialize_png(self@),
    {
        let sig = signature_bytes();
        let mut out = slice_to_vec(sig.as_slice());
        proof {
            assert(spec_serialize_chunks(self@.take(0)) =~= Seq::<u8>::empty());
            assert(out@ =~= spec_signature() + spec_serialize_chunks(self@.take(0)));
        }
        let mut i: usize = 0;
        while i < self.chunks.len()
            invariant
                i <= self.chunks@.len(),
                self@ == chunks_view(self.chunks@),
                out@ == spec_signature() + spec_serialize_chunks(self@.take(i as int)),
            decreases self.chunks@.len() - i,
        {
            let c = &self.chunks[i];
            let cb = c.as_bytes();
            push_all(&mut out, cb.as_slice());
            proof {
                lemma_serialize_chunks_append(self@.take(i as int), seq![self@[i as int]]);
                lemma_serialize_chunks_one(self@[i as int]);
                assert(self@.take(i as int) + seq![self@[i as int]] =~= self@.take(i + 1));
                assert((spec_signature() + spec_serialize_chunks(self@.take(i as int)))
                    + spec_serialize_chunk(self@[i as int]) =~= spec_signature() + (
                spec_serialize_chunks(self@.take(i as int)) + spec_serialize_chunk(
                    self@[i as int],
                )));
            }
            i += 1;
        }
        proof {
            assert(self@.take(self@.len() as int) =~= self@);
        }
        out
    }

    /// The chunk sequence, in on-disk order.
    pub fn chunks(&self) -> (r: &[Chunk])
        ensures
            chunks_view(r@) == self@,
    {
        self.chunks.as_slice()
    }

    /// Appends a chunk at the end of the sequence. No validation happens
    /// here: type uniqueness and terminal ordering are the caller's
    /// responsibility.
    pub fn append_chunk(&mut self, chunk: Chunk)
        ensures
            final(self)@ == old(self)@.push(chunk@),
    {
        self.chunks.push(chunk);
        proof {
            assert(self@ =~= old(self)@.push(chunk@));
        }
    }

    /// Returns the first chunk whose type's text rendering equals `code`, or
    /// `None` when no chunk matches: absence is an ordinary result, not an
    /// error.
    pub fn chunk_by_type(&self, code: &str) -> (r: Option<&Chunk>)
        ensures
            match r {
                Some(c) => exists|i: int| found_at(self@, code@, i) && c@ == self@[i],
                None => forall|i: int|
                    0 <= i < self@.len() ==> !code_matches(self@[i].chunk_type, code@),
            },
    {
        let mut i: usize = 0;
        while i < self.chunks.len()
            invariant
                i <= self.chunks@.len(),
                forall|j: int| 0 <= j < i ==> !code_matches(self@[j].chunk_type, code@),
            decreases self.chunks@.len() - i,
        {
            let c = &self.chunks[i];
            if type_matches(c.chunk_type(), code) {
                proof {
                    assert(found_at(self@, code@, i as int) && c@ == self@[i as int]);
                }
                return Some(c);
            }
            i += 1;
        }
        None
    }

    /// Removes and returns the first chunk whose type's text rendering
    /// equals `code`, leaving the relative order of the remaining chunks
    /// undisturbed; fails with `ChunkNotFound` when no chunk matches.
    pub fn remove_chunk(&mut self, code: &str) -> (r: Result<Chunk, PngmeError>)
        ensures
            match r {
                Ok(c) => exists|i: int|
                    found_at(old(self)@, code@, i) && c@ == old(self)@[i] && final(self)@ == old(
                        self,
                    )@.remove(i),
                Err(e) => {
                    &&& e == PngmeError::ChunkNotFound
                    &&& final(self)@ == old(self)@
                    &&& forall|i: int|
                        0 <= i < old(self)@.len() ==> !code_matches(
                            old(self)@[i].chunk_type,
                            code@,
                        )
                },
            },
    {
        let mut i: usize = 0;
        while i < self.chunks.len()
            invariant
                i <= self.chunks@.len(),
                *self == *old(self),
                forall|j: int| 0 <= j < i ==> !code_matches(self@[j].chunk_type, code@),
            decreases self.chunks@.len() - i,
        {
            let found = type_matches(self.chunks[i].chunk_type(), code);
            if found {
                let c = self.chunks.remove(i);
                proof {
                    assert(chunks_view(old(self).chunks@.remove(i as int)) =~= chunks_view(
                        old(self).chunks@,
                    ).remove(i as int));
                    assert(found_at(old(self)@, code@, i as int) && c@ == old(self)@[i as int]
                        && self@ == old(self)@.remove(i as int));
                }
                return Ok(c);
            }
            i += 1;
        }
        Err(PngmeError::ChunkNotFound)
    }
}

} // verus!
