//! One length-prefixed, type-tagged, checksummed data block.

use crate::chunk_type::ChunkType;
use vstd::prelude::*;
use vstd::slice::{slice_subrange, slice_to_vec};

verus! {

/// Chunk-level errors.
#[derive(Debug, PartialEq, Eq, Clone)]
pub enum ChunkError {
    /// The buffer ends before the declared length and checksum can be read.
    Truncated,
    /// The recomputed checksum disagrees with the stored one.
    ChecksumMismatch,
    /// The payload is not valid UTF-8 when text interpretation is requested.
    InvalidEncoding,
}

/// The CRC-32 checksum of a byte sequence under the IEEE / ISO-HDLC
/// polynomial, as the crc crate computes it. The checksum depends on the
/// bytes alone; its value is fixed only by the trusted wrapper below.
pub uninterp spec fn crc32_of(bytes: Seq<u8>) -> u32;

/// Relies on `crc::Crc::<u32>::checksum` with the `CRC_32_ISO_HDLC`
/// algorithm: a pure function of the input bytes, the same on every machine.
#[verifier::external_body]
fn crc32_checksum(bytes: &[u8]) -> (r: u32)
    ensures
        r == crc32_of(bytes@),
{
    crc::Crc::<u32>::new(&crc::CRC_32_ISO_HDLC).checksum(bytes)
}

/// The big-endian 4-byte encoding of a 32-bit integer.
pub open spec fn spec_u32_to_be_bytes(x: u32) -> Seq<u8> {
    seq![
        ((x >> 24) & 0xff) as u8,
        ((x >> 16) & 0xff) as u8,
        ((x >> 8) & 0xff) as u8,
        (x & 0xff) as u8,
    ]
}

/// The 32-bit integer read big-endian from four bytes.
pub open spec fn spec_u32_from_be_bytes(s: Seq<u8>) -> u32
    recommends
        s.len() == 4,
{
    (s[0] as u32) << 24 | (s[1] as u32) << 16 | (s[2] as u32) << 8 | (s[3] as u32)
}

pub proof fn lemma_u32_to_from_be_bytes(x: u32)
    ensures
        spec_u32_to_be_bytes(x).len() == 4,
        spec_u32_from_be_bytes(spec_u32_to_be_bytes(x)) == x,
{
    assert(((((x >> 24) & 0xff) as u8) as u32) << 24
        | ((((x >> 16) & 0xff) as u8) as u32) << 16
        | ((((x >> 8) & 0xff) as u8) as u32) << 8
        | (((x & 0xff) as u8) as u32) == x) by (bit_vector);
}

pub proof fn lemma_u32_from_to_be_bytes(s: Seq<u8>)
    requires
        s.len() == 4,
    ensures
        spec_u32_to_be_bytes(spec_u32_from_be_bytes(s)) == s,
{
    let x = spec_u32_from_be_bytes(s);
    let s0 = s[0] as u32;
    let s1 = s[1] as u32;
    let s2 = s[2] as u32;
    let s3 = s[3] as u32;
    assert((
        (x == s0 << 24 | s1 << 16 | s2 << 8 | s3) &&
        s0 < 256 && s1 < 256 && s2 < 256 && s3 < 256
    ) ==> (
        (x >> 24) & 0xff == s0 &&
        (x >> 16) & 0xff == s1 &&
        (x >> 8) & 0xff == s2 &&
        x & 0xff == s3
    )) by (bit_vector);
    assert(spec_u32_to_be_bytes(x) =~= s);
}

/// Reads the big-endian 32-bit integer stored at offset `at`.
fn read_u32_be(bytes: &[u8], at: usize) -> (r: u32)
    requires
        at + 4 <= bytes@.len(),
    ensures
        r == spec_u32_from_be_bytes(bytes@.subrange(at as int, at as int + 4)),
{
    let b0 = bytes[at];
    let b1 = bytes[at + 1];
    let b2 = bytes[at + 2];
    let b3 = bytes[at + 3];
    (b0 as u32) << 24 | (b1 as u32) << 16 | (b2 as u32) << 8 | (b3 as u32)
}

/// Splits a 32-bit integer into its four big-endian bytes.
fn u32_to_u8_array(x: u32) -> (r: [u8; 4])
    ensures
        r@ == spec_u32_to_be_bytes(x),
{
    let b1: u8 = (x >> 24) as u8;
    let b2: u8 = (x >> 16) as u8;
    let b3: u8 = (x >> 8) as u8;
    let b4: u8 = x as u8;
    proof {
        assert((x >> 24) as u8 == ((x >> 24) & 0xff) as u8) by (bit_vector);
        assert((x >> 16) as u8 == ((x >> 16) & 0xff) as u8) by (bit_vector);
        assert((x >> 8) as u8 == ((x >> 8) & 0xff) as u8) by (bit_vector);
        assert(x as u8 == (x & 0xff) as u8) by (bit_vector);
    }
    let r = [b1, b2, b3, b4];
    proof {
        assert(r@ =~= spec_u32_to_be_bytes(x));
    }
    r
}

/// Appends every byte of `s` to `out`.
pub(crate) fn push_all(out: &mut Vec<u8>, s: &[u8])
    ensures
        final(out)@ == old(out)@ + s@,
{
    proof {
        assert(old(out)@ + s@.take(0) =~= old(out)@);
    }
    let mut i: usize = 0;
    while i < s.len()
        invariant
            i <= s@.len(),
            out@ == old(out)@ + s@.take(i as int),
        decreases s@.len() - i,
    {
        proof {
            assert(old(out)@ + s@.take(i + 1) =~= (old(out)@ + s@.take(i as int)).push(
                s@[i as int],
            ));
        }
        out.push(s[i]);
        i += 1;
    }
    proof {
        assert(old(out)@ + s@.take(s@.len() as int) =~= old(out)@ + s@);
    }
}

/// The mathematical content of a chunk: type bytes, payload and stored
/// checksum. The on-disk length field is derived: it is the payload's length.
#[verifier::ext_equal]
pub ghost struct ChunkModel {
    pub chunk_type: Seq<u8>,
    pub data: Seq<u8>,
    pub crc: u32,
}

/// A well-formed chunk: four type bytes, a payload whose length fits the
/// 32-bit length field, and a checksum equal to the CRC-32 of the type bytes
/// followed by the payload.
pub open spec fn chunk_model_wf(m: ChunkModel) -> bool {
    &&& m.chunk_type.len() == 4
    &&& m.data.len() <= u32::MAX
    &&& m.crc == crc32_of(m.chunk_type + m.data)
}

/// The serialized form of a chunk: big-endian length, type bytes, payload,
/// big-endian checksum.
pub open spec fn spec_serialize_chunk(m: ChunkModel) -> Seq<u8> {
    spec_u32_to_be_bytes(m.data.len() as u32) + m.chunk_type + m.data + spec_u32_to_be_bytes(
        m.crc,
    )
}

/// What parsing the front of a byte buffer yields: `Truncated` when fewer
/// than 12 bytes are present or the declared payload overruns the buffer;
/// `ChecksumMismatch` when the stored checksum disagrees with the computed
/// one; otherwise the chunk read from the first `12 + length` bytes.
pub open spec fn spec_parse_chunk(b: Seq<u8>) -> Result<ChunkModel, ChunkError> {
    if b.len() < 12 {
        Err(ChunkError::Truncated)
    } else {
        let len = spec_u32_from_be_bytes(b.subrange(0, 4)) as int;
        if b.len() < 12 + len {
            Err(ChunkError::Truncated)
        } else {
            let chunk_type = b.subrange(4, 8);
            let data = b.subrange(8, 8 + len);
            let crc = spec_u32_from_be_bytes(b.subrange(8 + len, 12 + len));
            if crc == crc32_of(chunk_type + data) {
                Ok(ChunkModel { chunk_type, data, crc })
            } else {
                Err(ChunkError::ChecksumMismatch)
            }
        }
    }
}

/// The spec-level image of an exec parse result.
pub open spec fn chunk_result_model(r: Result<Chunk, ChunkError>) -> Result<
    ChunkModel,
    ChunkError,
> {
    match r {
        Ok(c) => Ok(c@),
        Err(e) => Err(e),
    }
}

/// One chunk of the container. The stored length always equals the payload's
/// length and the stored checksum is always the one computed over type bytes
/// and payload: parsing verifies this and composing computes it.
#[derive(Debug)]
pub struct Chunk {
    length: u32,
    chunk_type: ChunkType,
    chunk_data: Vec<u8>,
    crc: u32,
}

impl View for Chunk {
    type V = ChunkModel;

    closed spec fn view(&self) -> ChunkModel {
        ChunkModel { chunk_type: self.chunk_type@, data: self.chunk_data@, crc: self.crc }
    }
}

impl Chunk {
    #[verifier::type_invariant]
    spec fn inv(self) -> bool {
        &&& self.length == self.chunk_data@.len()
        &&& self.crc == crc32_of(self.chunk_type@ + self.chunk_data@)
    }

    /// Composes a chunk from a type tag and a payload; the checksum is
    /// computed here, never supplied. The payload must fit the 32-bit length
    /// field.
    pub fn new(chunk_type: ChunkType, data: Vec<u8>) -> (r: Chunk)
        requires
            data@.len() <= u32::MAX,
        ensures
            r@ == (ChunkModel {
                chunk_type: chunk_type@,
                data: data@,
                crc: crc32_of(chunk_type@ + data@),
            }),
            chunk_model_wf(r@),
    {
        let length = data.len() as u32;
        let type_bytes = chunk_type.bytes();
        let mut buf = slice_to_vec(type_bytes.as_slice());
        push_all(&mut buf, data.as_slice());
        let crc = crc32_checksum(buf.as_slice());
        Chunk { length, chunk_type, chunk_data: data, crc }
    }

    /// Parses one chunk from the front of `bytes`, ignoring any bytes past
    /// the chunk's own `12 + length`.
    pub fn parse(bytes: &[u8]) -> (r: Result<Chunk, ChunkError>)
        ensures
            chunk_result_model(r) == spec_parse_chunk(bytes@),
            r is Ok ==> chunk_model_wf(r->Ok_0@),
            bytes@.len() < 12 ==> r == Err::<Chunk, ChunkError>(ChunkError::Truncated),
            bytes@.len() >= 12 && bytes@.len() < 12 + spec_u32_from_be_bytes(
                bytes@.subrange(0, 4),
            ) ==> r == Err::<Chunk, ChunkError>(ChunkError::Truncated),
    {
        if bytes.len() < 12 {
            return Err(ChunkError::Truncated);
        }
        let length = read_u32_be(bytes, 0);
        let len = length as usize;
        if len > bytes.len() - 12 {
            return Err(ChunkError::Truncated);
        }
        let chunk_type = ChunkType::from_bytes([bytes[4], bytes[5], bytes[6], bytes[7]]);
        proof {
            assert(chunk_type@ =~= bytes@.subrange(4, 8));
        }
        let checked = slice_subrange(bytes, 4, 8 + len);
        let computed = crc32_checksum(checked);
        let stored = read_u32_be(bytes, 8 + len);
        proof {
            assert(bytes@.subrange(4, 8 + len as int) =~= bytes@.subrange(4, 8)
                + bytes@.subrange(8, 8 + len as int));
        }
        if stored != computed {
            return Err(ChunkError::ChecksumMismatch);
        }
        let data = slice_to_vec(slice_subrange(bytes, 8, 8 + len));
        let r = Chunk { length, chunk_type, chunk_data: data, crc: stored };
        proof {
            assert(r@ =~= spec_parse_chunk(bytes@)->Ok_0);
        }
        Ok(r)
    }

    /// The payload's length in bytes.
    pub fn length(&self) -> (r: u32)
        ensures
            r == self@.data.len(),
    {
        proof {
            use_type_invariant(self);
        }
        self.length
    }

    /// The chunk's type tag.
    pub fn chunk_type(&self) -> (r: &ChunkType)
        ensures
            r@ == self@.chunk_type,
    {
        &self.chunk_type
    }

    /// The payload bytes.
    pub fn data(&self) -> (r: &[u8])
        ensures
            r@ == self@.data,
    {
        self.chunk_data.as_slice()
    }

    /// The stored checksum.
    pub fn crc(&self) -> (r: u32)
        ensures
            r == self@.crc,
    {
        self.crc
    }

    /// The payload interpreted as UTF-8 text.
    pub fn data_as_string(&self) -> (r: Result<String, ChunkError>)
        ensures
            r is Ok <==> vstd::utf8::valid_utf8(self@.data),
            r is Ok ==> r->Ok_0@ == vstd::utf8::decode_utf8(self@.data),
            r is Err ==> r == Err::<String, ChunkError>(ChunkError::InvalidEncoding),
    {
        match crate::utf8_to_string(self.chunk_data.as_slice()) {
            Some(s) => Ok(s),
            None => Err(ChunkError::InvalidEncoding),
        }
    }

    /// Serializes the chunk: big-endian length, type bytes, payload,
    /// big-endian checksum. The exact inverse of `parse` for any chunk that
    /// `parse` or `new` produced.
    pub fn as_bytes(&self) -> (r: Vec<u8>)
        ensures
            r@ == spec_serialize_chunk(self@),
            chunk_model_wf(self@),
    {
        proof {
            use_type_invariant(self);
        }
        let length = u32_to_u8_array(self.length);
        let type_bytes = self.chunk_type.bytes();
        let crc = u32_to_u8_array(self.crc);
        let mut out = slice_to_vec(length.as_slice());
        push_all(&mut out, type_bytes.as_slice());
        push_all(&mut out, self.chunk_data.as_slice());
        push_all(&mut out, crc.as_slice());
        proof {
            assert(out@ =~= spec_serialize_chunk(self@));
        }
        out
    }
}

/// From a successful parse the consumed bytes are recovered exactly: the
/// serialized form of the parsed chunk is the prefix of the buffer that the
/// parse consumed.
pub proof fn lemma_parse_chunk_serialize(b: Seq<u8>)
    requires
        spec_parse_chunk(b) is Ok,
    ensures
        ({
            let m = spec_parse_chunk(b)->Ok_0;
            &&& 12 + m.data.len() <= b.len()
            &&& spec_serialize_chunk(m) == b.subrange(0, 12 + m.data.len() as int)
        }),
{
    let len = spec_u32_from_be_bytes(b.subrange(0, 4)) as int;
    let m = spec_parse_chunk(b)->Ok_0;
    lemma_u32_from_to_be_bytes(b.subrange(0, 4));
    lemma_u32_from_to_be_bytes(b.subrange(8 + len, 12 + len));
    assert(spec_serialize_chunk(m) =~= b.subrange(0, 12 + len));
}

/// Round trip: parsing the serialization of any well-formed chunk yields the
/// chunk itself, with identical type bytes, payload and checksum.
pub proof fn lemma_chunk_round_trip(m: ChunkModel)
    requires
        chunk_model_wf(m),
    ensures
        spec_parse_chunk(spec_serialize_chunk(m)) == Ok::<ChunkModel, ChunkError>(m),
{
    let b = spec_serialize_chunk(m);
    let len = m.data.len() as int;
    lemma_u32_to_from_be_bytes(m.data.len() as u32);
    lemma_u32_to_from_be_bytes(m.crc);
    assert(b.subrange(0, 4) =~= spec_u32_to_be_bytes(m.data.len() as u32));
    assert(b.subrange(4, 8) =~= m.chunk_type);
    assert(b.subrange(8, 8 + len) =~= m.data);
    assert(b.subrange(8 + len, 12 + len) =~= spec_u32_to_be_bytes(m.crc));
    assert(spec_parse_chunk(b)->Ok_0 =~= m);
}

} // verus!
