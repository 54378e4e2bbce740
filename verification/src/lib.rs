//! A verified codec for a PNG-style binary container format.
//!
//! The container is an 8-byte magic signature followed by an ordered sequence
//! of chunks; each chunk is a big-endian length, a 4-byte type tag, a payload,
//! and a CRC-32 checksum over the type tag and payload. The library parses a
//! byte buffer into a typed container, lets callers look up, append and remove
//! chunks, and re-serializes to bytes that round-trip exactly.

use vstd::prelude::*;

pub mod chunk;
pub mod chunk_type;
pub mod png;

verus! {

/// Container-level errors: each parsing or validation failure is returned as a
/// typed error; nothing is logged, retried, or silently defaulted.
#[derive(Debug, PartialEq, Eq, Clone)]
pub enum PngmeError {
    /// A chunk-type text held a non-alphabetic character, or fewer than four
    /// bytes.
    InvalidChunkTypeCode,
    /// The leading 8 bytes of a buffer are not the format's magic signature.
    BadSignature,
    /// No chunk of the requested type exists during lookup or removal.
    ChunkNotFound,
    /// Bytes were not valid UTF-8 when a text rendering was requested.
    InvalidEncoding,
    /// A chunk inside the container failed to parse.
    Chunk(crate::chunk::ChunkError),
}

/// Relies on `alloc::string::String::from_utf8`: it returns `Ok` exactly when
/// the bytes are valid UTF-8, and the resulting string is their decoding.
#[verifier::external_body]
pub(crate) fn utf8_to_string(bytes: &[u8]) -> (r: Option<String>)
    ensures
        r is Some <==> vstd::utf8::valid_utf8(bytes@),
        r is Some ==> r->0@ == vstd::utf8::decode_utf8(bytes@),
{
    match String::from_utf8(bytes.to_vec()) {
        Ok(s) => Some(s),
        Err(_) => None,
    }
}

} // verus!
