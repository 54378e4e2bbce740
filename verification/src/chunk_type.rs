//! The 4-byte chunk type tag and its property bits.

use crate::PngmeError;
use vstd::prelude::*;

verus! {

/// True when bit 5 (value `0x20`) of the byte is clear. Each of the four
/// property bits of a chunk type is read from bit 5 of one of its bytes.
pub open spec fn bit5_clear(b: u8) -> bool {
    b & 0x20 == 0
}

/// True when `c` is an ASCII letter (A-Z or a-z).
pub open spec fn is_ascii_letter(c: char) -> bool {
    (65 <= c as u32 && c as u32 <= 90) || (97 <= c as u32 && c as u32 <= 122)
}

/// The texts accepted by `ChunkType::from_str`: at least four characters,
/// every one an ASCII letter.
pub open spec fn valid_code_text(s: Seq<char>) -> bool {
    s.len() >= 4 && forall|i: int| 0 <= i < s.len() ==> is_ascii_letter(s[i])
}

/// A 4-byte chunk type tag. Property bits (critical, public, reserved,
/// safe-to-copy) are decoded from bit 5 of each byte; they are derived, never
/// stored. Construction from text validates that every character is an ASCII
/// letter; construction from raw bytes stores them verbatim.
#[derive(Debug, PartialEq, Eq)]
pub struct ChunkType {
    bytes: [u8; 4],
}

impl View for ChunkType {
    type V = Seq<u8>;

    closed spec fn view(&self) -> Seq<u8> {
        self.bytes@
    }
}

/// Every type tag views as exactly four bytes.
pub broadcast proof fn lemma_chunk_type_len(ct: &ChunkType)
    ensures
        (#[trigger] ct@).len() == 4,
{
}

impl ChunkType {
    /// Builds a type tag from four raw bytes, verbatim and without
    /// validation: a parsed container may legitimately hold type bytes that
    /// text construction would reject.
    pub fn from_bytes(bytes: [u8; 4]) -> (r: ChunkType)
        ensures
            r@ == bytes@,
    {
        ChunkType { bytes }
    }

    /// Builds a type tag from text: rejects any character that is not an
    /// ASCII letter and any text of fewer than four characters; otherwise
    /// takes the first four bytes of the UTF-8 encoding.
    pub fn from_str(s: &str) -> (r: Result<ChunkType, PngmeError>)
        ensures
            r is Ok <==> valid_code_text(s@),
            r is Ok ==> r->Ok_0@ == seq![
                s@[0] as u8,
                s@[1] as u8,
                s@[2] as u8,
                s@[3] as u8,
            ],
            r is Err ==> r == Err::<ChunkType, PngmeError>(PngmeError::InvalidChunkTypeCode),
    {
        let n = s.unicode_len();
        let mut i: usize = 0;
        while i < n
            invariant
                i <= n,
                n == s@.len(),
                forall|j: int| 0 <= j < i ==> is_ascii_letter(s@[j]),
            decreases n - i,
        {
            let c = s.get_char(i);
            let u = c as u32;
            if !((65 <= u && u <= 90) || (97 <= u && u <= 122)) {
                return Err(PngmeError::InvalidChunkTypeCode);
            }
            i += 1;
        }
        if n < 4 {
            return Err(PngmeError::InvalidChunkTypeCode);
        }
        let b0 = s.get_char(0) as u8;
        let b1 = s.get_char(1) as u8;
        let b2 = s.get_char(2) as u8;
        let b3 = s.get_char(3) as u8;
        Ok(ChunkType { bytes: [b0, b1, b2, b3] })
    }

    /// The four raw bytes of the tag.
    pub fn bytes(&self) -> (r: [u8; 4])
        ensures
            r@ == self@,
    {
        self.bytes
    }

    /// A chunk is critical when bit 5 of the first byte is clear.
    pub fn is_critical(&self) -> (r: bool)
        ensures
            r == bit5_clear(self@[0]),
    {
        self.bytes[0] & 0x20 == 0
    }

    /// A chunk is public when bit 5 of the second byte is clear.
    pub fn is_public(&self) -> (r: bool)
        ensures
            r == bit5_clear(self@[1]),
    {
        self.bytes[1] & 0x20 == 0
    }

    /// The reserved bit is valid when bit 5 of the third byte is clear.
    pub fn is_reserved_bit_valid(&self) -> (r: bool)
        ensures
            r == bit5_clear(self@[2]),
    {
        self.bytes[2] & 0x20 == 0
    }

    /// A chunk is safe to copy when bit 5 of the fourth byte is set.
    pub fn is_safe_to_copy(&self) -> (r: bool)
        ensures
            r == !bit5_clear(self@[3]),
    {
        self.bytes[3] & 0x20 != 0
    }

    /// The reserved bit is the format's sole validity gate, so overall
    /// validity coincides with `is_reserved_bit_valid`.
    pub fn is_valid(&self) -> (r: bool)
        ensures
            r == bit5_clear(self@[2]),
    {
        self.bytes[2] & 0x20 == 0
    }

    /// The tag's four bytes rendered as text; fails when they are not valid
    /// UTF-8, which can only happen for tags built from raw bytes.
    pub fn to_text(&self) -> (r: Result<String, PngmeError>)
        ensures
            r is Ok <==> vstd::utf8::valid_utf8(self@),
            r is Ok ==> r->Ok_0@ == vstd::utf8::decode_utf8(self@),
            r is Err ==> r == Err::<String, PngmeError>(PngmeError::InvalidEncoding),
    {
        match crate::utf8_to_string(self.bytes.as_slice()) {
            Some(s) => Ok(s),
            None => Err(PngmeError::InvalidEncoding),
        }
    }
}

} // verus!
