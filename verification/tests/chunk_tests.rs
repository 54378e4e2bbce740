use pngme::chunk::{Chunk, ChunkError};
use pngme::chunk_type::ChunkType;

fn testing_chunk() -> Chunk {
    let data_length: u32 = 42;
    let chunk_type = "RuSt".as_bytes();
    let message_bytes = "This is where your secret message will be!".as_bytes();
    let crc: u32 = 2882656334;

    let chunk_data: Vec<u8> = data_length
        .to_be_bytes()
        .iter()
        .chain(chunk_type.iter())
        .chain(message_bytes.iter())
        .chain(crc.to_be_bytes().iter())
        .copied()
        .collect();

    Chunk::parse(chunk_data.as_ref()).unwrap()
}

#[test]
fn test_new_chunk() {
    let chunk_type = ChunkType::from_str("RuSt").unwrap();
    let data = "This is where your secret message will be!"
        .as_bytes()
        .to_vec();
    let chunk = Chunk::new(chunk_type, data);
    assert_eq!(chunk.length(), 42);
    assert_eq!(chunk.crc(), 2882656334);
}

#[test]
fn test_chunk_length() {
    let chunk = testing_chunk();
    assert_eq!(chunk.length(), 42);
}

#[test]
fn test_chunk_type() {
    let chunk = testing_chunk();
    assert_eq!(chunk.chunk_type().to_text().unwrap(), String::from("RuSt"));
}

#[test]
fn test_chunk_string() {
    let chunk = testing_chunk();
    let chunk_string = chunk.data_as_string().unwrap();
    let expected_chunk_string = String::from("This is where your secret message will be!");
    assert_eq!(chunk_string, expected_chunk_string);
}

#[test]
fn test_chunk_crc() {
    let chunk = testing_chunk();
    assert_eq!(chunk.crc(), 2882656334);
}

#[test]
fn test_valid_chunk_from_bytes() {
    let data_length: u32 = 42;
    let chunk_type = "RuSt".as_bytes();
    let message_bytes = "This is where your secret message will be!".as_bytes();
    let crc: u32 = 2882656334;

    let chunk_data: Vec<u8> = data_length
        .to_be_bytes()
        .iter()
        .chain(chunk_type.iter())
        .chain(message_bytes.iter())
        .chain(crc.to_be_bytes().iter())
        .copied()
        .collect();

    let chunk = Chunk::parse(chunk_data.as_ref()).unwrap();

    let chunk_string = chunk.data_as_string().unwrap();
    let expected_chunk_string = String::from("This is where your secret message will be!");

    assert_eq!(chunk.length(), 42);
    assert_eq!(chunk.chunk_type().to_text().unwrap(), String::from("RuSt"));
    assert_eq!(chunk_string, expected_chunk_string);
    assert_eq!(chunk.crc(), 2882656334);
}

#[test]
fn test_invalid_chunk_from_bytes() {
    let data_length: u32 = 42;
    let chunk_type = "RuSt".as_bytes();
    let message_bytes = "This is where your secret message will be!".as_bytes();
    let crc: u32 = 2882656333;

    let chunk_data: Vec<u8> = data_length
        .to_be_bytes()
        .iter()
        .chain(chunk_type.iter())
        .chain(message_bytes.iter())
        .chain(crc.to_be_bytes().iter())
        .copied()
        .collect();

    let chunk = Chunk::parse(chunk_data.as_ref());

    assert!(chunk.is_err());
}

#[test]
pub fn test_chunk_trait_impls() {
    let data_length: u32 = 42;
    let chunk_type = "RuSt".as_bytes();
    let message_bytes = "This is where your secret message will be!".as_bytes();
    let crc: u32 = 2882656334;

    let chunk_data: Vec<u8> = data_length
        .to_be_bytes()
        .iter()
        .chain(chunk_type.iter())
        .chain(message_bytes.iter())
        .chain(crc.to_be_bytes().iter())
        .copied()
        .collect();

    let chunk: Chunk = Chunk::parse(chunk_data.as_ref()).unwrap();

    let _chunk_string = format!("{:?}", chunk);
}

#[test]
fn test_chunk_new_round_trip() {
    let chunk_type = ChunkType::from_str("TeSt").unwrap();
    let chunk = Chunk::new(chunk_type, vec![1, 2, 3, 4, 5]);
    let bytes = chunk.as_bytes();
    let parsed = Chunk::parse(bytes.as_ref()).unwrap();
    assert_eq!(parsed.chunk_type().bytes(), chunk.chunk_type().bytes());
    assert_eq!(parsed.data(), chunk.data());
    assert_eq!(parsed.crc(), chunk.crc());
}

#[test]
fn test_chunk_parse_truncated_short_buffer() {
    for n in 0..12 {
        let buf = vec![0u8; n];
        assert_eq!(
            Chunk::parse(buf.as_ref()).unwrap_err(),
            ChunkError::Truncated
        );
    }
}

#[test]
fn test_chunk_parse_truncated_declared_length() {
    // declares a 100-byte payload but supplies only 8 bytes of it
    let mut buf: Vec<u8> = Vec::new();
    buf.extend_from_slice(&100u32.to_be_bytes());
    buf.extend_from_slice("RuSt".as_bytes());
    buf.extend_from_slice(&[0u8; 8]);
    assert_eq!(
        Chunk::parse(buf.as_ref()).unwrap_err(),
        ChunkError::Truncated
    );
}

#[test]
fn test_chunk_checksum_bit_flip_sensitivity() {
    let good = testing_chunk().as_bytes();
    // flip every single bit of the type and data fields in turn
    for byte_index in 4..(good.len() - 4) {
        for bit in 0..8 {
            let mut tampered = good.clone();
            tampered[byte_index] ^= 1u8 << bit;
            assert_eq!(
                Chunk::parse(tampered.as_ref()).unwrap_err(),
                ChunkError::ChecksumMismatch
            );
        }
    }
}

#[test]
fn test_chunk_data_as_string_invalid_encoding() {
    let chunk_type = ChunkType::from_str("TeSt").unwrap();
    let chunk = Chunk::new(chunk_type, vec![0xff, 0xfe, 0xfd]);
    assert_eq!(
        chunk.data_as_string().unwrap_err(),
        ChunkError::InvalidEncoding
    );
}

#[test]
fn test_chunk_data_as_string_multibyte_utf8() {
    let chunk_type = ChunkType::from_str("TeSt").unwrap();
    let chunk = Chunk::new(chunk_type, "caf\u{e9} \u{2615}".as_bytes().to_vec());
    assert_eq!(chunk.length(), 9);
    assert_eq!(
        chunk.data_as_string().unwrap(),
        String::from("caf\u{e9} \u{2615}")
    );
}

#[test]
fn test_chunk_empty_payload() {
    let chunk_type = ChunkType::from_str("TeSt").unwrap();
    let chunk = Chunk::new(chunk_type, Vec::new());
    assert_eq!(chunk.length(), 0);
    assert_eq!(chunk.data_as_string().unwrap(), String::new());
    let parsed = Chunk::parse(chunk.as_bytes().as_ref()).unwrap();
    assert_eq!(parsed.crc(), chunk.crc());
}

#[test]
fn test_chunk_crc_matches_crc_crate() {
    let chunk_type = ChunkType::from_str("abcd").unwrap();
    let payload = b"payload bytes".to_vec();
    let chunk = Chunk::new(chunk_type, payload.clone());
    let mut checked: Vec<u8> = b"abcd".to_vec();
    checked.extend_from_slice(&payload);
    let expected = crc::Crc::<u32>::new(&crc::CRC_32_ISO_HDLC).checksum(&checked);
    assert_eq!(chunk.crc(), expected);
}
