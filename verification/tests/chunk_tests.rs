use pngme::chunk::{Chunk, ChunkError};
use pngme::chunk_type::{ChunkType, ChunkTypeDecodingError};
use std::convert::TryFrom;
use std::str::FromStr;

fn frame_of(length: u32, chunk_type: &[u8], data: &[u8], crc: u32) -> Vec<u8> {
    length
        .to_be_bytes()
        .iter()
        .chain(chunk_type.iter())
        .chain(data.iter())
        .chain(crc.to_be_bytes().iter())
        .copied()
        .collect()
}

fn testing_chunk() -> Chunk {
    let data_length: u32 = 42;
    let chunk_type = "RuSt".as_bytes();
    let message_bytes = "This is where your secret message will be!".as_bytes();
    let crc: u32 = 2882656334;

    let chunk_data: Vec<u8> = data_length
        .to_be_bytes()
        .iter()
        .chain(chunk_type.iter())
        .chain(message_bytes.iter())
        .chain(crc.to_be_bytes().iter())
        .copied()
        .collect();

    Chunk::try_from(chunk_data.as_ref()).unwrap()
}

#[test]
fn test_new_chunk() {
    let chunk_type = ChunkType::from_str("RuSt").unwrap();
    let data = "This is where your secret message will be!"
        .as_bytes()
        .to_vec();
    let chunk = Chunk::new(chunk_type, data);
    assert_eq!(chunk.length(), 42);
    assert_eq!(chunk.crc(), 2882656334);
}

#[test]
fn test_chunk_length() {
    let chunk = testing_chunk();
    assert_eq!(chunk.length(), 42);
}

#[test]
fn test_chunk_type() {
    let chunk = testing_chunk();
    assert_eq!(chunk.chunk_type().to_string(), String::from("RuSt"));
}

#[test]
fn test_chunk_string() {
    let chunk = testing_chunk();
    let chunk_string = chunk.data_as_string().unwrap();
    let expected_chunk_string = String::from("This is where your secret message will be!");
    assert_eq!(chunk_string, expected_chunk_string);
}

#[test]
fn test_chunk_crc() {
    let chunk = testing_chunk();
    assert_eq!(chunk.crc(), 2882656334);
}

#[test]
fn test_valid_chunk_from_bytes() {
    let data_length: u32 = 42;
    let chunk_type = "RuSt".as_bytes();
    let message_bytes = "This is where your secret message will be!".as_bytes();
    let crc: u32 = 2882656334;

    let chunk_data: Vec<u8> = data_length
        .to_be_bytes()
        .iter()
        .chain(chunk_type.iter())
        .chain(message_bytes.iter())
        .chain(crc.to_be_bytes().iter())
        .copied()
        .collect();

    let chunk = Chunk::try_from(chunk_data.as_ref()).unwrap();

    let chunk_string = chunk.data_as_string().unwrap();
    let expected_chunk_string = String::from("This is where your secret message will be!");

    assert_eq!(chunk.length(), 42);
    assert_eq!(chunk.chunk_type().to_string(), String::from("RuSt"));
    assert_eq!(chunk_string, expected_chunk_string);
    assert_eq!(chunk.crc(), 2882656334);
}

#[test]
fn test_invalid_chunk_from_bytes() {
    let data_length: u32 = 42;
    let chunk_type = "RuSt".as_bytes();
    let message_bytes = "This is where your secret message will be!".as_bytes();
    let crc: u32 = 2882656333;

    let chunk_data: Vec<u8> = data_length
        .to_be_bytes()
        .iter()
        .chain(chunk_type.iter())
        .chain(message_bytes.iter())
        .chain(crc.to_be_bytes().iter())
        .copied()
        .collect();

    let chunk = Chunk::try_from(chunk_data.as_ref());

    assert!(chunk.is_err());
}

#[test]
pub fn test_chunk_trait_impls() {
    let data_length: u32 = 42;
    let chunk_type = "RuSt".as_bytes();
    let message_bytes = "This is where your secret message will be!".as_bytes();
    let crc: u32 = 2882656334;

    let chunk_data: Vec<u8> = data_length
        .to_be_bytes()
        .iter()
        .chain(chunk_type.iter())
        .chain(message_bytes.iter())
        .chain(crc.to_be_bytes().iter())
        .copied()
        .collect();

    let chunk: Chunk = TryFrom::try_from(chunk_data.as_ref()).unwrap();

    let _chunk_string = format!("{}", chunk.to_string());
}

#[test]
fn chunk_in_words() {
    let chunk = testing_chunk();
    assert_eq!(
        chunk.to_string(),
        "Chunk {\n  Length: 42\n  Type: RuSt\n  Data: 42 bytes\n  Crc: 2882656334\n}\n"
    );
    let empty = Chunk::new(ChunkType::from_str("IEND").unwrap(), Vec::new());
    assert_eq!(
        empty.to_string(),
        "Chunk {\n  Length: 0\n  Type: IEND\n  Data: 0 bytes\n  Crc: 2923585666\n}\n"
    );
}

#[test]
fn checksum_covers_type_then_data() {
    // The check value of CRC-32/IEEE over "123456789".
    let chunk = Chunk::new(ChunkType::from_str("abCd").unwrap(), b"123456789".to_vec());
    assert_eq!(chunk.crc(), crc::crc32::checksum_ieee(b"abCd123456789"));
    let split = Chunk::new(ChunkType::try_from(*b"AbCd").unwrap(), b"56789".to_vec());
    assert_ne!(split.crc(), 0);
    assert_ne!(split.crc(), crc::crc32::checksum_ieee(b"56789"));
    let iend = Chunk::new(ChunkType::from_str("IEND").unwrap(), Vec::new());
    assert_eq!(iend.crc(), 0xae42_6082);
}

#[test]
fn frame_layout() {
    let chunk = Chunk::new(ChunkType::from_str("RuSt").unwrap(), vec![1, 2, 3]);
    let frame = chunk.as_bytes();
    assert_eq!(frame.len(), 15);
    assert_eq!(&frame[0..4], &[0, 0, 0, 3]);
    assert_eq!(&frame[4..8], b"RuSt");
    assert_eq!(&frame[8..11], &[1, 2, 3]);
    assert_eq!(&frame[11..15], &chunk.crc().to_be_bytes());
    assert_eq!(chunk.data(), &[1, 2, 3]);
    assert_eq!(chunk.length(), 3);
}

#[test]
fn frame_length_field_is_big_endian() {
    let data = vec![7u8; 0x0001_0203];
    let chunk = Chunk::new(ChunkType::from_str("RuSt").unwrap(), data);
    let frame = chunk.as_bytes();
    assert_eq!(&frame[0..4], &[0x00, 0x01, 0x02, 0x03]);
    assert_eq!(frame.len(), 12 + 0x0001_0203);
    let back = Chunk::try_from(frame.as_ref()).unwrap();
    assert_eq!(back.length(), 0x0001_0203);
}

#[test]
fn round_trip_of_new() {
    let message = "This is where your secret message will be!";
    let chunk = Chunk::new(
        ChunkType::from_str("RuSt").unwrap(),
        message.as_bytes().to_vec(),
    );
    let back = Chunk::try_from(chunk.as_bytes().as_ref()).unwrap();
    assert_eq!(back.length(), chunk.length());
    assert_eq!(back.chunk_type(), chunk.chunk_type());
    assert_eq!(back.data(), chunk.data());
    assert_eq!(back.crc(), chunk.crc());
}

#[test]
fn round_trip_of_empty_payload() {
    let chunk = Chunk::new(ChunkType::from_str("IEND").unwrap(), Vec::new());
    let frame = chunk.as_bytes();
    assert_eq!(frame.len(), 12);
    let back = Chunk::try_from(frame.as_ref()).unwrap();
    assert_eq!(back.length(), 0);
    assert_eq!(back.data(), &[] as &[u8]);
    assert_eq!(back.crc(), chunk.crc());
}

#[test]
fn frame_of_decoded_frame_is_the_same_bytes() {
    let frame = frame_of(
        42,
        b"RuSt",
        b"This is where your secret message will be!",
        2882656334,
    );
    let chunk = Chunk::try_from(frame.as_ref()).unwrap();
    assert_eq!(chunk.as_bytes(), frame);
}

#[test]
fn too_short_frame() {
    for n in 0..12 {
        let bytes = vec![0u8; n];
        assert_eq!(
            Chunk::try_from(bytes.as_ref()).unwrap_err(),
            ChunkError::TooShort
        );
    }
}

#[test]
fn frame_with_bad_type_byte() {
    let frame = frame_of(0, b"Ru1t", b"", 0);
    assert_eq!(
        Chunk::try_from(frame.as_ref()).unwrap_err(),
        ChunkError::InvalidByte(b'1')
    );
}

#[test]
fn frame_with_reserved_bit_set() {
    let made = Chunk::new(ChunkType::from_str("Rust").unwrap(), b"hello".to_vec());
    assert_eq!(
        Chunk::try_from(made.as_bytes().as_ref()).unwrap_err(),
        ChunkError::InvalidTypeCode
    );
}

#[test]
fn bad_type_is_reported_before_bad_length() {
    let frame = frame_of(99, b"Ru1t", b"abc", 0);
    assert_eq!(
        Chunk::try_from(frame.as_ref()).unwrap_err(),
        ChunkError::InvalidByte(b'1')
    );
    let frame = frame_of(99, b"Rust", b"abc", 0);
    assert_eq!(
        Chunk::try_from(frame.as_ref()).unwrap_err(),
        ChunkError::InvalidTypeCode
    );
}

#[test]
fn truncated_frame_is_a_length_mismatch() {
    let chunk = testing_chunk();
    let frame = chunk.as_bytes();
    for kept in 12..frame.len() {
        assert_eq!(
            Chunk::try_from(&frame[..kept]).unwrap_err(),
            ChunkError::LengthMismatch
        );
    }
    for kept in 0..12 {
        assert_eq!(
            Chunk::try_from(&frame[..kept]).unwrap_err(),
            ChunkError::TooShort
        );
    }
}

#[test]
fn trailing_bytes_are_a_length_mismatch() {
    let mut frame = testing_chunk().as_bytes();
    frame.push(0);
    assert_eq!(
        Chunk::try_from(frame.as_ref()).unwrap_err(),
        ChunkError::LengthMismatch
    );
}

#[test]
fn largest_length_field_is_a_length_mismatch() {
    let frame = frame_of(u32::MAX, b"RuSt", b"abc", 0);
    assert_eq!(
        Chunk::try_from(frame.as_ref()).unwrap_err(),
        ChunkError::LengthMismatch
    );
}

#[test]
fn wrong_checksum_field() {
    let frame = frame_of(
        42,
        b"RuSt",
        b"This is where your secret message will be!",
        2882656333,
    );
    assert_eq!(
        Chunk::try_from(frame.as_ref()).unwrap_err(),
        ChunkError::CrcMismatch
    );
}

#[test]
fn every_flipped_data_bit_is_a_checksum_mismatch() {
    let frame = testing_chunk().as_bytes();
    for at in 8..frame.len() - 4 {
        for bit in 0..8 {
            let mut changed = frame.clone();
            changed[at] ^= 1 << bit;
            assert_eq!(
                Chunk::try_from(changed.as_ref()).unwrap_err(),
                ChunkError::CrcMismatch
            );
        }
    }
}

#[test]
fn flipped_type_bits() {
    let frame = testing_chunk().as_bytes();
    // 'R' with bit 0 flipped is 'S': still a type code, so the sum decides.
    let mut changed = frame.clone();
    changed[4] ^= 0x01;
    assert_eq!(
        Chunk::try_from(changed.as_ref()).unwrap_err(),
        ChunkError::CrcMismatch
    );
    // 'R' with bit 7 flipped is no letter.
    let mut changed = frame.clone();
    changed[4] ^= 0x80;
    assert_eq!(
        Chunk::try_from(changed.as_ref()).unwrap_err(),
        ChunkError::InvalidByte(0xd2)
    );
    // 'S' with bit 5 flipped is 's': the reserved bit.
    let mut changed = frame.clone();
    changed[6] ^= 0x20;
    assert_eq!(
        Chunk::try_from(changed.as_ref()).unwrap_err(),
        ChunkError::InvalidTypeCode
    );
}

#[test]
fn decode_with_given_checksum() {
    let frame = frame_of(1, b"RuSt", &[7], 0x0102_0304);
    let (chunk_type, data) = Chunk::decode_with_checksum(&frame, 0x0102_0304).unwrap();
    assert_eq!(chunk_type.bytes(), *b"RuSt");
    assert_eq!(data, vec![7]);
    assert_eq!(
        Chunk::decode_with_checksum(&frame, 0x0102_0305).unwrap_err(),
        ChunkError::CrcMismatch
    );
    assert_eq!(
        Chunk::decode_with_checksum(&frame[..12], 0x0102_0304).unwrap_err(),
        ChunkError::LengthMismatch
    );
    assert_eq!(
        Chunk::decode_with_checksum(&frame[..11], 0x0102_0304).unwrap_err(),
        ChunkError::TooShort
    );
}

#[test]
fn checked_constructor() {
    let chunk = Chunk::new_checked(ChunkType::from_str("RuSt").unwrap(), b"hi".to_vec()).unwrap();
    assert_eq!(chunk.length(), 2);
    assert_eq!(chunk.data(), b"hi");
    assert_eq!(
        Chunk::new_checked(ChunkType::from_str("Rust").unwrap(), b"hi".to_vec()).unwrap_err(),
        ChunkError::InvalidTypeCode
    );
    // The plain constructor takes the same type code as it is.
    let unchecked = Chunk::new(ChunkType::from_str("Rust").unwrap(), b"hi".to_vec());
    assert!(!unchecked.chunk_type().is_valid());
}

#[test]
fn payload_that_is_not_utf8() {
    let chunk = Chunk::new(ChunkType::from_str("RuSt").unwrap(), vec![0xff, 0xfe]);
    assert_eq!(
        chunk.data_as_string().unwrap_err(),
        ChunkError::InvalidEncoding
    );
    let chunk = Chunk::new(ChunkType::from_str("RuSt").unwrap(), vec![0xc3]);
    assert_eq!(
        chunk.data_as_string().unwrap_err(),
        ChunkError::InvalidEncoding
    );
    let chunk = Chunk::new(
        ChunkType::from_str("RuSt").unwrap(),
        "gr\u{fc}\u{df}e \u{1f980}".as_bytes().to_vec(),
    );
    assert_eq!(chunk.data_as_string().unwrap(), "gr\u{fc}\u{df}e \u{1f980}");
    let chunk = Chunk::new(ChunkType::from_str("RuSt").unwrap(), Vec::new());
    assert_eq!(chunk.data_as_string().unwrap(), "");
}

#[test]
fn chunk_errors_in_words() {
    assert_eq!(ChunkError::TooShort.to_string(), "chunk is too short");
    assert_eq!(
        ChunkError::LengthOverflow.to_string(),
        "length exceeds max size of u32"
    );
    assert_eq!(
        ChunkError::LengthMismatch.to_string(),
        "length does not match chunk_data length"
    );
    assert_eq!(
        ChunkError::InvalidByte(49).to_string(),
        "Bad byte: 49 (110001)"
    );
    assert_eq!(
        ChunkError::InvalidLength(3).to_string(),
        "Bad length: 3 (expected 4)"
    );
    assert_eq!(
        ChunkError::InvalidTypeCode.to_string(),
        "chunk type not valid"
    );
    assert_eq!(
        ChunkError::CrcMismatch.to_string(),
        "expected crc does not match the actual crc"
    );
    assert_eq!(
        ChunkError::InvalidEncoding.to_string(),
        "chunk data is not valid utf8"
    );
}

#[test]
fn type_code_error_becomes_chunk_error() {
    assert_eq!(
        ChunkError::from(ChunkTypeDecodingError::BadByte(9)),
        ChunkError::InvalidByte(9)
    );
    assert_eq!(
        ChunkError::from(ChunkTypeDecodingError::BadLength(9)),
        ChunkError::InvalidLength(9)
    );
}
