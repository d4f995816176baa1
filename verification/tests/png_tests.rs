use pngme::chunk::{Chunk, ChunkError};
use pngme::chunk_type::ChunkType;
use pngme::png::{Png, PngError, STANDARD_HEADER};
use std::convert::TryFrom;
use std::str::FromStr;

fn chunk_of(chunk_type: &str, data: &[u8]) -> Chunk {
    Chunk::new(ChunkType::from_str(chunk_type).unwrap(), data.to_vec())
}

fn three_chunks() -> Vec<Chunk> {
    vec![
        chunk_of("IHDR", &[0, 0, 0, 1, 0, 0, 0, 1, 8, 2, 0, 0, 0]),
        chunk_of("ruSt", b"hello"),
        chunk_of("IEND", b""),
    ]
}

fn file_of(chunks: &[Chunk]) -> Vec<u8> {
    let mut bytes: Vec<u8> = STANDARD_HEADER.to_vec();
    for chunk in chunks {
        bytes.extend_from_slice(&chunk.as_bytes());
    }
    bytes
}

fn types_of(png: &Png) -> Vec<String> {
    png.chunks()
        .iter()
        .map(|chunk| chunk.chunk_type().to_string())
        .collect()
}

#[test]
fn signature_bytes() {
    assert_eq!(
        STANDARD_HEADER,
        [0x89, 0x50, 0x4e, 0x47, 0x0d, 0x0a, 0x1a, 0x0a]
    );
    let png = Png::from_chunks(Vec::new());
    assert_eq!(png.header(), &STANDARD_HEADER);
    assert!(pngme::png::starts_with_signature(&STANDARD_HEADER));
    assert!(!pngme::png::starts_with_signature(&STANDARD_HEADER[..7]));
}

#[test]
fn file_from_chunks() {
    let png = Png::from_chunks(three_chunks());
    assert_eq!(png.chunks().len(), 3);
    assert_eq!(types_of(&png), vec!["IHDR", "ruSt", "IEND"]);
}

#[test]
fn file_bytes_are_signature_then_frames() {
    let png = Png::from_chunks(three_chunks());
    let bytes = png.as_bytes();
    assert_eq!(bytes, file_of(&three_chunks()));
    assert_eq!(&bytes[..8], &STANDARD_HEADER);
    assert_eq!(bytes.len(), 8 + (12 + 13) + (12 + 5) + 12);
    assert_eq!(Png::from_chunks(Vec::new()).as_bytes(), STANDARD_HEADER.to_vec());
}

#[test]
fn decode_whole_file() {
    let bytes = file_of(&three_chunks());
    let png = Png::try_from(bytes.as_ref()).unwrap();
    assert_eq!(types_of(&png), vec!["IHDR", "ruSt", "IEND"]);
    assert_eq!(png.chunks()[1].data_as_string().unwrap(), "hello");
    assert_eq!(png.chunks()[0].length(), 13);
}

#[test]
fn decode_through_the_trait() {
    let bytes = file_of(&three_chunks());
    let png: Png = TryFrom::try_from(bytes.as_ref()).unwrap();
    assert_eq!(png.chunks().len(), 3);
}

#[test]
fn signature_alone_is_an_empty_file() {
    let png = Png::try_from(&STANDARD_HEADER[..]).unwrap();
    assert_eq!(png.chunks().len(), 0);
}

#[test]
fn no_end_chunk_is_asked_for() {
    let bytes = file_of(&[chunk_of("ruSt", b"one"), chunk_of("ruSt", b"two")]);
    let png = Png::try_from(bytes.as_ref()).unwrap();
    assert_eq!(types_of(&png), vec!["ruSt", "ruSt"]);
}

#[test]
fn bad_signature_whatever_follows() {
    let good = file_of(&three_chunks());
    for at in 0..8 {
        let mut bytes = good.clone();
        bytes[at] ^= 0x01;
        assert_eq!(
            Png::try_from(bytes.as_ref()).unwrap_err(),
            PngError::BadSignature
        );
    }
    for kept in 0..8 {
        assert_eq!(
            Png::try_from(&good[..kept]).unwrap_err(),
            PngError::BadSignature
        );
    }
    assert_eq!(
        Png::try_from(&good[8..]).unwrap_err(),
        PngError::BadSignature
    );
    let garbage = [13u8, 80, 78, 71, 13, 10, 26, 10, 1, 2, 3];
    assert_eq!(
        Png::try_from(&garbage[..]).unwrap_err(),
        PngError::BadSignature
    );
}

#[test]
fn bad_chunk_is_reported_with_its_offset() {
    let mut bytes = file_of(&three_chunks());
    // The checksum field of the second chunk.
    let second = 8 + 25;
    bytes[second + 12 + 5 - 1] ^= 0xff;
    assert_eq!(
        Png::try_from(bytes.as_ref()).unwrap_err(),
        PngError::BadChunk {
            offset: second,
            error: ChunkError::CrcMismatch
        }
    );
    let mut bytes = file_of(&three_chunks());
    bytes[8 + 4] = b'1';
    assert_eq!(
        Png::try_from(bytes.as_ref()).unwrap_err(),
        PngError::BadChunk {
            offset: 8,
            error: ChunkError::InvalidByte(b'1')
        }
    );
}

#[test]
fn first_bad_chunk_wins() {
    let mut bytes = file_of(&three_chunks());
    bytes[8 + 25 + 6] = b's';
    let last = bytes.len() - 1;
    bytes[last] ^= 0xff;
    assert_eq!(
        Png::try_from(bytes.as_ref()).unwrap_err(),
        PngError::BadChunk {
            offset: 33,
            error: ChunkError::InvalidTypeCode
        }
    );
}

#[test]
fn truncated_file() {
    let bytes = file_of(&three_chunks());
    let third = 8 + 25 + 17;
    // Cut inside the last frame: fewer than twelve bytes are left of it.
    assert_eq!(
        Png::try_from(&bytes[..bytes.len() - 1]).unwrap_err(),
        PngError::BadChunk {
            offset: third,
            error: ChunkError::TooShort
        }
    );
    // Cut inside the second frame, with twelve bytes or more left of it.
    assert_eq!(
        Png::try_from(&bytes[..third - 2]).unwrap_err(),
        PngError::BadChunk {
            offset: 33,
            error: ChunkError::LengthMismatch
        }
    );
    // Cut between two frames: a shorter file, and a good one.
    let png = Png::try_from(&bytes[..third]).unwrap();
    assert_eq!(types_of(&png), vec!["IHDR", "ruSt"]);
}

#[test]
fn trailing_bytes_are_refused() {
    let mut bytes = file_of(&three_chunks());
    let end = bytes.len();
    bytes.extend_from_slice(&[0, 0, 0]);
    assert_eq!(
        Png::try_from(bytes.as_ref()).unwrap_err(),
        PngError::BadChunk {
            offset: end,
            error: ChunkError::TooShort
        }
    );
}

#[test]
fn length_field_beyond_the_file() {
    let mut bytes = STANDARD_HEADER.to_vec();
    bytes.extend_from_slice(&[0xff, 0xff, 0xff, 0xff]);
    bytes.extend_from_slice(b"RuSt");
    bytes.extend_from_slice(&[1, 2, 3, 4, 5, 6, 7, 8]);
    assert_eq!(
        Png::try_from(bytes.as_ref()).unwrap_err(),
        PngError::BadChunk {
            offset: 8,
            error: ChunkError::LengthMismatch
        }
    );
}

#[test]
fn encode_of_decode_is_the_same_bytes() {
    let bytes = file_of(&three_chunks());
    let png = Png::try_from(bytes.as_ref()).unwrap();
    assert_eq!(png.as_bytes(), bytes);
}

#[test]
fn decode_of_encode_is_the_same_chunks() {
    let png = Png::from_chunks(three_chunks());
    let back = Png::try_from(png.as_bytes().as_ref()).unwrap();
    assert_eq!(back.chunks().len(), 3);
    for (a, b) in png.chunks().iter().zip(back.chunks().iter()) {
        assert_eq!(a.chunk_type(), b.chunk_type());
        assert_eq!(a.data(), b.data());
        assert_eq!(a.crc(), b.crc());
        assert_eq!(a.length(), b.length());
    }
}

#[test]
fn append_find_remove() {
    let bytes = file_of(&three_chunks());
    let mut png = Png::try_from(bytes.as_ref()).unwrap();

    png.append_chunk(chunk_of("ruSt", b"secret"));
    assert_eq!(types_of(&png), vec!["IHDR", "ruSt", "IEND", "ruSt"]);
    let found = png.chunk_by_type("ruSt").unwrap();
    assert_eq!(found.data_as_string().unwrap(), "hello");
    assert_eq!(png.position_by_type("ruSt"), Some(1));

    let removed = png.remove_first_chunk("ruSt").unwrap();
    assert_eq!(removed.data_as_string().unwrap(), "hello");
    assert_eq!(types_of(&png), vec!["IHDR", "IEND", "ruSt"]);
    let found = png.chunk_by_type("ruSt").unwrap();
    assert_eq!(found.data_as_string().unwrap(), "secret");
    assert_eq!(png.position_by_type("ruSt"), Some(2));

    let removed = png.remove_first_chunk("ruSt").unwrap();
    assert_eq!(removed.data_as_string().unwrap(), "secret");
    assert!(png.chunk_by_type("ruSt").is_none());
    assert_eq!(
        png.remove_first_chunk("ruSt").unwrap_err(),
        PngError::NotFound
    );
    assert_eq!(types_of(&png), vec!["IHDR", "IEND"]);
}

#[test]
fn lookup_misses() {
    let png = Png::from_chunks(three_chunks());
    assert!(png.chunk_by_type("tEXt").is_none());
    assert!(png.chunk_by_type("rust").is_none());
    assert!(png.chunk_by_type("ruS").is_none());
    assert!(png.chunk_by_type("").is_none());
    assert!(png.chunk_by_type("ruStx").is_none());
    assert_eq!(png.position_by_type("IHDR"), Some(0));
    assert_eq!(png.position_by_type("IEND"), Some(2));
    assert_eq!(png.position_by_type("iend"), None);
    assert!(Png::from_chunks(Vec::new()).chunk_by_type("IHDR").is_none());
}

#[test]
fn all_chunks_of_a_type() {
    let png = Png::from_chunks(vec![
        chunk_of("ruSt", b"a"),
        chunk_of("IHDR", b"b"),
        chunk_of("ruSt", b"c"),
        chunk_of("tEXt", b"d"),
        chunk_of("ruSt", b"e"),
    ]);
    let found: Vec<String> = png
        .chunks_by_type("ruSt")
        .iter()
        .map(|chunk| chunk.data_as_string().unwrap())
        .collect();
    assert_eq!(found, vec!["a", "c", "e"]);
    assert_eq!(png.chunks_by_type("tEXt").len(), 1);
    assert!(png.chunks_by_type("IEND").is_empty());
}

#[test]
fn remove_of_missing_type_changes_nothing() {
    let mut png = Png::from_chunks(three_chunks());
    let before = png.as_bytes();
    assert_eq!(
        png.remove_first_chunk("tEXt").unwrap_err(),
        PngError::NotFound
    );
    assert_eq!(png.as_bytes(), before);
}

#[test]
fn file_in_words() {
    let png = Png::from_chunks(vec![chunk_of("IEND", b""), chunk_of("RuSt", &[1, 2, 3])]);
    let second = png.chunks()[1].crc();
    assert_eq!(
        png.to_string(),
        format!(
            "Chunk {{\n  Length: 0\n  Type: IEND\n  Data: 0 bytes\n  Crc: 2923585666\n}}\n\
             Chunk {{\n  Length: 3\n  Type: RuSt\n  Data: 3 bytes\n  Crc: {}\n}}\n",
            second
        )
    );
    assert_eq!(Png::from_chunks(Vec::new()).to_string(), "");
}

#[test]
fn file_errors_in_words() {
    assert_eq!(
        PngError::BadSignature.to_string(),
        "file does not start with the png signature"
    );
    assert_eq!(PngError::NotFound.to_string(), "incorrect chunk type");
    assert_eq!(
        PngError::BadChunk {
            offset: 1033,
            error: ChunkError::CrcMismatch
        }
        .to_string(),
        "chunk at offset 1033: expected crc does not match the actual crc"
    );
}
