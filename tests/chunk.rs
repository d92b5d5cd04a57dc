use pngme::chunk::Chunk;
use pngme::chunk_type::ChunkType;
use pngme::error::PngError;
use std::convert::TryFrom;
use std::str::FromStr;

fn wire(length: u32, chunk_type: &[u8], data: &[u8], crc: u32) -> Vec<u8> {
    length
        .to_be_bytes()
        .iter()
        .chain(chunk_type.iter())
        .chain(data.iter())
        .chain(crc.to_be_bytes().iter())
        .copied()
        .collect()
}

fn testing_chunk() -> Chunk {
    let data_length: u32 = 42;
    let chunk_type = b"RuSt";
    let message_bytes = b"This is where your secret message will be!";
    let crc: u32 = 2882656334;

    let chunk_data: Vec<u8> = data_length
        .to_be_bytes()
        .iter()
        .chain(chunk_type.iter())
        .chain(message_bytes.iter())
        .chain(crc.to_be_bytes().iter())
        .copied()
        .collect();

    Chunk::try_from(chunk_data.as_ref()).unwrap()
}

#[test]
fn test_chunk_length() {
    let chunk = testing_chunk();
    assert_eq!(chunk.length(), 42);
}

#[test]
fn test_chunk_type() {
    let chunk = testing_chunk();
    assert_eq!(chunk.chunk_type().to_string(), String::from("RuSt"));
}

#[test]
fn test_chunk_string() {
    let chunk = testing_chunk();
    let chunk_string = chunk.data_as_string().unwrap();
    let expected_chunk_string = String::from("This is where your secret message will be!");
    assert_eq!(chunk_string, expected_chunk_string);
}

#[test]
fn test_chunk_crc() {
    let chunk = testing_chunk();
    assert_eq!(chunk.crc(), 2882656334);
}

#[test]
fn test_valid_chunk_from_bytes() {
    let data_length: u32 = 42;
    let chunk_type = b"RuSt";
    let message_bytes = b"This is where your secret message will be!";
    let crc: u32 = 2882656334;

    let chunk_data: Vec<u8> = data_length
        .to_be_bytes()
        .iter()
        .chain(chunk_type.iter())
        .chain(message_bytes.iter())
        .chain(crc.to_be_bytes().iter())
        .copied()
        .collect();

    let chunk = Chunk::try_from(chunk_data.as_ref()).unwrap();

    let chunk_string = chunk.data_as_string().unwrap();
    let expected_chunk_string = String::from("This is where your secret message will be!");

    assert_eq!(chunk.length(), 42);
    assert_eq!(chunk.chunk_type().to_string(), String::from("RuSt"));
    assert_eq!(chunk_string, expected_chunk_string);
    assert_eq!(chunk.crc(), 2882656334);
}

#[test]
fn test_invalid_chunk_from_bytes() {
    let data_length: u32 = 42;
    let chunk_type = b"RuSt";
    let message_bytes = b"This is where your secret message will be!";
    let crc: u32 = 2882656333;

    let chunk_data: Vec<u8> = data_length
        .to_be_bytes()
        .iter()
        .chain(chunk_type.iter())
        .chain(message_bytes.iter())
        .chain(crc.to_be_bytes().iter())
        .copied()
        .collect();

    let chunk = Chunk::try_from(chunk_data.as_ref());

    assert!(chunk.is_err());
}

#[test]
pub fn test_chunk_trait_impls() {
    let data_length: u32 = 42;
    let chunk_type = b"RuSt";
    let message_bytes = b"This is where your secret message will be!";
    let crc: u32 = 2882656334;

    let chunk_data: Vec<u8> = data_length
        .to_be_bytes()
        .iter()
        .chain(chunk_type.iter())
        .chain(message_bytes.iter())
        .chain(crc.to_be_bytes().iter())
        .copied()
        .collect();

    let chunk: Chunk = TryFrom::try_from(chunk_data.as_ref()).unwrap();

    let _chunk_string = chunk.to_string();
}

#[test]
fn new_computes_length_and_crc() {
    let chunk = Chunk::new("RuSt", "This is where your secret message will be!").unwrap();
    assert_eq!(chunk.length(), 42);
    assert_eq!(chunk.crc(), 2882656334);
    assert_eq!(chunk.chunk_type(), &ChunkType::from_str("RuSt").unwrap());
    assert_eq!(chunk.data(), b"This is where your secret message will be!");
}

#[test]
fn new_rejects_bad_type() {
    assert_eq!(Chunk::new("Ru1t", "hi").unwrap_err(), PngError::InvalidFormat);
}

#[test]
fn new_then_parse_gives_same_chunk() {
    let chunk = Chunk::new("ruSt", "hello").unwrap();
    let bytes = chunk.as_bytes();
    let again = Chunk::from_bytes(&bytes).unwrap();
    assert_eq!(again.length(), chunk.length());
    assert_eq!(again.chunk_type(), chunk.chunk_type());
    assert_eq!(again.data(), chunk.data());
    assert_eq!(again.crc(), chunk.crc());
    assert_eq!(again.as_bytes(), bytes);
}

#[test]
fn as_bytes_layout() {
    let chunk = testing_chunk();
    let expected = wire(
        42,
        b"RuSt",
        b"This is where your secret message will be!",
        2882656334,
    );
    assert_eq!(chunk.as_bytes(), expected);
    assert_eq!(chunk.as_bytes().len(), 54);
}

#[test]
fn empty_data_chunk() {
    let chunk = Chunk::new("IEND", "").unwrap();
    assert_eq!(chunk.length(), 0);
    assert_eq!(chunk.crc(), 0xAE42_6082);
    assert_eq!(chunk.as_bytes(), wire(0, b"IEND", b"", 0xAE42_6082));
}

#[test]
fn too_short_chunk() {
    assert_eq!(Chunk::from_bytes(&[0u8; 11]).unwrap_err(), PngError::TooShort);
    assert_eq!(Chunk::from_bytes(&[]).unwrap_err(), PngError::TooShort);
}

#[test]
fn truncated_chunk() {
    let mut bytes = wire(42, b"RuSt", b"This is where your secret message will be!", 2882656334);
    bytes.truncate(50);
    assert_eq!(Chunk::from_bytes(&bytes).unwrap_err(), PngError::TruncatedData);
}

#[test]
fn crc_mismatch_is_detected() {
    let bytes = wire(42, b"RuSt", b"This is where your secret message will be!", 2882656333);
    assert_eq!(Chunk::from_bytes(&bytes).unwrap_err(), PngError::CrcMismatch);
}

#[test]
fn flipping_any_bit_of_type_or_data_breaks_crc() {
    let bytes = wire(42, b"RuSt", b"This is where your secret message will be!", 2882656334);
    for byte in 4..bytes.len() - 4 {
        for bit in 0..8 {
            let mut flipped = bytes.clone();
            flipped[byte] ^= 1 << bit;
            assert_eq!(Chunk::from_bytes(&flipped).unwrap_err(), PngError::CrcMismatch);
        }
    }
}

#[test]
fn non_letter_type_with_good_crc() {
    let crc = crc::crc32::checksum_ieee(b"Ru1tab");
    let bytes = wire(2, b"Ru1t", b"ab", crc);
    assert_eq!(Chunk::from_bytes(&bytes).unwrap_err(), PngError::InvalidFormat);
}

#[test]
fn data_that_is_not_utf8() {
    let crc = crc::crc32::checksum_ieee(&[b'R', b'u', b'S', b't', 0xff, 0xfe]);
    let bytes = wire(2, b"RuSt", &[0xff, 0xfe], crc);
    let chunk = Chunk::from_bytes(&bytes).unwrap();
    assert_eq!(chunk.data_as_string().unwrap_err(), PngError::InvalidEncoding);
}

#[test]
fn chunk_rendering() {
    let chunk = testing_chunk();
    assert_eq!(
        chunk.to_string(),
        "Chunk {\n  Length: 42\n  Type: RuSt\n  CRC: 2882656334\n}"
    );
}

#[test]
fn new_rejects_type_of_wrong_length() {
    assert_eq!(Chunk::new("RuStX", "hello").unwrap_err(), PngError::InvalidFormat);
    assert_eq!(Chunk::new("RuS", "hello").unwrap_err(), PngError::InvalidFormat);
    assert_eq!(Chunk::new("", "").unwrap_err(), PngError::InvalidFormat);
}
