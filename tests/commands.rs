use pngme::commands::{decode, encode, print, remove};
use pngme::error::PngError;

const SIGNATURE: [u8; 8] = [137, 80, 78, 71, 13, 10, 26, 10];

#[test]
fn encode_then_decode_and_print() {
    let out = encode(&SIGNATURE, "ruSt", "hello").unwrap();
    assert_eq!(decode(&out, "ruSt").unwrap(), "hello");
    let listing = print(&out).unwrap();
    assert!(listing.contains("Length: 5"));
    assert!(listing.contains("Type: ruSt"));
}

#[test]
fn decode_missing_type() {
    let out = encode(&SIGNATURE, "ruSt", "hello").unwrap();
    assert_eq!(decode(&out, "zzzz").unwrap_err(), PngError::ChunkNotFound);
    assert_eq!(decode(&SIGNATURE, "zzzz").unwrap_err(), PngError::ChunkNotFound);
}

#[test]
fn encode_appends_after_existing_chunks() {
    let once = encode(&SIGNATURE, "ruSt", "first").unwrap();
    let twice = encode(&once, "ruSt", "second").unwrap();
    assert_eq!(decode(&twice, "ruSt").unwrap(), "first");
    assert_eq!(&twice[..once.len()], &once[..]);
    assert_eq!(twice.len(), once.len() + 12 + 6);
}

#[test]
fn encode_errors() {
    assert_eq!(encode(&SIGNATURE[..4], "ruSt", "x").unwrap_err(), PngError::TooShort);
    assert_eq!(encode(&[0u8; 8], "ruSt", "x").unwrap_err(), PngError::InvalidSignature);
    assert_eq!(encode(&SIGNATURE, "ru5t", "x").unwrap_err(), PngError::InvalidFormat);
}

#[test]
fn remove_then_decode_fails() {
    let out = encode(&SIGNATURE, "ruSt", "hello").unwrap();
    let removed = remove(&out, "ruSt").unwrap();
    assert_eq!(removed, SIGNATURE.to_vec());
    assert_eq!(remove(&removed, "ruSt").unwrap_err(), PngError::ChunkNotFound);
}

#[test]
fn print_lists_chunks_with_blank_lines() {
    let one = encode(&SIGNATURE, "ruSt", "hello").unwrap();
    let two = encode(&one, "IEND", "").unwrap();
    let listing = print(&two).unwrap();
    let crc = crc::crc32::checksum_ieee(b"ruSthello");
    let expected = format!(
        "Chunk {{\n  Length: 5\n  Type: ruSt\n  CRC: {}\n}}\n\nChunk {{\n  Length: 0\n  Type: IEND\n  CRC: 2923585666\n}}",
        crc
    );
    assert_eq!(listing, expected);
    assert_eq!(print(&SIGNATURE).unwrap(), "");
}

#[test]
fn decode_invalid_utf8() {
    let mut bytes = SIGNATURE.to_vec();
    let crc = crc::crc32::checksum_ieee(&[b'r', b'u', b'S', b't', 0xc3]);
    bytes.extend_from_slice(&[0, 0, 0, 1, b'r', b'u', b'S', b't', 0xc3]);
    bytes.extend_from_slice(&crc.to_be_bytes());
    assert_eq!(decode(&bytes, "ruSt").unwrap_err(), PngError::InvalidEncoding);
}

#[test]
fn encode_rejects_type_of_wrong_length() {
    assert_eq!(encode(&SIGNATURE, "ruStx", "hello").unwrap_err(), PngError::InvalidFormat);
    assert_eq!(encode(&SIGNATURE, "ru", "hello").unwrap_err(), PngError::InvalidFormat);
}
