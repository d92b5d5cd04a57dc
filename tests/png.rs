use pngme::chunk::Chunk;
use pngme::error::PngError;
use pngme::png::Png;
use std::convert::TryFrom;

const SIGNATURE: [u8; 8] = [137, 80, 78, 71, 13, 10, 26, 10];

fn stream(chunks: &[Chunk]) -> Vec<u8> {
    let mut bytes = SIGNATURE.to_vec();
    for c in chunks {
        bytes.extend(c.as_bytes());
    }
    bytes
}

fn sample_chunks() -> Vec<Chunk> {
    vec![
        Chunk::new("FrSt", "I am the first chunk").unwrap(),
        Chunk::new("miDl", "I am another chunk").unwrap(),
        Chunk::new("LASt", "I am the last chunk").unwrap(),
    ]
}

#[test]
fn parse_then_serialize_is_identity() {
    let bytes = stream(&sample_chunks());
    let png = Png::from_bytes(&bytes).unwrap();
    assert_eq!(png.chunks().len(), 3);
    assert_eq!(png.as_bytes(), bytes);
}

#[test]
fn signature_alone_is_an_empty_stream() {
    let png = Png::try_from(&SIGNATURE[..]).unwrap();
    assert_eq!(png.chunks().len(), 0);
    assert_eq!(png.as_bytes(), SIGNATURE.to_vec());
}

#[test]
fn short_buffer_is_rejected() {
    assert_eq!(Png::from_bytes(&SIGNATURE[..7]).unwrap_err(), PngError::TooShort);
    assert_eq!(Png::from_bytes(&[]).unwrap_err(), PngError::TooShort);
}

#[test]
fn wrong_signature_is_rejected() {
    let mut bytes = stream(&sample_chunks());
    bytes[1] = 81;
    assert_eq!(Png::from_bytes(&bytes).unwrap_err(), PngError::InvalidSignature);
}

#[test]
fn trailing_partial_chunk_is_rejected() {
    let mut bytes = stream(&sample_chunks());
    bytes.extend_from_slice(&[0, 0, 0]);
    assert_eq!(Png::from_bytes(&bytes).unwrap_err(), PngError::TooShort);
    let mut bytes = stream(&sample_chunks());
    bytes.truncate(bytes.len() - 2);
    assert_eq!(Png::from_bytes(&bytes).unwrap_err(), PngError::TruncatedData);
}

#[test]
fn corrupt_chunk_in_stream_is_rejected() {
    let mut bytes = stream(&sample_chunks());
    bytes[20] ^= 1;
    assert_eq!(Png::from_bytes(&bytes).unwrap_err(), PngError::CrcMismatch);
}

#[test]
fn chunk_by_type_finds_first() {
    let mut chunks = sample_chunks();
    chunks.push(Chunk::new("miDl", "second of its type").unwrap());
    let png = Png::from_bytes(&stream(&chunks)).unwrap();
    let c = png.chunk_by_type("miDl").unwrap();
    assert_eq!(c.data_as_string().unwrap(), "I am another chunk");
    assert!(png.chunk_by_type("zzzz").is_none());
    assert!(png.chunk_by_type("miD").is_none());
}

#[test]
fn append_then_remove_restores_sequence() {
    let bytes = stream(&sample_chunks());
    let mut png = Png::from_bytes(&bytes).unwrap();
    png.append_chunk(Chunk::new("TeSt", "appended").unwrap());
    assert_eq!(png.chunks().len(), 4);
    assert_eq!(png.chunks()[3].data_as_string().unwrap(), "appended");
    png.remove_chunk("TeSt").unwrap();
    assert_eq!(png.as_bytes(), bytes);
}

#[test]
fn remove_takes_only_first_match() {
    let mut chunks = sample_chunks();
    chunks.push(Chunk::new("miDl", "second of its type").unwrap());
    let mut png = Png::from_bytes(&stream(&chunks)).unwrap();
    png.remove_chunk("miDl").unwrap();
    assert_eq!(png.chunks().len(), 3);
    assert_eq!(png.chunks()[1].chunk_type().to_string(), "LASt");
    assert_eq!(png.chunks()[2].data_as_string().unwrap(), "second of its type");
}

#[test]
fn remove_missing_type_fails() {
    let bytes = stream(&sample_chunks());
    let mut png = Png::from_bytes(&bytes).unwrap();
    assert_eq!(png.remove_chunk("zzzz").unwrap_err(), PngError::ChunkNotFound);
    assert_eq!(png.as_bytes(), bytes);
}
