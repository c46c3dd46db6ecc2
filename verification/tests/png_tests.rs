use pngme::chunk::buffer_u32;
use pngme::chunk::calculate_crc;
use pngme::chunk::Chunk;
use pngme::chunk_type::ChunkType;
use pngme::error::PngError;
use pngme::get_crc;
use pngme::png::Png;

fn chunk_bytes(ctype: &str, data: &[u8]) -> Vec<u8> {
    let len = data.len() as u32;
    let tb = ctype.as_bytes();
    let mut joined: Vec<u8> = tb.to_vec();
    joined.extend_from_slice(data);
    let crc = calculate_crc(&joined);
    let mut out: Vec<u8> = len.to_be_bytes().to_vec();
    out.extend_from_slice(tb);
    out.extend_from_slice(data);
    out.extend_from_slice(&crc.to_be_bytes());
    out
}

fn minimal_png() -> Vec<u8> {
    let mut buf: Vec<u8> = vec![137, 80, 78, 71, 13, 10, 26, 10];
    buf.extend_from_slice(&chunk_bytes("IEND", &[]));
    buf
}

#[test]
fn test_parse_minimal_png() {
    let buf = minimal_png();
    let png = Png::try_from(&buf[..]).unwrap();
    assert_eq!(png.chunks().len(), 1);
    assert_eq!(png.chunks()[0].chunk_type().to_string(), "IEND");
    assert_eq!(png.as_bytes(), buf);
}

#[test]
fn test_empty_png_round_trip() {
    let png = Png::new();
    let bytes = png.as_bytes();
    assert_eq!(bytes, vec![137, 80, 78, 71, 13, 10, 26, 10]);
    let reparsed = Png::try_from(&bytes[..]).unwrap();
    assert_eq!(reparsed.chunks().len(), 0);
}

#[test]
fn test_chunk_round_trip() {
    let chunk = Chunk::new(ChunkType::from_str("RuSt").unwrap(), vec![9, 8, 7]);
    let bytes = chunk.as_bytes();
    let reparsed = Chunk::try_from(bytes.as_ref()).unwrap();
    assert_eq!(reparsed.length(), chunk.length());
    assert_eq!(reparsed.chunk_type().bytes(), chunk.chunk_type().bytes());
    assert_eq!(reparsed.data(), chunk.data());
    assert_eq!(reparsed.crc(), chunk.crc());
}

#[test]
fn test_container_round_trip() {
    let mut png = Png::new();
    png.append_chunk(Chunk::new(ChunkType::from_str("IHDR").unwrap(), vec![1, 2]));
    png.append_chunk(Chunk::new(ChunkType::from_str("IEND").unwrap(), vec![]));
    let bytes = png.as_bytes();
    let reparsed = Png::try_from(&bytes[..]).unwrap();
    assert_eq!(reparsed.chunks().len(), 2);
    assert_eq!(reparsed.chunks()[0].chunk_type().to_string(), "IHDR");
    assert_eq!(reparsed.chunks()[0].data(), &[1, 2]);
    assert_eq!(reparsed.chunks()[1].chunk_type().to_string(), "IEND");
    assert_eq!(reparsed.as_bytes(), bytes);
}

#[test]
fn test_encode_scenario() {
    let buf = minimal_png();
    let mut png = Png::try_from(&buf[..]).unwrap();
    let ct = ChunkType::from_str("ruSt").unwrap();
    png.append_chunk(Chunk::new(ct, "hidden".as_bytes().to_vec()));
    let out = png.as_bytes();
    let reparsed = Png::try_from(&out[..]).unwrap();
    let found = reparsed.chunk_by_type("ruSt").unwrap();
    assert_eq!(found.data(), "hidden".as_bytes());
    let mut joined = found.chunk_type().bytes().to_vec();
    joined.extend_from_slice(found.data());
    assert_eq!(found.crc(), calculate_crc(&joined));
}

#[test]
fn test_append_remove_restores() {
    let buf = minimal_png();
    let mut png = Png::try_from(&buf[..]).unwrap();
    let before = png.as_bytes();
    png.append_chunk(Chunk::new(ChunkType::from_str("teSt").unwrap(), vec![1, 2, 3]));
    let removed = png.remove_chunk("teSt").unwrap();
    assert_eq!(removed.data(), &[1, 2, 3]);
    assert_eq!(png.as_bytes(), before);
}

#[test]
fn test_remove_missing_fails() {
    let buf = minimal_png();
    let mut png = Png::try_from(&buf[..]).unwrap();
    let before = png.as_bytes();
    assert_eq!(png.remove_chunk("teSt").unwrap_err(), PngError::ChunkNotFound);
    assert_eq!(png.as_bytes(), before);
}

#[test]
fn test_remove_first_match_only() {
    let mut png = Png::new();
    png.append_chunk(Chunk::new(ChunkType::from_str("ruSt").unwrap(), vec![1]));
    png.append_chunk(Chunk::new(ChunkType::from_str("ruSt").unwrap(), vec![2]));
    let removed = png.remove_chunk("ruSt").unwrap();
    assert_eq!(removed.data(), &[1]);
    assert_eq!(png.chunks().len(), 1);
    assert_eq!(png.chunks()[0].data(), &[2]);
}

#[test]
fn test_lookup_first_match() {
    let mut png = Png::new();
    png.append_chunk(Chunk::new(ChunkType::from_str("ruSt").unwrap(), vec![1]));
    png.append_chunk(Chunk::new(ChunkType::from_str("ruSt").unwrap(), vec![2]));
    let found = png.chunk_by_type("ruSt").unwrap();
    assert_eq!(found.data(), &[1]);
    assert!(png.chunk_by_type("abSc").is_none());
}

#[test]
fn test_crc_mismatch_detected() {
    let mut bytes = chunk_bytes("RuSt", "This is where your secret message will be!".as_bytes());
    bytes[10] ^= 0x01;
    let res = Chunk::try_from(bytes.as_ref());
    assert_eq!(res.unwrap_err(), PngError::ChunkParseError);
}

#[test]
fn test_invalid_signature() {
    let mut buf = minimal_png();
    buf[0] = 0;
    assert_eq!(Png::try_from(&buf[..]).unwrap_err(), PngError::InvalidSignature);
    assert_eq!(Png::try_from(&buf[..4]).unwrap_err(), PngError::InvalidSignature);
}

#[test]
fn test_truncated_chunk_fails() {
    let buf = chunk_bytes("RuSt", &[1, 2, 3]);
    let res = Chunk::try_from(&buf[..buf.len() - 1]);
    assert_eq!(res.unwrap_err(), PngError::ChunkParseError);
}

#[test]
fn test_length_field_too_large() {
    let mut buf = chunk_bytes("RuSt", &[1, 2, 3]);
    buf[3] = 200;
    assert_eq!(Chunk::try_from(buf.as_ref()).unwrap_err(), PngError::ChunkParseError);
}

#[test]
fn test_bad_type_in_chunk() {
    let mut buf = chunk_bytes("RuSt", &[1, 2, 3]);
    buf[4] = b'1';
    assert_eq!(Chunk::try_from(buf.as_ref()).unwrap_err(), PngError::InvalidChunkType);
}

#[test]
fn test_bad_chunk_fails_whole_container() {
    let mut buf = minimal_png();
    let end = buf.len();
    buf[end - 1] ^= 0xFF;
    assert_eq!(Png::try_from(&buf[..]).unwrap_err(), PngError::ChunkParseError);
}

#[test]
fn test_text_decode_error() {
    let chunk = Chunk::new(ChunkType::from_str("teXt").unwrap(), vec![0xFF, 0xFE]);
    assert_eq!(chunk.data_as_string().unwrap_err(), PngError::TextDecodeError);
}

#[test]
fn test_buffer_u32() {
    assert_eq!(buffer_u32(&[0, 0, 0, 42]).unwrap(), 42);
    assert_eq!(buffer_u32(&[1, 0, 0, 0]).unwrap(), 16777216);
    assert!(buffer_u32(&[1, 2, 3]).is_err());
}

#[test]
fn test_get_crc_matches_chunk() {
    let ct = ChunkType::from_str("RuSt").unwrap();
    let data = "This is where your secret message will be!".as_bytes().to_vec();
    assert_eq!(get_crc(ct, data), 2882656334);
}
