use pngme::chunk::{Chunk, ChunkError};
use pngme::chunk_type::{ChunkType, ChunkTypeError};
use pngme::png::{Png, PngError};

const SIGNATURE: [u8; 8] = [0x89, 0x50, 0x4e, 0x47, 0x0d, 0x0a, 0x1a, 0x0a];

fn chunk_with(type_text: &str, payload: &[u8]) -> Chunk {
    let t = ChunkType::from_str(type_text).unwrap();
    Chunk::new(t, payload.to_vec())
}

fn buffer_with(chunks: &[Chunk]) -> Vec<u8> {
    let mut out: Vec<u8> = SIGNATURE.to_vec();
    for c in chunks {
        out.extend(c.as_bytes());
    }
    out
}

#[test]
fn test_chunk_round_trip() {
    let original = chunk_with("TeSt", b"some payload");
    let bytes = original.as_bytes();
    let parsed = Chunk::try_from(bytes.as_ref()).unwrap();
    assert_eq!(parsed.length(), original.length());
    assert_eq!(parsed.chunk_type().bytes(), original.chunk_type().bytes());
    assert_eq!(parsed.data(), original.data());
    assert_eq!(parsed.crc(), original.crc());
}

#[test]
fn test_bit_flip_in_type_or_payload_fails_checksum() {
    let bytes = chunk_with("TeSt", b"payload").as_bytes();
    let end_of_data = bytes.len() - 4;
    for byte_index in 4..end_of_data {
        for bit in 0..8 {
            let mut flipped = bytes.clone();
            flipped[byte_index] ^= 1 << bit;
            let parsed = Chunk::try_from(flipped.as_ref());
            assert!(matches!(parsed, Err(ChunkError::InvalidCrcSum)));
        }
    }
}

#[test]
fn test_bit_flip_in_stored_crc_fails_checksum() {
    let bytes = chunk_with("TeSt", b"payload").as_bytes();
    let crc_start = bytes.len() - 4;
    for byte_index in crc_start..bytes.len() {
        for bit in 0..8 {
            let mut flipped = bytes.clone();
            flipped[byte_index] ^= 1 << bit;
            let parsed = Chunk::try_from(flipped.as_ref());
            assert!(matches!(parsed, Err(ChunkError::InvalidCrcSum)));
        }
    }
}

#[test]
fn test_every_strict_prefix_is_malformed() {
    let bytes = chunk_with("TeSt", b"payload").as_bytes();
    for n in 0..bytes.len() {
        let parsed = Chunk::try_from(&bytes[..n]);
        assert!(matches!(parsed, Err(ChunkError::IOError)));
    }
}

#[test]
fn test_container_round_trip() {
    let buffer = buffer_with(&[
        chunk_with("FrSt", b"first payload"),
        chunk_with("mdLe", b""),
        chunk_with("LaSt", b"the end"),
    ]);
    let png = Png::try_from(buffer.as_ref()).unwrap();
    assert_eq!(png.as_bytes(), buffer);
}

#[test]
fn test_empty_container_round_trip() {
    let buffer = SIGNATURE.to_vec();
    let png = Png::try_from(buffer.as_ref()).unwrap();
    assert_eq!(png.chunks.len(), 0);
    assert_eq!(png.as_bytes(), buffer);
}

#[test]
fn test_append_then_find() {
    let mut png = Png::new();
    let chunk = chunk_with("abcd", b"hidden");
    let expected_crc = chunk.crc();
    png.append_chunk(chunk);
    let found = png.chunk_by_type("abcd").unwrap();
    assert_eq!(found.crc(), expected_crc);
    assert_eq!(found.data(), b"hidden");
    assert!(png.chunk_by_type("zzzz").is_none());
}

#[test]
fn test_find_returns_first_of_equal_types() {
    let mut png = Png::new();
    png.append_chunk(chunk_with("dupe", b"one"));
    png.append_chunk(chunk_with("dupe", b"two"));
    let found = png.chunk_by_type("dupe").unwrap();
    assert_eq!(found.data(), b"one");
}

#[test]
fn test_remove_preserves_order() {
    let mut png = Png::new();
    png.append_chunk(chunk_with("AaAa", b"a"));
    png.append_chunk(chunk_with("BbBb", b"b"));
    png.append_chunk(chunk_with("CcCc", b"c"));
    let removed = png.remove_chunk("BbBb").unwrap();
    assert_eq!(removed.data(), b"b");
    assert_eq!(png.chunks.len(), 2);
    assert_eq!(png.chunks[0].data(), b"a");
    assert_eq!(png.chunks[1].data(), b"c");
    let again = png.remove_chunk("BbBb");
    assert!(matches!(again, Err(PngError::NotFound)));
}

#[test]
fn test_type_code_bit_semantics() {
    let t = ChunkType::from_str("AbCd").unwrap();
    assert!(t.is_critical());
    assert!(!t.is_public());
    assert!(t.is_reserved_bit_valid());
    assert!(t.is_safe_to_copy());

    for mask in 0..16u32 {
        let mut text = String::new();
        let lower = ['a', 'b', 'c', 'd'];
        let upper = ['A', 'B', 'C', 'D'];
        for pos in 0..4 {
            if mask & (1 << pos) != 0 {
                text.push(upper[pos]);
            } else {
                text.push(lower[pos]);
            }
        }
        let t = ChunkType::from_str(&text).unwrap();
        assert_eq!(t.is_critical(), mask & 1 != 0);
        assert_eq!(t.is_public(), mask & 2 != 0);
        assert_eq!(t.is_reserved_bit_valid(), mask & 4 != 0);
        assert_eq!(t.is_safe_to_copy(), mask & 8 == 0);
    }
}

#[test]
fn test_bad_signature_rejected() {
    let mut buffer = buffer_with(&[chunk_with("GoOd", b"fine")]);
    buffer[0] = 0x88;
    let parsed = Png::try_from(buffer.as_ref());
    assert!(matches!(parsed, Err(PngError::BadSignature)));

    let short: Vec<u8> = vec![0x89, 0x50];
    let parsed = Png::try_from(short.as_ref());
    assert!(matches!(parsed, Err(PngError::BadSignature)));
}

#[test]
fn test_trailing_garbage_fails_parse() {
    let mut buffer = buffer_with(&[chunk_with("GoOd", b"fine")]);
    buffer.extend(b"xyz");
    let parsed = Png::try_from(buffer.as_ref());
    assert!(matches!(parsed, Err(PngError::Chunk(ChunkError::IOError))));
}

#[test]
fn test_corrupt_chunk_fails_container_parse() {
    let mut buffer = buffer_with(&[chunk_with("GoOd", b"fine")]);
    let last = buffer.len() - 1;
    buffer[last] ^= 0xff;
    let parsed = Png::try_from(buffer.as_ref());
    assert!(matches!(
        parsed,
        Err(PngError::Chunk(ChunkError::InvalidCrcSum))
    ));
}

#[test]
fn test_invalid_type_text_rejected() {
    assert!(matches!(
        ChunkType::from_str("abc"),
        Err(ChunkTypeError::InvalidFormat)
    ));
    assert!(matches!(
        ChunkType::from_str("abcde"),
        Err(ChunkTypeError::InvalidFormat)
    ));
    assert!(matches!(
        ChunkType::from_str("ab1d"),
        Err(ChunkTypeError::InvalidFormat)
    ));
}

#[test]
fn test_non_utf8_payload_is_encoding_error() {
    let chunk = chunk_with("BiNy", &[0xff, 0xfe, 0x00, 0x41]);
    assert!(matches!(
        chunk.data_as_string(),
        Err(ChunkError::EncodingError)
    ));
}

#[test]
fn test_raw_type_bytes_accepted_from_bytes() {
    let t = ChunkType::try_from([0x00, 0xff, 0x20, 0x7f]).unwrap();
    assert_eq!(t.bytes(), [0x00, 0xff, 0x20, 0x7f]);
}

#[test]
fn test_empty_payload_chunk() {
    let chunk = chunk_with("EmTy", b"");
    assert_eq!(chunk.length(), 0);
    let bytes = chunk.as_bytes();
    assert_eq!(bytes.len(), 12);
    let parsed = Chunk::try_from(bytes.as_ref()).unwrap();
    assert_eq!(parsed.crc(), chunk.crc());
}
