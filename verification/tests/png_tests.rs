use pngme::chunk::Chunk;
use pngme::chunk_type::ChunkType;
use pngme::error::PngError;
use pngme::png::{signature_bytes, Png};
use pngme::{extract_message, hide_message, list_chunks, remove_chunk};

fn chunk_from(type_str: &str, data: &[u8]) -> Chunk {
    let ct = ChunkType::from_str(type_str).unwrap();
    Chunk::new(ct, data.to_vec())
}

fn file_with(chunks: &[(&str, &[u8])]) -> Vec<u8> {
    let mut out: Vec<u8> = signature_bytes().to_vec();
    for (t, d) in chunks {
        out.extend(chunk_from(t, d).as_bytes());
    }
    out
}

#[test]
fn test_chunk_round_trip_bytes() {
    let chunk = chunk_from("TeSt", b"some payload");
    let bytes = chunk.as_bytes();
    let decoded = Chunk::try_from(bytes.as_ref()).unwrap();
    assert_eq!(decoded.chunk_type().bytes(), chunk.chunk_type().bytes());
    assert_eq!(decoded.data(), chunk.data());
    assert_eq!(decoded.as_bytes(), bytes);
}

#[test]
fn test_type_string_round_trip() {
    for s in ["RuSt", "abQz", "IHDR", "tEXt"] {
        assert_eq!(ChunkType::from_str(s).unwrap().to_text(), s);
    }
}

#[test]
fn test_bit_flip_in_type_or_data_fails() {
    let chunk = chunk_from("TeSt", b"hello");
    let bytes = chunk.as_bytes();
    let len = bytes.len();
    for pos in 4..len - 4 {
        for bit in 0..8 {
            let mut corrupted = bytes.clone();
            corrupted[pos] ^= 1u8 << bit;
            let decoded = Chunk::try_from(corrupted.as_ref());
            assert!(matches!(decoded, Err(PngError::IntegrityFailure { .. })));
        }
    }
}

#[test]
fn test_bit_flip_in_stored_crc_fails() {
    let chunk = chunk_from("TeSt", b"hello");
    let bytes = chunk.as_bytes();
    let len = bytes.len();
    for pos in len - 4..len {
        for bit in 0..8 {
            let mut corrupted = bytes.clone();
            corrupted[pos] ^= 1u8 << bit;
            let decoded = Chunk::try_from(corrupted.as_ref());
            assert!(matches!(decoded, Err(PngError::IntegrityFailure { .. })));
        }
    }
}

#[test]
fn test_integrity_failure_reports_both_sides() {
    let chunk = chunk_from("TeSt", b"hello");
    let good_crc = chunk.crc();
    let mut bytes = chunk.as_bytes();
    let len = bytes.len();
    bytes[len - 1] ^= 0xff;
    match Chunk::try_from(bytes.as_ref()) {
        Err(PngError::IntegrityFailure { stored, computed }) => {
            assert_eq!(computed, good_crc);
            assert_ne!(stored, good_crc);
        }
        other => panic!("expected an integrity failure, got {:?}", other),
    }
}

#[test]
fn test_chunk_too_short_is_malformed() {
    let decoded = Chunk::try_from(&[0u8; 11][..]);
    assert_eq!(decoded.unwrap_err(), PngError::MalformedInput);
}

#[test]
fn test_validity_follows_case_of_bytes() {
    let rust_mixed = ChunkType::from_str("RuSt").unwrap();
    assert!(rust_mixed.is_valid());
    assert!(rust_mixed.is_reserved_bit_valid());
    assert!(rust_mixed.is_critical());
    assert!(!rust_mixed.is_public());
    assert!(rust_mixed.is_safe_to_copy());

    let rust_lower = ChunkType::from_str("Rust").unwrap();
    assert!(!rust_lower.is_valid());
}

#[test]
fn test_digit_in_type_string_is_invalid_type() {
    assert_eq!(ChunkType::from_str("Ru1t").unwrap_err(), PngError::InvalidType);
}

#[test]
fn test_type_string_with_wrong_length_is_invalid_type() {
    assert_eq!(ChunkType::from_str("Rus").unwrap_err(), PngError::InvalidType);
    assert_eq!(ChunkType::from_str("Rusty").unwrap_err(), PngError::InvalidType);
    assert_eq!(ChunkType::from_str("").unwrap_err(), PngError::InvalidType);
}

#[test]
fn test_container_from_chunks_serializes_in_order() {
    let chunks = vec![chunk_from("FrSt", b"first"), chunk_from("SeCd", b"second")];
    let png = Png::from_chunks(chunks);
    let expected = file_with(&[("FrSt", b"first"), ("SeCd", b"second")]);
    assert_eq!(png.as_bytes(), expected);
}

#[test]
fn test_container_round_trip() {
    let file = file_with(&[("FrSt", b"first"), ("SeCd", b"second"), ("FrSt", b"third")]);
    let png = Png::try_from(file.as_ref()).unwrap();
    assert_eq!(png.as_bytes(), file);
}

#[test]
fn test_container_rejects_missing_signature() {
    let mut file = file_with(&[("FrSt", b"first")]);
    file[0] = 0x88;
    assert_eq!(Png::try_from(file.as_ref()).unwrap_err(), PngError::MalformedInput);
    assert_eq!(Png::try_from(&file[..5]).unwrap_err(), PngError::MalformedInput);
}

#[test]
fn test_container_propagates_chunk_corruption() {
    let mut file = file_with(&[("FrSt", b"first"), ("SeCd", b"second")]);
    let last = file.len() - 1;
    file[last] ^= 0x01;
    assert!(matches!(
        Png::try_from(file.as_ref()),
        Err(PngError::IntegrityFailure { .. })
    ));
}

#[test]
fn test_container_rejects_truncated_chunk() {
    let file = file_with(&[("FrSt", b"first")]);
    let truncated = &file[..file.len() - 2];
    assert_eq!(Png::try_from(truncated).unwrap_err(), PngError::MalformedInput);
}

#[test]
fn test_append_then_find() {
    let file = file_with(&[("FrSt", b"first")]);
    let mut png = Png::try_from(file.as_ref()).unwrap();
    png.append_chunk(chunk_from("ABCD", b"hello"));
    let found = png.chunk_by_type("ABCD").unwrap();
    assert_eq!(found.data(), &b"hello"[..]);
}

#[test]
fn test_find_misses_absent_type() {
    let file = file_with(&[("FrSt", b"first")]);
    let png = Png::try_from(file.as_ref()).unwrap();
    assert!(png.chunk_by_type("NoNe").is_none());
    assert!(png.chunk_by_type("bogus string").is_none());
}

#[test]
fn test_find_returns_first_of_equal_types() {
    let file = file_with(&[("DuPl", b"one"), ("DuPl", b"two")]);
    let png = Png::try_from(file.as_ref()).unwrap();
    assert_eq!(png.chunk_by_type("DuPl").unwrap().data(), &b"one"[..]);
}

#[test]
fn test_remove_first_of_equal_types_only() {
    let file = file_with(&[("DuPl", b"one"), ("MiDl", b"mid"), ("DuPl", b"two")]);
    let mut png = Png::try_from(file.as_ref()).unwrap();
    let removed = png.remove_first_chunk("DuPl").unwrap();
    assert_eq!(removed.data(), &b"one"[..]);
    assert_eq!(png.chunks().len(), 2);
    assert_eq!(png.chunk_by_type("DuPl").unwrap().data(), &b"two"[..]);
}

#[test]
fn test_remove_not_found_leaves_container_unmodified() {
    let file = file_with(&[("FrSt", b"first"), ("SeCd", b"second")]);
    let mut png = Png::try_from(file.as_ref()).unwrap();
    let result = png.remove_first_chunk("GoNe");
    assert_eq!(result.unwrap_err(), PngError::NotFound);
    assert_eq!(png.chunks().len(), 2);
    assert_eq!(png.as_bytes(), file);
}

#[test]
fn test_remove_malformed_type_is_invalid_type() {
    let file = file_with(&[("FrSt", b"first")]);
    let mut png = Png::try_from(file.as_ref()).unwrap();
    assert_eq!(png.remove_first_chunk("no").unwrap_err(), PngError::InvalidType);
    assert_eq!(png.as_bytes(), file);
}

#[test]
fn test_hide_then_extract_message() {
    let file = file_with(&[("FrSt", b"first")]);
    let hidden = hide_message("seKt", "a quiet word", file.as_ref()).unwrap();
    assert_eq!(&hidden[..file.len()], &file[..]);
    let message = extract_message(hidden.as_ref(), "seKt").unwrap();
    assert_eq!(message, "a quiet word");
}

#[test]
fn test_extract_missing_message_is_not_found() {
    let file = file_with(&[("FrSt", b"first")]);
    assert_eq!(extract_message(file.as_ref(), "seKt").unwrap_err(), PngError::NotFound);
}

#[test]
fn test_extract_non_utf8_payload_is_encoding_failure() {
    let file = file_with(&[("BaDd", &[0xff, 0xfe, 0x80])]);
    assert_eq!(extract_message(file.as_ref(), "BaDd").unwrap_err(), PngError::EncodingFailure);
}

#[test]
fn test_remove_chunk_operation() {
    let file = file_with(&[("FrSt", b"first"), ("SeCd", b"second")]);
    let smaller = remove_chunk(file.as_ref(), "FrSt").unwrap();
    let expected = file_with(&[("SeCd", b"second")]);
    assert_eq!(smaller, expected);
    assert_eq!(remove_chunk(file.as_ref(), "GoNe").unwrap_err(), PngError::NotFound);
}

#[test]
fn test_list_chunks_operation() {
    let file = file_with(&[("FrSt", b"first"), ("SeCd", b"second!")]);
    let listing = list_chunks(file.as_ref()).unwrap();
    assert_eq!(listing.len(), 2);
    assert_eq!(listing[0], (String::from("FrSt"), 5));
    assert_eq!(listing[1], (String::from("SeCd"), 7));
}

#[test]
fn test_empty_container_and_empty_payload() {
    let file = signature_bytes().to_vec();
    let png = Png::try_from(file.as_ref()).unwrap();
    assert_eq!(png.chunks().len(), 0);
    assert_eq!(png.as_bytes(), file);

    let hidden = hide_message("EmTy", "", file.as_ref()).unwrap();
    assert_eq!(extract_message(hidden.as_ref(), "EmTy").unwrap(), "");
}
