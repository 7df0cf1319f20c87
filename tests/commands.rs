use pngme::chunk::Chunk;
use pngme::chunk_type::{ChunkType, ChunkTypeError};
use pngme::commands::{decode_message, encode_message, remove_chunk, CommandError};
use pngme::png::{Png, PngError, STANDARD_HEADER};
use std::str::FromStr;

fn base_file() -> Vec<u8> {
    let png = Png::from_chunks(vec![Chunk::new(
        ChunkType::from_str("IHDR").unwrap(),
        vec![0, 0, 0, 1, 0, 0, 0, 1, 8, 2, 0, 0, 0],
    )]);
    png.as_bytes()
}

#[test]
fn encode_then_decode_gives_the_message() {
    let file = encode_message(&base_file(), "ruSt", "hidden words").unwrap();
    assert_eq!(decode_message(&file, "ruSt"), Ok(Some(String::from("hidden words"))));
}

#[test]
fn encode_appends_one_chunk_at_the_end() {
    let base = base_file();
    let file = encode_message(&base, "ruSt", "hi").unwrap();
    let mut expected = base.clone();
    expected.extend(Chunk::new(ChunkType::from_str("ruSt").unwrap(), b"hi".to_vec()).as_bytes());
    assert_eq!(file, expected);
}

#[test]
fn encode_refuses_a_bad_type_or_file() {
    assert_eq!(
        encode_message(&base_file(), "ru1t", "x"),
        Err(CommandError::ChunkType(ChunkTypeError::NonAlphabetic))
    );
    assert_eq!(
        encode_message(&base_file(), "rust!", "x"),
        Err(CommandError::ChunkType(ChunkTypeError::InvalidLength))
    );
    assert_eq!(
        encode_message(b"not a png", "ruSt", "x"),
        Err(CommandError::Png(PngError::BadSignature))
    );
}

#[test]
fn decode_of_an_absent_type_is_not_found() {
    assert_eq!(decode_message(&base_file(), "ruSt"), Err(PngError::ChunkTypeNotFound));
}

#[test]
fn decode_of_non_text_data_is_none() {
    let png = Png::from_chunks(vec![Chunk::new(
        ChunkType::from_str("ruSt").unwrap(),
        vec![0xc3, 0x28],
    )]);
    assert_eq!(decode_message(&png.as_bytes(), "ruSt"), Ok(None));
}

#[test]
fn remove_undoes_encode() {
    let base = base_file();
    let file = encode_message(&base, "ruSt", "gone soon").unwrap();
    assert_eq!(remove_chunk(&file, "ruSt"), Ok(base.clone()));
    assert_eq!(remove_chunk(&base, "ruSt"), Err(PngError::ChunkTypeNotFound));
    assert_eq!(remove_chunk(&STANDARD_HEADER[..4], "ruSt"), Err(PngError::BadSignature));
}
