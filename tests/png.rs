use pngme::chunk::{Chunk, ChunkError};
use pngme::chunk_type::ChunkType;
use pngme::png::{Png, PngError, STANDARD_HEADER};
use std::str::FromStr;

fn chunk_from_strings(chunk_type: &str, data: &str) -> Chunk {
    Chunk::new(ChunkType::from_str(chunk_type).unwrap(), data.as_bytes().to_vec())
}

fn testing_chunks() -> Vec<Chunk> {
    vec![
        chunk_from_strings("FrSt", "I am the first chunk"),
        chunk_from_strings("miDl", "I am another chunk"),
        chunk_from_strings("LASt", "I am the last chunk"),
    ]
}

fn file_bytes(chunks: &[Chunk]) -> Vec<u8> {
    let mut bytes = STANDARD_HEADER.to_vec();
    for c in chunks {
        bytes.extend(c.as_bytes());
    }
    bytes
}

#[test]
fn parse_then_serialize_gives_the_same_bytes() {
    let bytes = file_bytes(&testing_chunks());
    let png = Png::try_from(bytes.as_slice()).unwrap();
    assert_eq!(png.chunks().len(), 3);
    assert_eq!(png.as_bytes(), bytes);
    assert_eq!(png.header(), [137, 80, 78, 71, 13, 10, 26, 10]);
}

#[test]
fn signature_alone_is_an_empty_file() {
    let png = Png::try_from(&STANDARD_HEADER[..]).unwrap();
    assert_eq!(png.chunks().len(), 0);
    assert_eq!(png.as_bytes(), STANDARD_HEADER.to_vec());
}

#[test]
fn wrong_signature_is_refused() {
    let mut bytes = file_bytes(&testing_chunks());
    bytes[0] = 13;
    assert_eq!(Png::try_from(bytes.as_slice()).err(), Some(PngError::BadSignature));
    assert_eq!(Png::try_from(&[137u8, 80, 78][..]).err(), Some(PngError::BadSignature));
    assert_eq!(Png::try_from(&[][..]).err(), Some(PngError::BadSignature));
}

#[test]
fn a_bad_chunk_fails_the_whole_file() {
    let mut bytes = file_bytes(&testing_chunks());
    let last = bytes.len() - 1;
    bytes[last] ^= 1;
    assert!(matches!(
        Png::try_from(bytes.as_slice()),
        Err(PngError::BadChunk(ChunkError::BadChecksum { .. }))
    ));
    let mut cut = file_bytes(&testing_chunks());
    cut.truncate(cut.len() - 2);
    assert!(matches!(
        Png::try_from(cut.as_slice()),
        Err(PngError::BadChunk(ChunkError::InsufficientBytes(_)))
    ));
}

#[test]
fn appended_chunk_is_found_by_its_type() {
    let mut png = Png::from_chunks(testing_chunks());
    png.append_chunk(chunk_from_strings("TeSt", "Message"));
    let found = png.chunk_by_type("TeSt").unwrap();
    assert_eq!(found.data(), b"Message");
    assert_eq!(found.data_as_string().unwrap(), "Message");
    assert_eq!(png.chunks().len(), 4);
}

#[test]
fn find_returns_the_first_of_two_chunks_of_one_type() {
    let mut png = Png::from_chunks(testing_chunks());
    png.append_chunk(chunk_from_strings("FrSt", "second of its type"));
    assert_eq!(png.chunk_by_type("FrSt").unwrap().data(), b"I am the first chunk");
    assert!(png.chunk_by_type("NoNe").is_none());
}

#[test]
fn removing_an_absent_type_fails_and_changes_nothing() {
    let mut png = Png::from_chunks(testing_chunks());
    let before = png.as_bytes();
    assert_eq!(png.remove_first_chunk("NoNe").err(), Some(PngError::ChunkTypeNotFound));
    assert_eq!(png.chunks().len(), 3);
    assert_eq!(png.as_bytes(), before);
}

#[test]
fn removal_takes_the_earliest_chunk_of_the_type() {
    let mut png = Png::from_chunks(testing_chunks());
    png.append_chunk(chunk_from_strings("miDl", "a later middle"));
    let removed = png.remove_first_chunk("miDl").unwrap();
    assert_eq!(removed.data(), b"I am another chunk");
    assert_eq!(png.chunks().len(), 3);
    let kinds: Vec<String> = png.chunks().iter().map(|c| c.chunk_type().to_string()).collect();
    assert_eq!(kinds, vec!["FrSt", "LASt", "miDl"]);
    assert_eq!(png.chunk_by_type("miDl").unwrap().data(), b"a later middle");
}

#[test]
fn serialized_file_is_signature_then_chunks_in_order() {
    let chunks = testing_chunks();
    let expected = file_bytes(&chunks);
    let png = Png::from_chunks(chunks);
    assert_eq!(png.as_bytes(), expected);
}
