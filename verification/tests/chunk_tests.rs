use pngme::chunk::{Chunk, ChunkIterator};
use pngme::chunk_type::ChunkType;
use pngme::PngError;
use std::convert::TryFrom;

fn wire(length: u32, chunk_type: &[u8], payload: &[u8], crc: u32) -> Vec<u8> {
    length
        .to_be_bytes()
        .iter()
        .chain(chunk_type.iter())
        .chain(payload.iter())
        .chain(crc.to_be_bytes().iter())
        .copied()
        .collect()
}

fn testing_chunk() -> Chunk {
    let data_length: u32 = 42;
    let chunk_type = "RuSt".as_bytes();
    let message_bytes = "This is where your secret message will be!".as_bytes();
    let crc: u32 = 2882656334;

    let chunk_data: Vec<u8> = data_length
        .to_be_bytes()
        .iter()
        .chain(chunk_type.iter())
        .chain(message_bytes.iter())
        .chain(crc.to_be_bytes().iter())
        .copied()
        .collect();

    Chunk::try_from(chunk_data.as_ref()).unwrap()
}

#[test]
fn test_new_chunk() {
    let chunk_type = ChunkType::from_str("RuSt").unwrap();
    let data = "This is where your secret message will be!".as_bytes().to_vec();
    let chunk = Chunk::new(chunk_type, data);

    println!("{}", chunk.to_string().unwrap());

    assert_eq!(chunk.length(), 42);
    assert_eq!(chunk.crc(), 2882656334);
}

#[test]
fn test_chunk_length() {
    let chunk = testing_chunk();

    println!("{}", chunk.to_string().unwrap());

    assert_eq!(chunk.length(), 42);
}

#[test]
fn test_chunk_type() {
    let chunk = testing_chunk();

    println!("{}", chunk.to_string().unwrap());

    assert_eq!(chunk.chunk_type().to_string().unwrap(), String::from("RuSt"));
}

#[test]
fn test_chunk_string() {
    let chunk = testing_chunk();
    let chunk_string = chunk.data_as_string().unwrap();
    let expected_chunk_string = String::from("This is where your secret message will be!");

    println!("{}", chunk.to_string().unwrap());

    assert_eq!(chunk_string, expected_chunk_string);
}

#[test]
fn test_chunk_crc() {
    let chunk = testing_chunk();

    println!("{}", chunk.to_string().unwrap());

    assert_eq!(chunk.crc(), 2882656334);
}

#[test]
fn test_valid_chunk_from_bytes() {
    let data_length: u32 = 42;
    let chunk_type = "RuSt".as_bytes();
    let message_bytes = "This is where your secret message will be!".as_bytes();
    let crc: u32 = 2882656334;

    let chunk_data: Vec<u8> = data_length
        .to_be_bytes()
        .iter()
        .chain(chunk_type.iter())
        .chain(message_bytes.iter())
        .chain(crc.to_be_bytes().iter())
        .copied()
        .collect();

    let chunk = Chunk::try_from(chunk_data.as_ref()).unwrap();

    let chunk_string = chunk.data_as_string().unwrap();
    let expected_chunk_string = String::from("This is where your secret message will be!");

    println!("{}", chunk.to_string().unwrap());

    assert_eq!(chunk.length(), 42);
    assert_eq!(chunk.chunk_type().to_string().unwrap(), String::from("RuSt"));
    assert_eq!(chunk_string, expected_chunk_string);
    assert_eq!(chunk.crc(), 2882656334);
}

#[test]
fn test_invalid_chunk_from_bytes() {
    let data_length: u32 = 42;
    let chunk_type = "RuSt".as_bytes();
    let message_bytes = "This is where your secret message will be!".as_bytes();
    let crc: u32 = 2882656333;

    let chunk_data: Vec<u8> = data_length
        .to_be_bytes()
        .iter()
        .chain(chunk_type.iter())
        .chain(message_bytes.iter())
        .chain(crc.to_be_bytes().iter())
        .copied()
        .collect();

    let chunk = Chunk::try_from(chunk_data.as_ref());

    assert!(chunk.is_err());
}

#[test]
pub fn test_chunk_trait_impls() {
    let data_length: u32 = 42;
    let chunk_type = "RuSt".as_bytes();
    let message_bytes = "This is where your secret message will be!".as_bytes();
    let crc: u32 = 2882656334;

    let chunk_data: Vec<u8> = data_length
        .to_be_bytes()
        .iter()
        .chain(chunk_type.iter())
        .chain(message_bytes.iter())
        .chain(crc.to_be_bytes().iter())
        .copied()
        .collect();

    let chunk: Chunk = TryFrom::try_from(chunk_data.as_ref()).unwrap();

    println!("{}", chunk.to_string().unwrap());

    let _chunk_string = format!("{}", chunk.to_string().unwrap());
}

#[test]
fn wrong_checksum_gives_invalid_crc() {
    let bytes = wire(
        42,
        b"RuSt",
        b"This is where your secret message will be!",
        2882656333,
    );
    assert_eq!(Chunk::try_from(bytes.as_ref()).err(), Some(PngError::InvalidCrc));
}

#[test]
fn flipping_one_bit_changes_the_checksum() {
    let intact = Chunk::new(ChunkType::from_str("RuSt").unwrap(), b"secret".to_vec());
    let flipped_payload = Chunk::new(ChunkType::from_str("RuSt").unwrap(), b"sebret".to_vec());
    let flipped_type = Chunk::new(ChunkType::from_str("RuSu").unwrap(), b"secret".to_vec());
    assert_ne!(intact.crc(), flipped_payload.crc());
    assert_ne!(intact.crc(), flipped_type.crc());

    let mut bytes = intact.as_bytes();
    bytes[9] ^= 0x01;
    assert_eq!(Chunk::try_from(bytes.as_ref()).err(), Some(PngError::InvalidCrc));
    let mut bytes = intact.as_bytes();
    bytes[4] ^= 0x20;
    assert_eq!(Chunk::try_from(bytes.as_ref()).err(), Some(PngError::InvalidCrc));
}

#[test]
fn checksum_covers_type_and_payload_but_not_the_length() {
    let chunk = Chunk::new(ChunkType::from_str("IEND").unwrap(), Vec::new());
    assert_eq!(chunk.crc(), 0xAE42_6082);
    let chunk = Chunk::new(ChunkType::from_str("RuSt").unwrap(), b"123456789".to_vec());
    let again = Chunk::new(ChunkType::from_str("RuSt").unwrap(), b"123456789".to_vec());
    assert_eq!(chunk.crc(), again.crc());
}

#[test]
fn chunk_serializes_length_type_payload_checksum() {
    let chunk = Chunk::new(ChunkType::from_str("IEND").unwrap(), Vec::new());
    assert_eq!(
        chunk.as_bytes(),
        vec![0, 0, 0, 0, 73, 69, 78, 68, 0xAE, 0x42, 0x60, 0x82]
    );
    let chunk = testing_chunk();
    let expected = wire(
        42,
        b"RuSt",
        b"This is where your secret message will be!",
        2882656334,
    );
    assert_eq!(chunk.as_bytes(), expected);
    assert_eq!(chunk.as_bytes().len(), 42 + Chunk::CHUNK_METADATA_LENGTH);
}

#[test]
fn chunk_round_trips_through_its_wire_form() {
    let payloads: Vec<Vec<u8>> = vec![
        Vec::new(),
        vec![0],
        b"hello".to_vec(),
        vec![255, 254, 0, 1, 2, 3],
        vec![7; 1000],
    ];
    for payload in payloads {
        let chunk = Chunk::new(ChunkType::from_str("teSt").unwrap(), payload.clone());
        let bytes = chunk.as_bytes();
        let back = Chunk::try_from(bytes.as_ref()).unwrap();
        assert_eq!(back.chunk_type().bytes(), chunk.chunk_type().bytes());
        assert_eq!(back.data(), payload.as_slice());
        assert_eq!(back.crc(), chunk.crc());
        assert_eq!(back.length() as usize, payload.len());
        assert_eq!(back.as_bytes(), bytes);
    }
}

#[test]
fn empty_payload_is_a_chunk() {
    let chunk = Chunk::new(ChunkType::from_str("RuSt").unwrap(), Vec::new());
    assert_eq!(chunk.length(), 0);
    assert_eq!(chunk.data(), &[] as &[u8]);
    assert_eq!(chunk.data_as_string().unwrap(), "");
    assert_eq!(chunk.as_bytes().len(), 12);
}

#[test]
fn chunk_reading_ignores_the_length_field() {
    let crc = Chunk::new(ChunkType::from_str("RuSt").unwrap(), b"abc".to_vec()).crc();
    let bytes = wire(99, b"RuSt", b"abc", crc);
    let chunk = Chunk::try_from(bytes.as_ref()).unwrap();
    assert_eq!(chunk.length(), 3);
    assert_eq!(chunk.data(), b"abc");
    assert_ne!(chunk.as_bytes(), bytes);
    assert_eq!(chunk.as_bytes(), wire(3, b"RuSt", b"abc", crc));
}

#[test]
fn chunk_shorter_than_length_and_type_is_short() {
    let bytes: Vec<u8> = vec![0, 0, 0, 0, 82, 117, 83];
    assert_eq!(Chunk::try_from(bytes.as_ref()).err(), Some(PngError::ShortChunk));
    let bytes: Vec<u8> = Vec::new();
    assert_eq!(Chunk::try_from(bytes.as_ref()).err(), Some(PngError::ShortChunk));
}

#[test]
fn chunk_without_complete_checksum_has_empty_crc() {
    let bytes: Vec<u8> = vec![0, 0, 0, 0, 82, 117, 83, 116];
    assert_eq!(Chunk::try_from(bytes.as_ref()).err(), Some(PngError::EmptyCrc));
    let bytes: Vec<u8> = vec![0, 0, 0, 0, 82, 117, 83, 116, 1, 2, 3];
    assert_eq!(Chunk::try_from(bytes.as_ref()).err(), Some(PngError::EmptyCrc));
}

#[test]
fn payload_that_is_not_utf8_is_refused() {
    let chunk = Chunk::new(ChunkType::from_str("RuSt").unwrap(), vec![0xff, 0xfe]);
    assert_eq!(chunk.data_as_string(), Err(PngError::ChunkDataUTF8Error));
    let chunk = Chunk::new(ChunkType::from_str("RuSt").unwrap(), vec![0xc3, 0xa9]);
    assert_eq!(chunk.data_as_string().unwrap(), "\u{e9}");
}

#[test]
fn chunk_text_shows_type_length_payload_checksum_and_bytes() {
    let chunk = Chunk::new(ChunkType::from_str("IEND").unwrap(), Vec::new());
    assert_eq!(
        chunk.to_string().unwrap(),
        "chunk_type: IEND\n\rlength: 0\n\rdata: \n\rcrc: 2923585666\n\rbytes: [0, 0, 0, 0, 73, 69, 78, 68, 174, 66, 96, 130]\n\r"
    );
    let chunk = testing_chunk();
    let expected = format!(
        "chunk_type: RuSt\n\rlength: 42\n\rdata: This is where your secret message will be!\n\rcrc: 2882656334\n\rbytes: {:?}\n\r",
        chunk.as_bytes()
    );
    assert_eq!(chunk.to_string().unwrap(), expected);
}

#[test]
fn chunk_text_replaces_a_payload_that_is_not_utf8() {
    let chunk = Chunk::new(ChunkType::from_str("RuSt").unwrap(), vec![0xff]);
    let expected = format!(
        "chunk_type: RuSt\n\rlength: 1\n\rdata: None\n\rcrc: {}\n\rbytes: {:?}\n\r",
        chunk.crc(),
        chunk.as_bytes()
    );
    assert_eq!(chunk.to_string().unwrap(), expected);
}

#[test]
fn chunk_text_fails_for_a_type_that_is_not_utf8() {
    let chunk = Chunk::new(ChunkType::try_from([0xff, 0xff, 0xff, 0xff]).unwrap(), Vec::new());
    assert_eq!(chunk.to_string(), Err(PngError::ChunkDataUTF8Error));
}

#[test]
fn walk_yields_each_chunk_and_then_ends() {
    let first = Chunk::new(ChunkType::from_str("FrSt").unwrap(), b"one".to_vec());
    let second = Chunk::new(ChunkType::from_str("miDl").unwrap(), Vec::new());
    let third = Chunk::new(ChunkType::from_str("LaSt").unwrap(), b"three".to_vec());
    let mut bytes = first.as_bytes();
    bytes.extend(second.as_bytes());
    bytes.extend(third.as_bytes());

    let mut walk = ChunkIterator::new(&bytes);
    let item = walk.next().unwrap().unwrap();
    assert_eq!(item.chunk_type().bytes(), *b"FrSt");
    assert_eq!(item.data(), b"one");
    let item = walk.next().unwrap().unwrap();
    assert_eq!(item.chunk_type().bytes(), *b"miDl");
    assert_eq!(item.length(), 0);
    let item = walk.next().unwrap().unwrap();
    assert_eq!(item.chunk_type().bytes(), *b"LaSt");
    assert_eq!(item.data(), b"three");
    assert!(walk.next().is_none());
    assert!(walk.next().is_none());
}

#[test]
fn walk_over_nothing_yields_nothing() {
    let bytes: Vec<u8> = Vec::new();
    let mut walk = ChunkIterator::new(&bytes);
    assert!(walk.next().is_none());
    assert!(walk.next().is_none());
}

#[test]
fn walk_reports_a_front_shorter_than_twelve_bytes_once() {
    let bytes: Vec<u8> = vec![0, 0, 0, 0, 82, 117, 83, 116, 1, 2, 3];
    let mut walk = ChunkIterator::new(&bytes);
    assert_eq!(walk.next().unwrap().err(), Some(PngError::ShortChunk));
    assert!(walk.next().is_none());
    assert!(walk.next().is_none());
}

#[test]
fn walk_reports_a_chunk_shorter_than_it_claims_once() {
    let chunk = Chunk::new(ChunkType::from_str("RuSt").unwrap(), b"payload".to_vec());
    let mut bytes = chunk.as_bytes();
    bytes.pop();
    let mut walk = ChunkIterator::new(&bytes);
    assert_eq!(walk.next().unwrap().err(), Some(PngError::ShortChunk));
    assert!(walk.next().is_none());
}

#[test]
fn walk_accepts_the_largest_length_field_without_overflow() {
    let mut bytes: Vec<u8> = vec![255, 255, 255, 255];
    bytes.extend(vec![0; 20]);
    let mut walk = ChunkIterator::new(&bytes);
    assert_eq!(walk.next().unwrap().err(), Some(PngError::ShortChunk));
    assert!(walk.next().is_none());
}

#[test]
fn walk_stops_after_a_chunk_with_a_wrong_checksum() {
    let good = Chunk::new(ChunkType::from_str("RuSt").unwrap(), b"good".to_vec());
    let mut bad = good.as_bytes();
    let last = bad.len() - 1;
    bad[last] ^= 0xff;
    let mut bytes = good.as_bytes();
    bytes.extend(bad);
    bytes.extend(good.as_bytes());

    let mut walk = ChunkIterator::new(&bytes);
    assert!(walk.next().unwrap().is_ok());
    assert_eq!(walk.next().unwrap().err(), Some(PngError::InvalidCrc));
    assert!(walk.next().is_none());
    assert!(walk.next().is_none());
}

#[test]
fn walk_yields_chunks_in_front_of_a_truncated_one() {
    let good = Chunk::new(ChunkType::from_str("RuSt").unwrap(), b"good".to_vec());
    let mut bytes = good.as_bytes();
    bytes.extend(vec![0, 0, 0]);
    let mut walk = ChunkIterator::new(&bytes);
    assert_eq!(walk.next().unwrap().unwrap().data(), b"good");
    assert_eq!(walk.next().unwrap().err(), Some(PngError::ShortChunk));
    assert!(walk.next().is_none());
}

#[test]
fn checksum_of_the_standard_check_input() {
    let chunk = Chunk::new(ChunkType::from_str("1234").unwrap(), b"56789".to_vec());
    assert_eq!(chunk.crc(), 0xcbf4_3926);
}

#[test]
fn split_takes_type_payload_and_stored_checksum_unchecked() {
    let bytes: Vec<u8> = vec![0, 0, 0, 1, 82, 117, 83, 116, 7, 1, 2, 3, 4];
    let (chunk, stored) = Chunk::split(&bytes).unwrap();
    assert_eq!(chunk.chunk_type().bytes(), *b"RuSt");
    assert_eq!(chunk.data(), &[7]);
    assert_eq!(stored, 0x0102_0304);
    assert_eq!(Chunk::try_from(bytes.as_ref()).err(), Some(PngError::InvalidCrc));
}

#[test]
fn split_refuses_what_is_too_short() {
    assert_eq!(Chunk::split(&[0, 0, 0]).err(), Some(PngError::ShortChunk));
    assert_eq!(Chunk::split(&[0; 7]).err(), Some(PngError::ShortChunk));
    assert_eq!(Chunk::split(&[0; 8]).err(), Some(PngError::EmptyCrc));
    assert_eq!(Chunk::split(&[0; 11]).err(), Some(PngError::EmptyCrc));
    assert!(Chunk::split(&[0; 12]).is_ok());
}

#[test]
fn accept_compares_stored_and_computed_checksum() {
    let chunk = Chunk::new(ChunkType::from_str("RuSt").unwrap(), b"abc".to_vec());
    let accepted = chunk.accept(5, 5).unwrap();
    assert_eq!(accepted.data(), b"abc");
    assert_eq!(accepted.accept(5, 6).err(), Some(PngError::InvalidCrc));
}

#[test]
fn framed_writes_the_given_checksum() {
    let chunk = Chunk::new(ChunkType::from_str("RuSt").unwrap(), vec![7]);
    assert_eq!(
        chunk.framed(2882656334),
        vec![0, 0, 0, 1, 82, 117, 83, 116, 7, 171, 209, 216, 78]
    );
    assert_eq!(chunk.framed(chunk.crc()), chunk.as_bytes());
}

#[test]
fn text_with_shows_the_given_checksum() {
    let chunk = Chunk::new(ChunkType::from_str("RuSt").unwrap(), b"hi".to_vec());
    assert_eq!(
        chunk.text_with(258).unwrap(),
        "chunk_type: RuSt\n\rlength: 2\n\rdata: hi\n\rcrc: 258\n\rbytes: [0, 0, 0, 2, 82, 117, 83, 116, 104, 105, 0, 0, 1, 2]\n\r"
    );
    assert_eq!(chunk.text_with(chunk.crc()), chunk.to_string());
}
