use pngme::chunk::Chunk;
use pngme::chunk_type::ChunkType;
use pngme::error::ChunkError;
use std::str::FromStr;

fn testing_chunk() -> Chunk {
    let data_length: u32 = 42;
    let chunk_type = "RuSt".as_bytes();
    let message_bytes = "This is where your secret message will be!".as_bytes();
    let crc: u32 = 2882656334;

    let chunk_data: Vec<u8> = data_length
        .to_be_bytes()
        .iter()
        .chain(chunk_type.iter())
        .chain(message_bytes.iter())
        .chain(crc.to_be_bytes().iter())
        .copied()
        .collect();

    Chunk::from_bytes(chunk_data.as_ref()).unwrap()
}

#[test]
fn test_new_chunk() {
    let chunk_type = ChunkType::from_str("RuSt").unwrap();
    let data = "This is where your secret message will be!"
        .as_bytes()
        .to_vec();
    let chunk = Chunk::new(chunk_type, data);
    assert_eq!(chunk.length(), 42);
    assert_eq!(chunk.crc(), 2882656334);
}

#[test]
fn test_chunk_length() {
    let chunk = testing_chunk();
    assert_eq!(chunk.length(), 42);
}

#[test]
fn test_chunk_type() {
    let chunk = testing_chunk();
    assert_eq!(chunk.chunk_type().to_string(), String::from("RuSt"));
}

#[test]
fn test_chunk_string() {
    let chunk = testing_chunk();
    let chunk_string = chunk.data_as_string().unwrap();
    let expected_chunk_string = String::from("This is where your secret message will be!");
    assert_eq!(chunk_string, expected_chunk_string);
}

#[test]
fn test_chunk_crc() {
    let chunk = testing_chunk();
    assert_eq!(chunk.crc(), 2882656334);
}

#[test]
fn test_valid_chunk_from_bytes() {
    let data_length: u32 = 42;
    let chunk_type = "RuSt".as_bytes();
    let message_bytes = "This is where your secret message will be!".as_bytes();
    let crc: u32 = 2882656334;

    let chunk_data: Vec<u8> = data_length
        .to_be_bytes()
        .iter()
        .chain(chunk_type.iter())
        .chain(message_bytes.iter())
        .chain(crc.to_be_bytes().iter())
        .copied()
        .collect();

    let chunk = Chunk::from_bytes(chunk_data.as_ref()).unwrap();

    let chunk_string = chunk.data_as_string().unwrap();
    let expected_chunk_string = String::from("This is where your secret message will be!");

    assert_eq!(chunk.length(), 42);
    assert_eq!(chunk.chunk_type().to_string(), String::from("RuSt"));
    assert_eq!(chunk_string, expected_chunk_string);
    assert_eq!(chunk.crc(), 2882656334);
}

#[test]
fn test_invalid_chunk_from_bytes() {
    let data_length: u32 = 42;
    let chunk_type = "RuSt".as_bytes();
    let message_bytes = "This is where your secret message will be!".as_bytes();
    let crc: u32 = 2882656333;

    let chunk_data: Vec<u8> = data_length
        .to_be_bytes()
        .iter()
        .chain(chunk_type.iter())
        .chain(message_bytes.iter())
        .chain(crc.to_be_bytes().iter())
        .copied()
        .collect();

    let chunk = Chunk::from_bytes(chunk_data.as_ref());

    assert!(chunk.is_err());
}

#[test]
pub fn test_chunk_trait_impls() {
    let data_length: u32 = 42;
    let chunk_type = "RuSt".as_bytes();
    let message_bytes = "This is where your secret message will be!".as_bytes();
    let crc: u32 = 2882656334;

    let chunk_data: Vec<u8> = data_length
        .to_be_bytes()
        .iter()
        .chain(chunk_type.iter())
        .chain(message_bytes.iter())
        .chain(crc.to_be_bytes().iter())
        .copied()
        .collect();

    let chunk: Chunk = Chunk::from_bytes(chunk_data.as_ref()).unwrap();

    let _chunk_string = chunk.data_as_string().unwrap();
}

fn wire_of(length: u32, chunk_type: &[u8], data: &[u8], crc: u32) -> Vec<u8> {
    let mut out = length.to_be_bytes().to_vec();
    out.extend_from_slice(chunk_type);
    out.extend_from_slice(data);
    out.extend_from_slice(&crc.to_be_bytes());
    out
}

#[test]
fn new_then_parse_round_trips() {
    let chunk_type = ChunkType::from_text("RuSt").unwrap();
    let chunk = Chunk::new(chunk_type, b"hello".to_vec());
    let bytes = chunk.as_bytes();
    assert_eq!(bytes.len(), 17);
    let back = Chunk::from_bytes(&bytes).unwrap();
    assert_eq!(back.length(), 5);
    assert_eq!(*back.chunk_type(), chunk_type);
    assert_eq!(back.data(), b"hello");
    assert_eq!(back.crc(), chunk.crc());
    assert_eq!(back.as_bytes(), bytes);
}

#[test]
fn empty_data_chunk() {
    let chunk = Chunk::new(ChunkType::from_text("IEND").unwrap(), Vec::new());
    assert_eq!(chunk.length(), 0);
    assert_eq!(chunk.crc(), 0xAE42_6082);
    assert_eq!(
        chunk.as_bytes(),
        vec![0, 0, 0, 0, 73, 69, 78, 68, 0xAE, 0x42, 0x60, 0x82]
    );
    assert_eq!(chunk.data_as_string().unwrap(), "");
}

#[test]
fn too_short_is_refused() {
    assert_eq!(Chunk::from_bytes(&[]).err(), Some(ChunkError::TooShort));
    assert_eq!(Chunk::from_bytes(&[0u8; 11]).err(), Some(ChunkError::TooShort));
}

#[test]
fn length_mismatch_is_refused() {
    let good = wire_of(42, b"RuSt", b"This is where your secret message will be!", 2882656334);
    let mut longer = wire_of(43, b"RuSt", b"This is where your secret message will be!", 2882656334);
    assert_eq!(Chunk::from_bytes(&longer).err(), Some(ChunkError::LengthMismatch));
    longer[3] = 41;
    assert_eq!(Chunk::from_bytes(&longer).err(), Some(ChunkError::LengthMismatch));
    let mut extra = good.clone();
    extra.push(0);
    assert_eq!(Chunk::from_bytes(&extra).err(), Some(ChunkError::LengthMismatch));
}

#[test]
fn invalid_type_is_refused() {
    let bytes = wire_of(0, b"Rust", b"", 0);
    assert_eq!(Chunk::from_bytes(&bytes).err(), Some(ChunkError::InvalidTypeCode));
    let bytes = wire_of(0, b"Ru1t", b"", 0);
    assert_eq!(Chunk::from_bytes(&bytes).err(), Some(ChunkError::InvalidTypeCode));
}

#[test]
fn single_bit_flips_fail_the_checksum() {
    let good = wire_of(42, b"RuSt", b"This is where your secret message will be!", 2882656334);
    assert!(Chunk::from_bytes(&good).is_ok());
    for pos in 8..good.len() - 4 {
        for bit in 0..8 {
            let mut bad = good.clone();
            bad[pos] ^= 1 << bit;
            assert_eq!(Chunk::from_bytes(&bad).err(), Some(ChunkError::ChecksumMismatch));
        }
    }
    let mut bad = good.clone();
    bad[4] ^= 1;
    assert_eq!(Chunk::from_bytes(&bad).err(), Some(ChunkError::ChecksumMismatch));
}

#[test]
fn data_that_is_not_utf8() {
    let chunk = Chunk::new(ChunkType::from_text("RuSt").unwrap(), vec![0xff, 0xfe]);
    assert_eq!(chunk.data_as_string(), Err(ChunkError::NotUtf8Text));
    let chunk = Chunk::new(ChunkType::from_text("RuSt").unwrap(), "h\u{e9}".as_bytes().to_vec());
    assert_eq!(chunk.data_as_string().unwrap(), "h\u{e9}");
}
