use pngme::chunk::check_record;
use pngme::{Chunk, ChunkType, PngError};
use std::str::FromStr;

fn testing_chunk() -> Chunk {
    let data_length: u32 = 42;
    let chunk_type = "RuSt".as_bytes();
    let message_bytes = "This is where your secret message will be!".as_bytes();
    let crc: u32 = 2882656334;

    let chunk_data: Vec<u8> = data_length
        .to_be_bytes()
        .iter()
        .chain(chunk_type.iter())
        .chain(message_bytes.iter())
        .chain(crc.to_be_bytes().iter())
        .copied()
        .collect();

    Chunk::try_from(chunk_data.as_ref()).unwrap()
}

#[test]
fn test_new_chunk() {
    let chunk_type = ChunkType::from_str("RuSt").unwrap();
    let data = "This is where your secret message will be!"
        .as_bytes()
        .to_vec();
    let chunk = Chunk::new(chunk_type, data);
    assert_eq!(chunk.length(), 42);
    assert_eq!(chunk.crc(), 2882656334);
}

#[test]
fn test_chunk_length() {
    let chunk = testing_chunk();
    assert_eq!(chunk.length(), 42);
}

#[test]
fn test_chunk_type() {
    let chunk = testing_chunk();
    assert_eq!(chunk.chunk_type().to_string(), String::from("RuSt"));
}

#[test]
fn test_chunk_string() {
    let chunk = testing_chunk();
    let chunk_string = chunk.data_as_string().unwrap();
    let expected_chunk_string = String::from("This is where your secret message will be!");
    assert_eq!(chunk_string, expected_chunk_string);
}

#[test]
fn test_chunk_crc() {
    let chunk = testing_chunk();
    assert_eq!(chunk.crc(), 2882656334);
}

#[test]
fn test_valid_chunk_from_bytes() {
    let data_length: u32 = 42;
    let chunk_type = "RuSt".as_bytes();
    let message_bytes = "This is where your secret message will be!".as_bytes();
    let crc: u32 = 2882656334;

    let chunk_data: Vec<u8> = data_length
        .to_be_bytes()
        .iter()
        .chain(chunk_type.iter())
        .chain(message_bytes.iter())
        .chain(crc.to_be_bytes().iter())
        .copied()
        .collect();

    let chunk = Chunk::try_from(chunk_data.as_ref()).unwrap();

    let chunk_string = chunk.data_as_string().unwrap();
    let expected_chunk_string = String::from("This is where your secret message will be!");

    assert_eq!(chunk.length(), 42);
    assert_eq!(chunk.chunk_type().to_string(), String::from("RuSt"));
    assert_eq!(chunk_string, expected_chunk_string);
    assert_eq!(chunk.crc(), 2882656334);
}

#[test]
fn test_invalid_chunk_from_bytes() {
    let data_length: u32 = 42;
    let chunk_type = "RuSt".as_bytes();
    let message_bytes = "This is where your secret message will be!".as_bytes();
    let crc: u32 = 2882656333;

    let chunk_data: Vec<u8> = data_length
        .to_be_bytes()
        .iter()
        .chain(chunk_type.iter())
        .chain(message_bytes.iter())
        .chain(crc.to_be_bytes().iter())
        .copied()
        .collect();

    let chunk = Chunk::try_from(chunk_data.as_ref());

    assert!(chunk.is_err());
}

#[test]
pub fn test_chunk_trait_impls() {
    let data_length: u32 = 42;
    let chunk_type = "RuSt".as_bytes();
    let message_bytes = "This is where your secret message will be!".as_bytes();
    let crc: u32 = 2882656334;

    let chunk_data: Vec<u8> = data_length
        .to_be_bytes()
        .iter()
        .chain(chunk_type.iter())
        .chain(message_bytes.iter())
        .chain(crc.to_be_bytes().iter())
        .copied()
        .collect();

    let chunk: Chunk = Chunk::try_from(chunk_data.as_ref()).unwrap();

    let _chunk_string = format!("{:?}", chunk);
}

fn secret_chunk() -> Chunk {
    let t = ChunkType::from_str("RuSt").unwrap();
    Chunk::new(t, b"This is where your secret message will be!".to_vec())
}

#[test]
fn chunk_bytes_layout() {
    let bytes = secret_chunk().as_bytes();
    assert_eq!(bytes.len(), 42 + 12);
    assert_eq!(&bytes[0..4], &[0, 0, 0, 42]);
    assert_eq!(&bytes[4..8], b"RuSt");
    assert_eq!(&bytes[8..50], b"This is where your secret message will be!");
    assert_eq!(&bytes[50..54], &2882656334u32.to_be_bytes());
}

#[test]
fn chunk_round_trips_through_bytes() {
    let t = ChunkType::from_str("ruSt").unwrap();
    for data in [Vec::new(), vec![0u8, 255, 128, 7], b"hello".to_vec()] {
        let chunk = Chunk::new(t, data.clone());
        let back = Chunk::try_from(chunk.as_bytes().as_slice()).unwrap();
        assert_eq!(back.chunk_type(), chunk.chunk_type());
        assert_eq!(back.data(), data.as_slice());
        assert_eq!(back.crc(), chunk.crc());
        assert_eq!(back.length() as usize, data.len());
        assert_eq!(back.as_bytes(), chunk.as_bytes());
    }
}

#[test]
fn empty_chunk_is_twelve_bytes() {
    let t = ChunkType::from_str("IEND").unwrap();
    let chunk = Chunk::new(t, Vec::new());
    assert_eq!(chunk.length(), 0);
    assert_eq!(chunk.as_bytes().len(), 12);
    // The checksum of the IEND type code alone, as every PNG file holds it.
    assert_eq!(chunk.crc(), 0xAE426082);
}

#[test]
fn any_flipped_checksum_bit_is_detected() {
    let good = secret_chunk().as_bytes();
    let n = good.len();
    for k in 0..4 {
        for j in 0..8 {
            let mut bad = good.clone();
            bad[n - 4 + k] ^= 1u8 << j;
            assert_eq!(
                Chunk::try_from(bad.as_slice()).unwrap_err(),
                PngError::ChecksumMismatch
            );
        }
    }
}

#[test]
fn changing_a_data_byte_changes_the_checksum() {
    let t = ChunkType::from_str("RuSt").unwrap();
    let mut data = b"This is where your secret message will be!".to_vec();
    data[0] = b't';
    let changed = Chunk::new(t, data);
    assert_ne!(changed.crc(), 2882656334);
}

#[test]
fn chunk_parse_errors() {
    let good = secret_chunk().as_bytes();
    assert_eq!(Chunk::try_from(&good[..11]).unwrap_err(), PngError::TruncatedInput);
    let mut longer = good.clone();
    longer.insert(8, b'x');
    assert_eq!(Chunk::try_from(longer.as_slice()).unwrap_err(), PngError::LengthMismatch);
    let mut bad_type = good.clone();
    bad_type[6] = b'1';
    assert_eq!(Chunk::try_from(bad_type.as_slice()).unwrap_err(), PngError::InvalidTypeCode);
    let mut bad_data = good.clone();
    bad_data[10] ^= 1;
    assert_eq!(Chunk::try_from(bad_data.as_slice()).unwrap_err(), PngError::ChecksumMismatch);
}

#[test]
fn non_utf8_data_is_refused_as_text() {
    let t = ChunkType::from_str("RuSt").unwrap();
    let chunk = Chunk::new(t, vec![0xff, 0xfe]);
    assert_eq!(chunk.data_as_string(), Err(PngError::InvalidUtf8Payload));
}

#[test]
fn cloned_chunk_is_equal_in_content() {
    let chunk = secret_chunk();
    let copy = chunk.clone();
    assert_eq!(copy.as_bytes(), chunk.as_bytes());
}

#[test]
fn record_check_against_given_checksum() {
    let good = secret_chunk().as_bytes();
    assert_eq!(check_record(&good, 2882656334), Ok(()));
    assert_eq!(check_record(&good, 2882656333), Err(PngError::ChecksumMismatch));
    assert_eq!(check_record(&good[..8], 0), Err(PngError::TruncatedInput));
    let empty = [0u8, 0, 0, 0, b'I', b'E', b'N', b'D', 0xAE, 0x42, 0x60, 0x82];
    assert_eq!(check_record(&empty, 0xAE426082), Ok(()));
    let mut wrong_len = empty;
    wrong_len[3] = 1;
    assert_eq!(check_record(&wrong_len, 0xAE426082), Err(PngError::LengthMismatch));
}
