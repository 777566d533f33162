use std::io::Write;

use flate2::write::DeflateEncoder;
use flate2::Compression;
use resbin::{
    check_inflated, decode, decompress, decrypt_payload, get_u32_le, read_cstr, CipherKey,
    DecompressErr, InflateFault, KEY_LEN, KEY_OFFSET,
};

fn deflate(data: &[u8]) -> Vec<u8> {
    let mut enc = DeflateEncoder::new(Vec::new(), Compression::default());
    enc.write_all(data).unwrap();
    enc.finish().unwrap()
}

fn stored_block(data: &[u8]) -> Vec<u8> {
    let mut block = (data.len() as u32).to_le_bytes().to_vec();
    block.extend_from_slice(&deflate(data));
    block
}

fn exe_with_key(key: &[u8]) -> Vec<u8> {
    let mut exe = vec![0u8; KEY_OFFSET + KEY_LEN];
    exe[KEY_OFFSET..].copy_from_slice(key);
    exe
}

#[test]
fn decode_keystream_at_offset_zero() {
    let mut data = vec![0u8; 6];
    decode(0, &mut data);
    assert_eq!(data, vec![0xa5, 0x14, 0x54, 0x7f, 0x02, 0x13]);
}

#[test]
fn decode_keystream_is_seeded_by_offset() {
    let mut data = vec![0u8; 4];
    decode(100, &mut data);
    assert_eq!(data, vec![0x56, 0x1c, 0x85, 0x79]);
}

#[test]
fn decode_twice_is_identity() {
    let source: Vec<u8> = (0..=255u8).collect();
    for offs in [0u32, 1, 16, 0x1234, u32::MAX] {
        let mut data = source.clone();
        decode(offs, &mut data);
        assert_ne!(data, source);
        decode(offs, &mut data);
        assert_eq!(data, source);
    }
}

#[test]
fn decode_empty_region_is_noop() {
    let mut data: Vec<u8> = Vec::new();
    decode(42, &mut data);
    assert!(data.is_empty());
}

#[test]
fn decompress_exact_size() {
    let plain = b"hello, resources".to_vec();
    let block = stored_block(&plain);
    assert_eq!(decompress(&block, plain.len()), Ok(plain));
}

#[test]
fn decompress_rejects_other_sizes() {
    let plain = b"0123456789".to_vec();
    let block = stored_block(&plain);
    assert_eq!(
        decompress(&block, 9),
        Err(DecompressErr::SizeMismatch { expected: 9, actual: 10 })
    );
    assert_eq!(
        decompress(&block, 11),
        Err(DecompressErr::SizeMismatch { expected: 11, actual: 10 })
    );
}

#[test]
fn decompress_truncated_stream() {
    let plain: Vec<u8> = (0..200u32).map(|i| (i * 7 % 251) as u8).collect();
    let block = stored_block(&plain);
    let cut = &block[..block.len() / 2];
    assert_eq!(
        decompress(cut, plain.len()),
        Err(DecompressErr::Codec(InflateFault::Truncated))
    );
}

#[test]
fn decompress_corrupt_stream() {
    // Block type 3 is reserved in DEFLATE.
    let block = vec![0, 0, 0, 0, 0xff, 0xff, 0xff, 0xff];
    assert_eq!(decompress(&block, 4), Err(DecompressErr::Codec(InflateFault::Corrupt)));
}

#[test]
fn decompress_short_block() {
    assert_eq!(decompress(&[1, 2, 3], 0), Err(DecompressErr::ShortBlock { len: 3 }));
}

#[test]
fn check_inflated_outcomes() {
    assert_eq!(check_inflated(Ok(vec![1, 2, 3]), 3), Ok(vec![1, 2, 3]));
    assert_eq!(
        check_inflated(Ok(vec![1, 2, 3]), 4),
        Err(DecompressErr::SizeMismatch { expected: 4, actual: 3 })
    );
    assert_eq!(check_inflated(Ok(Vec::new()), 0), Ok(Vec::new()));
    assert_eq!(
        check_inflated(Err(InflateFault::Truncated), 3),
        Err(DecompressErr::Codec(InflateFault::Truncated))
    );
}

#[test]
fn get_u32_le_reads_little_endian() {
    let buf = [0x41, 0x52, 0x43, 0x31, 0xff];
    assert_eq!(get_u32_le(&buf, 0), 0x3143_5241);
    assert_eq!(get_u32_le(&buf, 1), 0xff31_4352);
}

#[test]
fn read_cstr_stops_at_nul() {
    let buf = b"abc\0string_1.bin\0tail";
    assert_eq!(read_cstr(buf, 0), Some("abc".to_string()));
    assert_eq!(read_cstr(buf, 4), Some("string_1.bin".to_string()));
    assert_eq!(read_cstr(buf, 3), Some(String::new()));
    assert_eq!(read_cstr(buf, 17), None);
    assert_eq!(read_cstr(buf, 100), None);
}

#[test]
fn read_cstr_maps_bytes_to_chars() {
    let buf = [0x61, 0xe9, 0x00];
    assert_eq!(read_cstr(&buf, 0), Some("a\u{e9}".to_string()));
}

#[test]
fn key_from_exe_needs_whole_key() {
    assert!(CipherKey::from_exe(&vec![0u8; KEY_OFFSET + KEY_LEN - 1]).is_none());
    assert!(CipherKey::from_exe(&vec![0u8; KEY_OFFSET + KEY_LEN]).is_some());
}

#[test]
fn decrypt_payload_known_vector() {
    // An all-zero key of any length schedules as the 8-byte zero key, under
    // which the zero block encrypts to 4EF997456198DD78.
    let key = CipherKey::from_exe(&exe_with_key(&[0u8; KEY_LEN])).unwrap();
    let mask = [0x75, 0xFA, 0x29, 0x95, 0x05, 0x4D, 0x41, 0x5F];
    let cipher = [0x4E, 0xF9, 0x97, 0x45, 0x61, 0x98, 0xDD, 0x78];
    let mut data: Vec<u8> = cipher.iter().zip(mask.iter()).map(|(c, m)| c ^ m).collect();
    data.extend_from_slice(&cipher);
    assert_eq!(decrypt_payload(&key, &data), Some(vec![0u8; 16]));
}

#[test]
fn decrypt_payload_rejects_partial_block() {
    let key = CipherKey::from_exe(&exe_with_key(&[7u8; KEY_LEN])).unwrap();
    assert_eq!(decrypt_payload(&key, &[0u8; 12]), None);
    assert_eq!(decrypt_payload(&key, &[]), Some(Vec::new()));
}
