use k9a_decoder::container::{decode_container, decode_file};
use k9a_decoder::error::DecodeError;
use k9a_decoder::mask::{initial_mask, mask_payload};

fn build(ext: &[u8], masked: &[u8], tail: &[u8]) -> Vec<u8> {
    let mut v = vec![ext.len() as u8];
    v.extend_from_slice(ext);
    v.push(masked.len() as u8);
    v.extend_from_slice(masked);
    v.extend_from_slice(tail);
    v
}

#[test]
fn decode_exact_container() {
    // Base name "x" gives mask 88; [1, 2, 3] masks to [89, 235, 58].
    let data = build(b"txt", &[89, 235, 58], &[9, 9]);
    let d = decode_file(b"x", &data).unwrap();
    assert_eq!(d.extension, "txt");
    assert_eq!(d.payload, vec![1, 2, 3]);
    assert_eq!(d.tail_start, 8);
    assert_eq!(&data[d.tail_start..], &[9, 9]);
}

#[test]
fn decode_second_byte_uses_ciphertext_state() {
    let data = build(b"bin", &[0x10, 0x20], &[]);
    let d = decode_container(&data, 65).unwrap();
    assert_eq!(d.payload, vec![0x51, 0xB2]);
}

#[test]
fn round_trip_through_container() {
    let name = b"Report_2024";
    let plain = b"hello, world".to_vec();
    let tail: Vec<u8> = (0..100u8).collect();
    let m = initial_mask(name).unwrap();
    let data = build("tar.gz".as_bytes(), &mask_payload(&plain, m), &tail);
    let d = decode_file(name, &data).unwrap();
    assert_eq!(d.extension, "tar.gz");
    assert_eq!(d.payload, plain);
    assert_eq!(&data[d.tail_start..], &tail[..]);
}

#[test]
fn round_trip_with_unicode_extension() {
    let ext = "données";
    let plain = vec![0u8, 255, 128, 7];
    let m = initial_mask(b"file").unwrap();
    let data = build(ext.as_bytes(), &mask_payload(&plain, m), b"rest");
    let d = decode_file(b"FILE", &data).unwrap();
    assert_eq!(d.extension, ext);
    assert_eq!(d.payload, plain);
    assert_eq!(&data[d.tail_start..], b"rest");
}

#[test]
fn empty_masked_region_passes_tail() {
    let data = build(b"bin", &[], &[7, 8, 9]);
    let d = decode_container(&data, 0xFFFF_FFFF).unwrap();
    assert_eq!(d.extension, "bin");
    assert!(d.payload.is_empty());
    assert_eq!(d.tail_start, 5);
    assert_eq!(&data[d.tail_start..], &[7, 8, 9]);
}

#[test]
fn full_masked_region_is_accepted() {
    let plain: Vec<u8> = (0..255u32).map(|i| (i * 7 % 256) as u8).collect();
    let m = initial_mask(b"big").unwrap();
    let data = build(b"dat", &mask_payload(&plain, m), &[]);
    let d = decode_file(b"big", &data).unwrap();
    assert_eq!(d.payload.len(), 255);
    assert_eq!(d.payload, plain);
    assert_eq!(d.tail_start, data.len());
}

#[test]
fn empty_extension() {
    let d = decode_container(&[0, 0], 5).unwrap();
    assert_eq!(d.extension, "");
    assert!(d.payload.is_empty());
    assert_eq!(d.tail_start, 2);
}

#[test]
fn truncated_extension() {
    assert_eq!(decode_container(&[5, b'a', b'b'], 0).err(), Some(DecodeError::Truncated));
    assert_eq!(decode_container(&[], 0).err(), Some(DecodeError::Truncated));
}

#[test]
fn truncated_masked_region() {
    assert_eq!(decode_container(&[1, b'a', 4, 1, 2], 0).err(), Some(DecodeError::Truncated));
    assert_eq!(decode_container(&[1, b'a'], 0).err(), Some(DecodeError::Truncated));
    assert_eq!(decode_file(b"n", &[3, b'j', b'p', b'g', 255, 0]).err(), Some(DecodeError::Truncated));
}

#[test]
fn invalid_extension_text() {
    assert_eq!(
        decode_container(&[2, 0xFF, 0xFE, 0], 0).err(),
        Some(DecodeError::InvalidExtension)
    );
}

#[test]
fn non_ascii_name_rejected_before_reading() {
    let data = build(b"txt", &[1, 2, 3], &[]);
    assert_eq!(decode_file("naïve".as_bytes(), &data).err(), Some(DecodeError::InvalidName));
    assert_eq!(decode_file("naïve".as_bytes(), &[]).err(), Some(DecodeError::InvalidName));
    assert_eq!(decode_file(&[0xFF], &[9, 1]).err(), Some(DecodeError::InvalidName));
}
