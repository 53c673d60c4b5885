use k9a_decoder::error::DecodeError;
use k9a_decoder::mask::{initial_mask, mask_payload, unmask_in_place};

#[test]
fn mask_of_short_name() {
    assert_eq!(initial_mask(b"ab"), Ok(192));
}

#[test]
fn mask_depends_on_uppercase_only() {
    assert_eq!(initial_mask(b"ab"), initial_mask(b"AB"));
    assert_eq!(initial_mask(b"aB"), initial_mask(b"Ab"));
    assert_eq!(initial_mask(b"Report_2024"), Ok(110448));
    assert_eq!(initial_mask(b"report_2024"), Ok(110448));
}

#[test]
fn mask_is_repeatable() {
    let a = initial_mask(b"holiday-photo");
    let b = initial_mask(b"holiday-photo");
    assert_eq!(a, b);
    assert!(a.is_ok());
}

#[test]
fn mask_of_empty_name_is_zero() {
    assert_eq!(initial_mask(b""), Ok(0));
}

#[test]
fn mask_wraps_at_32_bits() {
    let name = vec![b'a'; 40];
    assert_eq!(initial_mask(&name), Ok(63));
}

#[test]
fn mask_rejects_non_ascii_name() {
    assert_eq!(initial_mask("café".as_bytes()), Err(DecodeError::InvalidName));
    assert_eq!(initial_mask(&[b'a', 0x80]), Err(DecodeError::InvalidName));
}

#[test]
fn unmask_uses_encoded_byte_for_state() {
    // Initial mask 65; the state for the second byte is (65 << 1) ^ 0x10,
    // driven by the encoded byte; a plain-driven state would give 0xF3.
    let mut buf = vec![0x10u8, 0x20];
    unmask_in_place(&mut buf, 65);
    assert_eq!(buf, vec![0x51, 0xB2]);
    assert_ne!(buf[1], 0xF3);
}

#[test]
fn mask_payload_exact() {
    assert_eq!(mask_payload(&[0x51, 0xB2], 65), vec![0x10, 0x20]);
    assert_eq!(mask_payload(&[1, 2, 3], 88), vec![89, 235, 58]);
}

#[test]
fn mask_then_unmask_restores() {
    let plain: Vec<u8> = (0..=254u8).collect();
    let mut buf = mask_payload(&plain, 0xDEAD_BEEF);
    assert_ne!(buf, plain);
    unmask_in_place(&mut buf, 0xDEAD_BEEF);
    assert_eq!(buf, plain);
}

#[test]
fn unmask_empty_buffer() {
    let mut buf: Vec<u8> = Vec::new();
    unmask_in_place(&mut buf, 12345);
    assert!(buf.is_empty());
}
