use stream_aead::bytes::{bytes_eq, push_u32_be, push_u64_be};
use stream_aead::nonce::NonceEncoder32;

#[test]
fn nonce_layout_at_position_zero() {
    let prefix = [1u8, 2, 3, 4, 5, 6, 7, 8];
    let enc = NonceEncoder32::new(&prefix);
    assert_eq!(enc.as_slice(), &[1, 2, 3, 4, 5, 6, 7, 8, 0, 0, 0, 0, 0]);
}

#[test]
fn nonce_counter_is_big_endian_and_monotonic() {
    let prefix = [0xAAu8; 8];
    let mut enc = NonceEncoder32::new(&prefix);
    for expected in 1u32..=300 {
        enc.increment();
        let mut want = prefix.to_vec();
        want.extend_from_slice(&expected.to_be_bytes());
        want.push(0);
        assert_eq!(enc.as_slice(), want.as_slice(), "nonce at counter {expected}");
    }
}

#[test]
fn finish_raises_the_terminal_flag_only() {
    let prefix = [7u8; 8];
    let mut enc = NonceEncoder32::new(&prefix);
    enc.increment();
    enc.increment();
    let last = enc.finish();
    assert_eq!(last, vec![7, 7, 7, 7, 7, 7, 7, 7, 0, 0, 0, 2, 1]);
}

#[test]
fn big_endian_helpers_match_std() {
    let mut out: Vec<u8> = Vec::new();
    push_u32_be(&mut out, 0x0102_03FF);
    assert_eq!(out, 0x0102_03FFu32.to_be_bytes().to_vec());

    let mut out64: Vec<u8> = Vec::new();
    push_u64_be(&mut out64, 0xDEAD_BEEF_0000_0001);
    assert_eq!(out64, 0xDEAD_BEEF_0000_0001u64.to_be_bytes().to_vec());
}

#[test]
fn bytes_eq_compares_contents() {
    assert!(bytes_eq(&[1, 2, 3], &[1, 2, 3]));
    assert!(!bytes_eq(&[1, 2, 3], &[1, 2, 4]));
    assert!(!bytes_eq(&[1, 2, 3], &[1, 2]));
    assert!(bytes_eq(&[], &[]));
}
