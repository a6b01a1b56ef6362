use stream_aead::aead::Aead;
use stream_aead::null_aead::NullAead;
use stream_aead::stream::{Decryptor, Encryptor};

fn zero_key() -> Vec<u8> {
    vec![0u8; 32]
}

fn zero_prefix() -> Vec<u8> {
    vec![0u8; 8]
}

#[test]
fn round_trip_hello_world_bang() {
    let key = zero_key();
    let prefix = zero_prefix();
    let mut enc = Encryptor::<NullAead>::new(&key, &prefix);
    let c1 = enc.encrypt_next(&[], b"hello");
    let c2 = enc.encrypt_next(&[], b"world");
    let c3 = enc.encrypt_last(&[], b"!");

    let mut dec = Decryptor::<NullAead>::new(&key, &prefix);
    let p1 = dec.decrypt_next(&[], &c1).expect("first message must open");
    let p2 = dec.decrypt_next(&[], &c2).expect("second message must open");
    let p3 = dec.decrypt_last(&[], &c3).expect("final message must open");
    assert_eq!(p1, b"hello".to_vec());
    assert_eq!(p2, b"world".to_vec());
    assert_eq!(p3, b"!".to_vec());
}

#[test]
fn corrupt_second_ciphertext_fails_first_still_opens() {
    let key = zero_key();
    let prefix = zero_prefix();
    let mut enc = Encryptor::<NullAead>::new(&key, &prefix);
    let c1 = enc.encrypt_next(&[], b"hello");
    let mut c2 = enc.encrypt_next(&[], b"world");
    let _c3 = enc.encrypt_last(&[], b"!");

    // Flip one bit inside the plaintext region of the second ciphertext.
    let plaintext_start = 13 + 8;
    c2[plaintext_start] ^= 0x01;

    let mut dec = Decryptor::<NullAead>::new(&key, &prefix);
    assert_eq!(dec.decrypt_next(&[], &c1).expect("untouched message"), b"hello".to_vec());
    assert!(dec.decrypt_next(&[], &c2).is_err());

    // Processed independently with correct state, the first message still opens.
    let mut dec2 = Decryptor::<NullAead>::new(&key, &prefix);
    assert_eq!(dec2.decrypt_next(&[], &c1).expect("still opens"), b"hello".to_vec());
}

#[test]
fn in_place_round_trip() {
    let key = zero_key();
    let prefix = vec![9u8, 8, 7, 6, 5, 4, 3, 2];
    let ad = b"header".to_vec();

    let mut enc = Encryptor::<NullAead>::new(&key, &prefix);
    let mut b1 = b"alpha".to_vec();
    enc.encrypt_next_in_place(&ad, &mut b1);
    let mut b2 = b"omega".to_vec();
    enc.encrypt_last_in_place(&ad, &mut b2);

    let mut dec = Decryptor::<NullAead>::new(&key, &prefix);
    dec.decrypt_next_in_place(&ad, &mut b1).expect("interior message must open");
    assert_eq!(b1, b"alpha".to_vec());
    dec.decrypt_last_in_place(&ad, &mut b2).expect("final message must open");
    assert_eq!(b2, b"omega".to_vec());
}

#[test]
fn in_place_failure_leaves_buffer_unchanged() {
    let key = zero_key();
    let prefix = zero_prefix();
    let mut enc = Encryptor::<NullAead>::new(&key, &prefix);
    let mut buffer = b"payload".to_vec();
    enc.encrypt_next_in_place(&[], &mut buffer);
    buffer[0] ^= 0x80;
    let tampered = buffer.clone();

    let mut dec = Decryptor::<NullAead>::new(&key, &prefix);
    assert!(dec.decrypt_next_in_place(&[], &mut buffer).is_err());
    assert_eq!(buffer, tampered);

    // The decryptor was not advanced: the untampered ciphertext still opens.
    buffer[0] ^= 0x80;
    dec.decrypt_next_in_place(&[], &mut buffer).expect("original ciphertext must open");
    assert_eq!(buffer, b"payload".to_vec());
}

#[test]
fn terminal_binding_rejects_swapped_finality() {
    let key = zero_key();
    let prefix = zero_prefix();

    // An interior ciphertext fed to decrypt_last fails authentication.
    let mut enc = Encryptor::<NullAead>::new(&key, &prefix);
    let interior = enc.encrypt_next(&[], b"not the end");
    let dec = Decryptor::<NullAead>::new(&key, &prefix);
    assert!(dec.decrypt_last(&[], &interior).is_err());

    // A final ciphertext fed to decrypt_next fails authentication.
    let enc2 = Encryptor::<NullAead>::new(&key, &prefix);
    let last = enc2.encrypt_last(&[], b"the end");
    let mut dec2 = Decryptor::<NullAead>::new(&key, &prefix);
    assert!(dec2.decrypt_next(&[], &last).is_err());
}

#[test]
fn reordering_two_interior_messages_is_detected() {
    let key = zero_key();
    let prefix = zero_prefix();
    let mut enc = Encryptor::<NullAead>::new(&key, &prefix);
    let c1 = enc.encrypt_next(&[], b"first");
    let c2 = enc.encrypt_next(&[], b"second");

    let mut dec = Decryptor::<NullAead>::new(&key, &prefix);
    // The swapped-in message fails at position 0.
    assert!(dec.decrypt_next(&[], &c2).is_err());
    // Accepting the real first message, the swapped second position fails too.
    assert_eq!(dec.decrypt_next(&[], &c1).expect("in order"), b"first".to_vec());
    // c1 replayed at position 1 is likewise rejected.
    assert!(dec.decrypt_next(&[], &c1).is_err());
    assert_eq!(dec.decrypt_next(&[], &c2).expect("in order"), b"second".to_vec());
}

#[test]
fn any_region_tamper_is_detected() {
    let key = zero_key();
    let prefix = zero_prefix();
    let ad = b"meta".to_vec();
    let mut enc = Encryptor::<NullAead>::new(&key, &prefix);
    let ciphertext = enc.encrypt_next(&ad, b"content");

    // One flipped bit in every region of the envelope: embedded nonce,
    // length field, associated data, plaintext, checksum.
    let regions = [0usize, 13, 21, 21 + 4, ciphertext.len() - 1];
    for &i in regions.iter() {
        let mut bad = ciphertext.clone();
        bad[i] ^= 0x01;
        let mut dec = Decryptor::<NullAead>::new(&key, &prefix);
        assert!(dec.decrypt_next(&ad, &bad).is_err(), "flip at {i} must be rejected");
    }

    // Tampered associated data is rejected as well.
    let mut dec = Decryptor::<NullAead>::new(&key, &prefix);
    assert!(dec.decrypt_next(b"Meta", &ciphertext).is_err());

    // The untouched ciphertext still opens.
    let mut dec = Decryptor::<NullAead>::new(&key, &prefix);
    assert_eq!(dec.decrypt_next(&ad, &ciphertext).expect("untampered"), b"content".to_vec());
}

#[test]
fn wrong_key_or_prefix_is_rejected() {
    let key = zero_key();
    let prefix = zero_prefix();
    let mut enc = Encryptor::<NullAead>::new(&key, &prefix);
    let ciphertext = enc.encrypt_next(&[], b"secret");

    let mut other_key = zero_key();
    other_key[0] = 1;
    let mut dec = Decryptor::<NullAead>::new(&other_key, &prefix);
    assert!(dec.decrypt_next(&[], &ciphertext).is_err());

    let mut other_prefix = zero_prefix();
    other_prefix[7] = 1;
    let mut dec = Decryptor::<NullAead>::new(&key, &other_prefix);
    assert!(dec.decrypt_next(&[], &ciphertext).is_err());
}

#[test]
fn empty_plaintext_and_empty_ad_round_trip() {
    let key = zero_key();
    let prefix = zero_prefix();
    let mut enc = Encryptor::<NullAead>::new(&key, &prefix);
    let c1 = enc.encrypt_next(&[], &[]);
    let c2 = enc.encrypt_last(b"ad only", &[]);

    let mut dec = Decryptor::<NullAead>::new(&key, &prefix);
    assert_eq!(dec.decrypt_next(&[], &c1).expect("empty interior"), Vec::<u8>::new());
    assert_eq!(dec.decrypt_last(b"ad only", &c2).expect("empty final"), Vec::<u8>::new());
}

#[test]
fn truncating_the_sequence_is_detected() {
    // Dropping the interior messages and presenting the final one first
    // fails, because its counter does not match position 0.
    let key = zero_key();
    let prefix = zero_prefix();
    let mut enc = Encryptor::<NullAead>::new(&key, &prefix);
    let _c1 = enc.encrypt_next(&[], b"one");
    let _c2 = enc.encrypt_next(&[], b"two");
    let c3 = enc.encrypt_last(&[], b"three");

    let dec = Decryptor::<NullAead>::new(&key, &prefix);
    assert!(dec.decrypt_last(&[], &c3).is_err());
}

#[test]
fn envelope_wire_format_is_exact() {
    let key = vec![1u8; 32];
    let alg = NullAead::new(&key);
    let nonce = vec![0u8; 13];
    let ad = [5u8, 6];
    let pt = [7u8];
    let sealed = alg.encrypt(&nonce, &ad, &pt);

    // nonce || be64(|ad|) || ad || pt || be32(32*1 + 0 + (5 + 6) + 7)
    let mut want = vec![0u8; 13];
    want.extend_from_slice(&2u64.to_be_bytes());
    want.extend_from_slice(&ad);
    want.extend_from_slice(&pt);
    want.extend_from_slice(&50u32.to_be_bytes());
    assert_eq!(sealed, want);
}

#[test]
fn capability_decrypt_is_exact_inverse() {
    let key = zero_key();
    let alg = NullAead::new(&key);
    let nonce: Vec<u8> = (0u8..13).collect();
    let sealed = alg.encrypt(&nonce, b"ad", b"pt");
    assert_eq!(alg.decrypt(&nonce, b"ad", &sealed).expect("own output"), b"pt".to_vec());
    assert!(alg.decrypt(&nonce, b"AD", &sealed).is_err());
    assert!(alg.decrypt(&nonce, b"ad", b"short").is_err());
}
