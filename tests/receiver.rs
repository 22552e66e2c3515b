use aes_gcm::aead::{Aead, KeyInit, Payload};
use aes_gcm::{Aes128Gcm, Aes256Gcm, Key, Nonce};
use hkdf::Hkdf;
use sha2::{Sha256, Sha512};

use sframe::crypto::CipherSuiteVariant;
use sframe::error::{KeyId, SframeError};
use sframe::frame_validation::{FrameValidation, ReplayAttackProtection};
use sframe::header::Header;
use sframe::receiver::{Receiver, ReceiverOptions};

const KDF_SALT: &[u8] = b"SFrame10";

fn derive(suite: CipherSuiteVariant, material: &[u8]) -> (Vec<u8>, Vec<u8>) {
    match suite {
        CipherSuiteVariant::AesGcm128Sha256 => {
            let hk = Hkdf::<Sha256>::new(Some(KDF_SALT), material);
            let mut key = vec![0u8; 16];
            let mut salt = vec![0u8; 12];
            hk.expand(b"key", &mut key).unwrap();
            hk.expand(b"salt", &mut salt).unwrap();
            (key, salt)
        }
        CipherSuiteVariant::AesGcm256Sha512 => {
            let hk = Hkdf::<Sha512>::new(Some(KDF_SALT), material);
            let mut key = vec![0u8; 32];
            let mut salt = vec![0u8; 12];
            hk.expand(b"key", &mut key).unwrap();
            hk.expand(b"salt", &mut salt).unwrap();
            (key, salt)
        }
    }
}

fn header_bytes(key_id: u64, counter: u64) -> Vec<u8> {
    Header::new(key_id, counter).serialize()
}

fn encrypt(
    suite: CipherSuiteVariant,
    material: &[u8],
    key_id: u64,
    counter: u64,
    plaintext: &[u8],
) -> Vec<u8> {
    let (key, salt) = derive(suite, material);
    let mut nonce = salt.clone();
    let ctr = counter.to_be_bytes();
    for i in 0..8 {
        nonce[4 + i] ^= ctr[i];
    }
    let header = header_bytes(key_id, counter);
    let payload = Payload { msg: plaintext, aad: &header };
    let ct = match suite {
        CipherSuiteVariant::AesGcm128Sha256 => Aes128Gcm::new(Key::<Aes128Gcm>::from_slice(&key))
            .encrypt(Nonce::from_slice(&nonce), payload)
            .unwrap(),
        CipherSuiteVariant::AesGcm256Sha512 => Aes256Gcm::new(Key::<Aes256Gcm>::from_slice(&key))
            .encrypt(Nonce::from_slice(&nonce), payload)
            .unwrap(),
    };
    let mut frame = header;
    frame.extend_from_slice(&ct);
    frame
}

fn unvalidated(suite: CipherSuiteVariant) -> Receiver {
    Receiver::with_options(ReceiverOptions::new(suite, FrameValidation::NoValidation))
}

#[test]
fn remove_key() {
    let mut receiver = Receiver::default();
    assert_eq!(receiver.remove_encryption_key(1234), false);

    receiver.set_encryption_key(4223, b"hendrikswaytoshortpassword").unwrap();
    receiver.set_encryption_key(4711, b"tobismuchbetterpassword;)").unwrap();

    assert!(receiver.remove_encryption_key(4223));
    assert_eq!(receiver.remove_encryption_key(4223), false);

    assert!(receiver.remove_encryption_key(4711));
    assert_eq!(receiver.remove_encryption_key(4711), false);
}

#[test]
fn fail_on_missing_secret() {
    let mut receiver = Receiver::default();
    // do not set the encryption-key
    let decrypted = receiver.decrypt(b"foobar is unsafe", 0);

    assert_eq!(
        decrypted,
        Err(SframeError::MissingDecryptionKey(KeyId::from(6u8)))
    );
}

#[test]
fn hello_scenario_with_default_receiver() {
    let suite = CipherSuiteVariant::AesGcm256Sha512;
    let mut receiver = Receiver::default();
    receiver.set_encryption_key(4223, b"hendrikswaytoshortpassword").unwrap();
    let frame = encrypt(suite, b"hendrikswaytoshortpassword", 4223, 0, b"hello");
    assert_eq!(frame[..4], [0x09, 0x10, 0x7f, 0x00]);
    assert_eq!(receiver.decrypt(&frame, 0), Ok(b"hello".to_vec()));
    assert!(receiver.remove_encryption_key(4223));
    assert!(!receiver.remove_encryption_key(4223));
    // the same frame again is a replay for the default policy
    assert_eq!(receiver.decrypt(&frame, 0), Err(SframeError::FrameValidationFailed));
    // a fresh frame under the removed key misses its key
    let next = encrypt(suite, b"hendrikswaytoshortpassword", 4223, 1, b"hello");
    assert_eq!(receiver.decrypt(&next, 0), Err(SframeError::MissingDecryptionKey(4223)));
}

#[test]
fn hello_scenario_without_validation() {
    let suite = CipherSuiteVariant::AesGcm256Sha512;
    let mut receiver = unvalidated(suite);
    receiver.set_encryption_key(4223, b"hendrikswaytoshortpassword").unwrap();
    let frame = encrypt(suite, b"hendrikswaytoshortpassword", 4223, 0, b"hello");
    assert_eq!(receiver.decrypt(&frame, 0), Ok(b"hello".to_vec()));
    assert!(receiver.remove_encryption_key(4223));
    assert!(!receiver.remove_encryption_key(4223));
    assert_eq!(receiver.decrypt(&frame, 0), Err(SframeError::MissingDecryptionKey(4223)));
}

#[test]
fn round_trip_both_suites_with_skip() {
    for suite in [CipherSuiteVariant::AesGcm128Sha256, CipherSuiteVariant::AesGcm256Sha512] {
        let mut receiver = Receiver::with_options(ReceiverOptions::new(
            suite,
            FrameValidation::ReplayAttackProtection(ReplayAttackProtection::with_tolerance(16)),
        ));
        receiver.set_encryption_key(3, b"short key").unwrap();
        receiver.set_encryption_key(70000, b"another key").unwrap();
        let payload: Vec<u8> = (0u8..=200).collect();
        for (i, key_id) in [(0u64, 3u64), (1, 70000), (300, 3), (1 << 40, 70000)] {
            let material: &[u8] = if key_id == 3 { b"short key" } else { b"another key" };
            let body = encrypt(suite, material, key_id, i, &payload);
            let mut frame = vec![0xAA, 0xBB, 0xCC];
            frame.extend_from_slice(&body);
            let mut expected = vec![0xAA, 0xBB, 0xCC];
            expected.extend_from_slice(&payload);
            assert_eq!(receiver.decrypt(&frame, 3), Ok(expected));
        }
    }
}

#[test]
fn empty_plaintext_round_trip() {
    let suite = CipherSuiteVariant::AesGcm256Sha512;
    let mut receiver = Receiver::default();
    receiver.set_encryption_key(1, b"k").unwrap();
    let frame = encrypt(suite, b"k", 1, 5, b"");
    assert_eq!(frame.len(), 2 + 16);
    assert_eq!(receiver.decrypt(&frame, 0), Ok(Vec::new()));
}

#[test]
fn tampered_bits_fail_authentication() {
    let suite = CipherSuiteVariant::AesGcm256Sha512;
    let mut receiver = unvalidated(suite);
    receiver.set_encryption_key(9, b"tamper").unwrap();
    let frame = encrypt(suite, b"tamper", 9, 77, b"payload bytes");
    let header_len = header_bytes(9, 77).len();
    assert_eq!(receiver.decrypt(&frame, 0), Ok(b"payload bytes".to_vec()));
    for byte in header_len..frame.len() {
        for bit in 0..8 {
            let mut bad = frame.clone();
            bad[byte] ^= 1 << bit;
            assert_eq!(receiver.decrypt(&bad, 0), Err(SframeError::DecryptionFailure));
        }
    }
}

#[test]
fn tampered_header_fails_authentication() {
    let suite = CipherSuiteVariant::AesGcm256Sha512;
    let mut receiver = unvalidated(suite);
    receiver.set_encryption_key(9, b"tamper").unwrap();
    let mut frame = encrypt(suite, b"tamper", 9, 77, b"payload bytes");
    // same key id, another counter
    let last = header_bytes(9, 77).len() - 1;
    frame[last] ^= 1;
    assert_eq!(receiver.decrypt(&frame, 0), Err(SframeError::DecryptionFailure));
}

#[test]
fn wrong_key_material_fails_authentication() {
    let suite = CipherSuiteVariant::AesGcm128Sha256;
    let mut receiver = unvalidated(suite);
    receiver.set_encryption_key(2, b"right").unwrap();
    let good = encrypt(suite, b"right", 2, 1, b"data");
    let bad = encrypt(suite, b"wrong", 2, 1, b"data");
    assert_eq!(receiver.decrypt(&bad, 0), Err(SframeError::DecryptionFailure));
    assert_eq!(receiver.decrypt(&good, 0), Ok(b"data".to_vec()));
}

#[test]
fn last_key_set_wins() {
    let suite = CipherSuiteVariant::AesGcm256Sha512;
    let mut receiver = unvalidated(suite);
    receiver.set_encryption_key(12, b"first").unwrap();
    receiver.set_encryption_key(12, b"second").unwrap();
    let old_frame = encrypt(suite, b"first", 12, 0, b"x");
    let new_frame = encrypt(suite, b"second", 12, 0, b"x");
    assert_eq!(receiver.decrypt(&old_frame, 0), Err(SframeError::DecryptionFailure));
    assert_eq!(receiver.decrypt(&new_frame, 0), Ok(b"x".to_vec()));
    assert!(receiver.remove_encryption_key(12));
    assert!(!receiver.remove_encryption_key(12));
}

#[test]
fn skip_changes_only_the_prefix() {
    let suite = CipherSuiteVariant::AesGcm256Sha512;
    let body = encrypt(suite, b"skip", 5, 3, b"the payload");
    for prefix_len in [0usize, 1, 7, 40] {
        let mut receiver = Receiver::default();
        receiver.set_encryption_key(5, b"skip").unwrap();
        let prefix: Vec<u8> = (0..prefix_len).map(|i| i as u8).collect();
        let mut frame = prefix.clone();
        frame.extend_from_slice(&body);
        let out = receiver.decrypt(&frame, prefix_len).unwrap();
        assert_eq!(out[..prefix_len], prefix[..]);
        assert_eq!(&out[prefix_len..], b"the payload");
    }
}

#[test]
fn malformed_frames_are_refused() {
    let mut receiver = Receiver::default();
    receiver.set_encryption_key(1, b"k").unwrap();
    assert_eq!(receiver.decrypt(b"", 0), Err(SframeError::MalformedHeader));
    assert_eq!(receiver.decrypt(b"abc", 3), Err(SframeError::MalformedHeader));
    assert_eq!(receiver.decrypt(b"abc", 10), Err(SframeError::MalformedHeader));
    // counter of eight bytes announced, two present
    assert_eq!(receiver.decrypt(&[0x71, 0x00, 0x01], 0), Err(SframeError::MalformedHeader));
    // extended key id of four bytes announced, three present
    assert_eq!(receiver.decrypt(&[0x0b, 0x01, 0x02, 0x03], 0), Err(SframeError::MalformedHeader));
}

#[test]
fn short_ciphertext_fails_authentication() {
    let mut receiver = Receiver::default();
    receiver.set_encryption_key(1, b"k").unwrap();
    // header only, no tag
    assert_eq!(receiver.decrypt(&[0x01, 0x00], 0), Err(SframeError::DecryptionFailure));
}

#[test]
fn replayed_frame_is_refused_by_receiver() {
    let suite = CipherSuiteVariant::AesGcm256Sha512;
    let mut receiver = Receiver::default();
    receiver.set_encryption_key(1, b"k").unwrap();
    let f5 = encrypt(suite, b"k", 1, 5, b"five");
    let f3 = encrypt(suite, b"k", 1, 3, b"three");
    assert_eq!(receiver.decrypt(&f5, 0), Ok(b"five".to_vec()));
    assert_eq!(receiver.decrypt(&f3, 0), Ok(b"three".to_vec()));
    assert_eq!(receiver.decrypt(&f3, 0), Err(SframeError::FrameValidationFailed));
    assert_eq!(receiver.decrypt(&f5, 0), Err(SframeError::FrameValidationFailed));
    let stale = encrypt(suite, b"k", 1, 1000, b"far");
    assert_eq!(receiver.decrypt(&stale, 0), Ok(b"far".to_vec()));
    assert_eq!(receiver.decrypt(&f3, 0), Err(SframeError::FrameValidationFailed));
}

#[test]
fn counter_advances_even_when_authentication_fails() {
    let suite = CipherSuiteVariant::AesGcm256Sha512;
    let mut receiver = Receiver::default();
    receiver.set_encryption_key(1, b"k").unwrap();
    let forged = encrypt(suite, b"not the key", 1, 9, b"x");
    let genuine = encrypt(suite, b"k", 1, 9, b"x");
    assert_eq!(receiver.decrypt(&forged, 0), Err(SframeError::DecryptionFailure));
    assert_eq!(receiver.decrypt(&genuine, 0), Err(SframeError::FrameValidationFailed));
}

#[test]
fn counter_kept_when_failures_do_not_consume() {
    let suite = CipherSuiteVariant::AesGcm256Sha512;
    let mut options = ReceiverOptions::default();
    options.set_consume_counter_on_failure(false);
    let mut receiver = Receiver::with_options(options);
    receiver.set_encryption_key(1, b"k").unwrap();
    let forged = encrypt(suite, b"not the key", 1, 9, b"x");
    let genuine = encrypt(suite, b"k", 1, 9, b"x");
    assert_eq!(receiver.decrypt(&forged, 0), Err(SframeError::DecryptionFailure));
    assert_eq!(receiver.decrypt(&genuine, 0), Ok(b"x".to_vec()));
    assert_eq!(receiver.decrypt(&genuine, 0), Err(SframeError::FrameValidationFailed));
    // a frame with no key does not consume its counter either
    let unknown = encrypt(suite, b"k", 2, 10, b"y");
    assert_eq!(receiver.decrypt(&unknown, 0), Err(SframeError::MissingDecryptionKey(2)));
    receiver.set_encryption_key(2, b"k").unwrap();
    assert_eq!(receiver.decrypt(&unknown, 0), Ok(b"y".to_vec()));
}
