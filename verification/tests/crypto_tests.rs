use agent_core::crypto::{decrypt_decompress, encrypt_compress, random_bytes, CryptoError};

fn key() -> Vec<u8> {
    (0u8..32u8).collect()
}

fn aad() -> Vec<u8> {
    b"device-1234".to_vec()
}

#[test]
fn round_trip_restores_plaintext() {
    let pt = br#"{"ts_ms":1,"app_name":"A","window_title":"T","input_idle_ms":2}"#.to_vec();
    let blob = encrypt_compress(&key(), &aad(), &pt).unwrap();
    let back = decrypt_decompress(&key(), &aad(), blob.as_slice()).unwrap();
    assert_eq!(back, pt);
}

#[test]
fn blob_carries_magic_and_nonce() {
    let pt = b"hello".to_vec();
    let blob = encrypt_compress(&key(), &aad(), &pt).unwrap();
    assert_eq!(&blob[..3], b"EV1");
    assert!(blob.len() >= 31);
}

#[test]
fn fresh_nonce_every_record() {
    let pt = b"same plaintext".to_vec();
    let b1 = encrypt_compress(&key(), &aad(), &pt).unwrap();
    let b2 = encrypt_compress(&key(), &aad(), &pt).unwrap();
    assert_ne!(b1, b2);
    assert_ne!(&b1[3..15], &b2[3..15]);
}

#[test]
fn changed_device_fails_authentication() {
    let pt = b"payload".to_vec();
    let blob = encrypt_compress(&key(), &aad(), &pt).unwrap();
    let other = b"device-9999".to_vec();
    assert_eq!(
        decrypt_decompress(&key(), &other, blob.as_slice()),
        Err(CryptoError::AuthFailed)
    );
}

#[test]
fn changed_nonce_fails_authentication() {
    let pt = b"payload".to_vec();
    let mut blob = encrypt_compress(&key(), &aad(), &pt).unwrap();
    blob[5] ^= 0x01;
    assert_eq!(
        decrypt_decompress(&key(), &aad(), blob.as_slice()),
        Err(CryptoError::AuthFailed)
    );
}

#[test]
fn changed_ciphertext_byte_fails_authentication() {
    let pt = b"payload".to_vec();
    let mut blob = encrypt_compress(&key(), &aad(), &pt).unwrap();
    let last = blob.len() - 1;
    blob[last] ^= 0x80;
    assert_eq!(
        decrypt_decompress(&key(), &aad(), blob.as_slice()),
        Err(CryptoError::AuthFailed)
    );
}

#[test]
fn changed_key_fails_authentication() {
    let pt = b"payload".to_vec();
    let blob = encrypt_compress(&key(), &aad(), &pt).unwrap();
    let mut k2 = key();
    k2[0] ^= 0xff;
    assert_eq!(
        decrypt_decompress(&k2, &aad(), blob.as_slice()),
        Err(CryptoError::AuthFailed)
    );
}

#[test]
fn wrong_magic_is_bad_format() {
    let pt = b"payload".to_vec();
    let mut blob = encrypt_compress(&key(), &aad(), &pt).unwrap();
    blob[0] = b'X';
    assert_eq!(
        decrypt_decompress(&key(), &aad(), blob.as_slice()),
        Err(CryptoError::BadFormat)
    );
}

#[test]
fn short_blob_is_bad_format() {
    let blob = b"EV1short".to_vec();
    assert_eq!(
        decrypt_decompress(&key(), &aad(), blob.as_slice()),
        Err(CryptoError::BadFormat)
    );
}

#[test]
fn random_bytes_has_asked_length() {
    assert_eq!(random_bytes(0).len(), 0);
    assert_eq!(random_bytes(12).len(), 12);
    assert_eq!(random_bytes(32).len(), 32);
}
