use base64::Engine;
use eddie::crypto::{derive_device_key, DeviceEncryption, EncryptionError};

const BASE64: base64::engine::GeneralPurpose = base64::engine::general_purpose::STANDARD;

fn device() -> DeviceEncryption {
    match DeviceEncryption::for_device("test-machine-id", "tester") {
        Ok(e) => e,
        Err(_) => panic!("key derivation failed"),
    }
}

#[test]
fn test_encrypt_decrypt() {
    let encryption = device();

    let plaintext = "my_secret_password_123!";
    let encrypted = encryption.encrypt(plaintext).ok().unwrap();

    // Encrypted should be different from plaintext
    assert_ne!(encrypted, plaintext);

    // Should be base64-encoded
    assert!(BASE64.decode(&encrypted).is_ok());

    // Decrypt should return original plaintext
    let decrypted = encryption.decrypt(&encrypted).ok().unwrap();
    assert_eq!(decrypted, plaintext);
}

#[test]
fn test_encrypt_same_plaintext_different_ciphertext() {
    let encryption = device();

    let plaintext = "same_password";
    let encrypted1 = encryption.encrypt(plaintext).ok().unwrap();
    let encrypted2 = encryption.encrypt(plaintext).ok().unwrap();

    // Should produce different ciphertexts due to random nonces
    assert_ne!(encrypted1, encrypted2);

    // Both should decrypt to same plaintext
    assert_eq!(encryption.decrypt(&encrypted1).ok().unwrap(), plaintext);
    assert_eq!(encryption.decrypt(&encrypted2).ok().unwrap(), plaintext);
}

#[test]
fn test_empty_plaintext_fails() {
    let encryption = device();
    assert!(encryption.encrypt("").is_err());
}

#[test]
fn test_invalid_encrypted_data() {
    let encryption = device();

    // Invalid base64
    assert!(encryption.decrypt("not_base64!@#$%").is_err());

    // Valid base64 but too short
    assert!(encryption.decrypt(&BASE64.encode("short")).is_err());

    // Valid base64 but wrong data
    let wrong_data = BASE64.encode([0u8; 32]);
    assert!(encryption.decrypt(&wrong_data).is_err());
}

#[test]
fn test_device_key_derivation_deterministic() {
    // Same device should produce same key
    let key1 = derive_device_key("test-machine-id", "tester").ok().unwrap();
    let key2 = derive_device_key("test-machine-id", "tester").ok().unwrap();

    assert_eq!(key1, key2, "Device key should be deterministic");
}

#[test]
fn test_long_password() {
    let encryption = device();

    // Test with a very long password
    let plaintext = "a".repeat(10000);
    let encrypted = encryption.encrypt(&plaintext).ok().unwrap();
    let decrypted = encryption.decrypt(&encrypted).ok().unwrap();

    assert_eq!(decrypted, plaintext);
}

#[test]
fn test_special_characters() {
    let encryption = device();

    let plaintext = "pässwörd!@#$%^&*()_+-=[]{}|;:',.<>?/~`";
    let encrypted = encryption.encrypt(plaintext).ok().unwrap();
    let decrypted = encryption.decrypt(&encrypted).ok().unwrap();

    assert_eq!(decrypted, plaintext);
}

// ── Error kinds and messages ────────────────────────────────────────────────

#[test]
fn empty_plaintext_is_an_encryption_error() {
    match device().encrypt("") {
        Err(EncryptionError::Encryption(m)) => assert_eq!(m, "Cannot encrypt empty plaintext"),
        _ => panic!("expected an encryption error"),
    }
}

#[test]
fn decryption_errors_name_their_cause() {
    let e = device();
    match e.decrypt("") {
        Err(EncryptionError::InvalidFormat(m)) => assert_eq!(m, "Cannot decrypt empty string"),
        _ => panic!("expected an invalid format error"),
    }
    match e.decrypt("not_base64!@#$%") {
        Err(EncryptionError::InvalidFormat(m)) => assert!(m.starts_with("Invalid base64 encoding: ")),
        _ => panic!("expected an invalid format error"),
    }
    match e.decrypt(&BASE64.encode("short")) {
        Err(EncryptionError::InvalidFormat(m)) => assert_eq!(m, "Encrypted data too short: 5 bytes"),
        _ => panic!("expected an invalid format error"),
    }
    match e.decrypt(&BASE64.encode([0u8; 32])) {
        Err(EncryptionError::Decryption(m)) => assert!(m.starts_with("AES-GCM decryption failed")),
        _ => panic!("expected a decryption error"),
    }
}

#[test]
fn another_device_cannot_read_the_password() {
    let mine = device();
    let theirs = DeviceEncryption::for_device("other-machine", "tester").ok().unwrap();
    let c = mine.encrypt("hunter2").ok().unwrap();
    assert!(theirs.decrypt(&c).is_err());
}

#[test]
fn device_key_depends_on_machine_and_user() {
    let a = derive_device_key("machine-a", "tester").ok().unwrap();
    let b = derive_device_key("machine-b", "tester").ok().unwrap();
    let c = derive_device_key("machine-a", "other").ok().unwrap();
    assert_eq!(a.len(), 32);
    assert_ne!(a, b);
    assert_ne!(a, c);
}

#[test]
fn error_texts_read_like_their_kind() {
    assert_eq!(EncryptionError::Decryption("x".to_string()).to_text(), "Decryption failed: x");
    assert_eq!(EncryptionError::KeyDerivation("y".to_string()).to_text(), "Failed to derive encryption key: y");
}

#[test]
fn sealing_under_a_given_nonce() {
    let e = device();
    let n1 = [1u8; 12];
    let n2 = [2u8; 12];
    let a = e.encrypt_with_nonce("secret", &n1).ok().unwrap();
    let b = e.encrypt_with_nonce("secret", &n1).ok().unwrap();
    let c = e.encrypt_with_nonce("secret", &n2).ok().unwrap();
    assert_eq!(a, b);
    assert_ne!(a, c);
    let raw = BASE64.decode(&a).unwrap();
    assert_eq!(&raw[..12], &n1);
    assert_eq!(raw.len(), 12 + "secret".len() + 16);
    assert_eq!(a.len(), 4 * ((6 + 30) / 3));
    assert_ne!(a, "secret");
    assert_eq!(e.decrypt(&c).ok().unwrap(), "secret");
    assert!(matches!(e.encrypt_with_nonce("", &n1), Err(EncryptionError::Encryption(_))));
}
