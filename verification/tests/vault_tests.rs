use timeblock::errors::VaultError;
use timeblock::vault::CredentialVault;
use timeblock::vault::TokenEncryption;

fn test_vault() -> TokenEncryption {
    TokenEncryption::from_key(vec![7u8; 32]).unwrap()
}

#[test]
fn test_encryption_decryption() {
    let crypto = test_vault();

    let original = "my-secret-token-12345";
    let encrypted = crypto.encrypt(original).unwrap();
    let decrypted = crypto.decrypt(&encrypted).unwrap();

    assert_eq!(original, decrypted);
    assert_ne!(original, encrypted);
}

#[test]
fn test_different_ciphertexts() {
    let crypto = test_vault();

    let original = "test-token";
    let encrypted1 = crypto.encrypt(original).unwrap();
    let encrypted2 = crypto.encrypt(original).unwrap();

    // Different nonces should produce different ciphertexts
    assert_ne!(encrypted1, encrypted2);

    // Both should decrypt to the same value
    assert_eq!(crypto.decrypt(&encrypted1).unwrap(), original);
    assert_eq!(crypto.decrypt(&encrypted2).unwrap(), original);
}

#[test]
fn round_trip_through_library() {
    let crypto = test_vault();
    let out = crypto.encrypt_then_decrypt("a token with spaces and unicode: caf\u{e9}").unwrap();
    assert_eq!(out, "a token with spaces and unicode: caf\u{e9}");
}

#[test]
fn round_trip_empty_string() {
    let crypto = test_vault();
    let blob = crypto.encrypt("").unwrap();
    assert_eq!(crypto.decrypt(&blob).unwrap(), "");
}

#[test]
fn tampering_any_byte_fails() {
    let crypto = test_vault();
    let blob = crypto.encrypt("tamper-me").unwrap();
    for i in 0..blob.len() {
        let mut bytes = blob.clone().into_bytes();
        bytes[i] ^= 0x01;
        if let Ok(mutated) = String::from_utf8(bytes) {
            if mutated != blob {
                assert!(
                    crypto.decrypt(&mutated).is_err(),
                    "flipped byte {} still decrypted",
                    i
                );
            }
        }
    }
}

#[test]
fn blob_is_nonce_then_ciphertext_then_tag() {
    let crypto = test_vault();
    let plaintext = "shape-check";
    let blob = crypto.encrypt(plaintext).unwrap();
    let decoded =
        base64::Engine::decode(&base64::engine::general_purpose::STANDARD, &blob).unwrap();
    // 12-byte nonce, message-length ciphertext, 16-byte tag.
    assert_eq!(decoded.len(), 12 + plaintext.len() + 16);
}

#[test]
fn truncated_blob_fails() {
    let crypto = test_vault();
    // Fewer than 12 decoded bytes: rejected before the cipher runs.
    let tiny = "AAAA"; // decodes to 3 bytes
    assert!(matches!(
        crypto.decrypt(tiny),
        Err(VaultError::InvalidCiphertext)
    ));
}

#[test]
fn non_base64_blob_fails() {
    let crypto = test_vault();
    assert!(crypto.decrypt("not base64 at all!!").is_err());
}

#[test]
fn key_hex_round_trip() {
    let key: Vec<u8> = (0u8..32).collect();
    let hex_text = TokenEncryption::key_to_hex(&key);
    assert_eq!(
        hex_text,
        "000102030405060708090a0b0c0d0e0f101112131415161718191a1b1c1d1e1f"
    );
    let back = TokenEncryption::key_from_hex(&hex_text).unwrap();
    assert_eq!(back, key);
}

#[test]
fn key_from_hex_rejects_bad_input() {
    assert!(matches!(
        TokenEncryption::key_from_hex("zz"),
        Err(VaultError::KeyFormat)
    ));
    // Valid hex, wrong length.
    assert!(matches!(
        TokenEncryption::key_from_hex("abcd"),
        Err(VaultError::KeyFormat)
    ));
    // Odd length.
    assert!(matches!(
        TokenEncryption::key_from_hex("abc"),
        Err(VaultError::KeyFormat)
    ));
}

#[test]
fn generated_key_has_full_length() {
    let key = TokenEncryption::generate_key().unwrap();
    assert_eq!(key.len(), 32);
    assert!(TokenEncryption::from_key(key).is_ok());
}

#[test]
fn from_key_rejects_short_keys() {
    assert!(matches!(
        TokenEncryption::from_key(vec![1u8; 16]),
        Err(VaultError::KeyFormat)
    ));
}

#[test]
fn plaintext_mode_passes_through() {
    let vault = CredentialVault::from_setup(None);
    let stored = vault.protect("secret").unwrap();
    assert_eq!(stored, "secret");
    assert_eq!(vault.expose(&stored), "secret");
}

#[test]
fn cipher_mode_round_trips_credentials() {
    let vault = CredentialVault::from_setup(Some(test_vault()));
    let stored = vault.protect("secret").unwrap();
    assert_ne!(stored, "secret");
    assert_eq!(vault.expose(&stored), "secret");
}

#[test]
fn corrupt_credential_is_handed_back_as_stored() {
    let vault = CredentialVault::from_setup(Some(test_vault()));
    // Not an encryption under this key: the read hands it back unchanged.
    assert_eq!(vault.expose("garbage-value"), "garbage-value");
}
