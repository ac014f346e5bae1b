use bilboat::{decrypt_aes_siv, derive_key_from_passphrase, encrypt_aes_siv, key_to_seed};

#[test]
fn test_aes_siv_encryption() {
    let secret_message = "Hello, Rust!".as_bytes().to_vec();
    let key = "super_secret_passphrase";

    let encrpytion = encrypt_aes_siv(&secret_message, key);
    let decrypted_message = decrypt_aes_siv(&encrpytion, key);
    let wrong_decrypted_message = decrypt_aes_siv(&encrpytion, "wrong_key");
    assert_eq!(decrypted_message, secret_message);
    assert_ne!(wrong_decrypted_message, secret_message);
}

#[test]
fn sealed_blob_is_nonce_then_tagged_ciphertext() {
    let message = b"payload bytes".to_vec();
    let blob = encrypt_aes_siv(&message, "k");
    assert_eq!(blob.len(), message.len() + 32);
    assert_ne!(&blob[32..], &message[..]);
}

#[test]
fn sealing_twice_uses_fresh_nonces() {
    let message = b"same message".to_vec();
    let a = encrypt_aes_siv(&message, "k");
    let b = encrypt_aes_siv(&message, "k");
    assert_ne!(a, b);
    assert_eq!(decrypt_aes_siv(&a, "k"), message);
    assert_eq!(decrypt_aes_siv(&b, "k"), message);
}

#[test]
fn empty_message_round_trips() {
    let message: Vec<u8> = Vec::new();
    let blob = encrypt_aes_siv(&message, "pass");
    assert_eq!(blob.len(), 32);
    assert_eq!(decrypt_aes_siv(&blob, "pass"), message);
}

#[test]
fn wrong_key_returns_bytes_after_nonce() {
    let message = b"attack at dawn".to_vec();
    let blob = encrypt_aes_siv(&message, "right");
    let out = decrypt_aes_siv(&blob, "wrong");
    assert_eq!(out, blob[16..].to_vec());
    assert_ne!(out, message);
}

#[test]
fn short_data_comes_back_unchanged() {
    let data: Vec<u8> = vec![1, 2, 3, 4, 5, 6, 7, 8, 9, 10, 11, 12, 13, 14, 15];
    assert_eq!(decrypt_aes_siv(&data, "any"), data);
    let empty: Vec<u8> = Vec::new();
    assert_eq!(decrypt_aes_siv(&empty, "any"), empty);
}

#[test]
fn tampered_blob_does_not_authenticate() {
    let message = b"integrity".to_vec();
    let mut blob = encrypt_aes_siv(&message, "k");
    let last = blob.len() - 1;
    blob[last] ^= 1;
    let out = decrypt_aes_siv(&blob, "k");
    assert_eq!(out, blob[16..].to_vec());
}

#[test]
fn seed_is_first_eight_digest_bytes_little_endian() {
    assert_eq!(key_to_seed("key"), 17962051285605773356);
    assert_eq!(key_to_seed("super_secret_passphrase"), 8253159598616979937);
    assert_eq!(key_to_seed(""), 1449310910991872227);
}

#[test]
fn cipher_key_repeats_the_digest() {
    let digest: Vec<u8> = vec![
        44, 112, 225, 43, 122, 6, 70, 249, 34, 121, 244, 39, 199, 179, 142, 115, 52, 216, 229, 56,
        156, 255, 22, 122, 29, 195, 14, 115, 248, 38, 182, 131,
    ];
    let key = derive_key_from_passphrase("key");
    assert_eq!(key.len(), 64);
    assert_eq!(key[..32].to_vec(), digest);
    assert_eq!(key[32..].to_vec(), digest);
}

#[test]
fn authenticated_plaintext_is_thirty_two_bytes_shorter() {
    let message = vec![9u8; 40];
    let blob = encrypt_aes_siv(&message, "k");
    let out = decrypt_aes_siv(&blob, "k");
    assert_eq!(out.len() + 32, blob.len());
}
