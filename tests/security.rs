use sustenet::security::{
    base64_decode, base64_encode, decrypt, encrypt, encrypt_with_nonce, generate_key,
    generate_passphrase, key_from_bytes, passphrase_from_bytes, KeyError, KeyStore, PASSWORD_LEN,
};

#[test]
fn test_key_gen_encode_and_decode() {
    let key = generate_key().unwrap();
    let keyb64 = base64_encode(key.as_slice());
    let key2 = base64_decode(&keyb64).unwrap();
    assert_ne!(key.as_slice(), keyb64.as_bytes());
    assert_eq!(key.as_slice(), key2)
}

#[test]
fn test_encrypt_and_decrypt() {
    let key = generate_key().unwrap();
    let data = b"Hello, World!";
    let encrypted_data = encrypt(data, &key).unwrap();
    let decrypted_data = decrypt(encrypted_data.as_slice(), &key).unwrap();
    assert_ne!(data, encrypted_data.as_slice());
    assert_eq!(data, decrypted_data.as_slice());
}

#[test]
fn base64_is_url_safe_without_padding() {
    assert_eq!(base64_encode(b"hello"), "aGVsbG8");
    assert_eq!(base64_encode(&[0xfb, 0xff]), "-_8");
    assert_eq!(base64_decode("aGVsbG8"), Some(b"hello".to_vec()));
    assert_eq!(base64_decode("not base64!"), None);
}

#[test]
fn decrypt_with_another_key_fails() {
    let key = [0xAAu8; 32];
    let other = [0xBBu8; 32];
    let sealed = encrypt(b"passphrase", &key).unwrap();
    assert_eq!(sealed.len(), 12 + 10 + 16);
    assert_eq!(decrypt(&sealed, &other), None);
    assert_eq!(decrypt(&sealed, &key), Some(b"passphrase".to_vec()));
}

#[test]
fn decrypt_of_short_or_tampered_data_fails() {
    let key = [7u8; 32];
    assert_eq!(decrypt(&[1, 2, 3], &key), None);
    let mut sealed = encrypt_with_nonce(b"abc", &key, &[9u8; 12]).unwrap();
    assert_eq!(&sealed[..12], &[9u8; 12]);
    let last = sealed.len() - 1;
    sealed[last] ^= 1;
    assert_eq!(decrypt(&sealed, &key), None);
}

#[test]
fn passphrase_characters_come_from_the_alphabet() {
    assert_eq!(passphrase_from_bytes(&[0, 25, 26, 51, 52, 61, 62, 72, 73, 218, 219, 255]), b"AZaz09)~A~".to_vec());
    let p = generate_passphrase().unwrap();
    assert_eq!(p.len(), PASSWORD_LEN);
    let alphabet = b"ABCDEFGHIJKLMNOPQRSTUVWXYZabcdefghijklmnopqrstuvwxyz0123456789)(*&^%$#@!~";
    assert!(p.iter().all(|c| alphabet.contains(c)));
}

#[test]
fn key_files_must_hold_32_bytes() {
    assert_eq!(key_from_bytes(&[]), Err(KeyError::Empty));
    assert_eq!(key_from_bytes(&[1u8; 31]), Err(KeyError::WrongLength));
    assert_eq!(key_from_bytes(&[1u8; 33]), Err(KeyError::WrongLength));
    assert_eq!(key_from_bytes(&[0xAAu8; 32]), Ok([0xAAu8; 32]));
}

#[test]
fn key_store_looks_up_by_name() {
    let mut keys = KeyStore::new();
    assert_eq!(keys.len(), 0);
    keys.insert("cluster_key".to_string(), [0xAA; 32]);
    keys.insert("other".to_string(), [1; 32]);
    assert_eq!(keys.get("cluster_key"), Some([0xAA; 32]));
    assert_eq!(keys.get("absent"), None);
    keys.insert("cluster_key".to_string(), [2; 32]);
    assert_eq!(keys.get("cluster_key"), Some([2; 32]));
    assert_eq!(keys.len(), 2);
}
