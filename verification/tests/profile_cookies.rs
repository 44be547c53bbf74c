use archetype_browser::profile_cookies::{
    profile_account, CookieCipher, CookieCipherError, COOKIE_KEY_BYTES, COOKIE_NONCE_BYTES,
};
use sha2::Digest;

#[test]
fn encrypts_cookie_values_and_authenticates_ciphertext() {
    let cipher = CookieCipher::from_key([7; COOKIE_KEY_BYTES]);
    let plaintext = br#"{"cookie":"session=plain-secret"}"#;
    let encrypted = cipher.encrypt(plaintext).unwrap();

    assert_eq!(encrypted.nonce.len(), COOKIE_NONCE_BYTES);
    assert!(!encrypted.ciphertext.windows(b"plain-secret".len()).any(|window| window == b"plain-secret"));
    assert_eq!(cipher.decrypt(&encrypted).unwrap(), plaintext);

    let mut tampered = encrypted;
    tampered.ciphertext[0] ^= 1;
    assert!(matches!(cipher.decrypt(&tampered), Err(CookieCipherError::Decrypt)));
}

#[test]
fn stored_keys_must_have_the_key_length() {
    assert!(matches!(CookieCipher::from_stored_key(vec![1; 31]), Err(CookieCipherError::InvalidKey)));
    let cipher = CookieCipher::from_stored_key(vec![1; 32]).unwrap();
    let state = cipher.encrypt(b"x").unwrap();
    assert_eq!(cipher.decrypt(&state).unwrap(), b"x");
}

#[test]
fn a_state_with_a_short_nonce_is_refused() {
    let cipher = CookieCipher::ephemeral().unwrap();
    let mut state = cipher.encrypt(b"value").unwrap();
    state.nonce.pop();
    assert!(matches!(cipher.decrypt(&state), Err(CookieCipherError::InvalidNonce)));
}

#[test]
fn another_key_cannot_decrypt() {
    let first = CookieCipher::from_key([1; COOKIE_KEY_BYTES]);
    let second = CookieCipher::from_key([2; COOKIE_KEY_BYTES]);
    let state = first.encrypt(b"secret").unwrap();
    assert!(matches!(second.decrypt(&state), Err(CookieCipherError::Decrypt)));
}

#[test]
fn a_profile_without_a_key_gets_one_to_store() {
    let (cipher, to_store) = CookieCipher::for_profile(None).unwrap();
    let key = to_store.unwrap();
    assert_eq!(key.len(), COOKIE_KEY_BYTES);
    let (again, nothing) = CookieCipher::for_profile(Some(key)).unwrap();
    assert!(nothing.is_none());
    let state = cipher.encrypt(b"kept").unwrap();
    assert_eq!(again.decrypt(&state).unwrap(), b"kept");
    assert!(matches!(CookieCipher::for_profile(Some(vec![0; 3])), Err(CookieCipherError::InvalidKey)));
}

#[test]
fn profile_accounts_are_hex_sha256_digests() {
    let expected: String = sha2::Sha256::digest(b"/profiles/main.db").iter().map(|b| format!("{b:02x}")).collect();
    assert_eq!(profile_account("/profiles/main.db"), expected);
    assert_eq!(profile_account("/profiles/main.db").len(), 64);
    assert_ne!(profile_account("/profiles/other.db"), expected);
}

#[test]
fn errors_read_as_sentences() {
    assert_eq!(CookieCipherError::Decrypt.describe(), "could not decrypt profile Cookie state");
    assert_eq!(CookieCipherError::KeyAccess("denied".to_owned()).describe(), "could not access profile Cookie key: denied");
}
