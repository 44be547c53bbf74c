//! Encryption of the cookie state that a profile keeps on disk, and the name
//! under which a profile's key is kept.

use chacha20poly1305::aead::{Aead, KeyInit, Payload};
use sha2::Digest;
use vstd::prelude::*;

use crate::random::random_bytes;
use crate::text::push_char;

verus! {

/// Bytes of a profile's cookie key.
pub const COOKIE_KEY_BYTES: usize = 32;

/// Bytes of the nonce stored beside each ciphertext.
pub const COOKIE_NONCE_BYTES: usize = 24;

/// The associated data that binds a ciphertext to its purpose.
pub const COOKIE_STATE_AAD: &'static str = "archetype-cookie-state-v1";

/// The largest message that one XChaCha20-Poly1305 encryption accepts, plus one:
/// the cipher stops below 2^32 - 1 blocks of 64 bytes.
pub const SEALABLE_BYTES: u64 = 274877906880;

/// The associated data as bytes.
pub open spec fn cookie_state_aad() -> Seq<u8> {
    vstd::utf8::encode_utf8(COOKIE_STATE_AAD@)
}

/// What XChaCha20-Poly1305 makes of `message` under `key`, `nonce` and the
/// associated data `aad`.
pub uninterp spec fn spec_xchacha_seal(key: Seq<u8>, nonce: Seq<u8>, message: Seq<u8>, aad: Seq<u8>) -> Seq<u8>;

/// What XChaCha20-Poly1305 recovers from `ciphertext` under `key`, `nonce` and
/// `aad`, or nothing where the tag does not authenticate it.
pub uninterp spec fn spec_xchacha_open(key: Seq<u8>, nonce: Seq<u8>, ciphertext: Seq<u8>, aad: Seq<u8>) -> Option<
    Seq<u8>,
>;

/// The SHA-256 digest of `data`.
pub uninterp spec fn spec_sha256(data: Seq<u8>) -> Seq<u8>;

/// Encrypts with `chacha20poly1305`'s `XChaCha20Poly1305::encrypt`, the key
/// set by `new_from_slice`.
///
/// Claimed: the result is the cipher's function of key, nonce, message and
/// associated data; it is given for every message shorter than
/// [`SEALABLE_BYTES`], the only limit that the crate's source checks. A key
/// of 32 bytes is always accepted.
#[verifier::external_body]
fn xchacha_seal(key: &[u8], nonce: &[u8], message: &[u8], aad: &[u8]) -> (r: Option<Vec<u8>>)
    requires
        key@.len() == COOKIE_KEY_BYTES,
        nonce@.len() == COOKIE_NONCE_BYTES,
    ensures
        message@.len() < SEALABLE_BYTES ==> r is Some,
        r matches Some(ciphertext) ==> ciphertext@ == spec_xchacha_seal(key@, nonce@, message@, aad@),
{
    let cipher = chacha20poly1305::XChaCha20Poly1305::new_from_slice(key).ok()?;
    cipher.encrypt(chacha20poly1305::XNonce::from_slice(nonce), Payload { msg: message, aad }).ok()
}

/// Decrypts with `chacha20poly1305`'s `XChaCha20Poly1305::decrypt`, the key
/// set by `new_from_slice`.
///
/// Claimed: the result is the cipher's function of its arguments, and a
/// ciphertext that encryption made under the same key, nonce and associated
/// data gives its message back (what an authenticated cipher is for).
#[verifier::external_body]
fn xchacha_open(key: &[u8], nonce: &[u8], ciphertext: &[u8], aad: &[u8]) -> (r: Option<Vec<u8>>)
    requires
        key@.len() == COOKIE_KEY_BYTES,
        nonce@.len() == COOKIE_NONCE_BYTES,
    ensures
        r is Some == spec_xchacha_open(key@, nonce@, ciphertext@, aad@) is Some,
        r matches Some(message) ==> spec_xchacha_open(key@, nonce@, ciphertext@, aad@) == Some(message@),
        (exists|message: Seq<u8>|
            message.len() < SEALABLE_BYTES && ciphertext@ == #[trigger] spec_xchacha_seal(key@, nonce@, message, aad@))
            ==> r is Some,
        r matches Some(opened) ==> forall|message: Seq<u8>|
            message.len() < SEALABLE_BYTES && ciphertext@ == #[trigger] spec_xchacha_seal(key@, nonce@, message, aad@)
                ==> opened@ == message,
{
    let cipher = chacha20poly1305::XChaCha20Poly1305::new_from_slice(key).ok()?;
    cipher.decrypt(chacha20poly1305::XNonce::from_slice(nonce), Payload { msg: ciphertext, aad }).ok()
}

/// Calls `sha2::Sha256::digest`. Claimed: the digest is the hash's function of
/// the data and has 32 bytes.
#[verifier::external_body]
fn sha256_digest(data: &[u8]) -> (r: Vec<u8>)
    ensures
        r@ == spec_sha256(data@),
        r@.len() == 32,
{
    sha2::Sha256::digest(data).to_vec()
}

/// Why the cookie state could not be protected or recovered.
#[derive(Clone, Debug, PartialEq, Eq)]
pub enum CookieCipherError {
    KeyAccess(String),
    InvalidKey,
    InvalidNonce,
    Encrypt,
    Decrypt,
    UnsupportedPlatform,
}

/// The sentence that reports an error.
pub open spec fn cipher_error_text(error: CookieCipherError) -> Seq<char> {
    match error {
        CookieCipherError::KeyAccess(m) => "could not access profile Cookie key: "@ + m@,
        CookieCipherError::InvalidKey => "profile Cookie key has an invalid length"@,
        CookieCipherError::InvalidNonce => "encrypted Cookie state has an invalid nonce"@,
        CookieCipherError::Encrypt => "could not encrypt profile Cookie state"@,
        CookieCipherError::Decrypt => "could not decrypt profile Cookie state"@,
        CookieCipherError::UnsupportedPlatform => "persistent Cookie profiles require macOS Keychain"@,
    }
}

impl CookieCipherError {
    /// The sentence that reports this error.
    pub fn describe(&self) -> (r: String)
        ensures
            r@ == cipher_error_text(*self),
    {
        match self {
            CookieCipherError::KeyAccess(m) => {
                let mut text = String::from_str("could not access profile Cookie key: ");
                text.append(m.as_str());
                text
            },
            CookieCipherError::InvalidKey => String::from_str("profile Cookie key has an invalid length"),
            CookieCipherError::InvalidNonce => String::from_str("encrypted Cookie state has an invalid nonce"),
            CookieCipherError::Encrypt => String::from_str("could not encrypt profile Cookie state"),
            CookieCipherError::Decrypt => String::from_str("could not decrypt profile Cookie state"),
            CookieCipherError::UnsupportedPlatform => String::from_str(
                "persistent Cookie profiles require macOS Keychain",
            ),
        }
    }
}

/// Cookie state as the profile store keeps it: the nonce and the ciphertext.
#[derive(Clone, Debug, PartialEq, Eq)]
pub struct EncryptedCookieState {
    pub nonce: Vec<u8>,
    pub ciphertext: Vec<u8>,
}

/// Encrypts and decrypts a profile's cookie state under one key.
#[derive(Debug)]
pub struct CookieCipher {
    key: Vec<u8>,
}

impl CookieCipher {
    /// The key.
    pub closed spec fn key(self) -> Seq<u8> {
        self.key@
    }

    /// The key has [`COOKIE_KEY_BYTES`] bytes.
    pub closed spec fn wf(self) -> bool {
        self.key@.len() == COOKIE_KEY_BYTES
    }

    /// A cipher with the key `key`.
    pub fn from_key(key: [u8; 32]) -> (r: CookieCipher)
        ensures
            r.wf(),
            r.key() == key@,
    {
        CookieCipher { key: vstd::slice::slice_to_vec(key.as_slice()) }
    }

    /// A cipher with a key as stored for a profile: it must have
    /// [`COOKIE_KEY_BYTES`] bytes.
    pub fn from_stored_key(key: Vec<u8>) -> (r: Result<CookieCipher, CookieCipherError>)
        ensures
            key@.len() == COOKIE_KEY_BYTES ==> (r matches Ok(cipher) && cipher.wf() && cipher.key() == key@),
            key@.len() != COOKIE_KEY_BYTES ==> r == Err::<CookieCipher, CookieCipherError>(CookieCipherError::InvalidKey),
    {
        if key.len() != COOKIE_KEY_BYTES {
            return Err(CookieCipherError::InvalidKey);
        }
        Ok(CookieCipher { key })
    }

    /// A fresh random key for a profile that has none yet.
    pub fn fresh_key() -> (r: Result<Vec<u8>, CookieCipherError>)
        ensures
            r matches Ok(key) ==> key@.len() == COOKIE_KEY_BYTES,
            r matches Err(error) ==> error is KeyAccess,
    {
        match random_bytes(COOKIE_KEY_BYTES) {
            Ok(key) => Ok(key),
            Err(message) => Err(CookieCipherError::KeyAccess(message)),
        }
    }

    /// The cipher of a profile, from the key that the profile stores, if any.
    /// A stored key must have [`COOKIE_KEY_BYTES`] bytes; a profile without a
    /// key gets a fresh one, which the caller must store.
    pub fn for_profile(stored: Option<Vec<u8>>) -> (r: Result<(CookieCipher, Option<Vec<u8>>), CookieCipherError>)
        ensures
            stored matches Some(key) ==> (if key@.len() == COOKIE_KEY_BYTES {
                r matches Ok((cipher, to_store)) && cipher.wf() && cipher.key() == key@ && to_store is None
            } else {
                r == Err::<(CookieCipher, Option<Vec<u8>>), CookieCipherError>(CookieCipherError::InvalidKey)
            }),
            stored is None ==> match r {
                Ok((cipher, to_store)) => cipher.wf() && (to_store matches Some(key) && key@ == cipher.key()),
                Err(error) => error is KeyAccess,
            },
    {
        match stored {
            Some(key) => match CookieCipher::from_stored_key(key) {
                Ok(cipher) => Ok((cipher, None)),
                Err(error) => Err(error),
            },
            None => match CookieCipher::fresh_key() {
                Ok(key) => {
                    let to_store = vstd::slice::slice_to_vec(key.as_slice());
                    Ok((CookieCipher { key }, Some(to_store)))
                },
                Err(error) => Err(error),
            },
        }
    }

    /// A cipher with a fresh random key that nothing stores.
    pub fn ephemeral() -> (r: Result<CookieCipher, CookieCipherError>)
        ensures
            r matches Ok(cipher) ==> cipher.wf(),
            r matches Err(error) ==> error is KeyAccess,
    {
        match CookieCipher::fresh_key() {
            Ok(key) => Ok(CookieCipher { key }),
            Err(error) => Err(error),
        }
    }

    /// Encrypts `plaintext` under a fresh random nonce, bound to the cookie
    /// state's associated data.
    pub fn encrypt(&self, plaintext: &[u8]) -> (r: Result<EncryptedCookieState, CookieCipherError>)
        requires
            self.wf(),
        ensures
            r matches Ok(state) ==> state.nonce@.len() == COOKIE_NONCE_BYTES && state.ciphertext@
                == spec_xchacha_seal(self.key(), state.nonce@, plaintext@, cookie_state_aad()),
            r matches Err(error) ==> (error is KeyAccess || (error is Encrypt && plaintext@.len() >= SEALABLE_BYTES)),
    {
        let nonce = match random_bytes(COOKIE_NONCE_BYTES) {
            Ok(nonce) => nonce,
            Err(message) => {
                return Err(CookieCipherError::KeyAccess(message));
            },
        };
        match xchacha_seal(self.key.as_slice(), nonce.as_slice(), plaintext, COOKIE_STATE_AAD.as_bytes()) {
            Some(ciphertext) => Ok(EncryptedCookieState { nonce, ciphertext }),
            None => Err(CookieCipherError::Encrypt),
        }
    }

    /// Decrypts a stored state: its nonce must have [`COOKIE_NONCE_BYTES`]
    /// bytes, and its ciphertext must authenticate under this key. A state that
    /// [`CookieCipher::encrypt`] made with this key gives its plaintext back.
    pub fn decrypt(&self, state: &EncryptedCookieState) -> (r: Result<Vec<u8>, CookieCipherError>)
        requires
            self.wf(),
        ensures
            state.nonce@.len() != COOKIE_NONCE_BYTES ==> r == Err::<Vec<u8>, CookieCipherError>(
                CookieCipherError::InvalidNonce,
            ),
            state.nonce@.len() == COOKIE_NONCE_BYTES ==> match spec_xchacha_open(
                self.key(),
                state.nonce@,
                state.ciphertext@,
                cookie_state_aad(),
            ) {
                Some(message) => r matches Ok(plaintext) && plaintext@ == message,
                None => r == Err::<Vec<u8>, CookieCipherError>(CookieCipherError::Decrypt),
            },
            forall|message: Seq<u8>|
                state.nonce@.len() == COOKIE_NONCE_BYTES && message.len() < SEALABLE_BYTES && state.ciphertext@
                    == #[trigger] spec_xchacha_seal(self.key(), state.nonce@, message, cookie_state_aad()) ==> (r matches Ok(
                    plaintext,
                ) && plaintext@ == message),
    {
        if state.nonce.len() != COOKIE_NONCE_BYTES {
            return Err(CookieCipherError::InvalidNonce);
        }
        match xchacha_open(
            self.key.as_slice(),
            state.nonce.as_slice(),
            state.ciphertext.as_slice(),
            COOKIE_STATE_AAD.as_bytes(),
        ) {
            Some(plaintext) => Ok(plaintext),
            None => Err(CookieCipherError::Decrypt),
        }
    }
}

/// The lower-case hexadecimal digit for `d` below 16.
pub open spec fn hex_char(d: int) -> char {
    if d < 10 {
        (48 + d) as char
    } else {
        (87 + d) as char
    }
}

/// `bytes` written in lower-case hexadecimal, two digits per byte.
pub open spec fn lower_hex(bytes: Seq<u8>) -> Seq<char>
    decreases bytes.len(),
{
    if bytes.len() == 0 {
        Seq::empty()
    } else {
        lower_hex(bytes.drop_last()).push(hex_char((bytes.last() / 16) as int)).push(hex_char((bytes.last() % 16) as int))
    }
}

fn hex_char_of(d: u8) -> (r: char)
    requires
        d < 16,
    ensures
        r == hex_char(d as int),
{
    if d < 10 {
        (48 + d) as char
    } else {
        (87 + d) as char
    }
}

/// The keychain account of a profile: the lower-case hexadecimal SHA-256 digest
/// of the UTF-8 bytes of its path's identity.
pub fn profile_account(identity: &str) -> (r: String)
    ensures
        r@ == lower_hex(spec_sha256(vstd::utf8::encode_utf8(identity@))),
{
    let digest = sha256_digest(identity.as_bytes());
    let mut text = String::new();
    let mut i: usize = 0;
    while i < digest.len()
        invariant
            i <= digest@.len(),
            text@ == lower_hex(digest@.subrange(0, i as int)),
        decreases digest@.len() - i,
    {
        let byte = digest[i];
        push_char(&mut text, hex_char_of(byte / 16));
        push_char(&mut text, hex_char_of(byte % 16));
        proof {
            let prefix = digest@.subrange(0, i + 1);
            assert(prefix.drop_last() =~= digest@.subrange(0, i as int));
            assert(prefix.last() == byte);
        }
        i = i + 1;
    }
    proof {
        assert(digest@.subrange(0, digest@.len() as int) =~= digest@);
    }
    text
}

} // verus!
