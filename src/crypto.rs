//! The crypto box: symmetric at-rest encryption with Fernet tokens, and a
//! buffer for sensitive bytes.
use vstd::prelude::*;

use fernet::Fernet;

use crate::error::DirSoulError;
use crate::input::base64_len;
use vstd::string::StringSliceAdditionalSpecFns;

verus! {

/// Name of the key file under the install's data directory.
pub const DEFAULT_KEY_FILE: &'static str = ".encryption_key";

/// Shortest ciphertext worth trying to decrypt, in bytes.
pub const FERNET_MIN_SIZE: usize = 32;

#[verifier::external_type_specification]
#[verifier::external_body]
pub struct ExFernet(Fernet);

#[verifier::external_type_specification]
#[verifier::external_body]
pub struct ExDecryptionError(fernet::DecryptionError);

/// Whether `Fernet::new` accepts a key: 32 bytes in url-safe base64. It
/// depends on the key alone.
pub uninterp spec fn fernet_key_valid(key: Seq<char>) -> bool;

/// Relies on fernet's `Fernet::generate_key`: a fresh random key, 32 bytes
/// in url-safe base64, which `Fernet::new` accepts.
#[verifier::external_body]
fn generate_key() -> (r: String)
    ensures
        fernet_key_valid(r@),
{
    Fernet::generate_key()
}

/// Relies on fernet's `Fernet::new`: `None` when the key is not 32 bytes of
/// url-safe base64.
#[verifier::external_body]
fn fernet_from_key(key: &str) -> (r: Option<Fernet>)
    ensures
        r is Some <==> fernet_key_valid(key@),
{
    Fernet::new(key)
}

/// The byte length of a Fernet token for `n` bytes of plaintext: version,
/// timestamp, IV and MAC take 57 bytes, and PKCS#7 pads the ciphertext to the
/// next whole block of 16.
pub open spec fn token_bytes(n: int) -> int {
    57 + 16 * (n / 16 + 1)
}

/// Relies on fernet's `Fernet::encrypt`: a token under a fresh random IV and
/// the current time, laid out as version, timestamp, IV, padded ciphertext
/// and MAC, then written in padded url-safe base64, which is ASCII.
#[verifier::external_body]
fn fernet_encrypt(f: &Fernet, data: &[u8]) -> (r: String)
    ensures
        r@.len() == base64_len(token_bytes(data@.len() as int)),
        vstd::utf8::is_ascii_chars(r@),
{
    f.encrypt(data)
}

/// Relies on fernet's `Fernet::decrypt`: the plaintext, or an error for a
/// token that is malformed, tampered with, under another key, or dated too
/// far ahead of the clock.
#[verifier::external_body]
fn fernet_decrypt(f: &Fernet, token: &str) -> (r: Result<Vec<u8>, fernet::DecryptionError>)
{
    f.decrypt(token)
}

/// Relies on std's `String::from_utf8`: the bytes as text, or an error when
/// they are not UTF-8.
#[verifier::external_body]
pub(crate) fn utf8_string(bytes: Vec<u8>) -> (r: Option<String>)
    ensures
        r is Some <==> vstd::utf8::valid_utf8(bytes@),
        r is Some ==> r->Some_0@ == vstd::utf8::decode_utf8(bytes@),
{
    String::from_utf8(bytes).ok()
}

/// Relies on std's `str::from_utf8`: the bytes as text, or an error when
/// they are not UTF-8.
#[verifier::external_body]
fn utf8_str(bytes: &[u8]) -> (r: Option<&str>)
    ensures
        r is Some <==> vstd::utf8::valid_utf8(bytes@),
        r is Some ==> r->Some_0@ == vstd::utf8::decode_utf8(bytes@),
{
    std::str::from_utf8(bytes).ok()
}

/// Relies on std's `String::into_bytes`: the UTF-8 bytes of the text, one
/// byte for each ASCII character.
#[verifier::external_body]
fn string_bytes(s: String) -> (r: Vec<u8>)
    ensures
        vstd::utf8::is_ascii_chars(s@) ==> r@.len() == s@.len(),
{
    s.into_bytes()
}

/// Encrypts and decrypts with one symmetric key.
pub struct EncryptionManager {
    fernet: Fernet,
}

impl EncryptionManager {
    /// A manager for an encoded key, as read from the key file. A key that is
    /// not 32 bytes of url-safe base64 is refused.
    pub fn from_key(key: &str) -> (r: Result<EncryptionManager, DirSoulError>)
        ensures
            r is Ok <==> fernet_key_valid(key@),
            r is Err ==> r->Err_0 is Encryption,
    {
        match fernet_from_key(key) {
            Some(fernet) => Ok(EncryptionManager { fernet }),
            None => Err(DirSoulError::Encryption("invalid key".to_string())),
        }
    }

    /// A fresh key, to be written to the key file, and its manager.
    pub fn generate() -> (r: Result<(String, EncryptionManager), DirSoulError>)
        ensures
            r is Ok,
            fernet_key_valid(r->Ok_0.0@),
    {
        let key = generate_key();
        match EncryptionManager::from_key(key.as_str()) {
            Ok(m) => Ok((key, m)),
            Err(e) => Err(e),
        }
    }

    /// Encrypts bytes into the bytes of a token.
    pub fn encrypt(&self, data: &[u8]) -> (r: Vec<u8>)
        ensures
            r@.len() == base64_len(token_bytes(data@.len() as int)),
    {
        string_bytes(fernet_encrypt(&self.fernet, data))
    }

    /// Decrypts the bytes of a token. Input shorter than 32 bytes, input
    /// that is not UTF-8, and tokens that do not decrypt are refused.
    pub fn decrypt(&self, encrypted: &[u8]) -> (r: Result<Vec<u8>, DirSoulError>)
        ensures
            encrypted@.len() < FERNET_MIN_SIZE ==> r is Err,
            !vstd::utf8::valid_utf8(encrypted@) ==> r is Err,
            r is Err ==> r->Err_0 is Encryption,
    {
        if encrypted.len() < FERNET_MIN_SIZE {
            return Err(DirSoulError::Encryption("encrypted data too short".to_string()));
        }
        let token = match utf8_str(encrypted) {
            Some(t) => t,
            None => {
                return Err(DirSoulError::Encryption("token is not UTF-8".to_string()));
            },
        };
        match fernet_decrypt(&self.fernet, token) {
            Ok(p) => Ok(p),
            Err(_) => Err(DirSoulError::Encryption("decryption failed".to_string())),
        }
    }

    /// Encrypts text into a token.
    pub fn encrypt_string(&self, text: &str) -> (r: String)
        ensures
            r@.len() == base64_len(token_bytes(text.spec_bytes().len() as int)),
    {
        fernet_encrypt(&self.fernet, text.as_bytes())
    }

    /// Decrypts a token into text; tokens that do not decrypt, or whose
    /// plaintext is not UTF-8, are refused.
    pub fn decrypt_string(&self, encrypted: &str) -> (r: Result<String, DirSoulError>)
        ensures
            r is Err ==> r->Err_0 is Encryption,
    {
        match fernet_decrypt(&self.fernet, encrypted) {
            Ok(p) => match utf8_string(p) {
                Some(s) => Ok(s),
                None => Err(DirSoulError::Encryption("plaintext is not UTF-8".to_string())),
            },
            Err(_) => Err(DirSoulError::Encryption("decryption failed".to_string())),
        }
    }
}

/// Sensitive bytes, held for as long as they are needed.
pub struct SecureBuffer {
    data: Vec<u8>,
}

impl SecureBuffer {
    pub closed spec fn spec_data(&self) -> Seq<u8> {
        self.data@
    }

    pub fn new(data: Vec<u8>) -> (r: SecureBuffer)
        ensures
            r.spec_data() == data@,
    {
        SecureBuffer { data }
    }

    pub fn as_slice(&self) -> (r: &[u8])
        ensures
            r@ == self.spec_data(),
    {
        self.data.as_slice()
    }

    pub fn len(&self) -> (r: usize)
        ensures
            r == self.spec_data().len(),
    {
        self.data.len()
    }

    pub fn is_empty(&self) -> (r: bool)
        ensures
            r == (self.spec_data().len() == 0),
    {
        self.data.len() == 0
    }
}


/// Relies on zeroize's `Zeroize` for `Vec<u8>`: the bytes are overwritten
/// with zeros in a way the compiler keeps, and the vector emptied.
#[verifier::external_body]
fn wipe(data: &mut Vec<u8>)
    ensures
        final(data)@.len() == 0,
    opens_invariants none
    no_unwind
{
    zeroize::Zeroize::zeroize(data)
}

impl SecureBuffer {
    /// Overwrites the bytes with zeros and empties the buffer.
    pub fn clear(&mut self)
        ensures
            final(self).spec_data().len() == 0,
    {
        wipe(&mut self.data);
    }
}

impl Drop for SecureBuffer {
    fn drop(&mut self)
        opens_invariants none
        no_unwind
    {
        wipe(&mut self.data);
    }
}

} // verus!
