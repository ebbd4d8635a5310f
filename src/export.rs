//! Encrypted backups of an owner's data: the JSON document is encrypted,
//! carried as base64, and checked on import against the MD5 digest of the
//! plaintext.
use vstd::prelude::*;

use base64::Engine;

use crate::crypto::EncryptionManager;
use crate::error::DirSoulError;
use crate::crypto::token_bytes;
use crate::input::{base64_len, encode_base64};
use vstd::string::StringSliceAdditionalSpecFns;

verus! {

/// The lowercase hex MD5 digest of a text's UTF-8 bytes.
pub uninterp spec fn md5_text(text: Seq<char>) -> Seq<char>;

/// What the standard base64 decoding of a text gives: its bytes, or
/// nothing for text that is not valid padded base64.
pub uninterp spec fn base64_decoded(text: Seq<char>) -> Option<Seq<u8>>;

/// Relies on md5's `compute` and its `LowerHex` form: the digest of the
/// text's bytes as 32 lowercase hex digits, a function of the text alone.
#[verifier::external_body]
fn md5_hex(text: &str) -> (r: String)
    ensures
        r@ == md5_text(text@),
        r@.len() == 32,
{
    format!("{:x}", md5::compute(text.as_bytes()))
}

/// Relies on base64's standard engine `decode`: the bytes, or an error for
/// text that is not valid padded base64.
#[verifier::external_body]
pub(crate) fn decode_base64(text: &str) -> (r: Option<Vec<u8>>)
    ensures
        r is None <==> base64_decoded(text@) is None,
        r is Some ==> r->Some_0@ == base64_decoded(text@)->Some_0,
{
    base64::engine::general_purpose::STANDARD.decode(text).ok()
}

/// A backup whose contents are encrypted.
#[derive(Debug, Clone)]
pub struct EncryptedDataExport {
    pub user_id: String,
    pub exported_at: i64,
    pub version: String,
    /// The encrypted document, base64-encoded.
    pub encrypted_data: String,
    /// MD5 of the plaintext document.
    pub checksum: String,
}

/// Encrypts the JSON document `json` of an owner's data into a backup.
pub fn seal_export(user_id: String, json: &str, exported_at: i64, key: &EncryptionManager) -> (r: EncryptedDataExport)
    ensures
        r.user_id == user_id,
        r.exported_at == exported_at,
        r.checksum@ == md5_text(json@),
        r.version@ == "1.0"@,
        r.encrypted_data@.len() == base64_len(base64_len(token_bytes(json.spec_bytes().len() as int))),
{
    let sealed = key.encrypt(json.as_bytes());
    EncryptedDataExport {
        user_id,
        exported_at,
        version: "1.0".to_string(),
        encrypted_data: encode_base64(sealed.as_slice()),
        checksum: md5_hex(json),
    }
}

/// The JSON document of a backup. Data that is not base64, does not
/// decrypt, is not UTF-8, or whose digest differs from the recorded
/// checksum is refused with an encryption error.
pub fn open_export(export: &EncryptedDataExport, key: &EncryptionManager) -> (r: Result<String, DirSoulError>)
    ensures
        r is Ok ==> md5_text(r->Ok_0@) == export.checksum@,
        base64_decoded(export.encrypted_data@) is None ==> r is Err,
        base64_decoded(export.encrypted_data@) is Some
            && base64_decoded(export.encrypted_data@)->Some_0.len() < crate::crypto::FERNET_MIN_SIZE ==> r is Err,
        r is Err ==> r->Err_0 is Encryption,
{
    let bytes = match decode_base64(export.encrypted_data.as_str()) {
        Some(b) => b,
        None => {
            return Err(DirSoulError::Encryption("backup is not valid base64".to_string()));
        },
    };
    let plain = match key.decrypt(bytes.as_slice()) {
        Ok(p) => p,
        Err(e) => {
            return Err(e);
        },
    };
    let text = match crate::crypto::utf8_string(plain) {
        Some(t) => t,
        None => {
            return Err(DirSoulError::Encryption("backup is not UTF-8".to_string()));
        },
    };
    check_backup(text, &export.checksum)
}

/// Accepts a decrypted backup document only when its digest is the
/// recorded checksum; otherwise an encryption error.
pub fn check_backup(plain: String, checksum: &String) -> (r: Result<String, DirSoulError>)
    ensures
        r is Ok <==> md5_text(plain@) == checksum@,
        r is Ok ==> r->Ok_0 == plain,
        r is Err ==> r->Err_0 is Encryption,
{
    let digest = md5_hex(plain.as_str());
    if digest != *checksum {
        return Err(DirSoulError::Encryption("checksum verification failed".to_string()));
    }
    Ok(plain)
}

} // verus!
