use vstd::prelude::*;

use magic_crypt::{MagicCrypt256, MagicCryptTrait};

verus! {

#[verifier::external_type_specification]
#[verifier::external_body]
pub struct ExMagicCryptError(magic_crypt::MagicCryptError);

/// The envelope that AES-256 encryption under `key` makes of `plain`.
pub uninterp spec fn encrypted(key: Seq<char>, plain: Seq<char>) -> Seq<char>;

/// The text that an envelope decrypts to under `key`, if it is well formed for that key.
pub uninterp spec fn decrypted(key: Seq<char>, envelope: Seq<char>) -> Option<Seq<char>>;

/// A character of the standard base64 alphabet, or the padding `=`.
pub open spec fn is_base64_char(c: char) -> bool {
    ('A' <= c && c <= 'Z') || ('a' <= c && c <= 'z') || ('0' <= c && c <= '9') || c == '+' || c
        == '/' || c == '='
}

/// Padded standard base64 text: characters of its alphabet, in groups of four.
pub open spec fn is_base64_text(s: Seq<char>) -> bool {
    &&& s.len() % 4 == 0
    &&& forall|i: int| 0 <= i < s.len() ==> is_base64_char(#[trigger] s[i])
}

/// An envelope that is not well formed, or not for the key it was decrypted with.
#[derive(Debug, Clone, Copy, PartialEq, Eq)]
pub struct DecodeError;

/// Relies on magic_crypt's `MagicCrypt256::new` (SHA-256 of the key, zero IV) and
/// `encrypt_str_to_base64` (AES-256-CBC with PKCS7 padding, then base64's padded
/// `STANDARD` engine): the envelope depends on the key and the text alone, is padded
/// standard base64, and decrypting it with the same key gives the text back.
#[verifier::external_body]
fn aes256_encrypt(key: &str, plain: &str) -> (r: String)
    ensures
        r@ == encrypted(key@, plain@),
        decrypted(key@, r@) == Some(plain@),
        is_base64_text(r@),
{
    MagicCrypt256::new(key, None::<String>).encrypt_str_to_base64(plain)
}

/// Relies on magic_crypt's `MagicCrypt256::new` and `decrypt_base64_to_string`:
/// base64 decoding, AES-256-CBC decryption, padding removal and UTF-8 decoding,
/// failing if any of them fails.
#[verifier::external_body]
fn aes256_decrypt(key: &str, envelope: &str) -> (r: Result<String, magic_crypt::MagicCryptError>)
    ensures
        match r {
            Ok(p) => decrypted(key@, envelope@) == Some(p@),
            Err(_) => decrypted(key@, envelope@) is None,
        },
{
    MagicCrypt256::new(key, None::<String>).decrypt_base64_to_string(envelope)
}

/// Encrypts `value` under `key` into a base64 envelope; the envelope decrypts back
/// to `value` under the same key.
pub fn encrypt_base64_string(key: &str, value: &str) -> (r: String)
    ensures
        r@ == encrypted(key@, value@),
        decrypted(key@, r@) == Some(value@),
        is_base64_text(r@),
{
    aes256_encrypt(key, value)
}

/// Decrypts a base64 envelope made under `key`.
pub fn decrypt_base64_string(key: &str, value: &str) -> (r: Result<String, DecodeError>)
    ensures
        match r {
            Ok(p) => decrypted(key@, value@) == Some(p@),
            Err(_) => decrypted(key@, value@) is None,
        },
{
    match aes256_decrypt(key, value) {
        Ok(p) => Ok(p),
        Err(_) => Err(DecodeError),
    }
}

} // verus!
