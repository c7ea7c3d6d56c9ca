//! The cryptographic and random primitives the library rests on.
//!
//! Each function here is a thin call into an outside crate whose contract
//! Verus takes on trust; the doc comment above each says what is claimed.
//! Where a few lines state the result (Base58, hexadecimal), the contract
//! states it; where the result is a function of the arguments alone but
//! takes pages to state (SHA-256, Ed25519, Argon2, AES-GCM), it is given a
//! name, a spec function without a body; results that depend on chance or
//! on the clock are left free.

use vstd::prelude::*;
use aes_gcm::aead::{Aead, KeyInit};
use ed25519_dalek::{Signer, Verifier};
use sha2::Digest;
use crate::base58::{bs58_decoding, bs58_encoding};

verus! {

/// The SHA-256 digest of `data`.
pub uninterp spec fn sha256_digest(data: Seq<u8>) -> Seq<u8>;

/// `sha2::Sha256::digest`: the result is the named digest of the input.
#[verifier::external_body]
pub(crate) fn sha256(data: &[u8]) -> (res: [u8; 32])
    ensures
        res@ == sha256_digest(data@),
{
    sha2::Sha256::digest(data).into()
}

/// `bs58::encode(..).into_string()` (Bitcoin alphabet): a `1` for each
/// leading zero byte, then the base-58 digits of the number the bytes stand
/// for (see `bs58_encoding`).
#[verifier::external_body]
pub(crate) fn bs58_encode(bytes: &[u8]) -> (res: String)
    ensures
        res@ == bs58_encoding(bytes@),
{
    bs58::encode(bytes).into_string()
}

/// `bs58::decode(..).into_vec()` (Bitcoin alphabet): `None` for text with a
/// character outside the alphabet, else a zero byte for each leading `1`,
/// then the bytes of the number the text stands for (see `bs58_decoding`).
#[verifier::external_body]
pub(crate) fn bs58_decode(text: &str) -> (res: Option<Vec<u8>>)
    ensures
        match res {
            Some(v) => bs58_decoding(text@) == Some(v@),
            None => bs58_decoding(text@) is None,
        },
{
    bs58::decode(text).into_vec().ok()
}

/// The Ed25519 public key (compressed point) of a 32-byte secret key.
pub uninterp spec fn ed25519_public_key(secret: Seq<u8>) -> Seq<u8>;

/// The Ed25519 signature (RFC 8032, deterministic) of `message` under `secret`.
pub uninterp spec fn ed25519_signature(secret: Seq<u8>, message: Seq<u8>) -> Seq<u8>;

/// Whether `public_key` decompresses to a curve point and `signature` is a
/// valid Ed25519 signature of `message` under it.
pub uninterp spec fn ed25519_accepts(public_key: Seq<u8>, message: Seq<u8>, signature: Seq<u8>) -> bool;

/// `SigningKey::from_bytes(secret).verifying_key().to_bytes()`.
#[verifier::external_body]
pub(crate) fn ed25519_derive_public_key(secret: &[u8; 32]) -> (res: [u8; 32])
    ensures
        res@ == ed25519_public_key(secret@),
{
    ed25519_dalek::SigningKey::from_bytes(secret).verifying_key().to_bytes()
}

/// `SigningKey::from_bytes(secret).sign(message).to_bytes()`: the named
/// signature, 64 bytes long, which the key's own public key accepts for the
/// same message (the correctness of Ed25519 signing that the crate
/// documents).
#[verifier::external_body]
pub(crate) fn ed25519_sign(secret: &[u8; 32], message: &[u8]) -> (res: Vec<u8>)
    ensures
        res@ == ed25519_signature(secret@, message@),
        res@.len() == 64,
        ed25519_accepts(ed25519_public_key(secret@), message@, res@),
{
    ed25519_dalek::SigningKey::from_bytes(secret).sign(message).to_bytes().to_vec()
}

/// `VerifyingKey::from_bytes(public_key)` then `verify(message, signature)`:
/// `false` when the key does not decompress, else whether `verify` is `Ok`.
#[verifier::external_body]
pub(crate) fn ed25519_verify(public_key: &[u8], message: &[u8], signature: &[u8]) -> (res: bool)
    requires
        public_key@.len() == 32,
        signature@.len() == 64,
    ensures
        res == ed25519_accepts(public_key@, message@, signature@),
{
    let key_bytes: [u8; 32] = public_key.try_into().unwrap();
    let sig_bytes: [u8; 64] = signature.try_into().unwrap();
    match ed25519_dalek::VerifyingKey::from_bytes(&key_bytes) {
        Ok(key) => key.verify(message, &ed25519_dalek::Signature::from_bytes(&sig_bytes)).is_ok(),
        Err(_) => false,
    }
}

/// `SigningKey::generate(&mut OsRng).to_bytes()`: a fresh secret key drawn
/// from the operating system; nothing is claimed of its value.
#[verifier::external_body]
pub(crate) fn ed25519_generate_secret() -> (res: [u8; 32]) {
    ed25519_dalek::SigningKey::generate(&mut rand::rngs::OsRng).to_bytes()
}

/// The 32-byte key that Argon2id with the crate's default parameters derives
/// from `password` and `salt`.
pub uninterp spec fn argon2_key(password: Seq<u8>, salt: Seq<u8>) -> Seq<u8>;

/// `Argon2::default().hash_password_into(password, salt, &mut [0u8; 32])`:
/// with the default parameters and a 32-byte output the crate fails only on
/// a password longer than `0xFFFF_FFFF` bytes or a salt shorter than 8 or
/// longer than `0xFFFF_FFFF` bytes; otherwise the result is the named key.
#[verifier::external_body]
pub(crate) fn argon2_derive_key(password: &[u8], salt: &[u8]) -> (res: Option<[u8; 32]>)
    ensures
        res is Some <==> (password@.len() <= 0xFFFF_FFFF && 8 <= salt@.len() <= 0xFFFF_FFFF),
        res matches Some(k) ==> k@ == argon2_key(password@, salt@),
{
    let mut out = [0u8; 32];
    match argon2::Argon2::default().hash_password_into(password, salt, &mut out) {
        Ok(()) => Some(out),
        Err(_) => None,
    }
}

/// The AES-256-GCM ciphertext (tag appended) of `plaintext`, with no
/// associated data.
pub uninterp spec fn aes_gcm_seal(key: Seq<u8>, nonce: Seq<u8>, plaintext: Seq<u8>) -> Seq<u8>;

/// What AES-256-GCM decryption with no associated data gives for
/// `ciphertext`: `None` when the tag does not authenticate it.
pub uninterp spec fn aes_gcm_open(key: Seq<u8>, nonce: Seq<u8>, ciphertext: Seq<u8>) -> Option<Seq<u8>>;

/// `Aes256Gcm::new(key).encrypt(nonce, plaintext)`: fails only on a
/// plaintext longer than 2^36 bytes; otherwise the named ciphertext, 16
/// bytes longer than the plaintext.
#[verifier::external_body]
pub(crate) fn aes_gcm_encrypt(key: &[u8; 32], nonce: &[u8; 12], plaintext: &[u8]) -> (res: Option<Vec<u8>>)
    ensures
        res is Some <==> plaintext@.len() <= 0x10_0000_0000,
        res matches Some(c) ==> c@ == aes_gcm_seal(key@, nonce@, plaintext@),
        res matches Some(c) ==> c@.len() == plaintext@.len() + 16,
{
    let cipher = aes_gcm::Aes256Gcm::new(aes_gcm::Key::<aes_gcm::Aes256Gcm>::from_slice(key));
    cipher.encrypt(aes_gcm::Nonce::from_slice(nonce), plaintext).ok()
}

/// `Aes256Gcm::new(key).decrypt(nonce, ciphertext)`: `Some` with the named
/// plaintext, or `None` where the crate reports an error. A ciphertext that
/// encryption under the same key and nonce produced decrypts to its
/// plaintext (the AEAD round trip).
#[verifier::external_body]
pub(crate) fn aes_gcm_decrypt(key: &[u8; 32], nonce: &[u8], ciphertext: &[u8]) -> (res: Option<Vec<u8>>)
    requires
        nonce@.len() == 12,
    ensures
        match res {
            Some(p) => aes_gcm_open(key@, nonce@, ciphertext@) == Some(p@),
            None => aes_gcm_open(key@, nonce@, ciphertext@) is None,
        },
        forall|p: Seq<u8>|
            #![trigger aes_gcm_seal(key@, nonce@, p)]
            (p.len() <= 0x10_0000_0000 && ciphertext@ == aes_gcm_seal(key@, nonce@, p)) ==> (res is Some
                && res.unwrap()@ == p),
{
    let cipher = aes_gcm::Aes256Gcm::new(aes_gcm::Key::<aes_gcm::Aes256Gcm>::from_slice(key));
    cipher.decrypt(aes_gcm::Nonce::from_slice(nonce), ciphertext).ok()
}

/// `hex::encode`: two lower-case hexadecimal digits per byte.
#[verifier::external_body]
pub(crate) fn hex_encode(bytes: &[u8]) -> (res: String)
    ensures
        res@ == crate::text::lower_hex(bytes@),
{
    hex::encode(bytes)
}

/// `rand::random::<[u8; 16]>()`: nothing is claimed of the value.
#[verifier::external_body]
pub(crate) fn random_salt() -> (res: [u8; 16]) {
    rand::random::<[u8; 16]>()
}

/// `rand::random::<[u8; 12]>()`: nothing is claimed of the value.
#[verifier::external_body]
pub(crate) fn random_nonce() -> (res: [u8; 12]) {
    rand::random::<[u8; 12]>()
}

/// `rand::random::<u64>()`: nothing is claimed of the value.
#[verifier::external_body]
pub(crate) fn random_seed() -> (res: u64) {
    rand::random::<u64>()
}

/// `chrono::Utc::now().timestamp()`: the clock's reading in seconds since
/// the Unix epoch; nothing is claimed of the value.
#[verifier::external_body]
pub(crate) fn current_timestamp() -> (res: i64) {
    chrono::Utc::now().timestamp()
}

} // verus!
