//! Wallets: an Ed25519 secret key, its Base58 address, signing, and the
//! password-protected encrypted form in which a wallet is stored.

use vstd::prelude::*;
use crate::crypto::{
    aes_gcm_decrypt, aes_gcm_encrypt, aes_gcm_seal, aes_gcm_open, argon2_derive_key, argon2_key,
    bs58_encode, ed25519_accepts, ed25519_derive_public_key, ed25519_generate_secret,
    ed25519_public_key, ed25519_sign, ed25519_signature, hex_encode, random_nonce, random_salt,
};
use crate::text::{bytes_to_array32, lower_hex};

verus! {

/// A wallet: the 32 bytes of an Ed25519 secret key.
pub struct Wallet {
    pub signing_key: [u8; 32],
}

/// The address of the holder of `secret`: the Base58 text of its public key.
pub open spec fn address_of(secret: Seq<u8>) -> Seq<char> {
    crate::base58::bs58_encoding(ed25519_public_key(secret))
}

/// The length of the salt at the head of an encrypted wallet.
pub const SALT_LEN: usize = 16;

/// The length of the nonce that follows the salt.
pub const NONCE_LEN: usize = 12;

/// Whether a password's UTF-8 bytes are short enough for Argon2.
pub open spec fn password_fits(password: Seq<char>) -> bool {
    vstd::utf8::encode_utf8(password).len() <= 0xFFFF_FFFF
}

/// The encrypted form of `secret` under `password`: the salt, the nonce, then
/// the AES-256-GCM encryption of the secret under the Argon2 key derived from
/// the password and the salt.
pub open spec fn sealed_wallet(secret: Seq<u8>, password: Seq<char>, salt: Seq<u8>, nonce: Seq<u8>) -> Seq<u8> {
    salt + nonce + aes_gcm_seal(argon2_key(vstd::utf8::encode_utf8(password), salt), nonce, secret)
}

/// The secret key that an encrypted wallet `data` holds under `password`:
/// `None` when the password is too long for Argon2, when decryption fails, or
/// when the plaintext is not 32 bytes long.
pub open spec fn opened_secret(data: Seq<u8>, password: Seq<char>) -> Option<Seq<u8>> {
    if !password_fits(password) {
        None
    } else {
        let salt = data.subrange(0, SALT_LEN as int);
        let nonce = data.subrange(SALT_LEN as int, (SALT_LEN + NONCE_LEN) as int);
        let body = data.subrange((SALT_LEN + NONCE_LEN) as int, data.len() as int);
        match aes_gcm_open(argon2_key(vstd::utf8::encode_utf8(password), salt), nonce, body) {
            Some(p) => if p.len() == 32 {
                Some(p)
            } else {
                None
            },
            None => None,
        }
    }
}

impl Wallet {
    /// A wallet with a freshly generated secret key.
    pub fn new() -> (res: Wallet) {
        Wallet { signing_key: ed25519_generate_secret() }
    }

    /// The wallet's address: the Base58 text of its Ed25519 public key.
    /// Decoding it gives the 32-byte public key back.
    pub fn public_key_hex(&self) -> (res: String)
        ensures
            res@ == address_of(self.signing_key@),
            crate::base58::bs58_decoding(res@) == Some(ed25519_public_key(self.signing_key@)),
            ed25519_public_key(self.signing_key@).len() == 32,
    {
        let public_key = ed25519_derive_public_key(&self.signing_key);
        proof {
            crate::base58::lemma_bs58_round_trip(public_key@);
        }
        bs58_encode(&public_key)
    }

    /// The Ed25519 signature of `message` under the wallet's key; the
    /// wallet's public key accepts it.
    pub fn sign(&self, message: &[u8]) -> (res: Vec<u8>)
        ensures
            res@ == ed25519_signature(self.signing_key@, message@),
            res@.len() == 64,
            ed25519_accepts(ed25519_public_key(self.signing_key@), message@, res@),
    {
        ed25519_sign(&self.signing_key, message)
    }

    /// The secret key in lower-case hexadecimal.
    pub fn private_key_hex(&self) -> (res: String)
        ensures
            res@ == lower_hex(self.signing_key@),
    {
        hex_encode(&self.signing_key)
    }

    /// The encrypted form of the wallet under `password`, with the given
    /// salt and nonce.
    pub fn seal_with(&self, password: &str, salt: [u8; 16], nonce: [u8; 12]) -> (res: Vec<u8>)
        requires
            password_fits(password@),
        ensures
            res@ == sealed_wallet(self.signing_key@, password@, salt@, nonce@),
            res@.len() == SALT_LEN + NONCE_LEN + 48,
    {
        let key_opt = argon2_derive_key(password.as_bytes(), &salt);
        let key = key_opt.unwrap();
        let body_opt = aes_gcm_encrypt(&key, &nonce, &self.signing_key);
        let body = body_opt.unwrap();
        let mut data = crate::text::slice_to_vec(&salt);
        let mut i: usize = 0;
        while i < NONCE_LEN
            invariant
                0 <= i <= NONCE_LEN,
                data@ == salt@ + nonce@.take(i as int),
            decreases NONCE_LEN - i,
        {
            data.push(nonce[i]);
            assert(nonce@.take(i + 1) =~= nonce@.take(i as int).push(nonce@[i as int]));
            i = i + 1;
        }
        assert(nonce@.take(12) =~= nonce@);
        let n = body.len();
        let mut j: usize = 0;
        while j < n
            invariant
                n == body@.len(),
                0 <= j <= n,
                data@ == salt@ + nonce@ + body@.take(j as int),
            decreases n - j,
        {
            data.push(body[j]);
            assert(body@.take(j + 1) =~= body@.take(j as int).push(body@[j as int]));
            j = j + 1;
        }
        assert(body@.take(n as int) =~= body@);
        data
    }

    /// The encrypted form of the wallet under `password`, with a fresh random
    /// salt and nonce.
    pub fn encrypt_key(&self, password: &str) -> (res: Vec<u8>)
        requires
            password_fits(password@),
        ensures
            exists|salt: Seq<u8>, nonce: Seq<u8>|
                salt.len() == SALT_LEN && nonce.len() == NONCE_LEN && res@ == sealed_wallet(
                    self.signing_key@,
                    password@,
                    salt,
                    nonce,
                ),
            res@.len() == SALT_LEN + NONCE_LEN + 48,
    {
        let salt = random_salt();
        let nonce = random_nonce();
        let res = self.seal_with(password, salt, nonce);
        assert(salt@.len() == SALT_LEN && nonce@.len() == NONCE_LEN);
        res
    }

    /// The wallet that the encrypted form `data` holds under `password`, or
    /// `None` when the password is too long, decryption fails, or the
    /// plaintext is not a 32-byte key. A form that `seal_with` produced under
    /// the same password gives the sealed wallet back.
    pub fn open_encrypted(data: &[u8], password: &str) -> (res: Option<Wallet>)
        requires
            data@.len() >= SALT_LEN + NONCE_LEN,
        ensures
            match res {
                Some(w) => opened_secret(data@, password@) == Some(w.signing_key@),
                None => opened_secret(data@, password@) is None,
            },
            forall|secret: Seq<u8>, salt: Seq<u8>, nonce: Seq<u8>|
                secret.len() == 32 && salt.len() == SALT_LEN && nonce.len() == NONCE_LEN
                    && password_fits(password@) && data@ == #[trigger] sealed_wallet(
                    secret,
                    password@,
                    salt,
                    nonce,
                ) ==> (res is Some && res.unwrap().signing_key@ == secret),
    {
        let pw = password.as_bytes();
        if pw.len() > 0xFFFF_FFFF {
            return None;
        }
        let salt = slice_range(data, 0, SALT_LEN);
        let nonce = slice_range(data, SALT_LEN, SALT_LEN + NONCE_LEN);
        let body = slice_range(data, SALT_LEN + NONCE_LEN, data.len());
        let key = match argon2_derive_key(pw, salt.as_slice()) {
            Some(k) => k,
            None => return None,
        };
        proof {
            assert forall|secret: Seq<u8>, salt2: Seq<u8>, nonce2: Seq<u8>|
                secret.len() == 32 && salt2.len() == SALT_LEN && nonce2.len() == NONCE_LEN && data@
                    == #[trigger] sealed_wallet(
                    secret,
                    password@,
                    salt2,
                    nonce2,
                ) implies body@ == aes_gcm_seal(key@, nonce@, secret) && salt2 == salt@ by {
                let whole = sealed_wallet(secret, password@, salt2, nonce2);
                assert(whole.subrange(0, 16) =~= salt2);
                assert(whole.subrange(16, 28) =~= nonce2);
                assert(whole.subrange(28, whole.len() as int) =~= aes_gcm_seal(
                    argon2_key(vstd::utf8::encode_utf8(password@), salt2),
                    nonce2,
                    secret,
                ));
            }
        }
        let plain = match aes_gcm_decrypt(&key, nonce.as_slice(), body.as_slice()) {
            Some(p) => p,
            None => return None,
        };
        if plain.len() != 32 {
            return None;
        }
        let signing_key = bytes_to_array32(plain.as_slice());
        Some(Wallet { signing_key })
    }
}

/// The bytes of `data` from `start` up to `end`, copied.
fn slice_range(data: &[u8], start: usize, end: usize) -> (res: Vec<u8>)
    requires
        start <= end <= data@.len(),
    ensures
        res@ == data@.subrange(start as int, end as int),
{
    let mut out: Vec<u8> = Vec::new();
    let mut i: usize = start;
    while i < end
        invariant
            start <= i <= end <= data@.len(),
            out@ == data@.subrange(start as int, i as int),
        decreases end - i,
    {
        out.push(data[i]);
        assert(data@.subrange(start as int, i + 1) =~= data@.subrange(start as int, i as int).push(
            data@[i as int],
        ));
        i = i + 1;
    }
    out
}

} // verus!
