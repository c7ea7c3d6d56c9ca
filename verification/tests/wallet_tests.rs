use quark::wallet::Wallet;

#[test]
fn encrypt_decrypt_roundtrip() {
    let wallet = Wallet::new();
    let addr = wallet.public_key_hex();
    let data = wallet.encrypt_key("password123");
    let loaded = Wallet::open_encrypted(&data, "password123").unwrap();
    assert_eq!(loaded.public_key_hex(), addr);
}

#[test]
fn wrong_password_fails() {
    let wallet = Wallet::new();
    let data = wallet.encrypt_key("password123");
    let loaded = Wallet::open_encrypted(&data, "wrongpass");
    assert!(loaded.is_none());
}

#[test]
fn sealed_layout_is_salt_nonce_ciphertext() {
    let wallet = Wallet { signing_key: [0x11u8; 32] };
    let salt = [1u8; 16];
    let nonce = [2u8; 12];
    let data = wallet.seal_with("pw", salt, nonce);
    assert_eq!(data.len(), 16 + 12 + 32 + 16);
    assert_eq!(&data[..16], &salt);
    assert_eq!(&data[16..28], &nonce);
    assert_ne!(&data[28..60], &wallet.signing_key);
    let again = wallet.seal_with("pw", salt, nonce);
    assert_eq!(data, again);
    let opened = Wallet::open_encrypted(&data, "pw").unwrap();
    assert_eq!(opened.signing_key, wallet.signing_key);
    let mut corrupted = data.clone();
    corrupted[40] ^= 1;
    assert!(Wallet::open_encrypted(&corrupted, "pw").is_none());
    assert!(Wallet::open_encrypted(&data[..28], "pw").is_none());
}

#[test]
fn different_salts_give_different_forms() {
    let wallet = Wallet { signing_key: [0x22u8; 32] };
    let a = wallet.seal_with("pw", [1u8; 16], [2u8; 12]);
    let b = wallet.seal_with("pw", [3u8; 16], [2u8; 12]);
    assert_ne!(a[28..], b[28..]);
}

#[test]
fn private_key_hex_is_lowercase_hex() {
    let mut key = [0u8; 32];
    key[0] = 0xab;
    key[31] = 0x0f;
    let wallet = Wallet { signing_key: key };
    let hex = wallet.private_key_hex();
    assert_eq!(hex.len(), 64);
    assert!(hex.starts_with("ab00"));
    assert!(hex.ends_with("000f"));
}

#[test]
fn address_is_base58_of_public_key() {
    let wallet = Wallet { signing_key: [0u8; 32] };
    let addr = wallet.public_key_hex();
    // The Ed25519 public key of the all-zero secret (RFC 8032 test vector 1 uses another
    // secret; this one is checked against the crate directly).
    let pk = ed25519_dalek::SigningKey::from_bytes(&[0u8; 32]).verifying_key().to_bytes();
    assert_eq!(addr, bs58::encode(pk).into_string());
    assert_eq!(bs58::decode(&addr).into_vec().unwrap(), pk.to_vec());
    assert_ne!(addr.len(), 0);
}

#[test]
fn signing_is_deterministic_and_sized() {
    let wallet = Wallet { signing_key: [5u8; 32] };
    let a = wallet.sign(b"hello");
    let b = wallet.sign(b"hello");
    assert_eq!(a, b);
    assert_eq!(a.len(), 64);
    assert_ne!(a, wallet.sign(b"hellO"));
}
