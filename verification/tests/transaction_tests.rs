use quark::transaction::{signing_message_bytes, Transaction};
use quark::wallet::Wallet;

#[test]
fn valid_signature_passes() {
    let wallet = Wallet::new();
    let tx = Transaction::new_signed(&wallet, "dest".into(), 100, 1);
    assert!(tx.verify());
}

#[test]
fn tampered_amount_fails() {
    let wallet = Wallet::new();
    let mut tx = Transaction::new_signed(&wallet, "dest".into(), 100, 1);
    tx.amount = 999999;
    assert!(!tx.verify());
}

#[test]
fn wrong_sender_fails() {
    let wallet = Wallet::new();
    let other = Wallet::new();
    let mut tx = Transaction::new_signed(&wallet, "dest".into(), 100, 1);
    tx.from = other.public_key_hex();
    assert!(!tx.verify());
}

#[test]
fn unsigned_or_malformed_fails() {
    let wallet = Wallet { signing_key: [9u8; 32] };
    let tx = Transaction::new_signed(&wallet, "dest".into(), 100, 1);
    let mut unsigned = tx.clone();
    unsigned.signature = None;
    assert!(!unsigned.verify());
    let mut short_sig = tx.clone();
    short_sig.signature = Some(vec![0u8; 63]);
    assert!(!short_sig.verify());
    let mut bad_sender = tx.clone();
    bad_sender.from = "0OIl".into();
    assert!(!bad_sender.verify());
    let mut short_key = tx.clone();
    short_key.from = "2g".into();
    assert!(!short_key.verify());
    let mut tampered_fee = tx.clone();
    tampered_fee.fee = 2;
    assert!(!tampered_fee.verify());
    let mut tampered_to = tx.clone();
    tampered_to.to = "dest2".into();
    assert!(!tampered_to.verify());
    assert!(tx.verify());
}

fn expected_message(from: &str, to: &str, amount: u64, fee: u64) -> Vec<u8> {
    let mut m = Vec::new();
    m.extend_from_slice(&(from.len() as u64).to_le_bytes());
    m.extend_from_slice(from.as_bytes());
    m.extend_from_slice(&(to.len() as u64).to_le_bytes());
    m.extend_from_slice(to.as_bytes());
    m.extend_from_slice(&amount.to_le_bytes());
    m.extend_from_slice(&fee.to_le_bytes());
    m
}

#[test]
fn signing_message_layout() {
    assert_eq!(
        signing_message_bytes("ab", "é", 258, 1),
        vec![
            2, 0, 0, 0, 0, 0, 0, 0, b'a', b'b', 2, 0, 0, 0, 0, 0, 0, 0, 0xc3, 0xa9, 2, 1, 0, 0, 0, 0,
            0, 0, 1, 0, 0, 0, 0, 0, 0, 0
        ]
    );
    assert_eq!(
        signing_message_bytes("x", "dest", u64::MAX, 7),
        expected_message("x", "dest", u64::MAX, 7)
    );
    assert_ne!(
        signing_message_bytes("a", "dest", 12, 3),
        signing_message_bytes("a", "dest", 1, 23)
    );
    assert_ne!(
        signing_message_bytes("ab", "c", 0, 0),
        signing_message_bytes("a", "bc", 0, 0)
    );
}

#[test]
fn signature_binds_amount_and_fee_apart() {
    let wallet = Wallet { signing_key: [14u8; 32] };
    let tx = Transaction::new_signed(&wallet, "dest".into(), 12, 3);
    assert!(tx.verify());
    let mut shifted = tx.clone();
    shifted.amount = 1;
    shifted.fee = 23;
    assert!(!shifted.verify());
    let tx2 = Transaction::new_signed(&wallet, "de".into(), 0, 0);
    let mut moved = tx2.clone();
    moved.to = "d".into();
    assert!(!moved.verify());
}

#[test]
fn signature_covers_the_signing_text() {
    let wallet = Wallet { signing_key: [2u8; 32] };
    let tx = Transaction::new_signed(&wallet, "bob".into(), 12, 3);
    let message = expected_message(&tx.from, &tx.to, tx.amount, tx.fee);
    assert_eq!(tx.signature.clone().unwrap(), wallet.sign(&message));
    assert_eq!(tx.signature.unwrap().len(), 64);
    assert_eq!(tx.from, wallet.public_key_hex());
}

#[test]
fn debug_rendering_matches_derive() {
    let wallet = Wallet { signing_key: [8u8; 32] };
    let tx = Transaction::new_signed(&wallet, "a\tb\"c\u{7f}".into(), 0, u64::MAX);
    let mut s = String::new();
    quark::transaction::push_transaction_debug(&mut s, &tx);
    assert_eq!(s, format!("{:?}", tx));
    let txs = vec![tx.clone(), tx];
    let mut l = String::new();
    quark::transaction::push_transaction_list_debug(&mut l, &txs);
    assert_eq!(l, format!("{:?}", txs));
}

#[test]
fn verify_never_panics() {
    let wallet = Wallet { signing_key: [10u8; 32] };
    for (amount, fee, to) in [
        (0u64, 0u64, ""),
        (u64::MAX, u64::MAX, "é\u{0}\"\\"),
        (1, u64::MAX, "dest"),
        (u64::MAX, 0, "🦀"),
    ] {
        let tx = Transaction::new_signed(&wallet, to.into(), amount, fee);
        assert!(tx.verify());
    }
}

#[test]
fn tampered_amount_never_verifies() {
    let wallet = Wallet { signing_key: [11u8; 32] };
    for (amount, fee, bad_amount) in [(0u64, 0u64, 1u64), (100, 1, 1000), (u64::MAX, 5, 0), (7, 7, 77)] {
        let mut tx = Transaction::new_signed(&wallet, "dest".into(), amount, fee);
        tx.amount = bad_amount;
        assert!(!tx.verify());
    }
}
