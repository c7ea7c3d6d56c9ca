use quark::block::{Block, Blockchain};
use quark::ledger::Ledger;
use quark::transaction::Transaction;
use quark::validator::Validator;
use quark::wallet::Wallet;
use sha2::{Digest, Sha256};

#[test]
fn genesis_is_valid() {
    let bc = Blockchain::new();
    assert!(bc.is_valid());
    assert_eq!(bc.chain.len(), 1);
}

#[test]
fn add_block_increases_length() {
    let mut bc = Blockchain::new();
    let mut ledger = Ledger::new();
    let mut validators = vec![Validator::new("v1".into(), 42)];
    bc.add_block(vec![], &mut validators, &mut ledger);
    assert_eq!(bc.chain.len(), 2);
    assert!(bc.is_valid());
}

#[test]
fn tampered_chain_is_invalid() {
    let mut bc = Blockchain::new();
    let mut ledger = Ledger::new();
    let mut validators = vec![Validator::new("v1".into(), 42)];
    bc.add_block(vec![], &mut validators, &mut ledger);
    bc.chain[1].previous_hash = "fake".to_string();
    assert!(!bc.is_valid());
}

#[test]
fn genesis_block_contents() {
    let bc = Blockchain::new();
    let g = &bc.chain[0];
    assert_eq!(g.index, 0);
    assert!(g.transactions.is_empty());
    assert_eq!(g.previous_hash, "0");
    assert_eq!(g.validator, "genesis");
    assert_eq!(g.hash, g.calculate_hash());
    assert_eq!(g.hash.len(), 64);
}

fn reference_hash(b: &Block) -> String {
    let data = format!(
        "{}{}{:?}{}{}",
        b.index, b.timestamp, b.transactions, b.previous_hash, b.validator
    );
    let mut hasher = Sha256::new();
    hasher.update(data.as_bytes());
    format!("{:x}", hasher.finalize())
}

#[test]
fn block_hash_matches_formatted_contents() {
    let wallet = Wallet { signing_key: [7u8; 32] };
    let tx1 = Transaction::new_signed(&wallet, "dest \"quoted\"\n".into(), 100, 1);
    let tx2 = Transaction {
        from: "a".into(),
        to: "b".into(),
        amount: 5,
        fee: 0,
        signature: None,
    };
    let tx3 = Transaction {
        from: "é\\".into(),
        to: "".into(),
        amount: u64::MAX,
        fee: 3,
        signature: Some(vec![]),
    };
    let b = Block::new_at(3, -1234, vec![tx1, tx2, tx3], "prev".into(), "val".into());
    assert_eq!(b.hash, reference_hash(&b));
    let empty = Block::new_at(0, 1_700_000_000, vec![], "0".into(), "genesis".into());
    assert_eq!(empty.hash, reference_hash(&empty));
    assert_eq!(
        empty.hash,
        "ae48aa24955b7fbfdbc892b78ddad21d7949eabfbe0e39a3326e882d7fa2abaa"
    );
}

#[test]
fn rewards_halve_every_ten_blocks() {
    let mut bc = Blockchain::new();
    let mut ledger = Ledger::new();
    let mut validators = vec![Validator::new("v1".into(), 42)];
    for _ in 0..9 {
        bc.add_block(vec![], &mut validators, &mut ledger);
    }
    assert_eq!(bc.chain.len(), 10);
    assert_eq!(ledger.balances.balance_of("v1"), 9000);
    bc.add_block(vec![], &mut validators, &mut ledger);
    assert_eq!(ledger.balances.balance_of("v1"), 9500);
    assert_eq!(validators[0].quarks_reward.len(), 30);
    assert!(bc.is_valid());
    for (i, b) in bc.chain.iter().enumerate() {
        assert_eq!(b.index, i as u64);
    }
}

#[test]
fn no_validators_means_no_reward() {
    let mut bc = Blockchain::new();
    let mut ledger = Ledger::new();
    let mut validators: Vec<Validator> = vec![];
    bc.add_block(vec![], &mut validators, &mut ledger);
    assert_eq!(bc.chain[1].validator, "none");
    assert_eq!(ledger.balances.len(), 0);
    assert!(bc.is_valid());
}

#[test]
fn block_applies_transactions_in_order() {
    let wallet = Wallet { signing_key: [1u8; 32] };
    let addr = wallet.public_key_hex();
    let mut ledger = Ledger::new();
    ledger.balances.insert(addr.clone(), 100);
    let mut bc = Blockchain::new();
    let mut validators: Vec<Validator> = vec![];
    let t1 = Transaction::new_signed(&wallet, "bob".into(), 60, 5);
    let t2 = Transaction::new_signed(&wallet, "carol".into(), 60, 5);
    bc.add_block(vec![t1, t2], &mut validators, &mut ledger);
    assert_eq!(ledger.balances[&addr], 35);
    assert_eq!(ledger.balances["bob"], 60);
    assert_eq!(ledger.balances.get("carol"), None);
    assert_eq!(bc.chain[1].transactions.len(), 2);
}

#[test]
fn tampered_hash_is_invalid() {
    let mut bc = Blockchain::new();
    let mut ledger = Ledger::new();
    let mut validators = vec![Validator::new("v1".into(), 1)];
    bc.add_block(vec![], &mut validators, &mut ledger);
    bc.add_block(vec![], &mut validators, &mut ledger);
    assert!(bc.is_valid());
    bc.chain[2].validator = "mallory".into();
    assert!(!bc.is_valid());
}

#[test]
fn longer_valid_chain_is_adopted() {
    let mut ours = Blockchain::new();
    let mut theirs = Blockchain::new();
    let mut ledger = Ledger::new();
    let mut validators = vec![Validator::new("v1".into(), 9)];
    theirs.add_block(vec![], &mut validators, &mut ledger);
    theirs.add_block(vec![], &mut validators, &mut ledger);
    let received = theirs.chain.clone();
    assert!(ours.try_adopt(received));
    assert_eq!(ours.chain.len(), 3);
    // A chain that is not longer is refused.
    let same = theirs.chain.clone();
    assert!(!ours.try_adopt(same));
    // A longer chain that is badly linked is refused.
    let mut bad = theirs.chain.clone();
    bad.push(theirs.chain[2].clone());
    assert!(!ours.try_adopt(bad));
    assert_eq!(ours.chain.len(), 3);
}

#[test]
fn explorer_lists_newest_first() {
    let mut bc = Blockchain::new();
    let mut ledger = Ledger::new();
    let mut validators = vec![Validator::new("v1".into(), 3)];
    bc.add_block(vec![], &mut validators, &mut ledger);
    let page = bc.explorer_page();
    let expected = format!(
        "<h1>Quark Explorer</h1><p>#1 - {} - validator: v1</p><p>#0 - {} - validator: genesis</p>",
        bc.chain[1].hash, bc.chain[0].hash
    );
    assert_eq!(page, expected);
}

#[test]
fn large_untouched_balances_do_not_stop_a_block() {
    let mut bc = Blockchain::new();
    let mut ledger = Ledger::new();
    ledger.balances.insert("a".into(), 1u64 << 63);
    ledger.balances.insert("b".into(), 1u64 << 63);
    let mut validators: Vec<Validator> = vec![];
    bc.add_block(vec![], &mut validators, &mut ledger);
    assert_eq!(bc.chain.len(), 2);
    assert_eq!(bc.chain[1].validator, "none");
    assert_eq!(ledger.balances["a"], 1u64 << 63);
    let mut bc2 = Blockchain::new();
    assert!(bc2.try_add_block(vec![], &mut validators, &mut ledger));
    assert_eq!(bc2.chain.len(), 2);
}

#[test]
fn reward_that_would_overflow_is_refused() {
    let mut bc = Blockchain::new();
    let mut ledger = Ledger::new();
    ledger.balances.insert("v1".into(), u64::MAX - 999);
    let mut validators = vec![Validator::new("v1".into(), 42)];
    assert!(!bc.try_add_block(vec![], &mut validators, &mut ledger));
    assert_eq!(bc.chain.len(), 1);
    assert_eq!(ledger.balances["v1"], u64::MAX - 999);
    assert!(validators[0].quarks_reward.is_empty());
    ledger.balances.insert("v1".into(), u64::MAX - 1000);
    assert!(bc.try_add_block(vec![], &mut validators, &mut ledger));
    assert_eq!(ledger.balances["v1"], u64::MAX);
    assert_eq!(validators[0].quarks_reward.len(), 3);
}

#[test]
fn block_hash_is_sixty_four_hex_digits() {
    let b = Block::new_at(5, 42, vec![], "p".into(), "v".into());
    let h = b.calculate_hash();
    assert_eq!(h.len(), 64);
    assert!(h.chars().all(|c| c.is_ascii_digit() || ('a'..='f').contains(&c)));
    let mut other = b.clone();
    other.hash = "something else".into();
    assert_eq!(other.calculate_hash(), h);
}
