use quark::ledger::Ledger;
use quark::transaction::Transaction;
use quark::wallet::Wallet;

#[test]
fn transfer_updates_balances() {
    let wallet = Wallet::new();
    let addr = wallet.public_key_hex();
    let mut ledger = Ledger::new();
    ledger.balances.insert(addr.clone(), 1000);
    let tx = Transaction::new_signed(&wallet, "dest".into(), 500, 10);
    assert!(ledger.apply_transactions(&tx));
    assert_eq!(ledger.balances[&addr], 490);
    assert_eq!(ledger.balances["dest"], 500);
}

#[test]
fn insufficient_balance_fails() {
    let wallet = Wallet::new();
    let addr = wallet.public_key_hex();
    let mut ledger = Ledger::new();
    ledger.balances.insert(addr.clone(), 10);
    let tx = Transaction::new_signed(&wallet, "dest".into(), 500, 10);
    assert!(!ledger.apply_transactions(&tx));
}

#[test]
fn failed_transfer_changes_nothing() {
    let wallet = Wallet { signing_key: [3u8; 32] };
    let addr = wallet.public_key_hex();
    let mut ledger = Ledger::new();
    ledger.balances.insert(addr.clone(), 510);
    let mut tx = Transaction::new_signed(&wallet, "dest".into(), 500, 10);
    tx.amount = 501;
    assert!(!ledger.apply_transactions(&tx));
    assert_eq!(ledger.balances[&addr], 510);
    assert_eq!(ledger.balances.get("dest"), None);
    assert_eq!(ledger.balances.len(), 1);
}

#[test]
fn transfer_burns_exactly_the_fee() {
    let wallet = Wallet { signing_key: [4u8; 32] };
    let addr = wallet.public_key_hex();
    let mut ledger = Ledger::new();
    ledger.balances.insert(addr.clone(), 1000);
    ledger.balances.insert("dest".into(), 7);
    assert!(ledger.balances.supply_at_most(1007));
    assert!(!ledger.balances.supply_at_most(1006));
    let tx = Transaction::new_signed(&wallet, "dest".into(), 300, 25);
    assert!(ledger.apply_transactions(&tx));
    assert!(ledger.balances.supply_at_most(982));
    assert!(!ledger.balances.supply_at_most(981));
    assert_eq!(ledger.balances[&addr], 675);
    assert_eq!(ledger.balances["dest"], 307);
}

#[test]
fn self_transfer_costs_the_fee() {
    let wallet = Wallet { signing_key: [5u8; 32] };
    let addr = wallet.public_key_hex();
    let mut ledger = Ledger::new();
    ledger.balances.insert(addr.clone(), 100);
    let tx = Transaction::new_signed(&wallet, addr.clone(), 40, 2);
    assert!(ledger.apply_transactions(&tx));
    assert_eq!(ledger.balances[&addr], 98);
    assert_eq!(ledger.balances.len(), 1);
}

#[test]
fn exact_balance_is_enough() {
    let wallet = Wallet { signing_key: [6u8; 32] };
    let addr = wallet.public_key_hex();
    let mut ledger = Ledger::new();
    ledger.balances.insert(addr.clone(), 510);
    let tx = Transaction::new_signed(&wallet, "dest".into(), 500, 10);
    assert!(ledger.apply_transactions(&tx));
    assert_eq!(ledger.balances[&addr], 0);
}

#[test]
fn insert_returns_previous_balance() {
    let mut ledger = Ledger::new();
    assert_eq!(ledger.balances.insert("a".into(), 5), None);
    assert_eq!(ledger.balances.insert("a".into(), 9), Some(5));
    assert_eq!(ledger.balances.get("a"), Some(9));
    assert_eq!(ledger.balances.balance_of("b"), 0);
    assert_eq!(ledger.balances.len(), 1);
}
