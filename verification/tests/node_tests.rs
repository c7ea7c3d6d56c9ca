use quark::block::Blockchain;
use quark::ledger::Ledger;
use quark::node::{
    forge_validator_hadron, merge_peers, open_account, open_account_with_seed, quarks_of,
    submit_transaction, ForgeOutcome, SubmitOutcome,
};
use quark::quark::QuarkType;
use quark::transaction::Transaction;
use quark::validator::Validator;
use quark::wallet::Wallet;

#[test]
fn forging_takes_the_first_three_quarks() {
    let mut v = Validator::new("a".into(), 1);
    v.quarks_reward = vec![
        QuarkType::Up,
        QuarkType::Up,
        QuarkType::Down,
        QuarkType::Top,
    ];
    let mut vs = vec![Validator::new("b".into(), 2), v];
    match forge_validator_hadron(&mut vs, "a") {
        ForgeOutcome::Forged(kind) => assert_eq!(kind, "Proton"),
        _ => panic!("expected a proton"),
    }
    assert_eq!(vs[1].quarks_reward, vec![QuarkType::Top]);
    assert_eq!(vs[1].staked_hadrons.len(), 1);
    assert_eq!(vs[1].staked_hadrons[0].id, "[Up, Up, Down]");
    assert_eq!(vs[1].weight(), 3);
    assert!(matches!(forge_validator_hadron(&mut vs, "a"), ForgeOutcome::NotEnoughQuarks));
    assert!(matches!(forge_validator_hadron(&mut vs, "zz"), ForgeOutcome::UnknownValidator));
    assert!(vs[0].staked_hadrons.is_empty());
}

#[test]
fn invalid_combination_loses_the_quarks() {
    let mut v = Validator::new("a".into(), 1);
    v.quarks_reward = vec![QuarkType::Charm, QuarkType::Top, QuarkType::Bottom];
    let mut vs = vec![v];
    assert!(matches!(forge_validator_hadron(&mut vs, "a"), ForgeOutcome::InvalidCombination));
    assert!(vs[0].quarks_reward.is_empty());
    assert!(vs[0].staked_hadrons.is_empty());
}

#[test]
fn opening_an_account_credits_and_registers() {
    let mut ledger = Ledger::new();
    let mut vs = Vec::new();
    open_account_with_seed(&mut ledger, &mut vs, "alice".into(), 77);
    open_account(&mut ledger, &mut vs, "bob".into());
    assert_eq!(ledger.balances["alice"], 1000);
    assert_eq!(ledger.balances["bob"], 1000);
    assert_eq!(vs.len(), 2);
    assert_eq!(vs[0].seed, 77);
    assert_eq!(vs[1].address, "bob");
    assert!(quarks_of(&vs, "alice").is_empty());
    assert!(quarks_of(&vs, "carol").is_empty());
}

#[test]
fn submitted_transactions_need_a_signature() {
    let wallet = Wallet { signing_key: [12u8; 32] };
    let addr = wallet.public_key_hex();
    let mut bc = Blockchain::new();
    let mut ledger = Ledger::new();
    let mut vs = Vec::new();
    open_account_with_seed(&mut ledger, &mut vs, addr.clone(), 5);
    let mut forged = Transaction::new_signed(&wallet, "bob".into(), 10, 1);
    forged.amount = 11;
    assert!(matches!(
        submit_transaction(&mut bc, &mut vs, &mut ledger, forged),
        SubmitOutcome::Refused
    ));
    assert_eq!(bc.chain.len(), 1);
    let tx = Transaction::new_signed(&wallet, "bob".into(), 10, 1);
    assert!(matches!(
        submit_transaction(&mut bc, &mut vs, &mut ledger, tx),
        SubmitOutcome::Added
    ));
    assert_eq!(bc.chain.len(), 2);
    assert_eq!(ledger.balances["bob"], 10);
    // The only validator is the sender: it pays 11 and earns the reward of 1000.
    assert_eq!(ledger.balances[&addr], 1000 - 11 + 1000);
    assert_eq!(quarks_of(&vs, &addr).len(), 3);
    assert!(bc.is_valid());
}

#[test]
fn merging_peers_skips_known_ones() {
    let mut peers = vec!["a".to_string(), "b".to_string()];
    merge_peers(&mut peers, vec!["b".into(), "c".into(), "c".into(), "a".into(), "d".into()]);
    assert_eq!(peers, vec!["a", "b", "c", "d"]);
}

#[test]
fn submission_that_would_overflow_changes_nothing() {
    let wallet = Wallet { signing_key: [13u8; 32] };
    let addr = wallet.public_key_hex();
    let mut bc = Blockchain::new();
    let mut ledger = Ledger::new();
    let mut vs = Vec::new();
    open_account_with_seed(&mut ledger, &mut vs, addr.clone(), 5);
    ledger.balances.insert("bob".into(), u64::MAX - 5);
    let tx = Transaction::new_signed(&wallet, "bob".into(), 10, 1);
    assert!(matches!(
        submit_transaction(&mut bc, &mut vs, &mut ledger, tx),
        SubmitOutcome::WouldOverflow
    ));
    assert_eq!(bc.chain.len(), 1);
    assert_eq!(ledger.balances[&addr], 1000);
    assert_eq!(ledger.balances["bob"], u64::MAX - 5);
    assert!(vs[0].quarks_reward.is_empty());
}

#[test]
fn forging_ignores_the_order_of_the_quarks() {
    let mut v = Validator::new("a".into(), 1);
    v.quarks_reward = vec![QuarkType::Down, QuarkType::Up, QuarkType::Down, QuarkType::Up];
    let mut vs = vec![v];
    match forge_validator_hadron(&mut vs, "a") {
        ForgeOutcome::Forged(kind) => assert_eq!(kind, "Neutron"),
        _ => panic!("expected a neutron"),
    }
    assert_eq!(vs[0].quarks_reward, vec![QuarkType::Up]);
    assert_eq!(vs[0].staked_hadrons[0].id, "[Down, Up, Down]");
    assert_eq!(vs[0].weight(), 2);
}
