use quark::quark::Hadron;
use quark::validator::{pick_with_digest, select_validator, Validator};
use sha2::{Digest, Sha256};

fn hadron(kind: &str) -> Hadron {
    Hadron {
        id: "x".into(),
        composition: vec![],
        kind: kind.into(),
    }
}

#[test]
fn weight_zero_hadrons() {
    let v = Validator {
        address: "a".into(),
        staked_hadrons: vec![],
        quarks_reward: vec![],
        seed: 42,
    };
    assert_eq!(v.weight(), 0);
}

#[test]
fn select_validator_empty_returns_none() {
    let validators: Vec<Validator> = vec![];
    assert!(select_validator(&validators, "abc").is_none());
}

#[test]
fn select_validator_single_returns_it() {
    let validators = vec![Validator {
        address: "a".into(),
        staked_hadrons: vec![],
        quarks_reward: vec![],
        seed: 42,
    }];
    let selected = select_validator(&validators, "abc");
    assert_eq!(selected.unwrap().address, "a");
}

#[test]
fn weight_counts_hadrons_and_caps_at_thirty() {
    let mut v = Validator::new("a".into(), 1);
    v.staked_hadrons = vec![hadron("Proton"), hadron("Neutron"), hadron("Other")];
    assert_eq!(v.weight(), 6);
    v.staked_hadrons = (0..11).map(|_| hadron("Proton")).collect();
    assert_eq!(v.weight(), 30);
    v.staked_hadrons = (0..10).map(|_| hadron("Proton")).collect();
    assert_eq!(v.weight(), 30);
    v.staked_hadrons = (0..9).map(|_| hadron("Proton")).collect();
    assert_eq!(v.weight(), 27);
}

fn digest_of(n: u64) -> [u8; 32] {
    let mut d = [0xffu8; 32];
    d[..8].copy_from_slice(&n.to_le_bytes());
    d
}

#[test]
fn pick_with_digest_lays_tickets_out_in_order() {
    let mut a = Validator::new("a".into(), 1);
    a.staked_hadrons = vec![hadron("Proton")];
    let b = Validator::new("b".into(), 2);
    let vs = vec![a, b];
    // a holds tickets 0..4, b holds ticket 4; 5 tickets in all.
    assert_eq!(pick_with_digest(&vs, &digest_of(3)), Some(0));
    assert_eq!(pick_with_digest(&vs, &digest_of(4)), Some(1));
    assert_eq!(pick_with_digest(&vs, &digest_of(5)), Some(0));
    assert_eq!(pick_with_digest(&vs, &digest_of(9)), Some(1));
    assert_eq!(pick_with_digest(&vs[..0], &digest_of(9)), None);
}

#[test]
fn select_validator_follows_the_hashed_draw() {
    let mut vs = Vec::new();
    for i in 0..5u64 {
        let mut v = Validator::new(format!("v{}", i), 1000 + i * 7);
        v.staked_hadrons = (0..i).map(|_| hadron("Neutron")).collect();
        vs.push(v);
    }
    for prev in ["abc", "0", "deadbeef", "é"] {
        let mut hasher = Sha256::new();
        hasher.update(prev.as_bytes());
        for v in &vs {
            hasher.update(v.seed.to_le_bytes());
        }
        let hash = hasher.finalize();
        let combined = u64::from_le_bytes(hash[0..8].try_into().unwrap());
        let total: u64 = vs.iter().map(|v| v.weight() + 1).sum();
        let mut pick = combined % total;
        let mut expected = None;
        for v in &vs {
            let w = v.weight() + 1;
            if pick < w {
                expected = Some(v.address.clone());
                break;
            }
            pick -= w;
        }
        let got = select_validator(&vs, prev).map(|v| v.address.clone());
        assert_eq!(got, expected);
    }
}
