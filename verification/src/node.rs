//! The decisions a node takes on behalf of its users and peers: forging a
//! hadron from a validator's quarks, opening an account, accepting a
//! submitted transaction, and merging the peer list.

use vstd::prelude::*;
use crate::block::{
    block_forged, block_reward, chain_valid, drawn_address, reward_fits, transfers_fit,
    validator_position, Blockchain,
};
use crate::crypto::random_seed;
use crate::ledger::{after_transfer, with_balance, Ledger};
use crate::quark::{forge_hadron, quark_list_debug, recipe_kind, QuarkType};
use crate::transaction::{is_authorized, Transaction};
use crate::validator::{validator_count_fits, Validator};

verus! {

/// A request to create a wallet protected by `password`.
pub struct CreateWalletRequest {
    pub password: String,
}

/// A request to open the stored wallet of `address` with `password`.
pub struct LoadWalletRequest {
    pub address: String,
    pub password: String,
}

/// A request to forge a hadron for the validator with `address`.
pub struct ForgeHadronRequest {
    pub address: String,
}

/// What became of a request to forge a hadron.
pub enum ForgeOutcome {
    /// No validator has the address.
    UnknownValidator,
    /// The validator holds fewer than three quarks.
    NotEnoughQuarks,
    /// The first three quarks formed a hadron of this kind, now staked.
    Forged(String),
    /// The first three quarks formed no hadron; they are lost.
    InvalidCombination,
}

/// Whether `after` is `before` with the validator at `pos` changed by a
/// forge attempt: its first three quarks removed and, when they form a
/// hadron, that hadron staked; everything else unchanged.
pub open spec fn forged_at(before: Seq<Validator>, after: Seq<Validator>, pos: int) -> bool {
    let old_v = before[pos];
    let new_v = after[pos];
    let taken = old_v.quarks_reward@.take(3);
    &&& after.len() == before.len()
    &&& forall|j: int| 0 <= j < before.len() && j != pos ==> #[trigger] after[j] == before[j]
    &&& new_v.address == old_v.address
    &&& new_v.seed == old_v.seed
    &&& new_v.quarks_reward@ == old_v.quarks_reward@.skip(3)
    &&& match recipe_kind(taken) {
        Some(kind) => {
            &&& new_v.staked_hadrons@.len() == old_v.staked_hadrons@.len() + 1
            &&& new_v.staked_hadrons@.take(old_v.staked_hadrons@.len() as int)
                == old_v.staked_hadrons@
            &&& new_v.staked_hadrons@.last().kind@ == kind
            &&& new_v.staked_hadrons@.last().composition@ == taken
            &&& new_v.staked_hadrons@.last().id@ == quark_list_debug(taken)
        },
        None => new_v.staked_hadrons == old_v.staked_hadrons,
    }
}

/// Forges a hadron for the first validator with `address` from its first
/// three quarks. Fails with `UnknownValidator` when no validator has the
/// address and with `NotEnoughQuarks` when it holds fewer than three, in
/// both cases changing nothing. Otherwise the three quarks are taken; a
/// valid recipe stakes the hadron (`Forged` with its kind), any other
/// combination loses them (`InvalidCombination`).
pub fn forge_validator_hadron(validators: &mut [Validator], address: &str) -> (res: ForgeOutcome)
    ensures
        ({
            let pos = validator_position(old(validators)@, address@);
            &&& pos < 0 ==> res is UnknownValidator && final(validators)@ == old(validators)@
            &&& pos >= 0 && old(validators)@[pos].quarks_reward@.len() < 3 ==> res is NotEnoughQuarks
                && final(validators)@ == old(validators)@
            &&& pos >= 0 && old(validators)@[pos].quarks_reward@.len() >= 3 ==> {
                &&& forged_at(old(validators)@, final(validators)@, pos)
                &&& match recipe_kind(old(validators)@[pos].quarks_reward@.take(3)) {
                    Some(kind) => res matches ForgeOutcome::Forged(k) && k@ == kind,
                    None => res is InvalidCombination,
                }
            }
        }),
{
    let i = match crate::block::find_validator(validators, address) {
        Some(i) => i,
        None => return ForgeOutcome::UnknownValidator,
    };
    if validators[i].quarks_reward.len() < 3 {
        return ForgeOutcome::NotEnoughQuarks;
    }
    let ghost q0 = validators@[i as int].quarks_reward@;
    let rest = validators[i].quarks_reward.split_off(3);
    let mut taken: Vec<QuarkType> = Vec::new();
    std::mem::swap(&mut taken, &mut validators[i].quarks_reward);
    validators[i].quarks_reward = rest;
    assert(taken@ =~= q0.take(3));
    assert(validators@[i as int].quarks_reward@ =~= q0.skip(3));
    match forge_hadron(taken) {
        Some(h) => {
            let kind = copy_text(&h.kind);
            let ghost hs0 = validators@[i as int].staked_hadrons@;
            validators[i].staked_hadrons.push(h);
            assert(validators@[i as int].staked_hadrons@.take(hs0.len() as int) =~= hs0);
            assert(forged_at(old(validators)@, validators@, i as int));
            ForgeOutcome::Forged(kind)
        },
        None => {
            assert(forged_at(old(validators)@, validators@, i as int));
            ForgeOutcome::InvalidCombination
        },
    }
}

/// A copy of a string.
fn copy_text(s: &String) -> (res: String)
    ensures
        res@ == s@,
{
    s.clone()
}

/// The quarks held by the first validator with `address`, none when no
/// validator has it.
pub fn quarks_of(validators: &[Validator], address: &str) -> (res: Vec<QuarkType>)
    ensures
        ({
            let pos = validator_position(validators@, address@);
            &&& pos < 0 ==> res@ == Seq::<QuarkType>::empty()
            &&& pos >= 0 ==> res@ == validators@[pos].quarks_reward@
        }),
{
    match crate::block::find_validator(validators, address) {
        Some(i) => {
            let q = &validators[i].quarks_reward;
            let mut out: Vec<QuarkType> = Vec::new();
            let n = q.len();
            let mut k: usize = 0;
            while k < n
                invariant
                    n == q@.len(),
                    0 <= k <= n,
                    out@ == q@.take(k as int),
                decreases n - k,
            {
                out.push(q[k]);
                assert(q@.take(k + 1) =~= q@.take(k as int).push(q@[k as int]));
                k = k + 1;
            }
            assert(q@.take(n as int) =~= q@);
            out
        },
        None => Vec::new(),
    }
}

/// The balance every new account starts with.
pub const OPENING_BALANCE: u64 = 1000;

/// Opens an account for a new wallet's address: its balance is set to 1000
/// and a validator with that address, no hadrons, no quarks and the given
/// seed joins the validators.
pub fn open_account_with_seed(ledger: &mut Ledger, validators: &mut Vec<Validator>, address: String, seed: u64)
    ensures
        final(ledger).balances@ == with_balance(old(ledger).balances@, address@, OPENING_BALANCE),
        final(validators)@.len() == old(validators)@.len() + 1,
        final(validators)@.take(old(validators)@.len() as int) == old(validators)@,
        final(validators)@.last().address == address,
        final(validators)@.last().staked_hadrons@.len() == 0,
        final(validators)@.last().quarks_reward@.len() == 0,
        final(validators)@.last().seed == seed,
{
    let copy = copy_text(&address);
    ledger.balances.insert(copy, OPENING_BALANCE);
    validators.push(Validator::new(address, seed));
    assert(validators@.take(old(validators)@.len() as int) =~= old(validators)@);
}

/// Opens an account as `open_account_with_seed` does, with a random seed.
pub fn open_account(ledger: &mut Ledger, validators: &mut Vec<Validator>, address: String)
    ensures
        final(ledger).balances@ == with_balance(old(ledger).balances@, address@, OPENING_BALANCE),
        final(validators)@.len() == old(validators)@.len() + 1,
        final(validators)@.take(old(validators)@.len() as int) == old(validators)@,
        final(validators)@.last().address == address,
        final(validators)@.last().staked_hadrons@.len() == 0,
        final(validators)@.last().quarks_reward@.len() == 0,
{
    let seed = random_seed();
    open_account_with_seed(ledger, validators, address, seed);
}

/// What became of a submitted transaction.
pub enum SubmitOutcome {
    /// It is not signed by its sender; nothing changed.
    Refused,
    /// It was put in a new block.
    Added,
    /// Forging its block would overflow a balance; nothing changed.
    WouldOverflow,
}

/// Accepts a submitted transaction: one that is not signed by its sender is
/// refused and nothing changes; a signed one is put in a new block (see
/// `Blockchain::try_add_block`), unless forging it would overflow a balance,
/// in which case nothing changes either.
pub fn submit_transaction(
    blockchain: &mut Blockchain,
    validators: &mut [Validator],
    ledger: &mut Ledger,
    tx: Transaction,
) -> (res: SubmitOutcome)
    requires
        old(blockchain).chain@.len() > 0,
        old(blockchain).chain@.last().index < u64::MAX,
        validator_count_fits(old(validators)@.len()),
    ensures
        res is Refused <==> !is_authorized(tx),
        res is Added <==> is_authorized(tx) && transfers_fit(old(ledger).balances@, seq![tx])
            && reward_fits(
            after_transfer(old(ledger).balances@, tx),
            drawn_address(old(validators)@, old(blockchain).chain@.last().hash@),
            block_reward(old(blockchain).chain@.len() as nat),
        ),
        res is Added ==> block_forged(
            old(blockchain).chain@,
            final(blockchain).chain@,
            old(validators)@,
            final(validators)@,
            old(ledger).balances@,
            final(ledger).balances@,
            seq![tx],
        ),
        !(res is Added) ==> {
            &&& final(blockchain).chain@ == old(blockchain).chain@
            &&& final(validators)@ == old(validators)@
            &&& final(ledger).balances@ == old(ledger).balances@
        },
        chain_valid(old(blockchain).chain@) ==> chain_valid(final(blockchain).chain@),
{
    if !tx.verify() {
        return SubmitOutcome::Refused;
    }
    let ghost t = tx;
    let mut txs: Vec<Transaction> = Vec::new();
    txs.push(tx);
    assert(txs@ =~= seq![t]);
    proof {
        let s = seq![t];
        assert(s.drop_last() =~= Seq::<Transaction>::empty());
        assert(crate::ledger::after_transfers(old(ledger).balances@, s) == after_transfer(
            crate::ledger::after_transfers(old(ledger).balances@, s.drop_last()),
            t,
        ));
    }
    if blockchain.try_add_block(txs, validators, ledger) {
        SubmitOutcome::Added
    } else {
        SubmitOutcome::WouldOverflow
    }
}

/// The peers after learning of `discovered`: each discovered peer not yet
/// known is added at the end, in order.
pub open spec fn merged_peers(peers: Seq<Seq<char>>, discovered: Seq<Seq<char>>) -> Seq<Seq<char>>
    decreases discovered.len(),
{
    if discovered.len() == 0 {
        peers
    } else {
        let m = merged_peers(peers, discovered.drop_last());
        if m.contains(discovered.last()) {
            m
        } else {
            m.push(discovered.last())
        }
    }
}

/// After merging, every known and every discovered peer is listed, the
/// known peers keep their places, and a list without repeats stays without
/// repeats.
pub proof fn lemma_merge_peers(peers: Seq<Seq<char>>, discovered: Seq<Seq<char>>)
    ensures
        merged_peers(peers, discovered).take(peers.len() as int) == peers,
        merged_peers(peers, discovered).len() >= peers.len(),
        forall|p: Seq<char>| discovered.contains(p) ==> merged_peers(peers, discovered).contains(p),
        peers.no_duplicates() ==> merged_peers(peers, discovered).no_duplicates(),
    decreases discovered.len(),
{
    if discovered.len() > 0 {
        let d0 = discovered.drop_last();
        lemma_merge_peers(peers, d0);
        let m = merged_peers(peers, d0);
        let x = discovered.last();
        if !m.contains(x) {
            assert(m.push(x).take(peers.len() as int) =~= m.take(peers.len() as int));
            assert(m.push(x)[m.len() as int] == x);
            assert forall|p: Seq<char>| discovered.contains(p) implies m.push(x).contains(p) by {
                let k = choose|k: int| 0 <= k < discovered.len() && discovered[k] == p;
                if k < discovered.len() - 1 {
                    assert(d0[k] == p);
                    assert(d0.contains(p));
                    assert(m.contains(p));
                    let j = choose|j: int| 0 <= j < m.len() && m[j] == p;
                    assert(m.push(x)[j] == p);
                }
            }
        } else {
            assert forall|p: Seq<char>| discovered.contains(p) implies m.contains(p) by {
                let k = choose|k: int| 0 <= k < discovered.len() && discovered[k] == p;
                if k < discovered.len() - 1 {
                    assert(d0[k] == p);
                    assert(d0.contains(p));
                }
            }
        }
    }
}

/// The views of a list of strings.
pub open spec fn texts(v: Seq<String>) -> Seq<Seq<char>> {
    v.map_values(|s: String| s@)
}

/// Adds each discovered peer that is not yet known, in order.
pub fn merge_peers(peers: &mut Vec<String>, discovered: Vec<String>)
    ensures
        texts(final(peers)@) == merged_peers(texts(old(peers)@), texts(discovered@)),
{
    let n = discovered.len();
    let mut k: usize = 0;
    assert(texts(discovered@).take(0) =~= Seq::<Seq<char>>::empty());
    while k < n
        invariant
            n == discovered@.len(),
            0 <= k <= n,
            texts(peers@) == merged_peers(texts(old(peers)@), texts(discovered@).take(k as int)),
        decreases n - k,
    {
        let p = &discovered[k];
        let known = contains_text(peers, p.as_str());
        proof {
            let t = texts(discovered@).take(k + 1);
            assert(t.drop_last() =~= texts(discovered@).take(k as int));
            assert(t.last() == p@);
        }
        if !known {
            let ghost before = texts(peers@);
            peers.push(copy_text(p));
            assert(texts(peers@) =~= before.push(p@));
        }
        k = k + 1;
    }
    assert(texts(discovered@).take(n as int) =~= texts(discovered@));
}

/// Whether `items` holds `s`.
fn contains_text(items: &Vec<String>, s: &str) -> (res: bool)
    ensures
        res == texts(items@).contains(s@),
{
    let n = items.len();
    let mut i: usize = 0;
    while i < n
        invariant
            n == items@.len(),
            0 <= i <= n,
            forall|j: int| 0 <= j < i ==> items@[j]@ != s@,
        decreases n - i,
    {
        if crate::text::same_text(items[i].as_str(), s) {
            assert(texts(items@)[i as int] == s@);
            return true;
        }
        i = i + 1;
    }
    assert forall|j: int| 0 <= j < texts(items@).len() implies texts(items@)[j] != s@ by {
        assert(texts(items@)[j] == items@[j]@);
    }
    false
}

} // verus!
