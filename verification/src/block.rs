//! Blocks, the chain of blocks linked by SHA-256 hashes, and the rules that
//! extend, check and replace the chain.

use vstd::prelude::*;
use crate::crypto::{current_timestamp, sha256, sha256_digest};
use crate::ledger::{
    after_transfers, balance_in, lemma_transfer_supply, lemma_with_balance_supply,
    supply, transfer_fits, with_balance, Accounts, Ledger,
};
use crate::quark::random_quark;
use crate::text::{decimal, lower_hex, push_decimal, push_lower_hex, push_signed_decimal, signed_decimal};
use crate::transaction::{is_authorized, push_transaction_list_debug, transaction_list_debug, Transaction};
use crate::validator::{select_validator, selected_index, validator_count_fits, Validator};

verus! {

/// A block: its height, the time it was made, its transactions, the hash of
/// the block before it, its own hash, and the address of its validator.
#[derive(Debug, Clone)]
pub struct Block {
    pub index: u64,
    pub timestamp: i64,
    pub transactions: Vec<Transaction>,
    pub previous_hash: String,
    pub hash: String,
    pub validator: String,
}

/// The text a block's hash covers: its height and timestamp in decimal, the
/// `Debug` rendering of its transactions, the previous hash, the validator.
pub open spec fn block_preimage(
    index: u64,
    timestamp: i64,
    transactions: Seq<Transaction>,
    previous_hash: Seq<char>,
    validator: Seq<char>,
) -> Seq<char> {
    decimal(index as nat) + signed_decimal(timestamp as int) + transaction_list_debug(transactions)
        + previous_hash + validator
}

/// The hash of a block with these contents: the lower-case hexadecimal
/// SHA-256 digest of the UTF-8 bytes of its preimage.
pub open spec fn hash_of_contents(
    index: u64,
    timestamp: i64,
    transactions: Seq<Transaction>,
    previous_hash: Seq<char>,
    validator: Seq<char>,
) -> Seq<char> {
    lower_hex(
        sha256_digest(
            vstd::utf8::encode_utf8(
                block_preimage(index, timestamp, transactions, previous_hash, validator),
            ),
        ),
    )
}

/// The hash that block `b`'s contents call for.
pub open spec fn block_hash(b: Block) -> Seq<char> {
    hash_of_contents(b.index, b.timestamp, b.transactions@, b.previous_hash@, b.validator@)
}

/// Whether a chain is well linked: every block after the first names the
/// hash of the block before it, and carries the hash its contents call for.
pub open spec fn chain_valid(c: Seq<Block>) -> bool {
    forall|i: int|
        #![trigger c[i]]
        1 <= i < c.len() ==> c[i].previous_hash@ == c[i - 1].hash@ && c[i].hash@ == block_hash(
            c[i],
        )
}

/// The reward for the block that makes a chain of `height` blocks one
/// longer: 1000, halved every 10 blocks, down to the 20th halving.
pub open spec fn block_reward(height: nat) -> u64 {
    let halvings = height / 10;
    1000u64 >> (if halvings < 20 {
        halvings as u64
    } else {
        20u64
    })
}

/// The reward starts at 1000, never exceeds it, and halves every 10 blocks
/// until the 20th halving, after which it stays put.
pub proof fn lemma_reward_schedule(height: nat)
    ensures
        block_reward(0) == 1000,
        block_reward(height) <= 1000,
        height / 10 < 20 ==> block_reward(height + 10) == block_reward(height) / 2,
        height / 10 >= 20 ==> block_reward(height + 10) == block_reward(height),
{
    assert((1000u64 >> 0u64) == 1000u64) by (bit_vector);
    let h = height / 10;
    assert((height + 10) / 10 == h + 1);
    if h < 20 {
        let s = h as u64;
        assert((1000u64 >> s) <= 1000u64 && (1000u64 >> ((s + 1) as u64)) == (1000u64 >> s) / 2)
            by (bit_vector)
            requires
                s < 20,
        ;
    } else {
        assert((1000u64 >> 20u64) <= 1000u64) by (bit_vector);
    }
}

/// Whether the new chain, validators and accounts are what forging a block
/// of `txs` makes of the old ones: the block, linked to the last one and
/// credited to the drawn validator (`"none"` without validators), is
/// appended; the transfers are applied in order and the reward credited;
/// the first validator with the drawn address gets three quarks.
pub open spec fn block_forged(
    old_chain: Seq<Block>,
    new_chain: Seq<Block>,
    old_vs: Seq<Validator>,
    new_vs: Seq<Validator>,
    old_m: Accounts,
    new_m: Accounts,
    txs: Seq<Transaction>,
) -> bool {
    let last = old_chain.last();
    let address = drawn_address(old_vs, last.hash@);
    let block = new_chain.last();
    &&& new_chain == old_chain.push(block)
    &&& block.index == last.index + 1
    &&& block.transactions@ == txs
    &&& block.previous_hash == last.hash
    &&& block.validator@ == address
    &&& block.hash@ == block_hash(block)
    &&& new_m == after_reward(after_transfers(old_m, txs), address, block_reward(old_chain.len() as nat))
    &&& rewarded_quarks(old_vs, new_vs, validator_position(old_vs, address))
}

/// Whether applying `txs` in order to `m` cannot overflow a balance: each
/// signed transfer fits the accounts as the transfers before it left them.
pub open spec fn transfers_fit(m: Accounts, txs: Seq<Transaction>) -> bool {
    forall|k: int|
        0 <= k < txs.len() && is_authorized(#[trigger] txs[k]) ==> transfer_fits(
            after_transfers(m, txs.take(k)),
            txs[k],
        )
}

/// Whether crediting `reward` to `address` cannot overflow its balance
/// (nothing is credited to `"none"`).
pub open spec fn reward_fits(m: Accounts, address: Seq<char>, reward: u64) -> bool {
    address != "none"@ ==> balance_in(m, address) + reward <= u64::MAX
}

/// The block reward for a chain of `height` blocks.
pub fn reward_for_height(height: usize) -> (res: u64)
    ensures
        res == block_reward(height as nat),
        res <= 1000,
{
    let halvings: u64 = (height as u64) / 10;
    let shift: u64 = if halvings < 20 {
        halvings
    } else {
        20
    };
    let reward: u64 = 1000u64 >> shift;
    assert(reward <= 1000) by (bit_vector)
        requires
            reward == 1000u64 >> shift,
    ;
    reward
}

/// The address credited for a block: that of the drawn validator, or
/// `"none"` when there are no validators.
pub open spec fn drawn_address(vs: Seq<Validator>, previous_hash: Seq<char>) -> Seq<char> {
    match selected_index(vs, previous_hash) {
        Some(i) => vs[i].address@,
        None => "none"@,
    }
}

/// The accounts after the block reward of `reward` goes to `address`
/// (nobody is credited when the address is `"none"`).
pub open spec fn after_reward(m: Accounts, address: Seq<char>, reward: u64) -> Accounts {
    if address == "none"@ {
        m
    } else {
        with_balance(m, address, (balance_in(m, address) + reward) as u64)
    }
}

/// The position of the first validator with this address, or -1.
pub open spec fn validator_position(vs: Seq<Validator>, address: Seq<char>) -> int
    decreases vs.len(),
{
    if vs.len() == 0 {
        -1
    } else if vs[0].address@ == address {
        0
    } else {
        let p = validator_position(vs.drop_first(), address);
        if p < 0 {
            -1
        } else {
            p + 1
        }
    }
}

/// `after` is `before` with three quarks added to the rewards of the
/// validator at `pos` (none when `pos` is -1), everything else unchanged.
pub open spec fn rewarded_quarks(before: Seq<Validator>, after: Seq<Validator>, pos: int) -> bool {
    &&& after.len() == before.len()
    &&& forall|j: int|
        0 <= j < before.len() && j != pos ==> #[trigger] after[j] == before[j]
    &&& 0 <= pos < before.len() ==> {
        &&& after[pos].address == before[pos].address
        &&& after[pos].staked_hadrons == before[pos].staked_hadrons
        &&& after[pos].seed == before[pos].seed
        &&& after[pos].quarks_reward@.len() == before[pos].quarks_reward@.len() + 3
        &&& after[pos].quarks_reward@.take(before[pos].quarks_reward@.len() as int)
            == before[pos].quarks_reward@
    }
}

proof fn lemma_validator_position(vs: Seq<Validator>, address: Seq<char>)
    ensures
        -1 <= validator_position(vs, address) < vs.len(),
        validator_position(vs, address) >= 0 ==> vs[validator_position(vs, address)].address@
            == address,
        forall|j: int| 0 <= j < validator_position(vs, address) ==> vs[j].address@ != address,
        validator_position(vs, address) < 0 ==> forall|j: int|
            0 <= j < vs.len() ==> vs[j].address@ != address,
    decreases vs.len(),
{
    if vs.len() > 0 && vs[0].address@ != address {
        lemma_validator_position(vs.drop_first(), address);
        assert forall|j: int| 0 <= j < validator_position(vs, address) implies vs[j].address@
            != address by {
            if j > 0 {
                assert(vs[j] == vs.drop_first()[j - 1]);
            }
        }
        if validator_position(vs, address) < 0 {
            assert forall|j: int| 0 <= j < vs.len() implies vs[j].address@ != address by {
                if j > 0 {
                    assert(vs[j] == vs.drop_first()[j - 1]);
                }
            }
        }
    }
}

proof fn lemma_validator_position_unique(vs: Seq<Validator>, address: Seq<char>, i: int)
    requires
        -1 <= i < vs.len(),
        i >= 0 ==> vs[i].address@ == address,
        forall|j: int| 0 <= j < i ==> vs[j].address@ != address,
        i < 0 ==> forall|j: int| 0 <= j < vs.len() ==> vs[j].address@ != address,
    ensures
        validator_position(vs, address) == i,
{
    lemma_validator_position(vs, address);
    let p = validator_position(vs, address);
    if p >= 0 && i >= 0 {
        if p < i {
            assert(vs[p].address@ != address);
        }
        if i < p {
            assert(vs[i].address@ != address);
        }
    }
    if p < 0 && i >= 0 {
        assert(vs[i].address@ != address);
    }
    if p >= 0 && i < 0 {
        assert(vs[p].address@ != address);
    }
}

/// Appending a block that names the last block's hash and carries its own
/// hash keeps a well-linked chain well linked.
pub proof fn lemma_append_keeps_valid(c: Seq<Block>, b: Block)
    requires
        chain_valid(c),
        c.len() > 0,
        b.previous_hash@ == c.last().hash@,
        b.hash@ == block_hash(b),
    ensures
        chain_valid(c.push(b)),
{
    let c2 = c.push(b);
    assert forall|i: int| #![trigger c2[i]] 1 <= i < c2.len() implies c2[i].previous_hash@ == c2[i
        - 1].hash@ && c2[i].hash@ == block_hash(c2[i]) by {
        if i < c.len() {
            assert(c2[i] == c[i]);
            assert(c2[i - 1] == c[i - 1]);
        }
    }
}

/// A chain is valid exactly when every block after the first names the hash
/// of the block before it and carries the SHA-256 hash of its own contents.
/// So a block after the first whose contents no longer match its stored hash
/// makes the chain invalid, wherever it stands in the chain.
pub proof fn lemma_chain_valid_iff(c: Seq<Block>)
    ensures
        chain_valid(c) <==> forall|i: int|
            #![trigger c[i]]
            1 <= i < c.len() ==> {
                &&& c[i].previous_hash@ == c[i - 1].hash@
                &&& c[i].hash@ == hash_of_contents(
                    c[i].index,
                    c[i].timestamp,
                    c[i].transactions@,
                    c[i].previous_hash@,
                    c[i].validator@,
                )
            },
        forall|i: int|
            1 <= i < c.len() && #[trigger] c[i].hash@ != hash_of_contents(
                c[i].index,
                c[i].timestamp,
                c[i].transactions@,
                c[i].previous_hash@,
                c[i].validator@,
            ) ==> !chain_valid(c),
{
}

/// Forging a block gives quarks to one validator only: the first one whose
/// address is the new block's validator gets three quarks appended to its
/// list (its address, stake and seed unchanged); every other validator is
/// left as it was, and so is every validator when none has that address.
pub proof fn lemma_forged_quarks_go_to_first_match(
    old_chain: Seq<Block>,
    new_chain: Seq<Block>,
    old_vs: Seq<Validator>,
    new_vs: Seq<Validator>,
    old_m: Accounts,
    new_m: Accounts,
    txs: Seq<Transaction>,
)
    requires
        block_forged(old_chain, new_chain, old_vs, new_vs, old_m, new_m, txs),
    ensures
        new_vs.len() == old_vs.len(),
        forall|j: int|
            0 <= j < old_vs.len() && old_vs[j].address@ == new_chain.last().validator@ && (forall|
                k: int,
            |
                0 <= k < j ==> old_vs[k].address@ != new_chain.last().validator@) ==> {
                &&& (#[trigger] new_vs[j]).address == old_vs[j].address
                &&& new_vs[j].staked_hadrons == old_vs[j].staked_hadrons
                &&& new_vs[j].seed == old_vs[j].seed
                &&& new_vs[j].quarks_reward@.len() == old_vs[j].quarks_reward@.len() + 3
                &&& new_vs[j].quarks_reward@.take(old_vs[j].quarks_reward@.len() as int)
                    == old_vs[j].quarks_reward@
            },
        forall|j: int|
            0 <= j < old_vs.len() && !(old_vs[j].address@ == new_chain.last().validator@ && (forall|
                k: int,
            |
                0 <= k < j ==> old_vs[k].address@ != new_chain.last().validator@)) ==> #[trigger] new_vs[j]
                == old_vs[j],
{
    let a = new_chain.last().validator@;
    lemma_validator_position(old_vs, a);
    let p = validator_position(old_vs, a);
    assert forall|j: int|
        0 <= j < old_vs.len() && old_vs[j].address@ == a && (forall|k: int|
            0 <= k < j ==> old_vs[k].address@ != a) implies j == p by {
        if p < 0 {
            assert(old_vs[j].address@ != a);
        } else if p < j {
            assert(old_vs[p].address@ != a);
        } else if j < p {
            assert(old_vs[j].address@ != a);
        }
    }
    assert forall|j: int|
        0 <= j < old_vs.len() && !(old_vs[j].address@ == a && (forall|k: int|
            0 <= k < j ==> old_vs[k].address@ != a)) implies #[trigger] new_vs[j] == old_vs[j] by {
        if j == p {
            assert(old_vs[p].address@ == a);
        }
    }
}

/// Applying a block's transfers in order never raises the supply: each one
/// that goes through burns its fee, each one that fails changes nothing.
pub proof fn lemma_transfers_supply(m: Accounts, txs: Seq<Transaction>)
    requires
        transfers_fit(m, txs),
    ensures
        supply(after_transfers(m, txs)) <= supply(m),
    decreases txs.len(),
{
    if txs.len() > 0 {
        let prefix = txs.drop_last();
        assert forall|k: int| 0 <= k < prefix.len() && is_authorized(#[trigger] prefix[k]) implies transfer_fits(
            after_transfers(m, prefix.take(k)),
            prefix[k],
        ) by {
            assert(prefix[k] == txs[k]);
            assert(prefix.take(k) =~= txs.take(k));
        }
        lemma_transfers_supply(m, prefix);
        let mid = after_transfers(m, prefix);
        assert(txs.take(txs.len() - 1) =~= prefix);
        lemma_transfer_supply(mid, txs.last());
    }
}

/// On a ledger whose supply plus 1000 fits in a `u64`, no balance a block
/// touches can overflow once each signed transfer's amount plus fee fits:
/// the transfers fit, and so does the reward to any address.
pub proof fn lemma_supply_bound_suffices(m: Accounts, txs: Seq<Transaction>, address: Seq<char>, reward: u64)
    requires
        supply(m) + 1000 <= u64::MAX,
        reward <= 1000,
        forall|k: int|
            0 <= k < txs.len() && is_authorized(#[trigger] txs[k]) ==> txs[k].amount + txs[k].fee
                <= u64::MAX,
    ensures
        transfers_fit(m, txs),
        reward_fits(after_transfers(m, txs), address, reward),
    decreases txs.len(),
{
    if txs.len() > 0 {
        let prefix = txs.drop_last();
        assert forall|k: int| 0 <= k < prefix.len() && is_authorized(#[trigger] prefix[k]) implies prefix[k].amount
            + prefix[k].fee <= u64::MAX by {
            assert(prefix[k] == txs[k]);
        }
        lemma_supply_bound_suffices(m, prefix, address, reward);
        lemma_transfers_supply(m, prefix);
        let mid = after_transfers(m, prefix);
        assert(txs.take(txs.len() - 1) =~= prefix);
        assert forall|k: int| 0 <= k < txs.len() && is_authorized(#[trigger] txs[k]) implies transfer_fits(
            after_transfers(m, txs.take(k)),
            txs[k],
        ) by {
            if k < txs.len() - 1 {
                assert(prefix[k] == txs[k]);
                assert(prefix.take(k) =~= txs.take(k));
            } else {
                lemma_transfer_fits_within_supply(mid, txs[k]);
            }
        }
        if is_authorized(txs.last()) {
            lemma_transfer_fits_within_supply(mid, txs.last());
        }
        lemma_transfer_supply(mid, txs.last());
    } else {
        assert(transfers_fit(m, txs));
    }
    crate::ledger::lemma_balance_within_supply(after_transfers(m, txs), address);
    lemma_transfers_supply(m, txs);
}

/// A ledger whose supply fits in a `u64` cannot overflow on any transfer
/// whose amount plus fee fits.
pub proof fn lemma_transfer_fits_within_supply(m: Accounts, tx: Transaction)
    requires
        supply(m) <= u64::MAX,
        tx.amount + tx.fee <= u64::MAX,
    ensures
        transfer_fits(m, tx),
{
    if tx.from@ != tx.to@ {
        crate::ledger::lemma_two_balances_within_supply(m, tx.from@, tx.to@);
    }
}

/// The explorer's line for one block.
pub open spec fn explorer_line(b: Block) -> Seq<char> {
    "<p>#"@ + decimal(b.index as nat) + " - "@ + b.hash@ + " - validator: "@ + b.validator@ + "</p>"@
}

/// The explorer's lines for the blocks of `c`, last block first.
pub open spec fn explorer_lines(c: Seq<Block>) -> Seq<char>
    decreases c.len(),
{
    if c.len() == 0 {
        Seq::empty()
    } else {
        explorer_lines(c.drop_first()) + explorer_line(c[0])
    }
}

/// The explorer shows nothing for an empty chain, and appending a block
/// puts exactly that block's line on top of the lines already shown: one
/// line per block, newest first, none left out.
pub proof fn lemma_explorer_lines_push(c: Seq<Block>, b: Block)
    ensures
        explorer_lines(Seq::<Block>::empty()) == Seq::<char>::empty(),
        explorer_lines(c.push(b)) == explorer_line(b) + explorer_lines(c),
    decreases c.len(),
{
    let c2 = c.push(b);
    if c.len() == 0 {
        assert(c2.drop_first() =~= Seq::<Block>::empty());
        assert(explorer_lines(c2.drop_first()) == Seq::<char>::empty());
        assert(explorer_lines(c) == Seq::<char>::empty());
        assert(c2[0] == b);
        assert(explorer_lines(c2) =~= explorer_line(b) + explorer_lines(c));
    } else {
        assert(c2.drop_first() =~= c.drop_first().push(b));
        lemma_explorer_lines_push(c.drop_first(), b);
        assert(c2[0] == c[0]);
        let rest = explorer_lines(c.drop_first());
        assert(explorer_lines(c2) == explorer_lines(c.drop_first().push(b)) + explorer_line(c[0]));
        assert(explorer_lines(c) == rest + explorer_line(c[0]));
        assert((explorer_line(b) + rest) + explorer_line(c[0]) =~= explorer_line(b) + (rest
            + explorer_line(c[0])));
    }
}

/// The position of the first validator with this address.
pub(crate) fn find_validator(validators: &[Validator], address: &str) -> (res: Option<usize>)
    ensures
        match res {
            Some(i) => validator_position(validators@, address@) == i && i < validators@.len(),
            None => validator_position(validators@, address@) < 0,
        },
{
    let n = validators.len();
    let mut i: usize = 0;
    while i < n
        invariant
            n == validators@.len(),
            0 <= i <= n,
            forall|j: int| 0 <= j < i ==> validators@[j].address@ != address@,
        decreases n - i,
    {
        if crate::text::same_text(validators[i].address.as_str(), address) {
            proof {
                lemma_validator_position_unique(validators@, address@, i as int);
            }
            return Some(i);
        }
        i = i + 1;
    }
    proof {
        lemma_validator_position_unique(validators@, address@, -1);
    }
    None
}

impl Block {
    /// A block made now: its timestamp is read from the clock, and its hash
    /// is computed from its contents.
    pub fn new(index: u64, transactions: Vec<Transaction>, previous_hash: String, validator: String) -> (res: Block)
        ensures
            res.index == index,
            res.transactions == transactions,
            res.previous_hash == previous_hash,
            res.validator == validator,
            res.hash@ == block_hash(res),
    {
        let timestamp = current_timestamp();
        Block::new_at(index, timestamp, transactions, previous_hash, validator)
    }

    /// A block made at `timestamp`, its hash computed from its contents.
    pub fn new_at(
        index: u64,
        timestamp: i64,
        transactions: Vec<Transaction>,
        previous_hash: String,
        validator: String,
    ) -> (res: Block)
        ensures
            res.index == index,
            res.timestamp == timestamp,
            res.transactions == transactions,
            res.previous_hash == previous_hash,
            res.validator == validator,
            res.hash@ == block_hash(res),
            res.hash@.len() == 64,
    {
        let mut block = Block {
            index,
            timestamp,
            transactions,
            previous_hash,
            hash: String::new(),
            validator,
        };
        block.hash = block.calculate_hash();
        block
    }

    /// The hash the block's contents call for: the lower-case hexadecimal
    /// SHA-256 digest of its height, timestamp, transactions (as `Debug`
    /// writes them), previous hash and validator, written one after another.
    pub fn calculate_hash(&self) -> (res: String)
        ensures
            res@ == block_hash(*self),
            res@.len() == 64,
    {
        let mut data = String::new();
        push_decimal(&mut data, self.index);
        push_signed_decimal(&mut data, self.timestamp);
        push_transaction_list_debug(&mut data, self.transactions.as_slice());
        data.append(self.previous_hash.as_str());
        data.append(self.validator.as_str());
        assert(data@ =~= block_preimage(
            self.index,
            self.timestamp,
            self.transactions@,
            self.previous_hash@,
            self.validator@,
        ));
        let digest = sha256(data.as_str().as_bytes());
        let mut out = String::new();
        push_lower_hex(&mut out, &digest);
        assert(out@ =~= block_hash(*self));
        proof {
            crate::text::lemma_lower_hex_len(digest@);
        }
        out
    }
}

/// The chain of blocks, genesis first.
pub struct Blockchain {
    pub chain: Vec<Block>,
}

impl Blockchain {
    /// A chain holding only the genesis block: height 0, no transactions,
    /// previous hash `"0"`, validator `"genesis"`.
    pub fn new() -> (res: Blockchain)
        ensures
            res.chain@.len() == 1,
            res.chain@[0].index == 0,
            res.chain@[0].transactions@.len() == 0,
            res.chain@[0].previous_hash@ == "0"@,
            res.chain@[0].validator@ == "genesis"@,
            res.chain@[0].hash@ == block_hash(res.chain@[0]),
            chain_valid(res.chain@),
    {
        let genesis = Block::new(0, Vec::new(), String::from_str("0"), String::from_str("genesis"));
        let mut chain: Vec<Block> = Vec::new();
        chain.push(genesis);
        Blockchain { chain }
    }

    /// The last block of the chain.
    pub fn latest_block(&self) -> (res: &Block)
        requires
            self.chain@.len() > 0,
        ensures
            *res == self.chain@.last(),
    {
        &self.chain[self.chain.len() - 1]
    }

    /// Forges the next block: applies `transactions` to the ledger in order
    /// (a transfer that fails is skipped), draws a validator from the last
    /// block's hash, gives the first validator with the drawn address three
    /// random quarks, credits it the block reward (1000 halved every 10
    /// blocks, at most 20 times) unless there was nobody to draw, and appends
    /// a block holding the transactions, linked to the last block. A well
    /// linked chain stays well linked. It is called only where no balance it
    /// touches overflows (`try_add_block` checks that first).
    pub fn add_block(&mut self, transactions: Vec<Transaction>, validators: &mut [Validator], ledger: &mut Ledger)
        requires
            old(self).chain@.len() > 0,
            old(self).chain@.last().index < u64::MAX,
            validator_count_fits(old(validators)@.len()),
            transfers_fit(old(ledger).balances@, transactions@),
            reward_fits(
                after_transfers(old(ledger).balances@, transactions@),
                drawn_address(old(validators)@, old(self).chain@.last().hash@),
                block_reward(old(self).chain@.len() as nat),
            ),
        ensures
            block_forged(
                old(self).chain@,
                final(self).chain@,
                old(validators)@,
                final(validators)@,
                old(ledger).balances@,
                final(ledger).balances@,
                transactions@,
            ),
            chain_valid(old(self).chain@) ==> chain_valid(final(self).chain@),
            supply(final(ledger).balances@) <= supply(old(ledger).balances@) + block_reward(
                old(self).chain@.len() as nat,
            ),
    {
        let ghost m0 = ledger.balances@;
        let n = transactions.len();
        let mut k: usize = 0;
        proof {
            assert(transactions@.take(0) =~= Seq::<Transaction>::empty());
        }
        while k < n
            invariant
                n == transactions@.len(),
                0 <= k <= n,
                ledger.balances@ == after_transfers(m0, transactions@.take(k as int)),
                supply(ledger.balances@) <= supply(m0),
                transfers_fit(m0, transactions@),
            decreases n - k,
        {
            let ghost before = ledger.balances@;
            proof {
                assert(is_authorized(transactions@[k as int]) ==> transfer_fits(
                    after_transfers(m0, transactions@.take(k as int)),
                    transactions@[k as int],
                ));
                lemma_transfer_supply(before, transactions@[k as int]);
            }
            ledger.apply_transactions(&transactions[k]);
            proof {
                let t = transactions@.take(k + 1);
                assert(t.drop_last() =~= transactions@.take(k as int));
                assert(t.last() == transactions@[k as int]);
            }
            k = k + 1;
        }
        assert(transactions@.take(n as int) =~= transactions@);
        let ghost m1 = ledger.balances@;
        let previous_hash_for_selection = self.latest_block().hash.clone();
        let validator_addr: String = match select_validator(validators, previous_hash_for_selection.as_str()) {
            Some(v) => v.address.clone(),
            None => String::from_str("none"),
        };
        assert(validator_addr@ == drawn_address(old(validators)@, old(self).chain@.last().hash@));
        let reward = reward_for_height(self.chain.len());
        let position = find_validator(validators, validator_addr.as_str());
        match position {
            Some(i) => {
                let ghost q0 = validators@[i as int].quarks_reward@;
                let mut r: usize = 0;
                while r < 3
                    invariant
                        0 <= r <= 3,
                        i < validators@.len(),
                        validators@.len() == old(validators)@.len(),
                        forall|j: int|
                            0 <= j < validators@.len() && j != i ==> #[trigger] validators@[j]
                                == old(validators)@[j],
                        validators@[i as int].address == old(validators)@[i as int].address,
                        validators@[i as int].staked_hadrons == old(validators)@[i as int].staked_hadrons,
                        validators@[i as int].seed == old(validators)@[i as int].seed,
                        q0 == old(validators)@[i as int].quarks_reward@,
                        validators@[i as int].quarks_reward@.len() == q0.len() + r,
                        validators@[i as int].quarks_reward@.take(q0.len() as int) == q0,
                    decreases 3 - r,
                {
                    let q = random_quark();
                    validators[i].quarks_reward.push(q);
                    r = r + 1;
                }
            },
            None => {},
        }
        let is_none = crate::text::same_text(validator_addr.as_str(), "none");
        if !is_none {
            let current = ledger.balances.balance_of(validator_addr.as_str());
            ledger.balances.insert(validator_addr.clone(), current + reward);
        }
        proof {
            if !is_none {
                lemma_with_balance_supply(m1, validator_addr@, (balance_in(m1, validator_addr@) + reward) as u64);
            }
        }
        let previous_hash = self.latest_block().hash.clone();
        let index = self.latest_block().index + 1;
        let block = Block::new(index, transactions, previous_hash, validator_addr);
        proof {
            if chain_valid(self.chain@) {
                lemma_append_keeps_valid(self.chain@, block);
            }
        }
        self.chain.push(block);
    }

    /// Forges the next block as `add_block` does when no balance it touches
    /// would overflow, and returns `true`; otherwise changes nothing and
    /// returns `false`. The check is a dry run of the transfers on a copy of
    /// the balances, then of the reward.
    pub fn try_add_block(
        &mut self,
        transactions: Vec<Transaction>,
        validators: &mut [Validator],
        ledger: &mut Ledger,
    ) -> (res: bool)
        requires
            old(self).chain@.len() > 0,
            old(self).chain@.last().index < u64::MAX,
            validator_count_fits(old(validators)@.len()),
        ensures
            res == (transfers_fit(old(ledger).balances@, transactions@) && reward_fits(
                after_transfers(old(ledger).balances@, transactions@),
                drawn_address(old(validators)@, old(self).chain@.last().hash@),
                block_reward(old(self).chain@.len() as nat),
            )),
            res ==> block_forged(
                old(self).chain@,
                final(self).chain@,
                old(validators)@,
                final(validators)@,
                old(ledger).balances@,
                final(ledger).balances@,
                transactions@,
            ),
            !res ==> {
                &&& final(self).chain@ == old(self).chain@
                &&& final(validators)@ == old(validators)@
                &&& final(ledger).balances@ == old(ledger).balances@
            },
            chain_valid(old(self).chain@) ==> chain_valid(final(self).chain@),
    {
        let ghost m0 = ledger.balances@;
        let mut trial = Ledger { balances: ledger.balances.duplicate() };
        let n = transactions.len();
        let mut k: usize = 0;
        assert(transactions@.take(0) =~= Seq::<Transaction>::empty());
        while k < n
            invariant
                n == transactions@.len(),
                0 <= k <= n,
                m0 == ledger.balances@,
                trial.balances@ == after_transfers(m0, transactions@.take(k as int)),
                forall|j: int|
                    0 <= j < k && is_authorized(#[trigger] transactions@[j]) ==> transfer_fits(
                        after_transfers(m0, transactions@.take(j)),
                        transactions@[j],
                    ),
            decreases n - k,
        {
            let tx = &transactions[k];
            if tx.verify() && !trial.transfer_would_fit(tx) {
                assert(!transfers_fit(m0, transactions@));
                return false;
            }
            trial.apply_transactions(tx);
            proof {
                let t = transactions@.take(k + 1);
                assert(t.drop_last() =~= transactions@.take(k as int));
                assert(t.last() == transactions@[k as int]);
            }
            k = k + 1;
        }
        assert(transactions@.take(n as int) =~= transactions@);
        assert(transfers_fit(m0, transactions@));
        let last_hash = self.latest_block().hash.clone();
        let address: String = match select_validator(validators, last_hash.as_str()) {
            Some(v) => v.address.clone(),
            None => String::from_str("none"),
        };
        assert(address@ == drawn_address(old(validators)@, old(self).chain@.last().hash@));
        if !crate::text::same_text(address.as_str(), "none") {
            let reward = reward_for_height(self.chain.len());
            let current = trial.balances.balance_of(address.as_str());
            if current > u64::MAX - reward {
                return false;
            }
        }
        self.add_block(transactions, validators, ledger);
        true
    }

    /// Replaces the chain with `received` when `received` is longer and well
    /// linked (the longest valid chain wins); returns whether it did.
    pub fn try_adopt(&mut self, received: Vec<Block>) -> (res: bool)
        ensures
            res == (received@.len() > old(self).chain@.len() && chain_valid(received@)),
            res == (received@.len() > old(self).chain@.len() && forall|i: int|
                #![trigger received@[i]]
                1 <= i < received@.len() ==> {
                    &&& received@[i].previous_hash@ == received@[i - 1].hash@
                    &&& received@[i].hash@ == hash_of_contents(
                        received@[i].index,
                        received@[i].timestamp,
                        received@[i].transactions@,
                        received@[i].previous_hash@,
                        received@[i].validator@,
                    )
                }),
            res ==> final(self).chain@ == received@,
            !res ==> final(self).chain@ == old(self).chain@,
    {
        proof {
            lemma_chain_valid_iff(received@);
        }
        let candidate = Blockchain { chain: received };
        if candidate.chain.len() > self.chain.len() && candidate.is_valid() {
            self.chain = candidate.chain;
            true
        } else {
            false
        }
    }

    /// The block explorer page: a heading, then one line per block, newest
    /// first, giving its height, hash and validator.
    pub fn explorer_page(&self) -> (res: String)
        ensures
            res@ == "<h1>Quark Explorer</h1>"@ + explorer_lines(self.chain@),
    {
        let mut html = String::from_str("<h1>Quark Explorer</h1>");
        let ghost head = html@;
        let n = self.chain.len();
        let mut i: usize = n;
        proof {
            assert(self.chain@.subrange(n as int, n as int) =~= Seq::<Block>::empty());
        }
        while i > 0
            invariant
                n == self.chain@.len(),
                0 <= i <= n,
                html@ == head + explorer_lines(self.chain@.subrange(i as int, n as int)),
            decreases i,
        {
            i = i - 1;
            let b = &self.chain[i];
            html.append("<p>#");
            push_decimal(&mut html, b.index);
            html.append(" - ");
            html.append(b.hash.as_str());
            html.append(" - validator: ");
            html.append(b.validator.as_str());
            html.append("</p>");
            proof {
                let s = self.chain@.subrange(i as int, n as int);
                assert(s.drop_first() =~= self.chain@.subrange(i + 1, n as int));
                assert(s[0] == self.chain@[i as int]);
                assert(html@ =~= head + explorer_lines(s));
            }
        }
        assert(self.chain@.subrange(0, n as int) =~= self.chain@);
        html
    }

    /// Whether the chain is well linked (see `chain_valid`).
    pub fn is_valid(&self) -> (res: bool)
        ensures
            res == chain_valid(self.chain@),
            res == forall|i: int|
                #![trigger self.chain@[i]]
                1 <= i < self.chain@.len() ==> {
                    &&& self.chain@[i].previous_hash@ == self.chain@[i - 1].hash@
                    &&& self.chain@[i].hash@ == hash_of_contents(
                        self.chain@[i].index,
                        self.chain@[i].timestamp,
                        self.chain@[i].transactions@,
                        self.chain@[i].previous_hash@,
                        self.chain@[i].validator@,
                    )
                },
    {
        proof {
            lemma_chain_valid_iff(self.chain@);
        }
        let n = self.chain.len();
        let mut i: usize = 1;
        while i < n
            invariant
                n == self.chain@.len(),
                1 <= i,
                i <= n || n == 0,
                forall|j: int|
                    #![trigger self.chain@[j]]
                    1 <= j < i && j < n ==> self.chain@[j].previous_hash@ == self.chain@[j
                        - 1].hash@ && self.chain@[j].hash@ == block_hash(self.chain@[j]),
            decreases n - i,
        {
            let current = &self.chain[i];
            let previous = &self.chain[i - 1];
            if current.previous_hash != previous.hash {
                return false;
            }
            if current.hash != current.calculate_hash() {
                return false;
            }
            i = i + 1;
        }
        true
    }
}

} // verus!
