//! Account balances and the rule that applies a signed transfer to them.

use vstd::prelude::*;
use crate::transaction::{is_authorized, Transaction};

verus! {

/// A list of accounts and their balances, in the order the accounts were
/// first credited.
pub type Accounts = Seq<(Seq<char>, u64)>;

/// The position of the first entry for `key`, or -1 when there is none.
pub open spec fn position(m: Accounts, key: Seq<char>) -> int
    decreases m.len(),
{
    if m.len() == 0 {
        -1
    } else if m[0].0 == key {
        0
    } else {
        let p = position(m.drop_first(), key);
        if p < 0 {
            -1
        } else {
            p + 1
        }
    }
}

/// The balance of `key`: that of its first entry, 0 for an unknown account.
pub open spec fn balance_in(m: Accounts, key: Seq<char>) -> u64 {
    let p = position(m, key);
    if p < 0 {
        0
    } else {
        m[p].1
    }
}

/// The accounts with `key`'s balance set to `value`: its first entry is
/// updated, or a new entry is added at the end.
pub open spec fn with_balance(m: Accounts, key: Seq<char>, value: u64) -> Accounts {
    let p = position(m, key);
    if p < 0 {
        m.push((key, value))
    } else {
        m.update(p, (key, value))
    }
}

/// The sum of all balances.
pub open spec fn supply(m: Accounts) -> nat
    decreases m.len(),
{
    if m.len() == 0 {
        0
    } else {
        supply(m.drop_last()) + m.last().1 as nat
    }
}

/// The position is the first entry whose key matches, or -1 when none does.
pub proof fn lemma_position(m: Accounts, key: Seq<char>)
    ensures
        -1 <= position(m, key) < m.len(),
        position(m, key) >= 0 ==> m[position(m, key)].0 == key,
        forall|j: int| 0 <= j < position(m, key) ==> m[j].0 != key,
        position(m, key) < 0 ==> forall|j: int| 0 <= j < m.len() ==> m[j].0 != key,
    decreases m.len(),
{
    if m.len() > 0 && m[0].0 != key {
        lemma_position(m.drop_first(), key);
        assert forall|j: int| 0 <= j < position(m, key) implies m[j].0 != key by {
            if j > 0 {
                assert(m[j] == m.drop_first()[j - 1]);
            }
        }
        if position(m, key) < 0 {
            assert forall|j: int| 0 <= j < m.len() implies m[j].0 != key by {
                if j > 0 {
                    assert(m[j] == m.drop_first()[j - 1]);
                }
            }
        }
    }
}

/// A position is determined by its defining property.
proof fn lemma_position_unique(m: Accounts, key: Seq<char>, i: int)
    requires
        -1 <= i < m.len(),
        i >= 0 ==> m[i].0 == key,
        forall|j: int| 0 <= j < i ==> m[j].0 != key,
        i < 0 ==> forall|j: int| 0 <= j < m.len() ==> m[j].0 != key,
    ensures
        position(m, key) == i,
{
    lemma_position(m, key);
    let p = position(m, key);
    if p >= 0 && i >= 0 {
        if p < i {
            assert(m[p].0 != key);
        }
        if i < p {
            assert(m[i].0 != key);
        }
    }
    if p < 0 && i >= 0 {
        assert(m[i].0 != key);
    }
    if p >= 0 && i < 0 {
        assert(m[p].0 != key);
    }
}

/// Setting a balance sets that account and leaves every other one as it was.
pub proof fn lemma_with_balance(m: Accounts, key: Seq<char>, value: u64, other: Seq<char>)
    ensures
        balance_in(with_balance(m, key, value), key) == value,
        other != key ==> balance_in(with_balance(m, key, value), other) == balance_in(m, other),
{
    lemma_position(m, key);
    lemma_position(m, other);
    let m2 = with_balance(m, key, value);
    let p = position(m, key);
    let q = position(m, other);
    if p < 0 {
        lemma_position_unique(m2, key, m.len() as int);
        if other != key {
            if q < 0 {
                lemma_position_unique(m2, other, -1);
            } else {
                lemma_position_unique(m2, other, q);
            }
        }
    } else {
        lemma_position_unique(m2, key, p);
        if other != key {
            if q < 0 {
                lemma_position_unique(m2, other, -1);
            } else {
                lemma_position_unique(m2, other, q);
            }
        }
    }
}

proof fn lemma_supply_update(m: Accounts, i: int, e: (Seq<char>, u64))
    requires
        0 <= i < m.len(),
    ensures
        supply(m.update(i, e)) + m[i].1 == supply(m) + e.1,
    decreases m.len(),
{
    if i < m.len() - 1 {
        lemma_supply_update(m.drop_last(), i, e);
        assert(m.update(i, e).drop_last() =~= m.drop_last().update(i, e));
    } else {
        assert(m.update(i, e).drop_last() =~= m.drop_last());
    }
}

/// Setting a balance changes the supply by the difference.
pub proof fn lemma_with_balance_supply(m: Accounts, key: Seq<char>, value: u64)
    ensures
        supply(with_balance(m, key, value)) + balance_in(m, key) == supply(m) + value,
{
    lemma_position(m, key);
    let p = position(m, key);
    if p < 0 {
        assert(m.push((key, value)).drop_last() =~= m);
    } else {
        lemma_supply_update(m, p, (key, value));
    }
}

proof fn lemma_supply_two_entries(m: Accounts, i: int, j: int)
    requires
        0 <= i < m.len(),
        0 <= j < m.len(),
        i != j,
    ensures
        m[i].1 + m[j].1 <= supply(m),
    decreases m.len(),
{
    let n = m.len() - 1;
    lemma_supply_one_entry(m.drop_last(), if i == n { j } else { i });
    if i != n && j != n {
        lemma_supply_two_entries(m.drop_last(), i, j);
    }
}

proof fn lemma_supply_one_entry(m: Accounts, i: int)
    requires
        0 <= i < m.len(),
    ensures
        m[i].1 <= supply(m),
    decreases m.len(),
{
    if i < m.len() - 1 {
        lemma_supply_one_entry(m.drop_last(), i);
    }
}

proof fn lemma_supply_prefix_monotone(m: Accounts, k: int)
    requires
        0 <= k <= m.len(),
    ensures
        supply(m.take(k)) <= supply(m),
    decreases m.len() - k,
{
    if k < m.len() {
        lemma_supply_prefix_monotone(m, k + 1);
        let t = m.take(k + 1);
        assert(t.drop_last() =~= m.take(k));
    } else {
        assert(m.take(k) =~= m);
    }
}

/// No account holds more than the supply.
pub proof fn lemma_balance_within_supply(m: Accounts, a: Seq<char>)
    ensures
        balance_in(m, a) <= supply(m),
{
    lemma_position(m, a);
    if position(m, a) >= 0 {
        lemma_supply_one_entry(m, position(m, a));
    }
}

/// Two different accounts together hold no more than the supply.
pub proof fn lemma_two_balances_within_supply(m: Accounts, a: Seq<char>, b: Seq<char>)
    requires
        a != b,
    ensures
        balance_in(m, a) + balance_in(m, b) <= supply(m),
{
    lemma_position(m, a);
    lemma_position(m, b);
    let p = position(m, a);
    let q = position(m, b);
    if p >= 0 && q >= 0 {
        lemma_supply_two_entries(m, p, q);
    } else if p >= 0 {
        lemma_supply_one_entry(m, p);
    } else if q >= 0 {
        lemma_supply_one_entry(m, q);
    }
}

/// Whether applying `tx` to `m` cannot overflow a balance: the amount plus
/// the fee fits in a `u64`, and a recipient other than the sender can take
/// the amount whenever the sender can pay.
pub open spec fn transfer_fits(m: Accounts, tx: Transaction) -> bool {
    &&& tx.amount + tx.fee <= u64::MAX
    &&& (balance_in(m, tx.from@) >= tx.amount + tx.fee && tx.from@ != tx.to@) ==> balance_in(m, tx.to@)
        + tx.amount <= u64::MAX
}

/// Whether `tx` goes through on `m`: it is signed by its sender, and the
/// sender holds the amount plus the fee.
pub open spec fn transfer_succeeds(m: Accounts, tx: Transaction) -> bool {
    is_authorized(tx) && balance_in(m, tx.from@) >= tx.amount + tx.fee
}

/// The accounts after `tx`: unchanged when it does not go through; else the
/// sender pays the amount plus the fee, then the recipient receives the
/// amount (the fee leaves circulation).
pub open spec fn after_transfer(m: Accounts, tx: Transaction) -> Accounts {
    if !transfer_succeeds(m, tx) {
        m
    } else {
        let m1 = with_balance(m, tx.from@, (balance_in(m, tx.from@) - (tx.amount + tx.fee)) as u64);
        with_balance(m1, tx.to@, (balance_in(m1, tx.to@) + tx.amount) as u64)
    }
}

/// The accounts after the transactions of a block, applied in order.
pub open spec fn after_transfers(m: Accounts, txs: Seq<Transaction>) -> Accounts
    decreases txs.len(),
{
    if txs.len() == 0 {
        m
    } else {
        after_transfer(after_transfers(m, txs.drop_last()), txs.last())
    }
}

/// A transfer that goes through moves `amount` to the recipient, takes
/// `amount + fee` from the sender, and lowers the supply by exactly the fee;
/// one that does not changes nothing.
pub proof fn lemma_transfer_supply(m: Accounts, tx: Transaction)
    requires
        is_authorized(tx) ==> transfer_fits(m, tx),
    ensures
        transfer_succeeds(m, tx) ==> supply(after_transfer(m, tx)) + tx.fee == supply(m),
        !transfer_succeeds(m, tx) ==> after_transfer(m, tx) == m,
        transfer_succeeds(m, tx) && tx.from@ != tx.to@ ==> {
            &&& balance_in(after_transfer(m, tx), tx.from@) == balance_in(m, tx.from@) - tx.amount
                - tx.fee
            &&& balance_in(after_transfer(m, tx), tx.to@) == balance_in(m, tx.to@) + tx.amount
        },
        transfer_succeeds(m, tx) && tx.from@ == tx.to@ ==> balance_in(after_transfer(m, tx), tx.from@)
            == balance_in(m, tx.from@) - tx.fee,
        forall|k: Seq<char>|
            k != tx.from@ && k != tx.to@ ==> #[trigger] balance_in(after_transfer(m, tx), k)
                == balance_in(m, k),
{
    if transfer_succeeds(m, tx) {
        let total = (tx.amount + tx.fee) as u64;
        let m1 = with_balance(m, tx.from@, (balance_in(m, tx.from@) - total) as u64);
        lemma_with_balance(m, tx.from@, (balance_in(m, tx.from@) - total) as u64, tx.to@);
        lemma_with_balance_supply(m, tx.from@, (balance_in(m, tx.from@) - total) as u64);
        if tx.from@ != tx.to@ {
            lemma_two_balances_within_supply(m, tx.from@, tx.to@);
        }
        let v2 = (balance_in(m1, tx.to@) + tx.amount) as u64;
        lemma_with_balance(m1, tx.to@, v2, tx.from@);
        lemma_with_balance_supply(m1, tx.to@, v2);
        assert forall|k: Seq<char>| k != tx.from@ && k != tx.to@ implies #[trigger] balance_in(
            after_transfer(m, tx),
            k,
        ) == balance_in(m, k) by {
            lemma_with_balance(m, tx.from@, (balance_in(m, tx.from@) - total) as u64, k);
            lemma_with_balance(m1, tx.to@, v2, k);
        }
    }
}

/// A transfer goes through exactly when it is signed by its sender and the
/// sender's balance covers the amount plus the fee, whatever the fee (0
/// included). Then the sender pays the amount plus the fee and the recipient
/// receives the amount (a transfer to oneself costs only the fee), and every
/// other balance stays; otherwise the accounts are left exactly as they were.
pub proof fn lemma_transfer_rule(m: Accounts, tx: Transaction)
    requires
        is_authorized(tx) ==> transfer_fits(m, tx),
    ensures
        transfer_succeeds(m, tx) <==> (is_authorized(tx) && balance_in(m, tx.from@) >= tx.amount
            + tx.fee),
        is_authorized(tx) && balance_in(m, tx.from@) >= tx.amount + tx.fee && tx.from@ != tx.to@
            ==> {
            &&& balance_in(after_transfer(m, tx), tx.from@) == balance_in(m, tx.from@) - tx.amount
                - tx.fee
            &&& balance_in(after_transfer(m, tx), tx.to@) == balance_in(m, tx.to@) + tx.amount
        },
        is_authorized(tx) && balance_in(m, tx.from@) >= tx.amount + tx.fee && tx.from@ == tx.to@
            ==> balance_in(after_transfer(m, tx), tx.from@) == balance_in(m, tx.from@) - tx.fee,
        forall|k: Seq<char>|
            k != tx.from@ && k != tx.to@ ==> #[trigger] balance_in(after_transfer(m, tx), k)
                == balance_in(m, k),
        !(is_authorized(tx) && balance_in(m, tx.from@) >= tx.amount + tx.fee) ==> after_transfer(
            m,
            tx,
        ) == m,
{
    lemma_transfer_supply(m, tx);
}

/// Whether no address has two entries.
pub open spec fn distinct_keys(m: Accounts) -> bool {
    forall|i: int, j: int| 0 <= i < j < m.len() ==> #[trigger] m[i].0 != #[trigger] m[j].0
}

/// Setting a balance never gives an address a second entry.
pub proof fn lemma_with_balance_keeps_keys_distinct(m: Accounts, key: Seq<char>, value: u64)
    requires
        distinct_keys(m),
    ensures
        distinct_keys(with_balance(m, key, value)),
{
    lemma_position(m, key);
    let m2 = with_balance(m, key, value);
    assert forall|i: int, j: int| 0 <= i < j < m2.len() implies #[trigger] m2[i].0 != #[trigger] m2[j].0 by {
        if position(m, key) < 0 {
            if j == m.len() {
                assert(m[i].0 != key);
            } else {
                assert(m2[i] == m[i] && m2[j] == m[j]);
            }
        } else {
            let p = position(m, key);
            if i == p {
                assert(m[j].0 != m[p].0);
            } else if j == p {
                assert(m[i].0 != m[p].0);
            } else {
                assert(m2[i] == m[i] && m2[j] == m[j]);
            }
        }
    }
}

/// Accounts and their balances, looked up by address; no address has two
/// entries.
pub struct Balances {
    entries: Vec<(String, u64)>,
}

impl View for Balances {
    type V = Accounts;

    closed spec fn view(&self) -> Accounts {
        self.entries@.map_values(|e: (String, u64)| (e.0@, e.1))
    }
}

impl Balances {
    #[verifier::type_invariant]
    spec fn keys_distinct(self) -> bool {
        distinct_keys(self@)
    }

    /// No accounts.
    pub fn new() -> (res: Balances)
        ensures
            res@ == Seq::<(Seq<char>, u64)>::empty(),
            distinct_keys(res@),
    {
        let res = Balances { entries: Vec::new() };
        assert(res@ =~= Seq::<(Seq<char>, u64)>::empty());
        res
    }

    /// The number of accounts.
    pub fn len(&self) -> (res: usize)
        ensures
            res == self@.len(),
    {
        self.entries.len()
    }

    fn find(&self, key: &str) -> (res: Option<usize>)
        ensures
            match res {
                Some(i) => position(self@, key@) == i,
                None => position(self@, key@) < 0,
            },
            res matches Some(i) ==> i < self.entries@.len() && self@[i as int] == (
                self.entries@[i as int].0@,
                self.entries@[i as int].1,
            ),
            self@.len() == self.entries@.len(),
    {
        let n = self.entries.len();
        let mut i: usize = 0;
        while i < n
            invariant
                n == self@.len(),
                n == self.entries@.len(),
                0 <= i <= n,
                forall|j: int| 0 <= j < i ==> self@[j].0 != key@,
            decreases n - i,
        {
            assert(self@[i as int].0 == self.entries@[i as int].0@);
            if crate::text::same_text(self.entries[i].0.as_str(), key) {
                proof {
                    lemma_position_unique(self@, key@, i as int);
                }
                return Some(i);
            }
            i = i + 1;
        }
        proof {
            lemma_position_unique(self@, key@, -1);
        }
        None
    }

    /// The balance of `key`, if it has an account.
    pub fn get(&self, key: &str) -> (res: Option<u64>)
        ensures
            res is Some <==> position(self@, key@) >= 0,
            res matches Some(v) ==> v == balance_in(self@, key@),
    {
        match self.find(key) {
            Some(i) => Some(self.entries[i].1),
            None => None,
        }
    }

    /// The balance of `key`, 0 for an unknown account.
    pub fn balance_of(&self, key: &str) -> (res: u64)
        ensures
            res == balance_in(self@, key@),
    {
        match self.find(key) {
            Some(i) => self.entries[i].1,
            None => 0,
        }
    }

    /// A copy of the balances.
    pub fn duplicate(&self) -> (res: Balances)
        ensures
            res@ == self@,
            distinct_keys(res@),
    {
        proof {
            use_type_invariant(self);
        }
        let n = self.entries.len();
        let mut entries: Vec<(String, u64)> = Vec::new();
        let mut i: usize = 0;
        while i < n
            invariant
                n == self.entries@.len(),
                0 <= i <= n,
                entries@.len() == i,
                forall|j: int|
                    0 <= j < i ==> #[trigger] entries@[j].0@ == self.entries@[j].0@ && entries@[j].1
                        == self.entries@[j].1,
            decreases n - i,
        {
            let key = self.entries[i].0.clone();
            entries.push((key, self.entries[i].1));
            i = i + 1;
        }
        assert(entries@.map_values(|e: (String, u64)| (e.0@, e.1)) =~= self@);
        let res = Balances { entries };
        res
    }

    /// Whether all balances together come to at most `limit`.
    pub fn supply_at_most(&self, limit: u64) -> (res: bool)
        ensures
            res == (supply(self@) <= limit),
    {
        let n = self.entries.len();
        let mut acc: u64 = 0;
        let mut i: usize = 0;
        assert(self@.len() == n);
        assert(self@.take(0) =~= Seq::<(Seq<char>, u64)>::empty());
        while i < n
            invariant
                n == self@.len(),
                n == self.entries@.len(),
                0 <= i <= n,
                acc as nat == supply(self@.take(i as int)),
                acc <= limit,
            decreases n - i,
        {
            let value = self.entries[i].1;
            proof {
                let t = self@.take(i + 1);
                assert(t.drop_last() =~= self@.take(i as int));
                assert(t.last() == self@[i as int]);
                assert(self@[i as int].1 == value);
            }
            if value > limit - acc {
                proof {
                    lemma_supply_prefix_monotone(self@, i + 1);
                }
                return false;
            }
            acc = acc + value;
            i = i + 1;
        }
        assert(self@.take(n as int) =~= self@);
        true
    }

    /// Sets the balance of `key` to `value`, creating the account if needed;
    /// returns the balance it had before, if any.
    pub fn insert(&mut self, key: String, value: u64) -> (res: Option<u64>)
        ensures
            final(self)@ == with_balance(old(self)@, key@, value),
            distinct_keys(final(self)@),
            res is Some <==> position(old(self)@, key@) >= 0,
            res matches Some(v) ==> v == balance_in(old(self)@, key@),
    {
        proof {
            use_type_invariant(&*self);
            lemma_with_balance_keeps_keys_distinct(self@, key@, value);
        }
        let found = self.find(key.as_str());
        let ghost k = key@;
        let mut entries: Vec<(String, u64)> = Vec::new();
        std::mem::swap(&mut entries, &mut self.entries);
        let previous = match found {
            Some(i) => {
                let previous = entries[i].1;
                entries.set(i, (key, value));
                Some(previous)
            },
            None => {
                entries.push((key, value));
                None
            },
        };
        proof {
            let v = entries@.map_values(|e: (String, u64)| (e.0@, e.1));
            match found {
                Some(i) => {
                    assert(v =~= old(self)@.update(i as int, (k, value)));
                },
                None => {
                    assert(v =~= old(self)@.push((k, value)));
                },
            }
        }
        self.entries = entries;
        previous
    }
}

impl<'a> std::ops::Index<&'a str> for Balances {
    type Output = u64;

    /// The balance of an account that exists.
    fn index(&self, key: &'a str) -> (res: &u64)
        ensures
            *res == balance_in(self@, key@),
    {
        let i = self.find(key).unwrap();
        &self.entries[i].1
    }
}

impl<'a> std::ops::Index<&'a String> for Balances {
    type Output = u64;

    /// The balance of an account that exists.
    fn index(&self, key: &'a String) -> (res: &u64)
        ensures
            *res == balance_in(self@, key@),
    {
        let i = self.find(key.as_str()).unwrap();
        &self.entries[i].1
    }
}

impl<'a> vstd::std_specs::core::IndexSpecImpl<&'a String> for Balances {
    open spec fn index_req(&self, key: &&'a String) -> bool {
        position(self@, (*key)@) >= 0
    }
}

impl<'a> vstd::std_specs::core::IndexSpecImpl<&'a str> for Balances {
    open spec fn index_req(&self, key: &&'a str) -> bool {
        position(self@, (*key)@) >= 0
    }
}

/// The balances of every account.
pub struct Ledger {
    pub balances: Balances,
}

impl Ledger {
    /// A ledger with no accounts.
    pub fn new() -> (res: Ledger)
        ensures
            res.balances@ == Seq::<(Seq<char>, u64)>::empty(),
    {
        Ledger { balances: Balances::new() }
    }

    /// Whether applying `tx` cannot overflow a balance (see `transfer_fits`).
    pub fn transfer_would_fit(&self, tx: &Transaction) -> (res: bool)
        ensures
            res == transfer_fits(self.balances@, *tx),
    {
        if tx.amount > u64::MAX - tx.fee {
            return false;
        }
        let total = tx.amount + tx.fee;
        let from_balance = self.balances.balance_of(tx.from.as_str());
        if from_balance >= total && !crate::text::same_text(tx.from.as_str(), tx.to.as_str()) {
            let to_balance = self.balances.balance_of(tx.to.as_str());
            return to_balance <= u64::MAX - tx.amount;
        }
        true
    }

    /// Applies a transfer: when it is signed by its sender and the sender
    /// holds `amount + fee`, the sender pays `amount + fee` and the recipient
    /// receives `amount`, and the result is `true`; otherwise nothing changes
    /// and the result is `false`.
    pub fn apply_transactions(&mut self, tx: &Transaction) -> (res: bool)
        requires
            is_authorized(*tx) ==> transfer_fits(old(self).balances@, *tx),
        ensures
            res == transfer_succeeds(old(self).balances@, *tx),
            final(self).balances@ == after_transfer(old(self).balances@, *tx),
            res == (is_authorized(*tx) && balance_in(old(self).balances@, tx.from@) >= tx.amount
                + tx.fee),
            res && tx.from@ != tx.to@ ==> {
                &&& balance_in(final(self).balances@, tx.from@) == balance_in(
                    old(self).balances@,
                    tx.from@,
                ) - tx.amount - tx.fee
                &&& balance_in(final(self).balances@, tx.to@) == balance_in(
                    old(self).balances@,
                    tx.to@,
                ) + tx.amount
            },
            res && tx.from@ == tx.to@ ==> balance_in(final(self).balances@, tx.from@) == balance_in(
                old(self).balances@,
                tx.from@,
            ) - tx.fee,
            !res ==> final(self).balances@ == old(self).balances@,
    {
        proof {
            lemma_transfer_rule(self.balances@, *tx);
        }
        if !tx.verify() {
            return false;
        }
        let total = tx.amount + tx.fee;
        let from_balance = self.balances.balance_of(tx.from.as_str());
        if from_balance < total {
            return false;
        }
        let ghost m = self.balances@;
        proof {
            lemma_with_balance(m, tx.from@, (from_balance - total) as u64, tx.to@);
            if tx.from@ != tx.to@ {
                lemma_two_balances_within_supply(m, tx.from@, tx.to@);
            }
        }
        self.balances.insert(tx.from.clone(), from_balance - total);
        let to_balance = self.balances.balance_of(tx.to.as_str());
        self.balances.insert(tx.to.clone(), to_balance + tx.amount);
        true
    }
}

} // verus!
