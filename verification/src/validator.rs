//! Validators and the stake-weighted draw that picks who forges a block.

use vstd::prelude::*;
use crate::crypto::{sha256, sha256_digest};
use crate::quark::{Hadron, QuarkType};
use crate::text::{le_bytes, le_value, lemma_le_value_bound, pow256, push_le_bytes, same_text};

verus! {

/// A validator: its address, the hadrons it stakes, the quarks it has been
/// rewarded with, and the seed it contributes to the draw.
pub struct Validator {
    pub address: String,
    pub staked_hadrons: Vec<Hadron>,
    pub quarks_reward: Vec<QuarkType>,
    pub seed: u64,
}

/// The cap on a validator's weight, so that no single validator outweighs
/// the others without bound.
pub const WEIGHT_CAP: u64 = 30;

/// The stake value of one hadron: 3 for a Proton, 2 for a Neutron, 1 for
/// anything else.
pub open spec fn hadron_value(h: Hadron) -> nat {
    if h.kind@ == "Proton"@ {
        3
    } else if h.kind@ == "Neutron"@ {
        2
    } else {
        1
    }
}

/// The sum of the stake values of `hs`.
pub open spec fn stake_sum(hs: Seq<Hadron>) -> nat
    decreases hs.len(),
{
    if hs.len() == 0 {
        0
    } else {
        stake_sum(hs.drop_last()) + hadron_value(hs.last())
    }
}

/// A validator's weight: the sum of its hadrons' values, capped at 30.
pub open spec fn weight_of(v: Validator) -> nat {
    if stake_sum(v.staked_hadrons@) < WEIGHT_CAP {
        stake_sum(v.staked_hadrons@)
    } else {
        WEIGHT_CAP as nat
    }
}

/// The number of tickets a validator holds in the draw: its weight plus one.
pub open spec fn tickets_of(v: Validator) -> nat {
    weight_of(v) + 1
}

/// The total number of tickets held by `vs`.
pub open spec fn total_tickets(vs: Seq<Validator>) -> nat
    decreases vs.len(),
{
    if vs.len() == 0 {
        0
    } else {
        tickets_of(vs[0]) + total_tickets(vs.drop_first())
    }
}

/// The index of the validator holding ticket number `pick`, tickets being
/// laid out validator after validator in order.
pub open spec fn ticket_holder(vs: Seq<Validator>, pick: nat) -> Option<int>
    decreases vs.len(),
{
    if vs.len() == 0 {
        None
    } else if pick < tickets_of(vs[0]) {
        Some(0)
    } else {
        match ticket_holder(vs.drop_first(), (pick - tickets_of(vs[0])) as nat) {
            Some(i) => Some(i + 1),
            None => None,
        }
    }
}

/// The seeds of `vs`, each as its 8 little-endian bytes, one after another.
pub open spec fn seed_bytes(vs: Seq<Validator>) -> Seq<u8>
    decreases vs.len(),
{
    if vs.len() == 0 {
        Seq::empty()
    } else {
        seed_bytes(vs.drop_last()) + le_bytes(vs.last().seed as nat, 8)
    }
}

/// The bytes hashed for the draw: the previous block's hash as UTF-8, then
/// every validator's seed.
pub open spec fn draw_input(previous_hash: Seq<char>, vs: Seq<Validator>) -> Seq<u8> {
    vstd::utf8::encode_utf8(previous_hash) + seed_bytes(vs)
}

/// The number read from the first 8 bytes of a digest, little-endian.
pub open spec fn digest_number(digest: Seq<u8>) -> nat {
    le_value(digest.take(8))
}

/// The validator that a digest designates: the holder of ticket
/// `digest_number(digest) mod total_tickets`, or `None` for no validators.
pub open spec fn drawn_index(vs: Seq<Validator>, digest: Seq<u8>) -> Option<int> {
    if vs.len() == 0 {
        None
    } else {
        ticket_holder(vs, digest_number(digest) % total_tickets(vs))
    }
}

/// The validator that the draw picks for a block following `previous_hash`.
pub open spec fn selected_index(vs: Seq<Validator>, previous_hash: Seq<char>) -> Option<int> {
    drawn_index(vs, sha256_digest(draw_input(previous_hash, vs)))
}

/// More validators than any machine could hold; the draw's ticket count
/// (at most 31 per validator) then fits in a `u64`.
pub open spec fn validator_count_fits(n: nat) -> bool {
    n <= 0x0400_0000_0000_0000
}

impl Validator {
    /// A validator with no hadrons and no quarks yet.
    pub fn new(address: String, seed: u64) -> (res: Validator)
        ensures
            res.address == address,
            res.staked_hadrons@.len() == 0,
            res.quarks_reward@.len() == 0,
            res.seed == seed,
    {
        Validator { address, staked_hadrons: Vec::new(), quarks_reward: Vec::new(), seed }
    }

    /// The validator's weight: the sum of its hadrons' values (Proton 3,
    /// Neutron 2, other 1), capped at 30.
    pub fn weight(&self) -> (res: u64)
        ensures
            res == weight_of(*self),
            res <= WEIGHT_CAP,
    {
        let hs = &self.staked_hadrons;
        let n = hs.len();
        let mut acc: u64 = 0;
        let mut i: usize = 0;
        while i < n
            invariant
                n == hs@.len(),
                hs == self.staked_hadrons,
                0 <= i <= n,
                acc <= WEIGHT_CAP,
                acc as nat == (if stake_sum(hs@.take(i as int)) < WEIGHT_CAP {
                    stake_sum(hs@.take(i as int))
                } else {
                    WEIGHT_CAP as nat
                }),
            decreases n - i,
        {
            let value: u64 = if same_text(hs[i].kind.as_str(), "Proton") {
                3
            } else if same_text(hs[i].kind.as_str(), "Neutron") {
                2
            } else {
                1
            };
            proof {
                let t = hs@.take(i + 1);
                assert(t.drop_last() =~= hs@.take(i as int));
                assert(t.last() == hs@[i as int]);
                assert(value == hadron_value(hs@[i as int]));
            }
            acc = if acc + value < WEIGHT_CAP {
                acc + value
            } else {
                WEIGHT_CAP
            };
            i = i + 1;
        }
        assert(hs@.take(n as int) =~= hs@);
        acc
    }
}

proof fn lemma_total_tickets_bound(vs: Seq<Validator>)
    ensures
        total_tickets(vs) <= 31 * vs.len(),
    decreases vs.len(),
{
    if vs.len() > 0 {
        lemma_total_tickets_bound(vs.drop_first());
    }
}

proof fn lemma_ticket_holder_in_range(vs: Seq<Validator>, pick: nat)
    requires
        pick < total_tickets(vs),
    ensures
        ticket_holder(vs, pick) matches Some(i) && 0 <= i < vs.len(),
    decreases vs.len(),
{
    if vs.len() > 0 && pick >= tickets_of(vs[0]) {
        lemma_ticket_holder_in_range(vs.drop_first(), (pick - tickets_of(vs[0])) as nat);
    }
}

/// Whatever the digest, the draw among one or more validators designates
/// one of them.
pub proof fn lemma_draw_in_range(vs: Seq<Validator>, digest: Seq<u8>)
    requires
        vs.len() > 0,
    ensures
        drawn_index(vs, digest) matches Some(i) && 0 <= i < vs.len(),
{
    assert(total_tickets(vs) >= 1);
    lemma_ticket_holder_in_range(vs, digest_number(digest) % total_tickets(vs));
}

/// Whether two lists of validators agree on what the draw reads: the same
/// number of validators, with the same seeds and weights in the same order.
pub open spec fn same_draw_inputs(v1: Seq<Validator>, v2: Seq<Validator>) -> bool {
    &&& v1.len() == v2.len()
    &&& forall|j: int|
        0 <= j < v1.len() ==> #[trigger] v1[j].seed == v2[j].seed && weight_of(v1[j]) == weight_of(
            v2[j],
        )
}

proof fn lemma_same_inputs_drop_first(v1: Seq<Validator>, v2: Seq<Validator>)
    requires
        same_draw_inputs(v1, v2),
        v1.len() > 0,
    ensures
        same_draw_inputs(v1.drop_first(), v2.drop_first()),
{
    assert forall|j: int| 0 <= j < v1.len() - 1 implies #[trigger] v1.drop_first()[j].seed
        == v2.drop_first()[j].seed && weight_of(v1.drop_first()[j]) == weight_of(v2.drop_first()[j]) by {
        assert(v1.drop_first()[j] == v1[j + 1]);
        assert(v2.drop_first()[j] == v2[j + 1]);
        assert(v1[j + 1].seed == v2[j + 1].seed);
    }
}

proof fn lemma_same_inputs_same_tickets(v1: Seq<Validator>, v2: Seq<Validator>, pick: nat)
    requires
        same_draw_inputs(v1, v2),
    ensures
        total_tickets(v1) == total_tickets(v2),
        ticket_holder(v1, pick) == ticket_holder(v2, pick),
    decreases v1.len(),
{
    if v1.len() > 0 {
        assert(v1[0].seed == v2[0].seed);
        lemma_same_inputs_drop_first(v1, v2);
        lemma_same_inputs_same_tickets(v1.drop_first(), v2.drop_first(), pick);
        if pick >= tickets_of(v1[0]) {
            lemma_same_inputs_same_tickets(
                v1.drop_first(),
                v2.drop_first(),
                (pick - tickets_of(v1[0])) as nat,
            );
        }
    }
}

proof fn lemma_same_inputs_same_seeds(v1: Seq<Validator>, v2: Seq<Validator>)
    requires
        same_draw_inputs(v1, v2),
    ensures
        seed_bytes(v1) == seed_bytes(v2),
    decreases v1.len(),
{
    if v1.len() > 0 {
        let p1 = v1.drop_last();
        let p2 = v2.drop_last();
        assert forall|j: int| 0 <= j < p1.len() implies #[trigger] p1[j].seed == p2[j].seed
            && weight_of(p1[j]) == weight_of(p2[j]) by {
            assert(p1[j] == v1[j]);
            assert(p2[j] == v2[j]);
        }
        lemma_same_inputs_same_seeds(p1, p2);
        assert(v1.last().seed == v2[v2.len() - 1].seed);
    }
}

/// The draw reads only the validators' seeds and weights: two lists that
/// agree on those, in order, draw the same position after the same hash,
/// so every node that holds the same stakes picks the same validator.
pub proof fn lemma_draw_reads_seeds_and_weights(v1: Seq<Validator>, v2: Seq<Validator>, previous_hash: Seq<char>)
    requires
        same_draw_inputs(v1, v2),
    ensures
        selected_index(v1, previous_hash) == selected_index(v2, previous_hash),
{
    lemma_same_inputs_same_seeds(v1, v2);
    assert(draw_input(previous_hash, v1) == draw_input(previous_hash, v2));
    let d = sha256_digest(draw_input(previous_hash, v1));
    lemma_same_inputs_same_tickets(v1, v2, 0);
    if v1.len() > 0 {
        lemma_same_inputs_same_tickets(v1, v2, digest_number(d) % total_tickets(v1));
    }
}

/// A lone validator is always the one drawn.
pub proof fn lemma_single_validator_drawn(v: Validator, digest: Seq<u8>)
    ensures
        drawn_index(seq![v], digest) == Some(0int),
{
    lemma_draw_in_range(seq![v], digest);
}

/// Reads the first 8 bytes of a digest as a little-endian number.
fn read_digest_number(digest: &[u8; 32]) -> (res: u64)
    ensures
        res as nat == digest_number(digest@),
{
    let ghost d = digest@.take(8);
    let mut acc: u64 = 0;
    let mut i: usize = 8;
    proof {
        assert(d.subrange(8, 8) =~= Seq::<u8>::empty());
    }
    while i > 0
        invariant
            d == digest@.take(8),
            digest@.len() == 32,
            0 <= i <= 8,
            acc as nat == le_value(d.subrange(i as int, 8)),
        decreases i,
    {
        i = i - 1;
        proof {
            let s = d.subrange(i as int, 8);
            assert(s.drop_first() =~= d.subrange(i + 1, 8));
            assert(s[0] == digest@[i as int]);
            lemma_le_value_bound(s.drop_first());
            reveal_with_fuel(pow256, 8);
            assert(s.len() <= 8);
            assert(pow256(7) == 0x100_0000_0000_0000);
        }
        acc = digest[i] as u64 + 256 * acc;
    }
    assert(d.subrange(0, 8) =~= d);
    acc
}

/// Picks a validator from a draw digest: ticket `n mod total` where `n` is
/// the digest's first 8 bytes read little-endian, tickets laid out one
/// validator after another, `weight + 1` tickets each. `None` exactly when
/// there are no validators.
pub fn pick_with_digest(validators: &[Validator], digest: &[u8; 32]) -> (res: Option<usize>)
    requires
        validator_count_fits(validators@.len()),
    ensures
        match res {
            Some(i) => drawn_index(validators@, digest@) == Some(i as int),
            None => drawn_index(validators@, digest@) is None,
        },
        res is Some <==> validators@.len() > 0,
        res matches Some(i) ==> i < validators@.len(),
{
    let n = validators.len();
    if n == 0 {
        return None;
    }
    let mut total: u64 = 0;
    let mut i: usize = 0;
    assert(validators@.skip(0) =~= validators@);
    while i < n
        invariant
            n == validators@.len(),
            validator_count_fits(n as nat),
            0 <= i <= n,
            total as nat + total_tickets(validators@.skip(i as int)) == total_tickets(validators@),
            total <= 31 * i,
        decreases n - i,
    {
        proof {
            let s = validators@.skip(i as int);
            assert(s.drop_first() =~= validators@.skip(i + 1));
            assert(s[0] == validators@[i as int]);
        }
        let w = validators[i].weight();
        total = total + w + 1;
        i = i + 1;
    }
    proof {
        assert(validators@.skip(0) =~= validators@);
        assert(validators@.skip(n as int) =~= Seq::<Validator>::empty());
    }
    let number = read_digest_number(digest);
    let mut pick: u64 = number % total;
    let ghost start = pick as nat;
    assert(total as nat == total_tickets(validators@));
    assert(drawn_index(validators@, digest@) == ticket_holder(validators@, start));
    proof {
        lemma_ticket_holder_in_range(validators@, start);
    }
    let mut j: usize = 0;
    while j < n
        invariant
            n == validators@.len(),
            0 <= j <= n,
            pick < total_tickets(validators@.skip(j as int)),
            drawn_index(validators@, digest@) == ticket_holder(validators@, start),
            ticket_holder(validators@, start) == (match ticket_holder(validators@.skip(j as int), pick as nat) {
                Some(k) => Some(k + j),
                None => None,
            }),
        decreases n - j,
    {
        let ghost s = validators@.skip(j as int);
        proof {
            assert(s.drop_first() =~= validators@.skip(j + 1));
            assert(s[0] == validators@[j as int]);
        }
        let w = validators[j].weight() + 1;
        assert(w == tickets_of(s[0]));
        if pick < w {
            assert(ticket_holder(s, pick as nat) == Some(0int));
            return Some(j);
        }
        assert(ticket_holder(s, pick as nat) == (match ticket_holder(s.drop_first(), (pick - w) as nat) {
            Some(k) => Some(k + 1),
            None => None,
        }));
        pick = pick - w;
        j = j + 1;
    }
    proof {
        assert(validators@.skip(n as int) =~= Seq::<Validator>::empty());
    }
    None
}

/// Picks the validator that forges the block following `previous_hash`: the
/// SHA-256 digest of the previous hash's UTF-8 bytes followed by every
/// validator's seed (8 bytes, little-endian) is read as a draw, and the
/// validator holding the drawn ticket is returned (see `pick_with_digest`).
pub fn select_validator<'a>(validators: &'a [Validator], previous_hash: &str) -> (res: Option<&'a Validator>)
    requires
        validator_count_fits(validators@.len()),
    ensures
        match selected_index(validators@, previous_hash@) {
            Some(i) => res matches Some(v) && *v == validators@[i],
            None => res is None,
        },
        res is Some <==> validators@.len() > 0,
{
    if validators.len() == 0 {
        return None;
    }
    let mut input: Vec<u8> = crate::text::slice_to_vec(previous_hash.as_bytes());
    let n = validators.len();
    let mut i: usize = 0;
    while i < n
        invariant
            n == validators@.len(),
            0 <= i <= n,
            input@ == vstd::utf8::encode_utf8(previous_hash@) + seed_bytes(validators@.take(i as int)),
        decreases n - i,
    {
        push_le_bytes(&mut input, validators[i].seed);
        proof {
            let t = validators@.take(i + 1);
            assert(t.drop_last() =~= validators@.take(i as int));
            assert(t.last() == validators@[i as int]);
            assert(input@ =~= vstd::utf8::encode_utf8(previous_hash@) + seed_bytes(t));
        }
        i = i + 1;
    }
    assert(validators@.take(n as int) =~= validators@);
    let digest = sha256(input.as_slice());
    assert(digest@ == sha256_digest(draw_input(previous_hash@, validators@)));
    match pick_with_digest(validators, &digest) {
        Some(k) => {
            assert(selected_index(validators@, previous_hash@) == Some(k as int));
            Some(&validators[k])
        },
        None => None,
    }
}

} // verus!
