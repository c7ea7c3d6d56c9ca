//! Quarks, hadrons, and the recipes that turn three quarks into a hadron.

use vstd::prelude::*;
use rand::seq::SliceRandom;

verus! {

/// The six quark flavours a validator can be rewarded with.
#[derive(Debug, Clone, Copy, PartialEq, Eq, Structural)]
pub enum QuarkType {
    Up,
    Down,
    Charm,
    Strange,
    Top,
    Bottom,
}

/// A hadron forged from quarks and staked by a validator.
#[derive(Debug, Clone)]
pub struct Hadron {
    pub id: String,
    pub composition: Vec<QuarkType>,
    pub kind: String,
}

/// The name `Debug` gives a quark flavour.
pub open spec fn quark_name(q: QuarkType) -> Seq<char> {
    match q {
        QuarkType::Up => "Up"@,
        QuarkType::Down => "Down"@,
        QuarkType::Charm => "Charm"@,
        QuarkType::Strange => "Strange"@,
        QuarkType::Top => "Top"@,
        QuarkType::Bottom => "Bottom"@,
    }
}

/// The names of `qs`, separated by `", "`.
pub open spec fn quark_items(qs: Seq<QuarkType>) -> Seq<char>
    decreases qs.len(),
{
    if qs.len() == 0 {
        Seq::empty()
    } else if qs.len() == 1 {
        quark_name(qs[0])
    } else {
        quark_items(qs.drop_last()) + ", "@ + quark_name(qs.last())
    }
}

/// What `Debug` writes for a list of quarks, e.g. `[Up, Up, Down]`.
pub open spec fn quark_list_debug(qs: Seq<QuarkType>) -> Seq<char> {
    "["@ + quark_items(qs) + "]"@
}

/// How many times flavour `q` occurs in `qs`.
pub open spec fn flavour_count(qs: Seq<QuarkType>, q: QuarkType) -> nat
    decreases qs.len(),
{
    if qs.len() == 0 {
        0
    } else {
        flavour_count(qs.drop_last(), q) + (if qs.last() == q {
            1nat
        } else {
            0nat
        })
    }
}

/// Up + Up + Down, in any order: three quarks, two Up and one Down.
pub open spec fn is_proton_recipe(qs: Seq<QuarkType>) -> bool {
    qs.len() == 3 && flavour_count(qs, QuarkType::Up) == 2 && flavour_count(qs, QuarkType::Down) == 1
}

/// Up + Down + Down, in any order: three quarks, one Up and two Down.
pub open spec fn is_neutron_recipe(qs: Seq<QuarkType>) -> bool {
    qs.len() == 3 && flavour_count(qs, QuarkType::Up) == 1 && flavour_count(qs, QuarkType::Down) == 2
}

proof fn lemma_count_is_multiplicity(qs: Seq<QuarkType>, q: QuarkType)
    ensures
        flavour_count(qs, q) == qs.to_multiset().count(q),
    decreases qs.len(),
{
    broadcast use vstd::multiset::group_multiset_axioms;

    if qs.len() == 0 {
        qs.to_multiset_ensures();
        assert(!qs.contains(q));
    } else {
        let p = qs.drop_last();
        lemma_count_is_multiplicity(p, q);
        vstd::seq_lib::to_multiset_build(p, qs.last());
        assert(p.push(qs.last()) =~= qs);
    }
}

/// A recipe is a combination: two lists holding the same quarks, in
/// whatever order, form the same kind of hadron (or both none).
pub proof fn lemma_recipe_ignores_order(q1: Seq<QuarkType>, q2: Seq<QuarkType>)
    requires
        q1.to_multiset() == q2.to_multiset(),
    ensures
        recipe_kind(q1) == recipe_kind(q2),
{
    lemma_count_is_multiplicity(q1, QuarkType::Up);
    lemma_count_is_multiplicity(q2, QuarkType::Up);
    lemma_count_is_multiplicity(q1, QuarkType::Down);
    lemma_count_is_multiplicity(q2, QuarkType::Down);
    vstd::seq_lib::to_multiset_len(q1);
    vstd::seq_lib::to_multiset_len(q2);
}

/// The kind of hadron that `qs` forms, if any.
pub open spec fn recipe_kind(qs: Seq<QuarkType>) -> Option<Seq<char>> {
    if is_proton_recipe(qs) {
        Some("Proton"@)
    } else if is_neutron_recipe(qs) {
        Some("Neutron"@)
    } else {
        None
    }
}

fn push_quark_name(s: &mut String, q: QuarkType)
    ensures
        final(s)@ == old(s)@ + quark_name(q),
{
    match q {
        QuarkType::Up => s.append("Up"),
        QuarkType::Down => s.append("Down"),
        QuarkType::Charm => s.append("Charm"),
        QuarkType::Strange => s.append("Strange"),
        QuarkType::Top => s.append("Top"),
        QuarkType::Bottom => s.append("Bottom"),
    }
}

/// The `Debug` rendering of a list of quarks.
pub fn quark_list_text(qs: &[QuarkType]) -> (res: String)
    ensures
        res@ == quark_list_debug(qs@),
{
    let mut s = String::new();
    s.append("[");
    let n = qs.len();
    let mut i: usize = 0;
    while i < n
        invariant
            n == qs@.len(),
            0 <= i <= n,
            s@ == "["@ + quark_items(qs@.take(i as int)),
        decreases n - i,
    {
        if i > 0 {
            s.append(", ");
        }
        push_quark_name(&mut s, qs[i]);
        proof {
            let t = qs@.take(i + 1);
            assert(t.drop_last() =~= qs@.take(i as int));
            assert(t.last() == qs@[i as int]);
            if i == 0 {
                assert(quark_items(qs@.take(0)) =~= Seq::<char>::empty());
                assert(s@ =~= "["@ + quark_items(t));
            } else {
                assert(s@ =~= "["@ + quark_items(t));
            }
        }
        i = i + 1;
    }
    s.append("]");
    assert(qs@.take(n as int) =~= qs@);
    s
}

/// How many times flavour `q` occurs in `qs`.
pub fn count_flavour(qs: &[QuarkType], q: QuarkType) -> (res: usize)
    ensures
        res == flavour_count(qs@, q),
{
    let n = qs.len();
    let mut c: usize = 0;
    let mut i: usize = 0;
    while i < n
        invariant
            n == qs@.len(),
            0 <= i <= n,
            c == flavour_count(qs@.take(i as int), q),
            c <= i,
        decreases n - i,
    {
        proof {
            let t = qs@.take(i + 1);
            assert(t.drop_last() =~= qs@.take(i as int));
            assert(t.last() == qs@[i as int]);
        }
        if qs[i] == q {
            c = c + 1;
        }
        i = i + 1;
    }
    assert(qs@.take(n as int) =~= qs@);
    c
}

/// Forges a hadron from exactly three quarks: Up + Up + Down gives a
/// Proton, Up + Down + Down gives a Neutron, in any order; any other
/// combination gives `None`. The hadron's id is the `Debug` rendering of
/// the list.
pub fn forge_hadron(quarks: Vec<QuarkType>) -> (res: Option<Hadron>)
    ensures
        res is Some <==> recipe_kind(quarks@) is Some,
        res matches Some(h) ==> {
            &&& Some(h.kind@) == recipe_kind(quarks@)
            &&& h.composition@ == quarks@
            &&& h.id@ == quark_list_debug(quarks@)
        },
{
    let ups = count_flavour(quarks.as_slice(), QuarkType::Up);
    let downs = count_flavour(quarks.as_slice(), QuarkType::Down);
    let is_proton = quarks.len() == 3 && ups == 2 && downs == 1;
    let is_neutron = quarks.len() == 3 && ups == 1 && downs == 2;
    let kind = if is_proton {
        String::from_str("Proton")
    } else if is_neutron {
        String::from_str("Neutron")
    } else {
        return None;
    };
    let id = quark_list_text(quarks.as_slice());
    Some(Hadron { id, composition: quarks, kind })
}

/// `SliceRandom::choose` with the thread's generator: one of `types`,
/// picked at random; nothing more is claimed of which one.
#[verifier::external_body]
fn choose_quark(types: &[QuarkType]) -> (res: QuarkType)
    requires
        types@.len() > 0,
    ensures
        types@.contains(res),
{
    *types.choose(&mut rand::thread_rng()).unwrap()
}

/// A quark drawn at random among the six flavours.
pub fn random_quark() -> (res: QuarkType) {
    let types = [
        QuarkType::Up,
        QuarkType::Down,
        QuarkType::Charm,
        QuarkType::Strange,
        QuarkType::Top,
        QuarkType::Bottom,
    ];
    choose_quark(&types)
}

} // verus!
