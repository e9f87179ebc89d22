//! How much of our own accounting a counterparty corroborates.
//!
//! For each participant that both snapshots name, the lesser of the two
//! amounts counts as agreed. Our accounting is healthy when the agreed total,
//! in thousandths of our own total and rounded down, reaches the threshold.

use crate::amount::{amount, at_least, from_u32, plus, quotient, times};
use crate::balances::{distinct_keys, lemma_mapping_step, mapping, BalanceMap};
use crate::total::{lemma_total_insert, total};
use num_bigint::BigUint;
use vstd::prelude::*;

verus! {

/// The thousandths of our own total that must be agreed for the accounting to
/// be healthy.
pub const HEALTH_THRESHOLD_PROMILLES: u32 = 950;

/// The lesser of two amounts.
pub open spec fn lesser(a: nat, b: nat) -> nat {
    if a <= b {
        a
    } else {
        b
    }
}

/// What the two snapshots agree on: under each identifier that both name, the
/// lesser of the two amounts. Identifiers that only one of them names are
/// left out.
pub open spec fn agreed(our: Map<Seq<char>, nat>, approved: Map<Seq<char>, nat>) -> Map<
    Seq<char>,
    nat,
> {
    Map::new(
        |id: Seq<char>| our.contains_key(id) && approved.contains_key(id),
        |id: Seq<char>| lesser(our[id], approved[id]),
    )
}

/// `approved` corroborates enough of `our`: our total is not zero, and the
/// agreed total times 1000, divided by our total and rounded down, reaches
/// the threshold.
pub open spec fn healthy(our: Map<Seq<char>, nat>, approved: Map<Seq<char>, nat>) -> bool {
    &&& total(our) > 0
    &&& total(agreed(our, approved)) * 1000 / total(our) >= HEALTH_THRESHOLD_PROMILLES
}

/// What is agreed on a finite snapshot is finite.
pub proof fn lemma_agreed_finite(our: Map<Seq<char>, nat>, approved: Map<Seq<char>, nat>)
    requires
        our.dom().finite(),
    ensures
        agreed(our, approved).dom().finite(),
{
    assert(agreed(our, approved).dom().subset_of(our.dom()));
    vstd::set_lib::lemma_len_subset(agreed(our, approved).dom(), our.dom());
}

/// A new participant of ours raises the agreed total by the lesser amount
/// where the counterparty names it too, and leaves it unchanged where not.
pub proof fn lemma_agreed_insert(
    our: Map<Seq<char>, nat>,
    approved: Map<Seq<char>, nat>,
    id: Seq<char>,
    held: nat,
)
    requires
        our.dom().finite(),
        !our.contains_key(id),
    ensures
        total(agreed(our.insert(id, held), approved)) == total(agreed(our, approved)) + (
        if approved.contains_key(id) {
            lesser(held, approved[id])
        } else {
            0
        }),
{
    let before = agreed(our, approved);
    let after = agreed(our.insert(id, held), approved);
    lemma_agreed_finite(our, approved);
    if approved.contains_key(id) {
        assert(after =~= before.insert(id, lesser(held, approved[id])));
        lemma_total_insert(before, id, lesser(held, approved[id]));
    } else {
        assert(after =~= before);
    }
}

/// The total of what `our` and `approved` agree on.
pub fn agreed_sum(our: &BalanceMap, approved: &BalanceMap) -> (r: BigUint)
    ensures
        amount(r) == total(agreed(our@, approved@)),
{
    proof {
        use_type_invariant(our);
    }
    let mut acc = from_u32(0);
    let mut i: usize = 0;
    while i < our.entries.len()
        invariant
            i <= our.entries@.len(),
            distinct_keys(our.entries@),
            amount(acc) == total(agreed(mapping(our.entries@.take(i as int)), approved@)),
        decreases our.entries@.len() - i,
    {
        proof {
            let seen = mapping(our.entries@.take(i as int));
            let entry = our.entries@[i as int];
            lemma_mapping_step(our.entries@, i as int);
            lemma_agreed_insert(seen, approved@, entry.0@, amount(entry.1));
        }
        let held = &our.entries[i].1;
        match approved.get(&our.entries[i].0) {
            Some(claimed) => {
                if at_least(claimed, held) {
                    acc = plus(acc, held);
                } else {
                    acc = plus(acc, claimed);
                }
            },
            None => {},
        }
        i += 1;
    }
    proof {
        assert(our.entries@.take(i as int) =~= our.entries@);
    }
    acc
}

/// Whether `approved` corroborates enough of `our`: whether the agreed total
/// times 1000, divided by our own total and rounded down, is at least 950.
/// Where our own total is zero there is nothing to attest, and the answer is
/// `false`.
pub fn get_health(our: &BalanceMap, approved: &BalanceMap) -> (r: bool)
    ensures
        r == healthy(our@, approved@),
        total(our@) == 0 ==> !r,
{
    let sum_our = our.sum();
    if at_least(&from_u32(0), &sum_our) {
        return false;
    }
    let sum_of_min = agreed_sum(our, approved);
    let ratio = quotient(times(sum_of_min, 1000), sum_our);
    at_least(&ratio, &from_u32(HEALTH_THRESHOLD_PROMILLES))
}

/// A snapshot with a total above zero is healthy against itself.
pub proof fn lemma_healthy_against_itself(our: Map<Seq<char>, nat>)
    requires
        total(our) > 0,
    ensures
        healthy(our, our),
{
    assert(agreed(our, our) =~= our);
    let sum = total(our);
    assert(sum * 1000 / sum == 1000) by (nonlinear_arith)
        requires
            sum > 0,
    ;
}

} // verus!
