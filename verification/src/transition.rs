//! Legal successors of a balance snapshot.
//!
//! A channel's balances may only grow: between two snapshots no participant
//! loses anything or disappears, the total does not shrink, and the new total
//! stays strictly below the channel's deposit.

use crate::amount::{amount, at_least};
use crate::balances::{has_key, lemma_mapping_entry, lemma_mapping_keys, BalanceMap};
use crate::total::total;
use num_bigint::BigUint;
use vstd::prelude::*;

verus! {

/// Every participant of `prev` is a participant of `next` and holds there at
/// least what it held in `prev`. A participant missing from `next` does not
/// count as holding zero.
pub open spec fn none_reduced(prev: Map<Seq<char>, nat>, next: Map<Seq<char>, nat>) -> bool {
    forall|id: Seq<char>| #[trigger]
        prev.contains_key(id) ==> next.contains_key(id) && next[id] >= prev[id]
}

/// `next` is a legal successor of `prev` in a channel backed by `deposit`.
pub open spec fn valid_transition(
    deposit: nat,
    prev: Map<Seq<char>, nat>,
    next: Map<Seq<char>, nat>,
) -> bool {
    &&& total(next) < deposit
    &&& total(prev) <= total(next)
    &&& none_reduced(prev, next)
}

/// Whether every participant of `prev` holds at least as much in `next`.
pub fn is_none_reduced(prev: &BalanceMap, next: &BalanceMap) -> (r: bool)
    ensures
        r == none_reduced(prev@, next@),
{
    proof {
        use_type_invariant(prev);
        lemma_mapping_keys(prev.entries@);
    }
    let mut i: usize = 0;
    while i < prev.entries.len()
        invariant
            i <= prev.entries@.len(),
            prev.well_formed(),
            forall|j: int|
                0 <= j < i ==> next@.contains_key(#[trigger] prev.entries@[j].0@)
                    && next@[prev.entries@[j].0@] >= amount(prev.entries@[j].1),
        decreases prev.entries@.len() - i,
    {
        proof {
            lemma_mapping_entry(prev.entries@, i as int);
        }
        match next.get(&prev.entries[i].0) {
            Some(held) => {
                if !at_least(held, &prev.entries[i].1) {
                    return false;
                }
            },
            None => {
                return false;
            },
        }
        i += 1;
    }
    proof {
        assert forall|id: Seq<char>| #[trigger] prev@.contains_key(id) implies next@.contains_key(
            id,
        ) && next@[id] >= prev@[id] by {
            assert(has_key(prev.entries@, id));
            let j = choose|j: int| 0 <= j < prev.entries@.len() && prev.entries@[j].0@ == id;
            lemma_mapping_entry(prev.entries@, j);
        }
    }
    true
}

/// Whether `next` is a legal successor of `prev` in a channel backed by
/// `channel_deposit`: the total of `next` is strictly below the deposit and
/// not below the total of `prev`, and no participant of `prev` is missing
/// from `next` or holds less there.
pub fn is_valid_transition(
    channel_deposit: &BigUint,
    prev: &BalanceMap,
    next: &BalanceMap,
) -> (valid: bool)
    ensures
        valid == valid_transition(amount(*channel_deposit), prev@, next@),
        total(next@) >= amount(*channel_deposit) ==> !valid,
        total(next@) < total(prev@) ==> !valid,
        (exists|id: Seq<char>| #[trigger]
            prev@.contains_key(id) && (!next@.contains_key(id) || next@[id] < prev@[id]))
            ==> !valid,
{
    let next_sum = next.sum();
    if at_least(&next_sum, channel_deposit) {
        return false;
    }
    let prev_sum = prev.sum();
    if !at_least(&next_sum, &prev_sum) {
        return false;
    }
    is_none_reduced(prev, next)
}

/// The verdict on a transition depends on nothing but the deposit's amount
/// and the two snapshots' contents: however the arguments are laid out in
/// memory, equal contents give the same verdict.
pub proof fn lemma_transition_verdict_is_determined(
    deposit_a: BigUint,
    prev_a: BalanceMap,
    next_a: BalanceMap,
    deposit_b: BigUint,
    prev_b: BalanceMap,
    next_b: BalanceMap,
)
    requires
        amount(deposit_a) == amount(deposit_b),
        prev_a@ == prev_b@,
        next_a@ == next_b@,
    ensures
        valid_transition(amount(deposit_a), prev_a@, next_a@) == valid_transition(
            amount(deposit_b),
            prev_b@,
            next_b@,
        ),
{
}

} // verus!
