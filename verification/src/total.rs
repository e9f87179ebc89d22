//! Sums over finite maps.
//!
//! A balance snapshot is a finite map from identifier to amount, and both
//! verdicts of this crate are stated over the sum of such a map's values.
//! The sum is defined by taking the keys out one at a time; the lemmas here
//! show that the order in which they are taken does not matter.

use vstd::prelude::*;

verus! {

/// The sum of the values of `m`; zero where `m` is not finite.
pub open spec fn total<K>(m: Map<K, nat>) -> nat
    decreases m.dom().len(),
{
    if m.dom().finite() && m.dom().len() > 0 {
        let k = m.dom().choose();
        m[k] + total(m.remove(k))
    } else {
        0
    }
}

/// Whichever key is taken out of a finite map, the sum falls by that key's
/// value.
pub proof fn lemma_total_remove<K>(m: Map<K, nat>, k: K)
    requires
        m.dom().finite(),
        m.contains_key(k),
    ensures
        total(m) == m[k] + total(m.remove(k)),
    decreases m.dom().len(),
{
    let c = m.dom().choose();
    if c != k {
        lemma_total_remove(m.remove(c), k);
        lemma_total_remove(m.remove(k), c);
        assert(m.remove(c).remove(k) =~= m.remove(k).remove(c));
    }
}

/// A new key raises the sum of a finite map by its value.
pub proof fn lemma_total_insert<K>(m: Map<K, nat>, k: K, v: nat)
    requires
        m.dom().finite(),
        !m.contains_key(k),
    ensures
        total(m.insert(k, v)) == total(m) + v,
{
    lemma_total_remove(m.insert(k, v), k);
    assert(m.insert(k, v).remove(k) =~= m);
}

} // verus!
