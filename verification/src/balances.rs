//! Balance snapshots.
//!
//! A [`BalanceMap`] records one amount per participant identifier. To the
//! contracts it is a finite map from identifier to amount; in memory it is a
//! list of entries in which no identifier occurs twice.

use crate::amount::{amount, from_u32, plus};
use crate::total::{lemma_total_insert, total};
use num_bigint::BigUint;
use vstd::prelude::*;

verus! {

/// The map that a list of entries stands for. Where an identifier occurs more
/// than once, its last entry counts.
pub(crate) open spec fn mapping(entries: Seq<(String, BigUint)>) -> Map<Seq<char>, nat>
    decreases entries.len(),
{
    if entries.len() == 0 {
        Map::empty()
    } else {
        let last = entries.last();
        mapping(entries.drop_last()).insert(last.0@, amount(last.1))
    }
}

/// No identifier occurs in two entries.
pub(crate) open spec fn distinct_keys(entries: Seq<(String, BigUint)>) -> bool {
    forall|i: int, j: int| 0 <= i < j < entries.len() ==> entries[i].0@ != entries[j].0@
}

/// Some entry carries the identifier `key`.
pub(crate) open spec fn has_key(entries: Seq<(String, BigUint)>, key: Seq<char>) -> bool {
    exists|i: int| 0 <= i < entries.len() && entries[i].0@ == key
}

/// The map of a list of entries is finite, and its keys are the identifiers
/// that occur in the list.
pub(crate) proof fn lemma_mapping_keys(entries: Seq<(String, BigUint)>)
    ensures
        mapping(entries).dom().finite(),
        forall|key: Seq<char>| #[trigger]
            mapping(entries).contains_key(key) <==> has_key(entries, key),
    decreases entries.len(),
{
    if entries.len() > 0 {
        let init = entries.drop_last();
        let last = entries.last();
        lemma_mapping_keys(init);
        assert forall|key: Seq<char>| #[trigger]
            mapping(entries).contains_key(key) <==> has_key(entries, key) by {
            if has_key(entries, key) {
                let i = choose|i: int| 0 <= i < entries.len() && entries[i].0@ == key;
                if i < init.len() {
                    assert(init[i].0@ == key);
                    assert(has_key(init, key));
                }
            }
            if mapping(entries).contains_key(key) {
                if key == last.0@ {
                    assert(entries[entries.len() - 1].0@ == key);
                } else {
                    assert(has_key(init, key));
                    let i = choose|i: int| 0 <= i < init.len() && init[i].0@ == key;
                    assert(entries[i].0@ == key);
                }
            }
        }
    }
}

/// Where no identifier occurs twice, the map gives each entry's identifier
/// that entry's amount.
pub(crate) proof fn lemma_mapping_entry(entries: Seq<(String, BigUint)>, i: int)
    requires
        distinct_keys(entries),
        0 <= i < entries.len(),
    ensures
        mapping(entries).contains_key(entries[i].0@),
        mapping(entries)[entries[i].0@] == amount(entries[i].1),
    decreases entries.len(),
{
    if i < entries.len() - 1 {
        let init = entries.drop_last();
        assert(init[i] == entries[i]);
        lemma_mapping_entry(init, i);
    }
}

/// Where no identifier occurs twice, the map of the first `i + 1` entries is
/// the map of the first `i` with entry `i` as a new key.
pub(crate) proof fn lemma_mapping_step(entries: Seq<(String, BigUint)>, i: int)
    requires
        distinct_keys(entries),
        0 <= i < entries.len(),
    ensures
        mapping(entries.take(i)).dom().finite(),
        !mapping(entries.take(i)).contains_key(entries[i].0@),
        mapping(entries.take(i + 1)) == mapping(entries.take(i)).insert(
            entries[i].0@,
            amount(entries[i].1),
        ),
{
    let before = entries.take(i);
    lemma_mapping_keys(before);
    if has_key(before, entries[i].0@) {
        let j = choose|j: int| 0 <= j < before.len() && before[j].0@ == entries[i].0@;
        assert(entries[j].0@ == entries[i].0@);
    }
    assert(entries.take(i + 1).drop_last() =~= before);
}

/// Where no identifier occurs twice, the map has one key for each entry.
pub(crate) proof fn lemma_mapping_len(entries: Seq<(String, BigUint)>)
    requires
        distinct_keys(entries),
    ensures
        mapping(entries).dom().len() == entries.len(),
    decreases entries.len(),
{
    if entries.len() > 0 {
        let i = entries.len() - 1;
        lemma_mapping_step(entries, i);
        assert(entries.take(i + 1) =~= entries);
        assert(entries.take(i) =~= entries.drop_last());
        lemma_mapping_len(entries.drop_last());
    }
}

/// Where no identifier occurs twice, putting a new amount under the
/// identifier of entry `i` changes the map at that key alone.
pub(crate) proof fn lemma_mapping_update(
    entries: Seq<(String, BigUint)>,
    i: int,
    entry: (String, BigUint),
)
    requires
        distinct_keys(entries),
        0 <= i < entries.len(),
        entry.0@ == entries[i].0@,
    ensures
        distinct_keys(entries.update(i, entry)),
        mapping(entries.update(i, entry)) == mapping(entries).insert(entry.0@, amount(entry.1)),
{
    let updated = entries.update(i, entry);
    let expected = mapping(entries).insert(entry.0@, amount(entry.1));
    assert(distinct_keys(updated)) by {
        assert forall|a: int, b: int| 0 <= a < b < updated.len() implies updated[a].0@
            != updated[b].0@ by {
            assert(updated[a].0@ == entries[a].0@);
            assert(updated[b].0@ == entries[b].0@);
        }
    }
    lemma_mapping_keys(entries);
    lemma_mapping_keys(updated);
    assert forall|key: Seq<char>| mapping(updated).contains_key(key) <==> expected.contains_key(
        key,
    ) by {
        if has_key(updated, key) {
            let j = choose|j: int| 0 <= j < updated.len() && updated[j].0@ == key;
            assert(entries[j].0@ == key);
        }
        if has_key(entries, key) {
            let j = choose|j: int| 0 <= j < entries.len() && entries[j].0@ == key;
            assert(updated[j].0@ == key);
        }
        if key == entry.0@ {
            assert(updated[i].0@ == key);
        }
    }
    assert forall|key: Seq<char>| mapping(updated).contains_key(key) implies mapping(
        updated,
    )[key] == expected[key] by {
        let j = choose|j: int| 0 <= j < updated.len() && updated[j].0@ == key;
        lemma_mapping_entry(updated, j);
        lemma_mapping_entry(entries, j);
    }
    assert(mapping(updated) =~= expected);
}

/// One amount for each of a set of participant identifiers.
///
/// A snapshot is meant to be filled once and then judged. A lookup walks the
/// entries, so it takes time in proportion to their number.
#[derive(Debug)]
pub struct BalanceMap {
    pub(crate) entries: Vec<(String, BigUint)>,
}

impl View for BalanceMap {
    type V = Map<Seq<char>, nat>;

    /// The amount recorded under each identifier.
    open(crate) spec fn view(&self) -> Map<Seq<char>, nat> {
        mapping(self.entries@)
    }
}

impl BalanceMap {
    #[verifier::type_invariant]
    pub(crate) open spec fn well_formed(&self) -> bool {
        distinct_keys(self.entries@)
    }

    /// A snapshot holds finitely many identifiers.
    pub proof fn lemma_view_finite(self)
        ensures
            self@.dom().finite(),
    {
        lemma_mapping_keys(self.entries@);
    }

    /// A snapshot without any participant.
    pub fn new() -> (r: Self)
        ensures
            r@ == Map::<Seq<char>, nat>::empty(),
    {
        BalanceMap { entries: Vec::new() }
    }

    /// The index of the entry that carries `key`, if there is one.
    fn position(&self, key: &String) -> (r: Option<usize>)
        ensures
            match r {
                Some(i) => i < self.entries@.len() && self.entries@[i as int].0@ == key@,
                None => !has_key(self.entries@, key@),
            },
    {
        let mut i: usize = 0;
        while i < self.entries.len()
            invariant
                i <= self.entries@.len(),
                forall|j: int| 0 <= j < i ==> self.entries@[j].0@ != key@,
            decreases self.entries@.len() - i,
        {
            if self.entries[i].0 == *key {
                return Some(i);
            }
            i += 1;
        }
        None
    }

    /// The number of participants.
    pub fn len(&self) -> (r: usize)
        ensures
            r == self@.len(),
    {
        proof {
            use_type_invariant(self);
            lemma_mapping_len(self.entries@);
        }
        self.entries.len()
    }

    /// The sum of all recorded amounts.
    pub fn sum(&self) -> (r: BigUint)
        ensures
            amount(r) == total(self@),
    {
        proof {
            use_type_invariant(self);
        }
        let mut acc = from_u32(0);
        let mut i: usize = 0;
        while i < self.entries.len()
            invariant
                i <= self.entries@.len(),
                distinct_keys(self.entries@),
                amount(acc) == total(mapping(self.entries@.take(i as int))),
            decreases self.entries@.len() - i,
        {
            proof {
                let seen = mapping(self.entries@.take(i as int));
                let entry = self.entries@[i as int];
                lemma_mapping_step(self.entries@, i as int);
                lemma_total_insert(seen, entry.0@, amount(entry.1));
            }
            acc = plus(acc, &self.entries[i].1);
            i += 1;
        }
        proof {
            assert(self.entries@.take(i as int) =~= self.entries@);
        }
        acc
    }

    /// Whether an amount is recorded under `key`.
    pub fn contains_key(&self, key: &String) -> (r: bool)
        ensures
            r == self@.contains_key(key@),
    {
        proof {
            lemma_mapping_keys(self.entries@);
        }
        self.position(key).is_some()
    }

    /// The amount recorded under `key`, if there is one.
    pub fn get(&self, key: &String) -> (r: Option<&BigUint>)
        ensures
            match r {
                Some(v) => self@.contains_key(key@) && amount(*v) == self@[key@],
                None => !self@.contains_key(key@),
            },
    {
        proof {
            use_type_invariant(self);
            lemma_mapping_keys(self.entries@);
        }
        match self.position(key) {
            Some(i) => {
                proof {
                    lemma_mapping_entry(self.entries@, i as int);
                }
                Some(&self.entries[i].1)
            },
            None => None,
        }
    }

    /// Records `value` under `key`, in place of what was recorded there
    /// before.
    pub fn insert(&mut self, key: String, value: BigUint)
        ensures
            final(self)@ == old(self)@.insert(key@, amount(value)),
    {
        proof {
            use_type_invariant(&*self);
        }
        let found = self.position(&key);
        let mut entries = Vec::new();
        std::mem::swap(&mut entries, &mut self.entries);
        match found {
            Some(i) => {
                proof {
                    lemma_mapping_update(entries@, i as int, (key, value));
                }
                entries.set(i, (key, value));
            },
            None => {
                proof {
                    assert(entries@.push((key, value)).drop_last() =~= entries@);
                    assert forall|a: int, b: int|
                        0 <= a < b < entries@.len() + 1 implies entries@.push((key, value))[a].0@
                        != entries@.push((key, value))[b].0@ by {
                        if b == entries@.len() {
                            assert(entries@[a].0@ != key@);
                        }
                    }
                }
                entries.push((key, value));
            },
        }
        self.entries = entries;
    }
}

} // verus!
