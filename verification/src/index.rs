//! The magnitude index: for each key, the slots whose record has that key.

use crate::vector::Vector3D;
use std::collections::BTreeMap;
use vstd::prelude::*;

verus! {

broadcast use vstd::laws_cmp::group_laws_cmp;

/// Whether `s` is strictly increasing.
pub open spec fn ascending(s: Seq<usize>) -> bool {
    forall|i: int, j: int| 0 <= i < j < s.len() ==> s[i] < s[j]
}

/// Finds where `slot` stands, or would stand, in an ascending list: the number
/// of elements below it.
fn position(list: &Vec<usize>, slot: usize) -> (at: usize)
    requires
        ascending(list@),
    ensures
        at <= list@.len(),
        forall|i: int| 0 <= i < at ==> list@[i] < slot,
        forall|i: int| at <= i < list@.len() ==> list@[i] >= slot,
{
    let mut low: usize = 0;
    let mut high: usize = list.len();
    while low < high
        invariant
            ascending(list@),
            low <= high <= list@.len(),
            forall|i: int| 0 <= i < low ==> list@[i] < slot,
            forall|i: int| high <= i < list@.len() ==> list@[i] >= slot,
        decreases high - low,
    {
        let middle: usize = low + (high - low) / 2;
        if list[middle] < slot {
            low = middle + 1;
        } else {
            high = middle;
        }
    }
    low
}

/// Adds `slot` to an ascending list, keeping it ascending; a slot that is
/// already there is not added twice.
fn insert_slot(list: &mut Vec<usize>, slot: usize)
    requires
        ascending(old(list)@),
    ensures
        ascending(final(list)@),
        final(list)@.to_set() == old(list)@.to_set().insert(slot),
{
    let at = position(list, slot);
    if at == list.len() || list[at] != slot {
        let ghost before = list@;
        list.insert(at, slot);
        assert forall|s: usize| list@.to_set().contains(s) <==> before.to_set().insert(
            slot,
        ).contains(s) by {
            if before.contains(s) {
                let i = before.index_of(s);
                assert(list@[if i < at { i } else { i + 1 }] == s);
            }
            assert(list@[at as int] == slot);
        }
    }
}

/// Takes `slot` out of an ascending list, if it is there.
fn remove_slot(list: &mut Vec<usize>, slot: usize)
    requires
        ascending(old(list)@),
    ensures
        ascending(final(list)@),
        final(list)@.to_set() == old(list)@.to_set().remove(slot),
{
    let at = position(list, slot);
    if at < list.len() && list[at] == slot {
        let ghost before = list@;
        list.remove(at);
        assert forall|s: usize| list@.to_set().contains(s) <==> before.to_set().remove(
            slot,
        ).contains(s) by {
            if before.contains(s) && s != slot {
                let i = before.index_of(s);
                assert(list@[if i < at { i } else { i - 1 }] == s);
            }
        }
    }
}

/// A sorted map from index key to the slots filed under it.
///
/// Each key that is present holds a nonempty, ascending list of slots; a key
/// whose last slot leaves is dropped from the map.
pub struct MagnitudeIndex {
    map: BTreeMap<u64, Vec<usize>>,
}

impl MagnitudeIndex {
    /// The set of slots filed under `key`; empty when the key is absent.
    pub closed spec fn slots(&self, key: u64) -> Set<usize> {
        if self.map@.contains_key(key) {
            self.map@[key]@.to_set()
        } else {
            Set::empty()
        }
    }

    /// The representation invariant: no key holds an empty list, and every
    /// list is ascending.
    pub closed spec fn wf(&self) -> bool {
        forall|k: u64| #[trigger]
            self.map@.contains_key(k) ==> self.map@[k]@.len() > 0 && ascending(self.map@[k]@)
    }

    /// The index agrees with a table of records: a slot is filed under a key
    /// exactly when the table holds, at that slot, a record with that key.
    pub open spec fn matches(&self, records: Seq<Vector3D>) -> bool {
        forall|k: u64, s: usize| #[trigger]
            self.slots(k).contains(s) <==> s < records.len() && records[s as int].key() == k
    }

    /// An index with no entries.
    pub fn new() -> (index: MagnitudeIndex)
        ensures
            index.wf(),
            forall|k: u64| #[trigger] index.slots(k) == Set::<usize>::empty(),
    {
        MagnitudeIndex { map: BTreeMap::new() }
    }

    /// Files `slot` under the key of `record`.
    pub fn on_insert(&mut self, slot: usize, record: &Vector3D)
        requires
            old(self).wf(),
        ensures
            final(self).wf(),
            final(self).slots(record.key()) == old(self).slots(record.key()).insert(slot),
            forall|k: u64|
                k != record.key() ==> #[trigger] final(self).slots(k) == old(self).slots(k),
    {
        let key = record.key();
        let mut list = match self.map.remove(&key) {
            Some(list) => list,
            None => Vec::new(),
        };
        insert_slot(&mut list, slot);
        assert(list@.to_set().contains(slot));
        self.map.insert(key, list);
    }

    /// Takes `slot` out from under the key of `old_record`, and drops the key
    /// when that was its last slot.
    pub fn on_remove(&mut self, slot: usize, old_record: &Vector3D)
        requires
            old(self).wf(),
        ensures
            final(self).wf(),
            final(self).slots(old_record.key()) == old(self).slots(old_record.key()).remove(slot),
            forall|k: u64|
                k != old_record.key() ==> #[trigger] final(self).slots(k) == old(self).slots(k),
    {
        let key = old_record.key();
        if let Some(mut list) = self.map.remove(&key) {
            remove_slot(&mut list, slot);
            if list.len() > 0 {
                self.map.insert(key, list);
            }
        }
    }

    /// Moves `slot` from under the key of `old_record` to the key of
    /// `new_record`.
    pub fn on_replace(&mut self, slot: usize, old_record: &Vector3D, new_record: &Vector3D)
        requires
            old(self).wf(),
        ensures
            final(self).wf(),
            final(self).slots(new_record.key()) == old(self).slots(new_record.key()).insert(slot),
            old_record.key() != new_record.key() ==> final(self).slots(old_record.key()) == old(
                self,
            ).slots(old_record.key()).remove(slot),
            forall|k: u64|
                k != old_record.key() && k != new_record.key() ==> #[trigger] final(self).slots(k)
                    == old(self).slots(k),
    {
        self.on_remove(slot, old_record);
        self.on_insert(slot, new_record);
    }

    /// The slots filed under `key`, in ascending order.
    pub fn lookup(&self, key: u64) -> (slots: Vec<usize>)
        requires
            self.wf(),
        ensures
            ascending(slots@),
            slots@.to_set() == self.slots(key),
    {
        match self.map.get(&key) {
            Some(list) => list.clone(),
            None => Vec::new(),
        }
    }
}

} // verus!
