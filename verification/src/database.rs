//! The store itself: the table of records, the magnitude index kept in step
//! with it, and the buffer of log entries not yet flushed.

use crate::index::{ascending, MagnitudeIndex};
use crate::key::{order_key, spec_order_key};
use crate::logs::{LogEntry, LogError, Operation};
use crate::model::{
    lemma_lookup_consistent, lemma_readable_is_first_failure, lemma_replay_push, readable,
    readable_entries, records_with_key, DatabaseView,
};
use crate::vector::Vector3D;
use vstd::prelude::*;

verus! {

/// A table of records addressed by slot, indexed by magnitude, with a buffer
/// of log entries waiting to be written to `log_path`.
pub struct Database {
    data: Vec<Vector3D>,
    log: Vec<LogEntry>,
    log_path: String,
    magnitude_index: MagnitudeIndex,
}

impl View for Database {
    type V = DatabaseView;

    closed spec fn view(&self) -> DatabaseView {
        DatabaseView { records: self.data@, log: self.log@, log_path: self.log_path@ }
    }
}

/// An ascending list that holds exactly the slots of the records with a given
/// key picks out, slot by slot, the records with that key in slot order.
proof fn lemma_slots_pick_records_with_key(records: Seq<Vector3D>, key: u64, slots: Seq<usize>)
    requires
        records.len() <= usize::MAX,
        ascending(slots),
        forall|s: usize| #[trigger]
            slots.contains(s) <==> s < records.len() && records[s as int].key() == key,
    ensures
        records_with_key(records, key).len() == slots.len(),
        forall|j: int| 0 <= j < slots.len() ==> #[trigger] slots[j] < records.len(),
        forall|j: int|
            0 <= j < slots.len() ==> #[trigger] records_with_key(records, key)[j]
                == records[slots[j] as int],
    decreases records.len(),
{
    reveal(Seq::filter);
    if records.len() == 0 {
        if slots.len() > 0 {
            assert(slots.contains(slots[0]));
        }
    } else {
        let rest = records.drop_last();
        let top = (records.len() - 1) as usize;
        assert forall|j: int| 0 <= j < slots.len() implies slots[j] < records.len() by {
            assert(slots.contains(slots[j]));
        }
        if records.last().key() == key {
            assert(slots.contains(top));
            assert(slots.last() == top);
            let fewer = slots.drop_last();
            assert forall|s: usize| #[trigger]
                fewer.contains(s) <==> s < rest.len() && rest[s as int].key() == key by {
                if fewer.contains(s) {
                    assert(slots.contains(s));
                }
                if s < rest.len() && rest[s as int].key() == key {
                    assert(slots.contains(s));
                    assert(fewer[slots.index_of(s)] == s);
                }
            }
            lemma_slots_pick_records_with_key(rest, key, fewer);
        } else {
            assert forall|s: usize| #[trigger]
                slots.contains(s) <==> s < rest.len() && rest[s as int].key() == key by {
                assert(slots.contains(s) ==> s != top);
            }
            lemma_slots_pick_records_with_key(rest, key, slots);
        }
    }
}

/// In every store that its own operations can produce, the index and the
/// table agree: each occupied slot is filed under the key of its record and
/// under no other, nothing else is filed, and a lookup by a record's own key
/// finds that record.
pub proof fn lemma_index_consistent(db: Database)
    requires
        db.wf(),
    ensures
        forall|s: usize|
            s < db@.records.len() ==> #[trigger] db.index().slots(
                db@.records[s as int].key(),
            ).contains(s),
        forall|k: u64, s: usize| #[trigger]
            db.index().slots(k).contains(s) ==> s < db@.records.len() && db@.records[s as int].key()
                == k,
        forall|s: int|
            0 <= s < db@.records.len() ==> #[trigger] db@.lookup(db@.records[s].key()).contains(
                db@.records[s],
            ),
        forall|k: u64, r: Vector3D| #[trigger] db@.lookup(k).contains(r) ==> r.key() == k,
{
    lemma_lookup_consistent(db@);
}

impl Database {
    /// The magnitude index of the store.
    pub closed spec fn index(&self) -> MagnitudeIndex {
        self.magnitude_index
    }

    /// The invariant of the store: the index is sound in itself, and it files
    /// a slot under a key exactly when the table holds a record with that key
    /// at that slot.
    pub open spec fn wf(&self) -> bool {
        &&& self.index().wf()
        &&& self.index().matches(self@.records)
    }

    /// An empty store whose log is kept at `log_path`.
    pub fn new(log_path: String) -> (db: Database)
        ensures
            db.wf(),
            db@ == DatabaseView::empty(log_path@),
    {
        Database {
            data: Vec::new(),
            log: Vec::new(),
            log_path,
            magnitude_index: MagnitudeIndex::new(),
        }
    }

    /// The number of occupied slots.
    pub fn len(&self) -> (len: usize)
        ensures
            len == self@.records.len(),
    {
        self.data.len()
    }

    /// The record at `index`, or `None` when the slot is not occupied.
    pub fn get(&self, index: usize) -> (found: Option<&Vector3D>)
        ensures
            index >= self@.records.len() ==> found is None,
            match found {
                Some(vector) => self@.get(index) == Some(*vector),
                None => self@.get(index) is None,
            },
    {
        if index < self.data.len() {
            Some(&self.data[index])
        } else {
            None
        }
    }

    /// The slots whose record has the magnitude `magnitude`, in ascending
    /// order. Magnitudes are told apart as the total order on bit patterns
    /// tells them apart.
    pub fn slots_by_magnitude(&self, magnitude: u64) -> (slots: Vec<usize>)
        requires
            self.wf(),
        ensures
            ascending(slots@),
            forall|s: usize| #[trigger]
                slots@.contains(s) <==> s < self@.records.len() && self@.records[s as int].key()
                    == spec_order_key(magnitude),
    {
        let slots = self.magnitude_index.lookup(order_key(magnitude));
        assert forall|s: usize| #[trigger]
            slots@.contains(s) <==> s < self@.records.len() && self@.records[s as int].key()
                == spec_order_key(magnitude) by {
            assert(slots@.to_set().contains(s) <==> slots@.contains(s));
        }
        slots
    }

    /// The records whose magnitude is `magnitude`, in slot order.
    pub fn lookup_by_magnitude(&self, magnitude: u64) -> (found: Vec<Vector3D>)
        requires
            self.wf(),
        ensures
            found@ == self@.lookup(spec_order_key(magnitude)),
    {
        let slots = self.slots_by_magnitude(magnitude);
        proof {
            assert(self.data@.len() == self.data.len());
            lemma_slots_pick_records_with_key(self.data@, spec_order_key(magnitude), slots@);
        }
        let mut found: Vec<Vector3D> = Vec::new();
        let mut i: usize = 0;
        while i < slots.len()
            invariant
                i <= slots@.len(),
                found@.len() == i,
                forall|j: int| 0 <= j < slots@.len() ==> slots@[j] < self.data@.len(),
                forall|j: int| 0 <= j < i ==> found@[j] == self.data@[slots@[j] as int],
            decreases slots@.len() - i,
        {
            found.push(self.data[slots[i]]);
            i += 1;
        }
        found
    }

    /// The entries appended since the last flush, oldest first: what a flush
    /// has to write.
    pub fn log(&self) -> (pending: &Vec<LogEntry>)
        ensures
            pending@ == self@.log,
    {
        &self.log
    }

    /// Where the log is kept on stable storage.
    pub fn log_path(&self) -> (path: &String)
        ensures
            path@ == self@.log_path,
    {
        &self.log_path
    }

    /// Appends `vector` at the next free slot, files the slot under the
    /// vector's key, and returns the slot.
    pub fn set(&mut self, vector: &Vector3D, log_operation: bool) -> (slot: usize)
        requires
            old(self).wf(),
        ensures
            final(self).wf(),
            slot == old(self)@.records.len(),
            final(self)@ == old(self)@.set(*vector, log_operation),
    {
        let index = self.data.len();
        self.data.push(*vector);
        self.magnitude_index.on_insert(index, vector);
        if log_operation {
            self.log_operation(index, Operation::Insert, *vector);
        }
        index
    }

    /// Overwrites the record at `index` and moves the slot to the new
    /// record's key. Returns whether the slot was occupied; when it was not,
    /// nothing changes and nothing is logged.
    pub fn update(&mut self, index: usize, vector: &Vector3D, log_operation: bool) -> (found: bool)
        requires
            old(self).wf(),
        ensures
            final(self).wf(),
            found == (index < old(self)@.records.len()),
            !found ==> final(self)@ == old(self)@,
            final(self)@ == old(self)@.update(index, *vector, log_operation),
    {
        if index < self.data.len() {
            let old_vector = self.data[index];
            self.magnitude_index.on_replace(index, &old_vector, vector);
            self.data[index] = *vector;
            if log_operation {
                self.log_operation(index, Operation::Update, *vector);
            }
            true
        } else {
            false
        }
    }

    /// Removes the record at `index`, moves every later record down by one
    /// slot, and refiles each of them under its new slot. Returns whether the
    /// slot was occupied; when it was not, nothing changes and nothing is
    /// logged.
    pub fn delete(&mut self, index: usize, log_operation: bool) -> (found: bool)
        requires
            old(self).wf(),
        ensures
            final(self).wf(),
            found == (index < old(self)@.records.len()),
            !found ==> final(self)@ == old(self)@,
            final(self)@ == old(self)@.delete(index, log_operation),
    {
        if index < self.data.len() {
            let ghost before = self.data@;
            let old_vector = self.data[index];
            if log_operation {
                self.log_operation(index, Operation::Delete, old_vector);
            }
            self.magnitude_index.on_remove(index, &old_vector);
            self.data.remove(index);
            let mut slot: usize = index;
            while slot < self.data.len()
                invariant
                    index <= slot <= self.data@.len(),
                    index < before.len() <= usize::MAX,
                    self.data@ == before.remove(index as int),
                    self.log@ == old(self)@.logged(
                        log_operation,
                        index,
                        Operation::Delete,
                        old_vector,
                    ).log,
                    self.log_path@ == old(self)@.log_path,
                    self.magnitude_index.wf(),
                    forall|k: u64, s: usize| #[trigger]
                        self.magnitude_index.slots(k).contains(s) <==> (s < slot
                            && self.data@[s as int].key() == k) || (slot < s < before.len()
                            && before[s as int].key() == k),
                decreases self.data@.len() - slot,
            {
                let moved = self.data[slot];
                self.magnitude_index.on_remove(slot + 1, &moved);
                self.magnitude_index.on_insert(slot, &moved);
                slot += 1;
            }
            true
        } else {
            false
        }
    }

    /// Appends an entry to the log buffer. The table and the index are not
    /// touched.
    pub fn log_operation(&mut self, id: usize, operation: Operation, vector: Vector3D)
        ensures
            final(self)@ == old(self)@.log_operation(id, operation, vector),
            final(self).index() == old(self).index(),
            final(self).wf() == old(self).wf(),
    {
        let log_entry = LogEntry { id, operation, vector };
        self.log.push(log_entry);
    }

    /// Settles a flush once the entries of `log()` were handed to stable
    /// storage: a write that succeeded empties the buffer, a write that
    /// failed leaves every entry in it for another attempt. The outcome is
    /// passed on to the caller.
    pub fn flush_log(&mut self, written: Result<(), LogError>) -> (outcome: Result<(), LogError>)
        ensures
            outcome == written,
            final(self)@ == old(self)@.flush(written),
            final(self).index() == old(self).index(),
            final(self).wf() == old(self).wf(),
    {
        if written.is_ok() {
            self.log.clear();
        }
        written
    }

    /// Replays one log entry against the store, without logging it again.
    pub fn apply(&mut self, entry: &LogEntry)
        requires
            old(self).wf(),
        ensures
            final(self).wf(),
            final(self)@ == old(self)@.apply(*entry),
    {
        match entry.operation {
            Operation::Insert => {
                self.set(&entry.vector, false);
            },
            Operation::Update => {
                self.update(entry.id, &entry.vector, false);
            },
            Operation::Delete => {
                self.delete(entry.id, false);
            },
        }
    }

    /// Replays the lines read from the log, in order, up to the first one
    /// that could not be read or is not an entry. That failure is returned,
    /// and what was replayed before it stays. A log without lines changes
    /// nothing.
    pub fn load_from_log(&mut self, lines: &Vec<Result<LogEntry, LogError>>) -> (outcome: Result<
        (),
        LogError,
    >)
        requires
            old(self).wf(),
        ensures
            final(self).wf(),
            final(self)@ == old(self)@.replay(readable_entries(lines@)),
            outcome is Ok <==> readable(lines@) == lines@.len(),
            outcome is Err ==> lines@[readable(lines@) as int] == Err::<LogEntry, LogError>(
                outcome->Err_0,
            ),
    {
        let mut i: usize = 0;
        while i < lines.len()
            invariant
                i <= lines@.len(),
                forall|j: int| 0 <= j < i ==> lines@[j] is Ok,
                self.wf(),
                self@ == old(self)@.replay(Seq::new(i as nat, |j: int| lines@[j]->Ok_0)),
            decreases lines@.len() - i,
        {
            match &lines[i] {
                Ok(entry) => {
                    let ghost done = Seq::new(i as nat, |j: int| lines@[j]->Ok_0);
                    self.apply(entry);
                    proof {
                        lemma_replay_push(old(self)@.records, done, *entry);
                        assert(done.push(*entry) =~= Seq::new(
                            (i + 1) as nat,
                            |j: int| lines@[j]->Ok_0,
                        ));
                    }
                },
                Err(error) => {
                    proof {
                        lemma_readable_is_first_failure(lines@, i as int);
                    }
                    return Err(*error);
                },
            }
            i += 1;
        }
        proof {
            lemma_readable_is_first_failure(lines@, i as int);
        }
        Ok(())
    }
}

} // verus!
