//! The mathematical model of the store: what each operation does to the
//! table of records and to the log buffer, and the laws that follow.

use crate::logs::{LogEntry, LogError, Operation};
use crate::vector::Vector3D;
use vstd::prelude::*;

verus! {

/// The test that a record has the key `key`.
pub open spec fn has_key(key: u64) -> spec_fn(Vector3D) -> bool {
    |r: Vector3D| r.key() == key
}

/// The records of a table whose key is `key`, in slot order.
pub open spec fn records_with_key(records: Seq<Vector3D>, key: u64) -> Seq<Vector3D> {
    records.filter(has_key(key))
}

/// What one log entry does to a table when it is replayed. An insert appends
/// the record, wherever the entry says it went; an update or a delete of a
/// slot that the table does not have changes nothing.
pub open spec fn apply_entry(records: Seq<Vector3D>, entry: LogEntry) -> Seq<Vector3D> {
    match entry.operation {
        Operation::Insert => records.push(entry.vector),
        Operation::Update => if entry.id < records.len() {
            records.update(entry.id as int, entry.vector)
        } else {
            records
        },
        Operation::Delete => if entry.id < records.len() {
            records.remove(entry.id as int)
        } else {
            records
        },
    }
}

/// What a run of log entries, replayed first to last, makes of a table.
pub open spec fn replay_entries(records: Seq<Vector3D>, entries: Seq<LogEntry>) -> Seq<Vector3D>
    decreases entries.len(),
{
    if entries.len() == 0 {
        records
    } else {
        apply_entry(replay_entries(records, entries.drop_last()), entries.last())
    }
}

/// The number of lines at the head of a log that were read as entries: the
/// position of the first failure, or the length where there is none.
pub open spec fn readable(lines: Seq<Result<LogEntry, LogError>>) -> nat
    decreases lines.len(),
{
    if lines.len() == 0 || lines[0] is Err {
        0
    } else {
        1 + readable(lines.drop_first())
    }
}

/// The entries that stand before the first failure.
pub open spec fn readable_entries(lines: Seq<Result<LogEntry, LogError>>) -> Seq<LogEntry> {
    Seq::new(readable(lines), |i: int| lines[i]->Ok_0)
}

/// A mutation as a client asks for it.
pub enum Mutation {
    /// Append a record.
    Insert(Vector3D),
    /// Overwrite the record at a slot.
    Update(usize, Vector3D),
    /// Remove the record at a slot.
    Delete(usize),
}

/// The abstract state of a store.
pub struct DatabaseView {
    /// The record at each slot.
    pub records: Seq<Vector3D>,
    /// The entries appended since the last flush, oldest first.
    pub log: Seq<LogEntry>,
    /// Where the log is kept on stable storage.
    pub log_path: Seq<char>,
}

impl DatabaseView {
    /// The state of a new store.
    pub open spec fn empty(log_path: Seq<char>) -> DatabaseView {
        DatabaseView { records: Seq::empty(), log: Seq::empty(), log_path }
    }

    /// The record at `index`, if the slot is occupied.
    pub open spec fn get(self, index: usize) -> Option<Vector3D> {
        if index < self.records.len() {
            Some(self.records[index as int])
        } else {
            None
        }
    }

    /// The records filed under `key`, in slot order.
    pub open spec fn lookup(self, key: u64) -> Seq<Vector3D> {
        records_with_key(self.records, key)
    }

    /// The state with one more entry in the log buffer.
    pub open spec fn log_operation(self, id: usize, operation: Operation, vector: Vector3D) -> Self {
        DatabaseView { log: self.log.push(LogEntry { id, operation, vector }), ..self }
    }

    /// The state with the log buffer left alone or extended by an entry.
    pub open spec fn logged(
        self,
        log_operation: bool,
        id: usize,
        operation: Operation,
        vector: Vector3D,
    ) -> Self {
        if log_operation {
            self.log_operation(id, operation, vector)
        } else {
            self
        }
    }

    /// The state after `vector` was appended at the next free slot.
    pub open spec fn set(self, vector: Vector3D, log_operation: bool) -> Self {
        DatabaseView { records: self.records.push(vector), ..self }.logged(
            log_operation,
            self.records.len() as usize,
            Operation::Insert,
            vector,
        )
    }

    /// The state after the record at `index` was overwritten; unchanged when
    /// the slot is not occupied.
    pub open spec fn update(self, index: usize, vector: Vector3D, log_operation: bool) -> Self {
        if index < self.records.len() {
            DatabaseView { records: self.records.update(index as int, vector), ..self }.logged(
                log_operation,
                index,
                Operation::Update,
                vector,
            )
        } else {
            self
        }
    }

    /// The state after the record at `index` was removed and every later
    /// record moved down by one slot; unchanged when the slot is not occupied.
    pub open spec fn delete(self, index: usize, log_operation: bool) -> Self {
        if index < self.records.len() {
            DatabaseView { records: self.records.remove(index as int), ..self }.logged(
                log_operation,
                index,
                Operation::Delete,
                self.records[index as int],
            )
        } else {
            self
        }
    }

    /// The state after one log entry was replayed. The log buffer stays as it
    /// is: replay does not log.
    pub open spec fn apply(self, entry: LogEntry) -> Self {
        DatabaseView { records: apply_entry(self.records, entry), ..self }
    }

    /// The state after a run of log entries was replayed, first to last.
    pub open spec fn replay(self, entries: Seq<LogEntry>) -> Self {
        DatabaseView { records: replay_entries(self.records, entries), ..self }
    }

    /// The state after an attempt to write the log buffer to stable storage:
    /// emptied when the write succeeded, unchanged when it failed.
    pub open spec fn flush(self, written: Result<(), LogError>) -> Self {
        if written is Ok {
            DatabaseView { log: Seq::empty(), ..self }
        } else {
            self
        }
    }

    /// The state after a client's call, which logs.
    pub open spec fn perform(self, call: Mutation) -> Self {
        match call {
            Mutation::Insert(vector) => self.set(vector, true),
            Mutation::Update(index, vector) => self.update(index, vector, true),
            Mutation::Delete(index) => self.delete(index, true),
        }
    }

    /// The state after a run of client calls, first to last.
    pub open spec fn run(self, calls: Seq<Mutation>) -> Self
        decreases calls.len(),
    {
        if calls.len() == 0 {
            self
        } else {
            self.run(calls.drop_last()).perform(calls.last())
        }
    }
}

/// A lookup finds every record under its own key, and finds under a key only
/// records of the table that have that key.
pub proof fn lemma_lookup_consistent(state: DatabaseView)
    ensures
        forall|s: int|
            0 <= s < state.records.len() ==> #[trigger] state.lookup(
                state.records[s].key(),
            ).contains(state.records[s]),
        forall|k: u64, r: Vector3D| #[trigger]
            state.lookup(k).contains(r) ==> r.key() == k && state.records.contains(r),
{
    assert forall|s: int| 0 <= s < state.records.len() implies #[trigger] state.lookup(
        state.records[s].key(),
    ).contains(state.records[s]) by {
        state.records.lemma_filter_contains(has_key(state.records[s].key()), s);
    }
    assert forall|k: u64, r: Vector3D| #[trigger] state.lookup(k).contains(r) implies r.key() == k
        && state.records.contains(r) by {
        let i = state.lookup(k).index_of(r);
        state.records.lemma_filter_pred(has_key(k), i);
        state.records.lemma_filter_contains_rev(has_key(k), r);
    }
}

/// Replaying one more entry is replaying the run before it and then applying
/// the entry.
pub proof fn lemma_replay_push(records: Seq<Vector3D>, entries: Seq<LogEntry>, entry: LogEntry)
    ensures
        replay_entries(records, entries.push(entry)) == apply_entry(
            replay_entries(records, entries),
            entry,
        ),
{
    assert(entries.push(entry).drop_last() =~= entries);
}

/// Replaying two runs one after the other is replaying them joined.
pub proof fn lemma_replay_concat(
    records: Seq<Vector3D>,
    first: Seq<LogEntry>,
    second: Seq<LogEntry>,
)
    ensures
        replay_entries(records, first + second) == replay_entries(
            replay_entries(records, first),
            second,
        ),
    decreases second.len(),
{
    if second.len() > 0 {
        lemma_replay_concat(records, first, second.drop_last());
        assert((first + second).drop_last() =~= first + second.drop_last());
    }
}

/// One client call extends the log buffer by at most one entry, and
/// applying what it appended to the table before the call gives the table
/// after it.
pub proof fn lemma_perform_logs_its_effect(state: DatabaseView, call: Mutation)
    ensures
        ({
            let next = state.perform(call);
            let appended = next.log.skip(state.log.len() as int);
            &&& next.log.len() >= state.log.len()
            &&& next.log.take(state.log.len() as int) == state.log
            &&& next.log_path == state.log_path
            &&& replay_entries(state.records, appended) == next.records
        }),
{
    let next = state.perform(call);
    if next.log.len() > state.log.len() {
        let entry = next.log.last();
        assert(next.log.skip(state.log.len() as int) =~= Seq::<LogEntry>::empty().push(entry));
        lemma_replay_push(state.records, Seq::<LogEntry>::empty(), entry);
    }
}

/// Whatever calls a client makes, replaying the entries that they appended to
/// the log buffer, against the table as it was before them, rebuilds the
/// table as it is after them. A store that starts empty and is recovered from
/// its flushed log therefore holds the records that the flushing store held.
pub proof fn lemma_replay_rebuilds_records(start: DatabaseView, calls: Seq<Mutation>)
    ensures
        ({
            let end = start.run(calls);
            let appended = end.log.skip(start.log.len() as int);
            &&& end.log.len() >= start.log.len()
            &&& end.log.take(start.log.len() as int) == start.log
            &&& end.log_path == start.log_path
            &&& replay_entries(start.records, appended) == end.records
            &&& start.replay(appended).records == end.records
        }),
    decreases calls.len(),
{
    if calls.len() > 0 {
        let end = start.run(calls);
        let middle = start.run(calls.drop_last());
        lemma_replay_rebuilds_records(start, calls.drop_last());
        lemma_perform_logs_its_effect(middle, calls.last());
        let earlier = middle.log.skip(start.log.len() as int);
        let later = end.log.skip(middle.log.len() as int);
        assert(end.log.skip(start.log.len() as int) =~= earlier + later);
        lemma_replay_concat(start.records, earlier, later);
    }
}

/// A store that starts empty, takes any run of client calls and flushes, and
/// a second store that starts empty and replays what the first one flushed,
/// hold the same records at the same slots, and so answer every `get` and
/// every lookup alike.
pub proof fn lemma_recovery_round_trip(
    log_path: Seq<char>,
    recovered_path: Seq<char>,
    calls: Seq<Mutation>,
)
    ensures
        ({
            let flushing = DatabaseView::empty(log_path).run(calls);
            let recovered = DatabaseView::empty(recovered_path).replay(flushing.log);
            &&& recovered.records == flushing.records
            &&& forall|index: usize| recovered.get(index) == flushing.get(index)
            &&& forall|key: u64| recovered.lookup(key) == flushing.lookup(key)
            &&& flushing.flush(Ok(())).records == flushing.records
            &&& flushing.flush(Ok(())).log.len() == 0
        }),
{
    let start = DatabaseView::empty(log_path);
    lemma_replay_rebuilds_records(start, calls);
    assert(start.run(calls).log.skip(0) =~= start.run(calls).log);
}

/// The count of readable lines is the position of the first failure: every
/// line before it is an entry, and it is either the end of the log or a line
/// that failed; no other position is both.
pub proof fn lemma_readable_is_first_failure(lines: Seq<Result<LogEntry, LogError>>, n: int)
    ensures
        readable(lines) <= lines.len(),
        forall|i: int| 0 <= i < readable(lines) ==> lines[i] is Ok,
        readable(lines) < lines.len() ==> lines[readable(lines) as int] is Err,
        0 <= n <= lines.len() && (forall|i: int| 0 <= i < n ==> lines[i] is Ok) && (n
            < lines.len() ==> lines[n] is Err) ==> readable(lines) == n,
    decreases lines.len(),
{
    if lines.len() > 0 && lines[0] is Ok {
        let rest = lines.drop_first();
        lemma_readable_is_first_failure(rest, n - 1);
        assert forall|i: int| 0 <= i < readable(lines) implies lines[i] is Ok by {
            if i > 0 {
                assert(lines[i] == rest[i - 1]);
            }
        }
        assert forall|i: int| 0 <= i < rest.len() implies rest[i] == lines[i + 1] by {}
    }
}

} // verus!
