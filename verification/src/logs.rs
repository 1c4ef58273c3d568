//! Entries of the operation log.

use crate::vector::Vector3D;
use vstd::prelude::*;

verus! {

/// The kind of a logged mutation.
#[derive(Clone, Copy, Debug, PartialEq, Eq, Structural)]
pub enum Operation {
    Insert,
    Update,
    Delete,
}

/// One accepted mutation.
///
/// `vector` is the record after the operation for an insert or an update, and
/// the record that was removed for a delete.
#[derive(Clone, Copy, Debug, PartialEq, Eq, Structural)]
pub struct LogEntry {
    pub id: usize,
    pub operation: Operation,
    pub vector: Vector3D,
}

/// Why writing or reading the log stopped.
#[derive(Clone, Copy, Debug, PartialEq, Eq, Structural)]
pub enum LogError {
    /// Stable storage could not be opened, written or read.
    Io,
    /// A stored line is not a log entry.
    Malformed,
}

} // verus!
