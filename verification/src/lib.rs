//! An embedded store of three-component vectors.
//!
//! Records live in a dense table addressed by slot, a secondary index files
//! every slot under the magnitude of its record, and each accepted mutation
//! can be appended to an operation log whose replay rebuilds the table.
//!
//! The store never does floating-point arithmetic itself: a number is held as
//! its IEEE-754 binary64 bit pattern, and the magnitude of a vector travels
//! with it. Callers that work with floats convert at the boundary.

pub mod database;
pub mod framing;
pub mod index;
pub mod key;
pub mod logs;
pub mod model;
pub mod vector;
