//! The record type of the store.

use crate::key::{order_key, spec_order_key};
use vstd::prelude::*;

verus! {

/// A three-component vector together with its magnitude.
///
/// Each field is the IEEE-754 binary64 bit pattern of the number it stands
/// for. `magnitude` is the Euclidean norm of `(x, y, z)` as the caller
/// computed it; the store takes it as given and files the record under it.
#[derive(Clone, Copy, Debug, PartialEq, Eq, Structural)]
pub struct Vector3D {
    pub x: u64,
    pub y: u64,
    pub z: u64,
    pub magnitude: u64,
}

impl Vector3D {
    /// The index key of the record: the place of its magnitude in the total
    /// order on bit patterns.
    pub open spec fn spec_key(&self) -> u64 {
        spec_order_key(self.magnitude)
    }

    /// Computes the index key of the record.
    #[verifier::when_used_as_spec(spec_key)]
    pub fn key(&self) -> (key: u64)
        ensures
            key == self.spec_key(),
    {
        order_key(self.magnitude)
    }
}

} // verus!
