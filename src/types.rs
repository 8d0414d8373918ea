//! EBML data type definitions.

use vstd::prelude::*;

verus! {

/// Raw octets.
pub type Binary = Vec<u8>;

/// An unsigned integer payload.
pub type UnsignedInt = u64;

/// A signed integer payload.
pub type SignedInt = i64;

/// A UTF-8 text payload.
pub type Utf8 = String;

/// The ID of an element, length marker included.
pub type ElementId = UnsignedInt;

/// The size in octets of an element's payload.
pub type ElementSize = usize;

} // verus!
