//! Errors reported while decoding or encoding EBML.

use vstd::prelude::*;

verus! {

/// Everything that can go wrong while reading or writing EBML.
#[derive(Debug, Clone, Copy, PartialEq, Eq, Structural)]
pub enum Error {
    /// The byte source ended before a VINT or a payload was complete.
    UnexpectedEof,
    /// The first octet of a VINT holds no length marker (it is zero).
    InvalidVint,
    /// A value needs more octets than a VINT can hold.
    IntegerTooBig,
    /// A required child element is missing; holds the missing ID.
    ElementNotFound(u64),
    /// An element other than the expected one was read; holds the ID read.
    UnexpectedElementId(u64),
    /// A float payload is neither 4 nor 8 octets long.
    InvalidFloatSize,
    /// An integer payload is longer than 8 octets.
    InvalidIntegerSize,
    /// A text payload is not well-formed UTF-8.
    InvalidUtf8,
    /// The element carries no data (a master element, or data already taken).
    NoData,
    /// Master elements are nested deeper than the allowed depth.
    NestingTooDeep,
}

} // verus!
