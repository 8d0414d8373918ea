//! EBML element kinds and the typed reading of element data.

use vstd::prelude::*;
use vstd::utf8::{decode_utf8, valid_utf8};

use crate::common::FloatBits;
use crate::error::Error;
use crate::primitives::{be_value, int_from_bits, signed_of, uint_from_be};
use crate::types::{Binary, SignedInt, UnsignedInt, Utf8};

verus! {

/// Type alias for the IDs of EBML elements.
pub type Id = u64;

/// Type alias for the size of EBML elements.
pub type Size = usize;

/// Trait that must be implemented by all types that represent an EBML element.
pub trait Element {
    /// Returns the ID of the EBML element.
    fn id() -> Id;

    /// Return wether this EBML element is a Master Element, i.e if it contains other EBML elements.
    fn is_master() -> bool;
}

/// Relies on `String::from_utf8`: it accepts exactly the octet strings that
/// are well-formed UTF-8, and then holds the characters they encode.
#[verifier::external_body]
pub(crate) fn text_from_octets(bytes: Vec<u8>) -> (r: Result<String, Error>)
    ensures
        match r {
            Ok(s) => valid_utf8(bytes@) && s@ == decode_utf8(bytes@),
            Err(e) => !valid_utf8(bytes@) && e == Error::InvalidUtf8,
        },
{
    match String::from_utf8(bytes) {
        Ok(s) => Ok(s),
        Err(_) => Err(Error::InvalidUtf8),
    }
}

/// Represents data contained within an EBML element: none for a master
/// element or for data passed over, otherwise the payload octets.
#[derive(Clone, Debug)]
pub struct Data(pub(crate) Option<Vec<u8>>);

impl View for Data {
    type V = Option<Seq<u8>>;

    closed spec fn view(&self) -> Option<Seq<u8>> {
        match self.0 {
            Some(v) => Some(v@),
            None => None,
        }
    }
}

impl Data {
    /// Data made of the octets `buf`, or absent.
    pub fn new(buf: Option<Vec<u8>>) -> (r: Data)
        ensures
            r@ == match buf {
                Some(v) => Some(v@),
                None => None::<Seq<u8>>,
            },
    {
        Data(buf)
    }

    /// Consume the object and returns its data as a binary buffer.
    pub fn take(self) -> (r: Result<Binary, Error>)
        ensures
            match self@ {
                Some(b) => r is Ok && r->Ok_0@ == b,
                None => r == Err::<Binary, Error>(Error::NoData),
            },
    {
        match self.0 {
            Some(buf) => Ok(buf),
            None => Err(Error::NoData),
        }
    }

    /// Interpret the element data as a UTF-8 string. This function creates a copy of the data in
    /// order to allocate the new UTF-8 string.
    pub fn to_utf8(&self) -> (r: Result<Utf8, Error>)
        ensures
            match self@ {
                Some(b) => match r {
                    Ok(s) => valid_utf8(b) && s@ == decode_utf8(b),
                    Err(e) => !valid_utf8(b) && e == Error::InvalidUtf8,
                },
                None => r == Err::<Utf8, Error>(Error::NoData),
            },
    {
        match &self.0 {
            Some(buf) => {
                let mut copy: Vec<u8> = Vec::new();
                copy.extend_from_slice(buf.as_slice());
                assert(copy@ =~= buf@);
                text_from_octets(copy)
            },
            None => Err(Error::NoData),
        }
    }

    /// Interpret the element data, at most eight octets, as an unsigned
    /// big-endian integer.
    pub fn to_unsigned_int(&self) -> (r: Result<UnsignedInt, Error>)
        ensures
            match self@ {
                Some(b) => if b.len() <= 8 {
                    r is Ok && r->Ok_0 == be_value(b)
                } else {
                    r == Err::<UnsignedInt, Error>(Error::InvalidIntegerSize)
                },
                None => r == Err::<UnsignedInt, Error>(Error::NoData),
            },
    {
        match &self.0 {
            Some(buf) => {
                if buf.len() > 8 {
                    return Err(Error::InvalidIntegerSize);
                }
                Ok(uint_from_be(buf.as_slice()))
            },
            None => Err(Error::NoData),
        }
    }

    /// Interpret the element data, at most eight octets, as a signed integer:
    /// the 64-bit pattern of the unsigned reading.
    pub fn to_signed_int(&self) -> (r: Result<SignedInt, Error>)
        ensures
            match self@ {
                Some(b) => if b.len() <= 8 {
                    r is Ok && r->Ok_0 == signed_of(be_value(b))
                } else {
                    r == Err::<SignedInt, Error>(Error::InvalidIntegerSize)
                },
                None => r == Err::<SignedInt, Error>(Error::NoData),
            },
    {
        match &self.0 {
            Some(buf) => {
                if buf.len() > 8 {
                    return Err(Error::InvalidIntegerSize);
                }
                Ok(int_from_bits(uint_from_be(buf.as_slice())))
            },
            None => Err(Error::NoData),
        }
    }

    /// Interpret the element data as the bits of a floating point number:
    /// four octets give a binary32, eight a binary64.
    pub fn to_float(&self) -> (r: Result<FloatBits, Error>)
        ensures
            match self@ {
                Some(b) => match r {
                    Ok(FloatBits::Single(x)) => b.len() == 4 && x == be_value(b),
                    Ok(FloatBits::Double(x)) => b.len() == 8 && x == be_value(b),
                    Err(e) => b.len() != 4 && b.len() != 8 && e == Error::InvalidFloatSize,
                },
                None => r == Err::<FloatBits, Error>(Error::NoData),
            },
    {
        let len: usize;
        match &self.0 {
            Some(buf) => {
                len = buf.len();
            },
            None => {
                return Err(Error::NoData);
            },
        }
        if len == 4 {
            let v = match self.to_unsigned_int() {
                Ok(v) => v,
                Err(e) => return Err(e),
            };
            proof {
                crate::primitives::lemma_be_value_bound(self@->Some_0);
                crate::primitives::lemma_pow256_values();
            }
            Ok(FloatBits::Single(v as u32))
        } else if len == 8 {
            match self.to_unsigned_int() {
                Ok(v) => Ok(FloatBits::Double(v)),
                Err(e) => Err(e),
            }
        } else {
            Err(Error::InvalidFloatSize)
        }
    }
}

} // verus!
