//! Byte sources and sinks for EBML: a cursor over octets held in memory,
//! and the element-level read and write operations on them.

use vstd::prelude::*;

use crate::common::Element;
use crate::error::Error;
use crate::primitives::{vint_encode, write_variable_size_integer};
use crate::reader::{element_decode, header_decode, read_element, read_element_info};
use crate::types::{ElementId, ElementSize};

verus! {

/// A sequential source of octets held in memory. Reading takes octets from
/// the front; a read that fails takes nothing.
pub struct Cursor {
    data: Vec<u8>,
    pos: usize,
}

impl Cursor {
    #[verifier::type_invariant]
    spec fn inv(self) -> bool {
        self.pos <= self.data.len()
    }
}

impl View for Cursor {
    type V = Seq<u8>;

    /// The octets not read yet.
    closed spec fn view(&self) -> Seq<u8> {
        self.data@.skip(self.pos as int)
    }
}

impl Cursor {
    /// A source that yields `data` from its first octet on.
    pub fn new(data: Vec<u8>) -> (r: Cursor)
        ensures
            r@ == data@,
    {
        let r = Cursor { data, pos: 0 };
        r
    }

    /// The octets not read yet.
    pub fn remaining(&self) -> (r: &[u8])
        ensures
            r@ == self@,
    {
        proof {
            use_type_invariant(self);
        }
        &self.data.as_slice()[self.pos..self.data.len()]
    }

    /// The number of octets not read yet.
    pub fn remaining_len(&self) -> (r: usize)
        ensures
            r == self@.len(),
    {
        proof {
            use_type_invariant(self);
        }
        self.data.len() - self.pos
    }

    /// Pass over `n` octets without reading them, as for a payload the
    /// caller does not need. Fails, taking nothing, when fewer are left.
    pub fn skip(&mut self, n: usize) -> (r: Result<(), Error>)
        ensures
            n <= old(self)@.len() ==> r is Ok && final(self)@ == old(self)@.skip(n as int),
            n > old(self)@.len() ==> r == Err::<(), Error>(Error::UnexpectedEof) && final(self)@
                == old(self)@,
    {
        if n > self.remaining_len() {
            return Err(Error::UnexpectedEof);
        }
        self.advance(n);
        Ok(())
    }

    /// Mark `n` more octets as read.
    pub(crate) fn advance(&mut self, n: usize)
        requires
            n <= old(self)@.len(),
        ensures
            final(self)@ == old(self)@.skip(n as int),
    {
        proof {
            use_type_invariant(&*self);
        }
        self.pos = self.pos + n;
    }
}

/// The ID and declared size of an element, without its payload.
#[derive(Debug)]
pub struct ElementInfo {
    pub id: ElementId,
    pub size: ElementSize,
}

/// Reading whole EBML elements, or only their headers, from a byte source.
pub trait ReadEbml {
    /// Read an entire EBML Element.
    fn read_ebml_element(&mut self) -> Result<(Element, usize), Error>;

    /// Read EBML element information, but without reading all the element's data.
    fn read_ebml_element_info(&mut self) -> Result<(ElementInfo, usize), Error>;
}

impl ReadEbml for Cursor {
    fn read_ebml_element(&mut self) -> (res: Result<(Element, usize), Error>)
        ensures
            match element_decode(old(self)@) {
                Ok((e, n)) => match res {
                    Ok((x, c)) => x@ == e && c == n && final(self)@ == old(self)@.skip(n as int),
                    Err(_) => false,
                },
                Err(e) => res == Err::<(Element, usize), Error>(e) && final(self)@ == old(self)@,
            },
    {
        read_element(self)
    }

    fn read_ebml_element_info(&mut self) -> (res: Result<(ElementInfo, usize), Error>)
        ensures
            match header_decode(old(self)@) {
                Ok((id, size, n)) => match res {
                    Ok((info, c)) => info.id == id && info.size == size && c == n && final(self)@
                        == old(self)@.skip(n as int),
                    Err(_) => false,
                },
                Err(e) => res == Err::<(ElementInfo, usize), Error>(e) && final(self)@ == old(
                    self,
                )@,
            },
    {
        match read_element_info(self) {
            Ok((id, size, c)) => Ok((ElementInfo { id, size }, c)),
            Err(e) => Err(e),
        }
    }
}

/// Writing EBML elements, or only their headers, to a byte sink.
pub trait WriteEbml {
    /// Write an entire EBML Element.
    fn write_ebml_element(&mut self, elem: Element) -> Result<(), Error>;

    /// Write information of an EBML element without writing the data that it contains.
    fn write_ebml_element_info(&mut self, info: ElementInfo) -> Result<(), Error>;
}

/// The octets of an element header: its ID, then its size.
pub open spec fn header_encode(id: nat, size: nat) -> Result<Seq<u8>, Error> {
    match vint_encode(id, false) {
        Err(e) => Err(e),
        Ok(a) => match vint_encode(size, true) {
            Err(e) => Err(e),
            Ok(b) => Ok(a + b),
        },
    }
}

impl WriteEbml for Vec<u8> {
    fn write_ebml_element(&mut self, elem: Element) -> (r: Result<(), Error>)
        ensures
            match header_encode(elem@.0, elem@.1.len()) {
                Ok(h) => r is Ok && final(self)@ == old(self)@ + h + elem@.1,
                Err(e) => r == Err::<(), Error>(e) && final(self)@ == old(self)@,
            },
    {
        let info = ElementInfo { id: elem.id(), size: elem.size() };
        let r = self.write_ebml_element_info(info);
        if r.is_err() {
            return r;
        }
        let mut data = elem.content().into_binary();
        self.append(&mut data);
        Ok(())
    }

    fn write_ebml_element_info(&mut self, info: ElementInfo) -> (r: Result<(), Error>)
        ensures
            match header_encode(info.id as nat, info.size as nat) {
                Ok(h) => r is Ok && final(self)@ == old(self)@ + h,
                Err(e) => r == Err::<(), Error>(e) && final(self)@ == old(self)@,
            },
    {
        let mut h: Vec<u8> = Vec::new();
        match write_variable_size_integer(&mut h, info.id, false) {
            Ok(()) => {},
            Err(e) => return Err(e),
        }
        match write_variable_size_integer(&mut h, info.size as u64, true) {
            Ok(()) => {},
            Err(e) => return Err(e),
        }
        self.append(&mut h);
        Ok(())
    }
}

} // verus!
