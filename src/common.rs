//! Common data types that are used throughout the library: elements read
//! whole, their payloads, and lists of sibling elements.

use vstd::prelude::*;
use vstd::utf8::{decode_utf8, valid_utf8};

use crate::error::Error;
use crate::primitives::{be_value, int_from_bits, signed_of, uint_from_be};
use crate::reader::{decode_element, elements_decode, lemma_element_decode_len};
use crate::types::{Binary, ElementId, ElementSize, SignedInt, UnsignedInt, Utf8};

verus! {

/// Represents an EBML element, with its ID and content.
#[derive(Debug)]
pub struct Element {
    pub(crate) id: ElementId,
    pub(crate) size: ElementSize,
    pub(crate) content: ElementContent,
}

impl Element {
    #[verifier::type_invariant]
    spec fn inv(self) -> bool {
        self.size == self.content.0@.len()
    }
}

impl View for Element {
    /// The element's ID and payload.
    type V = (nat, Seq<u8>);

    closed spec fn view(&self) -> (nat, Seq<u8>) {
        (self.id as nat, self.content@)
    }
}

impl Element {
    /// An element with ID `id` whose payload is `data`.
    pub fn new(id: ElementId, data: Vec<u8>) -> (r: Element)
        ensures
            r@ == (id as nat, data@),
    {
        let size = data.len();
        Element { id, size, content: ElementContent(data) }
    }

    /// Return the ID of the EBML element.
    pub fn id(&self) -> (r: ElementId)
        ensures
            r == self@.0,
    {
        self.id
    }

    /// Return the size of the element's content.
    pub fn size(&self) -> (r: ElementSize)
        ensures
            r == self@.1.len(),
    {
        proof {
            use_type_invariant(self);
        }
        self.size
    }

    /// Returns the content of the EBML element. Consumes `self`.
    pub fn content(self) -> (r: ElementContent)
        ensures
            r@ == self@.1,
    {
        self.content
    }
}

/// The bit pattern of a floating-point payload, by width.
#[derive(Debug, Clone, Copy, PartialEq, Eq, Structural)]
pub enum FloatBits {
    /// An IEEE 754 binary32 number.
    Single(u32),
    /// An IEEE 754 binary64 number.
    Double(u64),
}

/// EBML element content. Can be either raw user data, or other child EBML elements.
#[derive(Debug)]
pub struct ElementContent(pub(crate) Vec<u8>);

impl View for ElementContent {
    type V = Seq<u8>;

    closed spec fn view(&self) -> Seq<u8> {
        self.0@
    }
}

impl ElementContent {
    /// Create a new Element Content object.
    pub fn new(data: Vec<u8>) -> (r: ElementContent)
        ensures
            r@ == data@,
    {
        ElementContent(data)
    }

    /// Interpret the element content as raw binary data. Consumes `self`.
    pub fn into_binary(self) -> (r: Binary)
        ensures
            r@ == self@,
    {
        self.0
    }

    /// Interpret the element content, at most eight octets, as an unsigned
    /// big-endian integer. Consumes `self`.
    pub fn into_uint(self) -> (r: UnsignedInt)
        requires
            self@.len() <= 8,
        ensures
            r == be_value(self@),
    {
        uint_from_be(self.0.as_slice())
    }

    /// Interpret the element content, at most eight octets, as a signed
    /// integer: the 64-bit pattern of the unsigned reading. Consumes `self`.
    pub fn into_int(self) -> (r: SignedInt)
        requires
            self@.len() <= 8,
        ensures
            r == signed_of(be_value(self@)),
    {
        int_from_bits(uint_from_be(self.0.as_slice()))
    }

    /// Interpret the element content as the bits of a floating point number:
    /// four octets give a binary32, eight a binary64. Consumes `self`.
    pub fn into_float(self) -> (r: Result<FloatBits, Error>)
        ensures
            match r {
                Ok(FloatBits::Single(b)) => self@.len() == 4 && b == be_value(self@),
                Ok(FloatBits::Double(b)) => self@.len() == 8 && b == be_value(self@),
                Err(e) => self@.len() != 4 && self@.len() != 8 && e == Error::InvalidFloatSize,
            },
    {
        let len = self.0.len();
        if len == 4 {
            let v = uint_from_be(self.0.as_slice());
            proof {
                crate::primitives::lemma_be_value_bound(self@);
                crate::primitives::lemma_pow256_values();
            }
            Ok(FloatBits::Single(v as u32))
        } else if len == 8 {
            Ok(FloatBits::Double(uint_from_be(self.0.as_slice())))
        } else {
            Err(Error::InvalidFloatSize)
        }
    }

    /// Interpret the element content as an UTF-8 string. Can return an error if the data in not
    /// valid UTF-8. Consumes `self`.
    pub fn into_utf8(self) -> (r: Result<Utf8, Error>)
        ensures
            match r {
                Ok(s) => valid_utf8(self@) && s@ == decode_utf8(self@),
                Err(e) => !valid_utf8(self@) && e == Error::InvalidUtf8,
            },
    {
        crate::element::text_from_octets(self.0)
    }

    /// Interpret the element content as an array of children elements,
    /// which must fill it exactly. Consumes `self`.
    pub fn children(self) -> (r: Result<ElementArray, Error>)
        ensures
            match elements_decode(self@) {
                Ok(ch) => match r {
                    Ok(a) => a@ == ch.map_values(|x: ((nat, Seq<u8>), nat)| x.0),
                    Err(_) => false,
                },
                Err(e) => r == Err::<ElementArray, Error>(e),
            },
    {
        let buf = self.0.as_slice();
        let mut children: Vec<Element> = Vec::new();
        let mut count: usize = 0;
        let ghost done: Seq<((nat, Seq<u8>), nat)> = seq![];
        assert(buf@.skip(0) =~= buf@);
        while count < buf.len()
            invariant
                count <= buf@.len(),
                buf@ == self@,
                children@.map_values(|e: Element| e@) == done.map_values(
                    |x: ((nat, Seq<u8>), nat)| x.0,
                ),
                elements_decode(buf@) == match elements_decode(buf@.skip(count as int)) {
                    Ok(rest) => Ok(done + rest),
                    Err(x) => Err::<Seq<((nat, Seq<u8>), nat)>, Error>(x),
                },
            decreases buf@.len() - count,
        {
            let rest = &buf[count..buf.len()];
            let (elem, c) = match decode_element(rest) {
                Ok(x) => x,
                Err(e) => return Err(e),
            };
            proof {
                lemma_element_decode_len(rest@);
                assert(rest@.skip(c as int) =~= buf@.skip(count + c));
                let ghost step = (elem@, c as nat);
                match elements_decode(buf@.skip(count + c)) {
                    Ok(tail) => {
                        assert(done.push(step) + tail =~= done + (seq![step] + tail));
                    },
                    Err(_) => {},
                }
                done = done.push(step);
            }
            count += c;
            let ghost before = children@;
            let ghost done_before = done.drop_last();
            children.push(elem);
            assert(before.map_values(|e: Element| e@) == done_before.map_values(
                |x: ((nat, Seq<u8>), nat)| x.0,
            ));
            assert forall|j: int| 0 <= j < children@.len() implies #[trigger] children@[j]@
                == done[j].0 by {
                if j < before.len() {
                    assert(done_before.map_values(|x: ((nat, Seq<u8>), nat)| x.0)[j]
                        == done_before[j].0);
                }
            }
            assert(children@.map_values(|e: Element| e@) =~= done.map_values(
                |x: ((nat, Seq<u8>), nat)| x.0,
            ));
        }
        Ok(ElementArray(children))
    }
}

/// Represents a list of child EBML elements.
#[derive(Debug)]
pub struct ElementArray(pub(crate) Vec<Element>);

impl View for ElementArray {
    /// The elements' IDs and payloads, in order.
    type V = Seq<(nat, Seq<u8>)>;

    closed spec fn view(&self) -> Seq<(nat, Seq<u8>)> {
        self.0@.map_values(|e: Element| e@)
    }
}

/// The index of the first element with ID `id` in `s`; `s.len()` when there is none.
pub open spec fn index_of_id(s: Seq<(nat, Seq<u8>)>, id: nat) -> nat
    decreases s.len(),
{
    if s.len() == 0 {
        0
    } else if s[0].0 == id {
        0
    } else {
        1 + index_of_id(s.drop_first(), id)
    }
}

/// The first element with ID `id` in `s`, if there is one.
pub open spec fn first_with_id(s: Seq<(nat, Seq<u8>)>, id: nat) -> Option<(nat, Seq<u8>)> {
    if index_of_id(s, id) < s.len() {
        Some(s[index_of_id(s, id) as int])
    } else {
        None
    }
}

/// Past a first element of another ID, the search goes on in the rest.
pub proof fn lemma_first_with_id_step(s: Seq<(nat, Seq<u8>)>, id: nat)
    requires
        s.len() > 0,
        s[0].0 != id,
    ensures
        first_with_id(s, id) == first_with_id(s.drop_first(), id),
{
}

/// Taking out the first element with ID `a` leaves the first element with
/// any other ID as it was.
pub proof fn lemma_remove_keeps_other(s: Seq<(nat, Seq<u8>)>, a: nat, b: nat)
    requires
        a != b,
        index_of_id(s, a) < s.len(),
    ensures
        first_with_id(s.remove(index_of_id(s, a) as int), b) == first_with_id(s, b),
    decreases s.len(),
{
    let i = index_of_id(s, a);
    let t = s.remove(i as int);
    if s[0].0 == a {
        lemma_first_with_id_step(s, b);
    } else {
        lemma_remove_keeps_other(s.drop_first(), a, b);
        assert(t.drop_first() =~= s.drop_first().remove(i - 1));
        if s[0].0 != b {
            lemma_first_with_id_step(s, b);
            lemma_first_with_id_step(t, b);
        }
    }
}

/// `index_of_id` finds the first element with the ID.
proof fn lemma_index_of_id(s: Seq<(nat, Seq<u8>)>, id: nat, i: int)
    requires
        0 <= i <= s.len(),
        forall|j: int| 0 <= j < i ==> s[j].0 != id,
        i < s.len() ==> s[i].0 == id,
    ensures
        index_of_id(s, id) == i,
    decreases i,
{
    if i > 0 {
        lemma_index_of_id(s.drop_first(), id, i - 1);
    }
}

impl ElementArray {
    /// Find a specific element based on its ID, and return it. If found, the element is removed
    /// from the list.
    pub fn find(&mut self, id: ElementId) -> (r: Option<Element>)
        ensures
            match first_with_id(old(self)@, id as nat) {
                Some(e) => match r {
                    Some(x) => x@ == e && final(self)@ == old(self)@.remove(
                        index_of_id(old(self)@, id as nat) as int,
                    ),
                    None => false,
                },
                None => r is None && final(self)@ == old(self)@,
            },
    {
        let mut i: usize = 0;
        while i < self.0.len()
            invariant
                i <= self@.len(),
                self@ == old(self)@,
                forall|j: int| 0 <= j < i ==> self@[j].0 != id,
            decreases self@.len() - i,
        {
            if self.0[i].id() == id {
                proof {
                    lemma_index_of_id(self@, id as nat, i as int);
                }
                let elem = self.0.remove(i);
                return Some(elem);
            }
            i += 1;
        }
        proof {
            lemma_index_of_id(self@, id as nat, i as int);
        }
        None
    }

    /// Return the list of elements as a Vec. Consumes `self`.
    pub fn vec(self) -> (r: Vec<Element>)
        ensures
            r@.map_values(|e: Element| e@) == self@,
    {
        self.0
    }
}

} // verus!
