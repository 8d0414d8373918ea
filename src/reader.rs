//! Reading EBML elements: headers, payloads and whole elements, from a
//! cursor or from octets held in a slice.

use vstd::prelude::*;

use crate::common::{
    first_with_id, lemma_remove_keeps_other, Element, ElementArray, ElementContent,
};
use crate::header::{
    header_fields, text_field, uint_field, Header, HeaderFields, DOC_TYPE, DOC_TYPE_READ_VERSION,
    DOC_TYPE_VERSION, EBML, MAX_ID_LENGTH, MAX_SIZE_LENGTH, READ_VERSION, VERSION,
};
use crate::error::Error;
use crate::io::Cursor;
use crate::primitives::{
    decode_vint, lemma_truncated_vint_fails, lemma_vint_decode_bound, vint_decode,
};
use crate::types::{ElementId, ElementSize, SignedInt, Utf8};

verus! {

/// The element header at the start of `s`: the ID (length marker kept),
/// the declared payload size, and the header's length in octets.
pub open spec fn header_decode(s: Seq<u8>) -> Result<(nat, nat, nat), Error> {
    match vint_decode(s, false) {
        Err(e) => Err(e),
        Ok((id, n1)) => match vint_decode(s.skip(n1 as int), true) {
            Err(e) => Err(e),
            Ok((size, n2)) => if size > usize::MAX {
                Err(Error::IntegerTooBig)
            } else {
                Ok((id, size, n1 + n2))
            },
        },
    }
}

/// The element at the start of `s`, as its ID and payload, with its whole
/// length in octets (header and payload).
pub open spec fn element_decode(s: Seq<u8>) -> Result<((nat, Seq<u8>), nat), Error> {
    match header_decode(s) {
        Err(e) => Err(e),
        Ok((id, size, h)) => if s.len() < h + size {
            Err(Error::UnexpectedEof)
        } else {
            Ok(((id, s.subrange(h as int, (h + size) as int)), h + size))
        },
    }
}

/// The elements that fill `s` exactly, one after the other, each with its
/// length in octets.
pub open spec fn elements_decode(s: Seq<u8>) -> Result<Seq<((nat, Seq<u8>), nat)>, Error>
    decreases s.len(),
{
    if s.len() == 0 {
        Ok(seq![])
    } else {
        match element_decode(s) {
            Err(e) => Err(e),
            Ok((e, n)) => match elements_decode(s.skip(n as int)) {
                Err(x) => Err(x),
                Ok(rest) => Ok(seq![(e, n)] + rest),
            },
        }
    }
}

/// A decoded element takes at least one octet and no more than there are.
pub proof fn lemma_element_decode_len(s: Seq<u8>)
    requires
        element_decode(s) is Ok,
    ensures
        1 <= element_decode(s)->Ok_0.1 <= s.len(),
{
    lemma_vint_decode_bound(s, false);
}

/// The total length in octets of decoded elements.
pub open spec fn total_len(s: Seq<((nat, Seq<u8>), nat)>) -> nat
    decreases s.len(),
{
    if s.len() == 0 {
        0
    } else {
        s[0].1 + total_len(s.drop_first())
    }
}

/// The children decoded from a master element's payload take it up
/// exactly: their lengths in octets add up to the payload's size.
pub proof fn lemma_children_fill_payload(s: Seq<u8>)
    requires
        elements_decode(s) is Ok,
    ensures
        total_len(elements_decode(s)->Ok_0) == s.len(),
    decreases s.len(),
{
    if s.len() > 0 {
        lemma_element_decode_len(s);
        let n = element_decode(s)->Ok_0.1;
        lemma_children_fill_payload(s.skip(n as int));
        assert(elements_decode(s)->Ok_0.drop_first() =~= elements_decode(s.skip(n as int))->Ok_0);
    }
}

/// A child whose declared size reaches past the end of the payload it
/// sits in makes the whole payload fail to decode, as truncated.
pub proof fn lemma_overrun_detected(s: Seq<u8>)
    requires
        header_decode(s) is Ok,
        s.len() < header_decode(s)->Ok_0.1 + header_decode(s)->Ok_0.2,
    ensures
        elements_decode(s) == Err::<Seq<((nat, Seq<u8>), nat)>, Error>(Error::UnexpectedEof),
{
    lemma_vint_decode_bound(s, false);
}

/// What follows an element does not change how it reads: reading the next
/// child straight from the document gives what decoding the parent's
/// payload gives.
pub proof fn lemma_element_decode_prefix(s: Seq<u8>, rest: Seq<u8>)
    requires
        element_decode(s) is Ok,
    ensures
        element_decode(s + rest) == element_decode(s),
{
    let t = s + rest;
    lemma_vint_decode_bound(s, false);
    let n1 = vint_decode(s, false)->Ok_0.1;
    assert(t.take(n1 as int) =~= s.take(n1 as int));
    let u = s.skip(n1 as int);
    assert(t.skip(n1 as int) =~= u + rest);
    lemma_vint_decode_bound(u, true);
    let n2 = vint_decode(u, true)->Ok_0.1;
    assert((u + rest).take(n2 as int) =~= u.take(n2 as int));
    let (id, size, h) = header_decode(s)->Ok_0;
    assert(t.subrange(h as int, (h + size) as int) =~= s.subrange(h as int, (h + size) as int));
}

/// An element cut short anywhere, in its header or in its payload, reads
/// as truncated, never as an element.
pub proof fn lemma_truncated_element_fails(s: Seq<u8>, k: nat)
    requires
        element_decode(s) is Ok,
        k < element_decode(s)->Ok_0.1,
    ensures
        element_decode(s.take(k as int)) == Err::<((nat, Seq<u8>), nat), Error>(
            Error::UnexpectedEof,
        ),
{
    let p = s.take(k as int);
    lemma_vint_decode_bound(s, false);
    let n1 = vint_decode(s, false)->Ok_0.1;
    if k < n1 {
        lemma_truncated_vint_fails(s, false, k);
    } else {
        assert(p.take(n1 as int) =~= s.take(n1 as int));
        let u = s.skip(n1 as int);
        lemma_vint_decode_bound(u, true);
        let n2 = vint_decode(u, true)->Ok_0.1;
        assert(p.skip(n1 as int) =~= u.take(k - n1));
        if k < n1 + n2 {
            lemma_truncated_vint_fails(u, true, (k - n1) as nat);
        } else {
            assert(u.take(k - n1).take(n2 as int) =~= u.take(n2 as int));
        }
    }
}

/// Decode the element header at the start of `buf`: ID, size and header length.
pub fn decode_header(buf: &[u8]) -> (res: Result<(ElementId, ElementSize, usize), Error>)
    ensures
        match header_decode(buf@) {
            Ok((id, size, h)) => match res {
                Ok((i, s, c)) => i == id && s == size && c == h,
                Err(_) => false,
            },
            Err(e) => res == Err::<(ElementId, ElementSize, usize), Error>(e),
        },
{
    let (id, n1) = match decode_vint(buf, false) {
        Ok(x) => x,
        Err(e) => return Err(e),
    };
    proof {
        lemma_vint_decode_bound(buf@, false);
    }
    let rest = &buf[n1..buf.len()];
    let (size, n2) = match decode_vint(rest, true) {
        Ok(x) => x,
        Err(e) => return Err(e),
    };
    proof {
        lemma_vint_decode_bound(rest@, true);
    }
    if size > usize::MAX as u64 {
        return Err(Error::IntegerTooBig);
    }
    Ok((id, size as usize, n1 + n2))
}

/// Decode the element at the start of `buf`, payload included, with its
/// whole length in octets.
pub fn decode_element(buf: &[u8]) -> (res: Result<(Element, usize), Error>)
    ensures
        match element_decode(buf@) {
            Ok((e, n)) => match res {
                Ok((x, c)) => x@ == e && c == n,
                Err(_) => false,
            },
            Err(e) => res == Err::<(Element, usize), Error>(e),
        },
{
    let (id, size, h) = match decode_header(buf) {
        Ok(x) => x,
        Err(e) => return Err(e),
    };
    if buf.len() - h < size {
        return Err(Error::UnexpectedEof);
    }
    let mut data: Vec<u8> = Vec::new();
    data.extend_from_slice(&buf[h..h + size]);
    Ok((Element::new(id, data), h + size))
}

/// Read an entire EBML element.
pub fn read_element(r: &mut Cursor) -> (res: Result<(Element, usize), Error>)
    ensures
        match element_decode(old(r)@) {
            Ok((e, n)) => match res {
                Ok((x, c)) => x@ == e && c == n && final(r)@ == old(r)@.skip(n as int),
                Err(_) => false,
            },
            Err(e) => res == Err::<(Element, usize), Error>(e) && final(r)@ == old(r)@,
        },
{
    let (elem, n) = match decode_element(r.remaining()) {
        Ok(x) => x,
        Err(e) => return Err(e),
    };
    r.advance(n);
    Ok((elem, n))
}

/// Read the information about an EBML element. That information consists of an ID and the size of
/// the data that the element contains.
pub fn read_element_info(r: &mut Cursor) -> (res: Result<(ElementId, ElementSize, usize), Error>)
    ensures
        match header_decode(old(r)@) {
            Ok((id, size, h)) => match res {
                Ok((i, s, c)) => i == id && s == size && c == h && final(r)@ == old(r)@.skip(
                    h as int,
                ),
                Err(_) => false,
            },
            Err(e) => res == Err::<(ElementId, ElementSize, usize), Error>(e) && final(r)@ == old(
                r,
            )@,
        },
{
    let (id, size, h) = match decode_header(r.remaining()) {
        Ok(x) => x,
        Err(e) => return Err(e),
    };
    r.advance(h);
    Ok((id, size, h))
}

/// Read the data contained in an EBML element: exactly `size` octets.
pub fn read_element_data(r: &mut Cursor, size: ElementSize) -> (res: Result<
    (ElementContent, usize),
    Error,
>)
    ensures
        size <= old(r)@.len() ==> match res {
            Ok((content, c)) => content@ == old(r)@.take(size as int) && c == size && final(r)@
                == old(r)@.skip(size as int),
            Err(_) => false,
        },
        size > old(r)@.len() ==> res == Err::<(ElementContent, usize), Error>(Error::UnexpectedEof)
            && final(r)@ == old(r)@,
{
    if size > r.remaining_len() {
        return Err(Error::UnexpectedEof);
    }
    let mut data: Vec<u8> = Vec::new();
    data.extend_from_slice(&r.remaining()[0..size]);
    r.advance(size);
    Ok((ElementContent::new(data), size))
}

/// Read an EBML variable size integer (also known as a VINT). If `do_mask` is set to true,
/// then a mask operation will be applied so that the VINT length marker bits will not be
/// interpreted in the resulting value. Returns the value and the amout of bytes that were
/// read.
pub fn read_vint(r: &mut Cursor, do_mask: bool) -> (res: Result<(SignedInt, usize), Error>)
    ensures
        match vint_decode(old(r)@, do_mask) {
            Ok((v, n)) => match res {
                Ok((x, c)) => x == v && c == n && final(r)@ == old(r)@.skip(n as int),
                Err(_) => false,
            },
            Err(e) => res == Err::<(SignedInt, usize), Error>(e) && final(r)@ == old(r)@,
        },
{
    let (v, n) = match decode_vint(r.remaining(), do_mask) {
        Ok(x) => x,
        Err(e) => return Err(e),
    };
    proof {
        lemma_vint_decode_bound(old(r)@, do_mask);
    }
    r.advance(n);
    Ok((v as i64, n))
}

/// The EBML header element at the start of `s`: the header its children
/// describe, and the element's length in octets.
pub open spec fn ebml_header_decode(s: Seq<u8>) -> Result<(HeaderFields, nat), Error> {
    match element_decode(s) {
        Err(e) => Err(e),
        Ok(((id, payload), n)) => if id != EBML {
            Err(Error::UnexpectedElementId(id as u64))
        } else {
            match elements_decode(payload) {
                Err(e) => Err(e),
                Ok(ch) => match header_fields(ch.map_values(|x: ((nat, Seq<u8>), nat)| x.0)) {
                    Err(e) => Err(e),
                    Ok(h) => Ok((h, n)),
                },
            }
        }
    }
}

/// Take the first child with ID `id` out of `root` and read it as an
/// unsigned integer; `default` when there is none.
fn take_uint_field(root: &mut ElementArray, id: ElementId, default: u64) -> (r: Result<u64, Error>)
    ensures
        match uint_field(old(root)@, id as nat, default as nat) {
            Ok(v) => r is Ok && r->Ok_0 == v,
            Err(e) => r == Err::<u64, Error>(e),
        },
        forall|other: nat|
            other != id ==> first_with_id(final(root)@, other) == first_with_id(old(root)@, other),
{
    let found = root.find(id);
    proof {
        if found is Some {
            assert forall|other: nat| other != id implies first_with_id(root@, other)
                == first_with_id(old(root)@, other) by {
                lemma_remove_keeps_other(old(root)@, id as nat, other);
            }
        }
    }
    match found {
        None => Ok(default),
        Some(e) => {
            if e.size() > 8 {
                return Err(Error::InvalidIntegerSize);
            }
            Ok(e.content().into_uint())
        },
    }
}

/// Take the first child with ID `id` out of `root` and read it as UTF-8
/// text; it must be there.
fn take_text_field(root: &mut ElementArray, id: ElementId) -> (r: Result<Utf8, Error>)
    ensures
        match text_field(old(root)@, id) {
            Ok(v) => r is Ok && r->Ok_0@ == v,
            Err(e) => r == Err::<Utf8, Error>(e),
        },
        forall|other: nat|
            other != id ==> first_with_id(final(root)@, other) == first_with_id(old(root)@, other),
{
    let found = root.find(id);
    proof {
        if found is Some {
            assert forall|other: nat| other != id implies first_with_id(root@, other)
                == first_with_id(old(root)@, other) by {
                lemma_remove_keeps_other(old(root)@, id as nat, other);
            }
        }
    }
    match found {
        None => Err(Error::ElementNotFound(id)),
        Some(e) => e.content().into_utf8(),
    }
}

/// Read the standard EBML header: an EBML element whose children give the
/// header's fields. Absent fields take their defaults; DocType must be
/// there.
pub fn read_header(r: &mut Cursor) -> (res: Result<(Header, usize), Error>)
    ensures
        match ebml_header_decode(old(r)@) {
            Ok((h, n)) => match res {
                Ok((x, c)) => x@ == h && c == n && final(r)@ == old(r)@.skip(n as int),
                Err(_) => false,
            },
            Err(e) => res == Err::<(Header, usize), Error>(e) && final(r)@ == old(r)@,
        },
{
    let (elem, c) = match decode_element(r.remaining()) {
        Ok(x) => x,
        Err(e) => return Err(e),
    };
    let id = elem.id();
    if id != EBML {
        return Err(Error::UnexpectedElementId(id));
    }
    let mut root = match elem.content().children() {
        Ok(a) => a,
        Err(e) => return Err(e),
    };
    let ghost ch = root@;
    let version = match take_uint_field(&mut root, VERSION, 1) {
        Ok(v) => v,
        Err(e) => return Err(e),
    };
    let read_version = match take_uint_field(&mut root, READ_VERSION, 1) {
        Ok(v) => v,
        Err(e) => return Err(e),
    };
    let max_id_length = match take_uint_field(&mut root, MAX_ID_LENGTH, 4) {
        Ok(v) => v,
        Err(e) => return Err(e),
    };
    let max_size_length = match take_uint_field(&mut root, MAX_SIZE_LENGTH, 8) {
        Ok(v) => v,
        Err(e) => return Err(e),
    };
    let doc_type = match take_text_field(&mut root, DOC_TYPE) {
        Ok(v) => v,
        Err(e) => return Err(e),
    };
    let doc_type_version = match take_uint_field(&mut root, DOC_TYPE_VERSION, 1) {
        Ok(v) => v,
        Err(e) => return Err(e),
    };
    let doc_type_read_version = match take_uint_field(&mut root, DOC_TYPE_READ_VERSION, 1) {
        Ok(v) => v,
        Err(e) => return Err(e),
    };
    r.advance(c);
    let header = Header::new(
        version,
        read_version,
        max_id_length,
        max_size_length,
        doc_type,
        doc_type_version,
        doc_type_read_version,
    );
    Ok((header, c))
}

} // verus!
