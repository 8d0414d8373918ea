//! The EBML header that opens every document: which EBML version wrote
//! it, the limits it keeps to, and the kind of document that follows.

use vstd::prelude::*;
use vstd::utf8::{decode_utf8, valid_utf8};

use crate::common::first_with_id;
use crate::error::Error;
use crate::primitives::be_value;
use crate::types::{UnsignedInt, Utf8};

verus! {

/// The ID of the EBML header element.
pub const EBML: UnsignedInt = 0x1a45dfa3;

/// The ID of EBMLVersion.
pub const VERSION: UnsignedInt = 0x4286;

/// The ID of EBMLReadVersion.
pub const READ_VERSION: UnsignedInt = 0x42f7;

/// The ID of EBMLMaxIDLength.
pub const MAX_ID_LENGTH: UnsignedInt = 0x42f2;

/// The ID of EBMLMaxSizeLength.
pub const MAX_SIZE_LENGTH: UnsignedInt = 0x42f3;

/// The ID of DocType.
pub const DOC_TYPE: UnsignedInt = 0x4282;

/// The ID of DocTypeVersion.
pub const DOC_TYPE_VERSION: UnsignedInt = 0x4287;

/// The ID of DocTypeReadVersion.
pub const DOC_TYPE_READ_VERSION: UnsignedInt = 0x4285;

/// The fields of a header, in declaration order: version, read version,
/// maximum ID length, maximum size length, document type, document type
/// version, document type read version.
pub type HeaderFields = (nat, nat, nat, nat, Seq<char>, nat, nat);

/// The standard EBML header.
#[derive(Debug)]
pub struct Header {
    pub(crate) version: UnsignedInt,
    pub(crate) read_version: UnsignedInt,
    pub(crate) max_id_length: UnsignedInt,
    pub(crate) max_size_length: UnsignedInt,
    pub(crate) doc_type: Utf8,
    pub(crate) doc_type_version: UnsignedInt,
    pub(crate) doc_type_read_version: UnsignedInt,
}

impl View for Header {
    type V = HeaderFields;

    closed spec fn view(&self) -> HeaderFields {
        (
            self.version as nat,
            self.read_version as nat,
            self.max_id_length as nat,
            self.max_size_length as nat,
            self.doc_type@,
            self.doc_type_version as nat,
            self.doc_type_read_version as nat,
        )
    }
}

/// The unsigned field `id` among the `children` of a header: the first
/// such child read as a big-endian integer, or `default` when there is none.
pub open spec fn uint_field(children: Seq<(nat, Seq<u8>)>, id: nat, default: nat) -> Result<
    nat,
    Error,
> {
    match first_with_id(children, id) {
        None => Ok(default),
        Some(e) => if e.1.len() <= 8 {
            Ok(be_value(e.1))
        } else {
            Err(Error::InvalidIntegerSize)
        },
    }
}

/// The text field `id` among the `children` of a header, which must be there.
pub open spec fn text_field(children: Seq<(nat, Seq<u8>)>, id: u64) -> Result<Seq<char>, Error> {
    match first_with_id(children, id as nat) {
        None => Err(Error::ElementNotFound(id)),
        Some(e) => if valid_utf8(e.1) {
            Ok(decode_utf8(e.1))
        } else {
            Err(Error::InvalidUtf8)
        },
    }
}

/// The header that the children of an EBML header element describe; the
/// first failing field, in declaration order, gives the error.
pub open spec fn header_fields(ch: Seq<(nat, Seq<u8>)>) -> Result<HeaderFields, Error> {
    match uint_field(ch, VERSION as nat, 1) {
        Err(e) => Err(e),
        Ok(version) => match uint_field(ch, READ_VERSION as nat, 1) {
            Err(e) => Err(e),
            Ok(read_version) => match uint_field(ch, MAX_ID_LENGTH as nat, 4) {
                Err(e) => Err(e),
                Ok(max_id) => match uint_field(ch, MAX_SIZE_LENGTH as nat, 8) {
                    Err(e) => Err(e),
                    Ok(max_size) => match text_field(ch, DOC_TYPE) {
                        Err(e) => Err(e),
                        Ok(doc_type) => match uint_field(ch, DOC_TYPE_VERSION as nat, 1) {
                            Err(e) => Err(e),
                            Ok(dt_version) => match uint_field(
                                ch,
                                DOC_TYPE_READ_VERSION as nat,
                                1,
                            ) {
                                Err(e) => Err(e),
                                Ok(dt_read_version) => Ok(
                                    (
                                        version,
                                        read_version,
                                        max_id,
                                        max_size,
                                        doc_type,
                                        dt_version,
                                        dt_read_version,
                                    ),
                                ),
                            },
                        },
                    },
                },
            },
        },
    }
}

impl Header {
    /// A header with the given fields, in declaration order.
    pub fn new(
        version: UnsignedInt,
        read_version: UnsignedInt,
        max_id_length: UnsignedInt,
        max_size_length: UnsignedInt,
        doc_type: Utf8,
        doc_type_version: UnsignedInt,
        doc_type_read_version: UnsignedInt,
    ) -> (r: Header)
        ensures
            r@ == (
                version as nat,
                read_version as nat,
                max_id_length as nat,
                max_size_length as nat,
                doc_type@,
                doc_type_version as nat,
                doc_type_read_version as nat,
            ),
    {
        Header {
            version,
            read_version,
            max_id_length,
            max_size_length,
            doc_type,
            doc_type_version,
            doc_type_read_version,
        }
    }

    /// Return the version of EBML used to create this file.
    pub fn version(&self) -> (r: u64)
        ensures
            r == self@.0,
    {
        self.version
    }

    /// Return the minumum version of EBML required to read this file.
    pub fn read_version(&self) -> (r: u64)
        ensures
            r == self@.1,
    {
        self.read_version
    }

    /// Return the maximum length in bytes of the EBML element IDs found in this file.
    pub fn max_id_length(&self) -> (r: u64)
        ensures
            r == self@.2,
    {
        self.max_id_length
    }

    /// Return the maximum length in bytes of the EBML element sizes found in this file.
    pub fn max_size_length(&self) -> (r: u64)
        ensures
            r == self@.3,
    {
        self.max_size_length
    }

    /// Return a string that describes the type of this document.
    pub fn doc_type(&self) -> (r: &str)
        ensures
            r@ == self@.4,
    {
        self.doc_type.as_str()
    }

    /// Return the version of DocType interpreter used to create this file.
    pub fn doc_type_version(&self) -> (r: u64)
        ensures
            r == self@.5,
    {
        self.doc_type_version
    }

    /// Return the minumum version of DocType interpreter required to read this file.
    pub fn doc_type_read_version(&self) -> (r: u64)
        ensures
            r == self@.6,
    {
        self.doc_type_read_version
    }
}

} // verus!
