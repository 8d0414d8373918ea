//! Reading and writing EBML documents: variable-length integers, element
//! headers, typed payloads and nested elements.

pub mod common;
pub mod element;
pub mod error;
pub mod header;
pub mod io;
pub mod primitives;
pub mod reader;
pub mod registry;
pub mod tree;
pub mod types;
