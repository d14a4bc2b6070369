//! AMF3 values.
//!
//! AMF3 keeps three tables while it reads: strings, objects and traits. A string,
//! object or set of traits that was sent once can be named again by its place in
//! the table. Decoding resolves every such reference into a copy; encoding
//! always writes values out in full.

pub mod bridge;
pub mod decode;
pub mod encode;
pub mod format;
pub mod inlined;
pub mod laws;
pub mod u29;
pub mod value;

use vstd::prelude::*;

pub use self::decode::{
    decode, decode_all, decode_data_message, Decoder, ExternalizableReader, FixedBody,
    AVMPLUS_OBJECT_MARKER, MAX_DECODE_DEPTH,
};
pub use self::encode::{encode, encode_all};
pub use self::u29::{read_u29, write_u29};
pub use self::value::{anon_object, dynamic_object, Amf3Value};

verus! {

pub const M_UNDEFINED: u8 = 0x00;

pub const M_NULL: u8 = 0x01;

pub const M_FALSE: u8 = 0x02;

pub const M_TRUE: u8 = 0x03;

pub const M_INTEGER: u8 = 0x04;

pub const M_DOUBLE: u8 = 0x05;

pub const M_STRING: u8 = 0x06;

pub const M_XML_DOC: u8 = 0x07;

pub const M_DATE: u8 = 0x08;

pub const M_ARRAY: u8 = 0x09;

pub const M_OBJECT: u8 = 0x0A;

pub const M_XML: u8 = 0x0B;

pub const M_BYTE_ARRAY: u8 = 0x0C;

pub const M_VECTOR_INT: u8 = 0x0D;

pub const M_VECTOR_UINT: u8 = 0x0E;

pub const M_VECTOR_DOUBLE: u8 = 0x0F;

pub const M_VECTOR_OBJECT: u8 = 0x10;

pub const M_DICTIONARY: u8 = 0x11;

} // verus!
