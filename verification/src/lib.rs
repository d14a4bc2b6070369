//! RTMP building blocks with machine-checked contracts.
//!
//! Every function here is verified: its `ensures` clauses say exactly what it
//! computes, over mathematical models of the wire formats and of the
//! connection state. Sockets, threads and clocks live outside the library.

pub mod adapter;
pub mod aggregate;
pub mod amf;
pub mod amf3;
pub mod amf_fields;
pub mod amf_format;
pub mod amf_inline;
pub mod amf_laws;
pub mod caps;
pub mod chunk;
pub mod chunk_format;
pub mod chunk_laws;
pub mod client;
pub mod error;
pub mod flv;
pub mod flv_crypt;
pub mod message;
pub mod model;
pub mod number;
pub mod search;
pub mod text;
pub mod wire;
