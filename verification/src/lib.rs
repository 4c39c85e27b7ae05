//! Reticulum networking: framing, interface control, access codes, resource transfers and
//! storage, with machine-checked contracts.

pub mod arith;
pub mod buffer;
pub mod buffer_stream;
pub mod bytes;
pub mod compress;
pub mod error;
pub mod format_laws;
pub mod hash;
pub mod identity;
pub mod iface;
pub mod link;
pub mod msgpack;
pub mod packet;
pub mod resource;
pub mod signature;
pub mod storage;
pub mod stream_laws;
pub mod table;
pub mod text;
pub mod text_laws;
