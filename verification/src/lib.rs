//! A verified core of the WebSocket wire protocol: the HTTP-Upgrade
//! handshake, the key derivation it rests on, and the binary frame codec
//! with masking, extended length fields, fragmentation and partial reads.
//!
//! The crate holds no I/O: it turns bytes into frames, messages and
//! handshake results, and messages back into bytes. A caller owns the
//! socket, feeds raw chunks in, and writes the returned byte strings out.

pub mod decode;
pub mod encode;
pub mod error;
pub mod frame;
pub mod handshake;
pub mod keys;
pub mod message;
pub mod text;
