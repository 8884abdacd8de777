//! Length-prefixed framing of messages over byte streams and datagrams.
//!
//! Every frame on the wire is an eight-byte length prefix, as bincode writes a
//! `u64`, followed by exactly that many payload bytes.
pub mod codec;
pub mod datagram;
pub mod frame;
pub mod stream;
