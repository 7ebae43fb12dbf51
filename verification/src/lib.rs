//! Internal representation and wire codec for the Bitcoin-derived
//! peer-to-peer messages of a Zcash node.
//!
//! The library has two tightly coupled halves: a closed [`message::Message`]
//! type that stores one strongly typed variant per protocol message, and a
//! codec that maps each message to and from the exact byte layout peers
//! exchange, rejecting malformed input with a typed error instead of
//! panicking.

pub mod message;
pub mod wire;
pub mod commands;
pub mod codec;
pub mod decode;
pub mod laws;
