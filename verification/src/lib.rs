//! A DNS toolkit: an RFC 1035 wire-format codec with name compression,
//! an authoritative lookup engine over an in-memory zone, and the pure
//! parts of a resolver client.
//!
//! The codec (`bytes`, `name`, `codec`, `header`, `question`, `record`,
//! `message`) turns messages into octet buffers and back; the lookup
//! engine (`lookup`) answers a query from a `zone`; `hosts` and `resolv`
//! hold the text scanning behind the client's advisory checks; `laws`
//! states and proves the codec's round-trip facts. All I/O lives outside
//! this crate.

pub mod error;
pub mod bytes;
pub mod codec;
pub mod header;
pub mod hosts;
pub mod laws;
pub mod lookup;
pub mod message;
pub mod name;
pub mod question;
pub mod record;
pub mod resolv;
pub mod transport;
pub mod zone;
