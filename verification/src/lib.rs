//! Client library for a length-prefixed, JSON-encoded compositor control
//! protocol spoken over a local socket.
//!
//! The library is the pure half of the client: wire framing, request-envelope
//! encoding, response parsing into a small tagged structured value,
//! protocol-error discrimination, per-method unwrap rules, and strict schema
//! decoding into flat domain records. The owning application performs the
//! actual socket reads and writes and hands byte buffers to and from this
//! library.
//!
//! The protocol carries strictly one outstanding request per connection, so a
//! response always answers the most recently written request; the endpoint is
//! trusted to preserve that ordering, since the wire format has no
//! correlation field a client could check.

pub mod call;
pub mod envelope;
pub mod error;
pub mod frame;
pub mod json;
pub mod parse;
pub mod records;
pub mod roundtrip;
pub mod ser;
