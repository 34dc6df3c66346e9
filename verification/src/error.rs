//! Failure taxonomy of the client.
//!
//! Every layer hands errors up unchanged; nothing is retried internally.

use vstd::prelude::*;
use crate::json::Json;

verus! {

/// Why a response could not be decoded.
#[derive(Debug, Clone, PartialEq)]
pub enum DecodeFault {
    /// The payload bytes are not a well-formed structured value.
    Syntax,
    /// A required field (a schema field or a per-method unwrap field) is
    /// absent; carries the field name.
    MissingField(String),
    /// A field is present but has the wrong shape; carries the field name.
    WrongType(String),
}

/// One failure of a call, from connecting through decoding.
#[derive(Debug, Clone, PartialEq)]
pub enum WayfireError {
    /// The connection could not be established; fatal for the client.
    Connection(String),
    /// A read or write failed mid-call; the transport must not be reused.
    Io(String),
    /// A local request was not representable on the wire.
    Encode(String),
    /// The response was malformed or did not match the expected schema.
    Decode(DecodeFault),
    /// The endpoint reported failure for a structurally valid request;
    /// carries the endpoint's own diagnostic payload.
    Remote(Json),
}

} // verus!
