//! The closed set of failure kinds that a client operation can surface.
//! Every failure path of every operation maps to exactly one of these and
//! is returned as a normal value: no reachable server response aborts the
//! process.

use vstd::prelude::*;

verus! {

/// What went wrong with a gateway call.
#[derive(Debug, PartialEq)]
pub enum ArweaveError {
    /// The HTTP call itself failed: the request did not complete, or the
    /// gateway answered with a non-success status.
    TransportError { message: String },
    /// The call succeeded at the transport level but the gateway answered
    /// with its error-shaped envelope; the payload is kept verbatim.
    ProtocolError { payload: String },
    /// The body matched neither the success schema nor the error shape.
    MalformedResponse { body: String },
}

} // verus!
