//! A read-only client for an Arweave gateway's transaction endpoints:
//! fee estimation, transaction fetch, and confirmation-status fetch.
//!
//! The library holds the verified core: request-path construction, the
//! typed response model, and the dual-shape envelope decoding that tells
//! a success payload from a server-reported error payload. The HTTP
//! transport itself is an injected collaborator and lives outside.

pub mod client;
pub mod codec;
pub mod error;
pub mod json;
pub mod model;

use vstd::prelude::*;

verus! {

/// True exactly for the HTTP status codes that count as success.
pub open spec fn spec_is_success_status(status: u16) -> bool {
    200 <= status < 300
}

/// Decides whether an HTTP status code counts as a successful response.
pub fn is_success_status(status: u16) -> (r: bool)
    ensures
        r == spec_is_success_status(status),
{
    200 <= status && status < 300
}

} // verus!
