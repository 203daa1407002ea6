//! The typed façade over the gateway's three read endpoints: fee
//! estimation, transaction fetch and confirmation-status fetch.
//!
//! The client holds only the base URL and never any mutable state. The
//! HTTP call itself is an injected collaborator: the caller performs the
//! request for the path built here and hands the status code and body to
//! the interpretation functions, which decide everything else.

use vstd::prelude::*;
use vstd::string::{StrSliceExecFns, StringExecFns};

use crate::codec::{
    decode_status_envelope, decode_tx_envelope, spec_status_envelope, spec_tx_envelope, Envelope,
    EnvelopeV,
};
use crate::error::ArweaveError;
use crate::json::{spec_decimal, u64_to_string};
use crate::model::{TransactionData, TransactionStatusResponse};

verus! {

/// The message reported when the transport returns a failing status.
pub open spec fn spec_status_message(status: u16) -> Seq<char> {
    "unexpected HTTP status "@ + spec_decimal(status as int)
}

/// Writes the transport-failure message for a status code.
pub fn status_message(status: u16) -> (r: String)
    ensures
        r@ == spec_status_message(status),
{
    let mut r = String::from_str("unexpected HTTP status ");
    let d = u64_to_string(status as u64);
    r.append(d.as_str());
    r
}

/// Interprets the price endpoint's response: on a success status the body
/// is the fee quote, an arbitrary-precision numeral returned verbatim and
/// never reformatted; any other status is a transport error.
pub fn interpret_price_response(status: u16, body: &str) -> (r: Result<String, ArweaveError>)
    ensures
        crate::spec_is_success_status(status) ==> (r matches Ok(p) && p@ == body@),
        !crate::spec_is_success_status(status) ==> (r matches Err(
            ArweaveError::TransportError { message },
        ) && message@ == spec_status_message(status)),
{
    if crate::is_success_status(status) {
        Ok(String::from_str(body))
    } else {
        Err(ArweaveError::TransportError { message: status_message(status) })
    }
}

/// Interprets the transaction endpoint's response: a transport error on a
/// failing status; otherwise the body is read as an envelope, and each of
/// its three outcomes maps to exactly one result.
pub fn interpret_tx_response(status: u16, body: &str) -> (r: Result<
    TransactionData,
    ArweaveError,
>)
    ensures
        !crate::spec_is_success_status(status) ==> (r matches Err(
            ArweaveError::TransportError { message },
        ) && message@ == spec_status_message(status)),
        crate::spec_is_success_status(status) ==> match spec_tx_envelope(body@) {
            EnvelopeV::Success(t) => r matches Ok(v) && v@ == t,
            EnvelopeV::ServerError(p) => r matches Err(ArweaveError::ProtocolError { payload })
                && payload@ == p,
            EnvelopeV::Malformed => r matches Err(ArweaveError::MalformedResponse { body: b })
                && b@ == body@,
        },
{
    if !crate::is_success_status(status) {
        return Err(ArweaveError::TransportError { message: status_message(status) });
    }
    match decode_tx_envelope(body) {
        Envelope::Success(t) => Ok(t),
        Envelope::ServerError(p) => Err(ArweaveError::ProtocolError { payload: p }),
        Envelope::Malformed => Err(
            ArweaveError::MalformedResponse { body: String::from_str(body) },
        ),
    }
}

/// Interprets the status endpoint's response, with the same envelope
/// reading and the same error discipline as the transaction endpoint.
pub fn interpret_status_response(status: u16, body: &str) -> (r: Result<
    TransactionStatusResponse,
    ArweaveError,
>)
    ensures
        !crate::spec_is_success_status(status) ==> (r matches Err(
            ArweaveError::TransportError { message },
        ) && message@ == spec_status_message(status)),
        crate::spec_is_success_status(status) ==> match spec_status_envelope(body@) {
            EnvelopeV::Success(t) => r matches Ok(v) && v@ == t,
            EnvelopeV::ServerError(p) => r matches Err(ArweaveError::ProtocolError { payload })
                && payload@ == p,
            EnvelopeV::Malformed => r matches Err(ArweaveError::MalformedResponse { body: b })
                && b@ == body@,
        },
{
    if !crate::is_success_status(status) {
        return Err(ArweaveError::TransportError { message: status_message(status) });
    }
    match decode_status_envelope(body) {
        Envelope::Success(t) => Ok(t),
        Envelope::ServerError(p) => Err(ArweaveError::ProtocolError { payload: p }),
        Envelope::Malformed => Err(
            ArweaveError::MalformedResponse { body: String::from_str(body) },
        ),
    }
}

/// The client façade. Safe to share: it holds only the base URL.
pub struct TransactionInfoClient {
    pub base_url: String,
}

impl TransactionInfoClient {
    /// Builds a client for the gateway at the given base URL.
    pub fn new(base_url: String) -> (c: Self)
        ensures
            c.base_url@ == base_url@,
    {
        TransactionInfoClient { base_url }
    }

    /// The URL of the fee quote for storing `byte_size` bytes.
    pub fn price_url(&self, byte_size: &str) -> (r: String)
        ensures
            r@ == self.base_url@ + "/price/"@ + byte_size@,
    {
        self.base_url.clone().concat("/price/").concat(byte_size)
    }

    /// The URL of the transaction record with the given id.
    pub fn tx_url(&self, id: &str) -> (r: String)
        ensures
            r@ == self.base_url@ + "/tx/"@ + id@,
    {
        self.base_url.clone().concat("/tx/").concat(id)
    }

    /// The URL of the confirmation status of the given transaction.
    pub fn tx_status_url(&self, id: &str) -> (r: String)
        ensures
            r@ == self.base_url@ + "/tx/"@ + id@ + "/status"@,
    {
        self.base_url.clone().concat("/tx/").concat(id).concat("/status")
    }
}

} // verus!
