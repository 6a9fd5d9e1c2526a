//! Complete application replies at the firmware/USB boundary.
//!
//! Dispatch success, CTAP status, and transport acceptance are separate facts.
//! This module consumes them before clearing the application's response buffer.

use vstd::prelude::*;
use crate::bytes::{zeros, zeroize_slice};

verus! {

/// Why the transport refused an application reply.
#[derive(Clone, Copy, Debug, PartialEq, Eq, Structural)]
pub enum ReplyError {
    NoPendingRequest,
    ResponseTooLong,
}

/// What became of an application reply that the transport did not refuse.
#[derive(Clone, Copy, Debug, PartialEq, Eq, Structural)]
pub enum ReplyDisposition {
    Queued,
    Discarded,
}

/// Outcome of completing a CBOR request.
#[derive(Clone, Copy, Debug, PartialEq, Eq, Structural)]
pub enum CborCompletion {
    /// A CTAP success reply was accepted by the transport. This is the minimum
    /// boot health check; it does not prove credential persistence or delivery.
    Succeeded,
    Failed,
    Interrupted,
}

/// The CTAP status byte "Other" sent when no usable response exists.
pub const CTAP_OTHER: u8 = 0x7f;

/// A reply without a pending request was discarded by an interruption; any
/// other refusal is an error.
pub open spec fn spec_disposition(result: Result<(), ReplyError>) -> Result<
    ReplyDisposition,
    ReplyError,
> {
    match result {
        Ok(()) => Ok(ReplyDisposition::Queued),
        Err(ReplyError::NoPendingRequest) => Ok(ReplyDisposition::Discarded),
        Err(error) => Err(error),
    }
}

/// The bytes handed to the transport for a CBOR request: the response when
/// dispatch succeeded and produced one, else the single status byte Other.
pub open spec fn cbor_reply_bytes(dispatch_succeeded: bool, response: Seq<u8>) -> Seq<u8> {
    if dispatch_succeeded && response.len() > 0 {
        response
    } else {
        seq![CTAP_OTHER]
    }
}

/// The response carries the CTAP success status and dispatch succeeded.
pub open spec fn ctap_succeeded(dispatch_succeeded: bool, response: Seq<u8>) -> bool {
    dispatch_succeeded && response.len() > 0 && response[0] == 0u8
}

/// The completion reported for a CBOR request, given what the transport
/// answered to the reply.
pub open spec fn cbor_completion(
    dispatch_succeeded: bool,
    response: Seq<u8>,
    result: Result<(), ReplyError>,
) -> Result<CborCompletion, ReplyError> {
    match spec_disposition(result) {
        Err(error) => Err(error),
        Ok(ReplyDisposition::Queued) => if ctap_succeeded(dispatch_succeeded, response) {
            Ok(CborCompletion::Succeeded)
        } else {
            Ok(CborCompletion::Failed)
        },
        Ok(ReplyDisposition::Discarded) => Ok(CborCompletion::Interrupted),
    }
}

/// Classifies the transport's answer to a reply.
pub fn disposition(result: Result<(), ReplyError>) -> (r: Result<ReplyDisposition, ReplyError>)
    ensures
        r == spec_disposition(result),
{
    match result {
        Ok(()) => Ok(ReplyDisposition::Queued),
        Err(ReplyError::NoPendingRequest) => Ok(ReplyDisposition::Discarded),
        Err(error) => Err(error),
    }
}

/// Return success only for an accepted CTAP2 success response. Dispatch errors
/// and missing responses produce CTAP Other; resynchronized requests produce
/// no stale reply and cannot confirm a firmware candidate.
pub fn complete_cbor(
    dispatch_succeeded: bool,
    response: &mut [u8],
    reply: impl FnOnce(&[u8]) -> Result<(), ReplyError>,
) -> (r: Result<CborCompletion, ReplyError>)
    requires
        old(response)@.len() <= isize::MAX,
        forall|bytes: &[u8]| #[trigger] call_requires(reply, (bytes,)),
    ensures
        final(response)@ == zeros(old(response)@.len()),
        exists|bytes: &[u8], result: Result<(), ReplyError>|
            bytes@ == cbor_reply_bytes(dispatch_succeeded, old(response)@) && #[trigger] call_ensures(
                reply,
                (bytes,),
                result,
            ) && r == cbor_completion(dispatch_succeeded, old(response)@, result),
{
    let succeeded = dispatch_succeeded && response.len() > 0 && response[0] == 0u8;
    let other: [u8; 1] = [CTAP_OTHER];
    let result;
    let ghost sent: &[u8];
    if dispatch_succeeded && response.len() > 0 {
        let bytes: &[u8] = &*response;
        proof {
            sent = bytes;
        }
        result = reply(bytes);
    } else {
        let bytes: &[u8] = other.as_slice();
        assert(bytes@ =~= seq![CTAP_OTHER]);
        proof {
            sent = bytes;
        }
        result = reply(bytes);
    }
    let ghost initial = response@;
    zeroize_slice(response);
    assert(succeeded == ctap_succeeded(dispatch_succeeded, initial));
    let outcome = match disposition(result) {
        Err(error) => Err(error),
        Ok(ReplyDisposition::Queued) => if succeeded {
            Ok(CborCompletion::Succeeded)
        } else {
            Ok(CborCompletion::Failed)
        },
        Ok(ReplyDisposition::Discarded) => Ok(CborCompletion::Interrupted),
    };
    assert(call_ensures(reply, (sent,), result));
    outcome
}

/// A discarded update request is a normal interruption. Clear the response on
/// both successful and failed completion, just as for CBOR replies.
pub fn complete_update(
    response: &mut [u8],
    reply: impl FnOnce(&[u8]) -> Result<(), ReplyError>,
) -> (r: Result<ReplyDisposition, ReplyError>)
    requires
        old(response)@.len() <= isize::MAX,
        forall|bytes: &[u8]| #[trigger] call_requires(reply, (bytes,)),
    ensures
        final(response)@ == zeros(old(response)@.len()),
        exists|bytes: &[u8], result: Result<(), ReplyError>|
            bytes@ == old(response)@ && #[trigger] call_ensures(reply, (bytes,), result) && r
                == spec_disposition(result),
{
    let ghost sent: &[u8] = &*response;
    let result = reply(&*response);
    zeroize_slice(response);
    assert(call_ensures(reply, (sent,), result));
    disposition(result)
}

/// A CBOR completion reports success only when dispatch succeeded, the
/// response starts with the CTAP success status, and the transport queued the
/// reply.
pub proof fn lemma_success_needs_accepted_ctap_success(
    dispatch_succeeded: bool,
    response: Seq<u8>,
    result: Result<(), ReplyError>,
)
    ensures
        cbor_completion(dispatch_succeeded, response, result) == Ok::<CborCompletion, ReplyError>(
            CborCompletion::Succeeded,
        ) <==> (dispatch_succeeded && response.len() > 0 && response[0] == 0u8 && result == Ok::<
            (),
            ReplyError,
        >(())),
{
    match result {
        Ok(u) => {
            assert(u == ());
        },
        Err(_) => {},
    }
}

/// A reply refused for want of a pending request is an interruption for CBOR
/// requests and a discard for update requests; it never confirms anything.
pub proof fn lemma_interruption_never_confirms(dispatch_succeeded: bool, response: Seq<u8>)
    ensures
        cbor_completion(dispatch_succeeded, response, Err(ReplyError::NoPendingRequest)) == Ok::<
            CborCompletion,
            ReplyError,
        >(CborCompletion::Interrupted),
        spec_disposition(Err(ReplyError::NoPendingRequest)) == Ok::<ReplyDisposition, ReplyError>(
            ReplyDisposition::Discarded,
        ),
{
}

} // verus!
