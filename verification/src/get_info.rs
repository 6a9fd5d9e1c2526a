//! Deliberately narrow CTAP2 bring-up dispatcher.
//!
//! The only successful operation is `authenticatorGetInfo`. Encoding and
//! request parsing come from the upstream `ctap-types` crate. Credential
//! operations remain disabled until the Trussed platform services are wired.

use vstd::prelude::*;
use ctap_types::ctap2::get_info::{CtapOptions, ResponseBuilder, Transport, Version};
use ctap_types::ctap2::{Request, Response};

pub use crate::identity::DEVELOPMENT_AAGUID;

verus! {

pub const MAX_MESSAGE_SIZE: usize = crate::ctaphid::MAX_MESSAGE_SIZE;

pub const MAX_RESPONSE_SIZE: usize = 256;

/// CTAP2 status `CTAP1_ERR_INVALID_COMMAND`.
pub const CTAP2_ERR_INVALID_COMMAND: u8 = 0x01;

/// CTAP2 status `CTAP2_ERR_INVALID_CBOR`.
pub const CTAP2_ERR_INVALID_CBOR: u8 = 0x12;

/// CTAP2 status `CTAP1_ERR_OTHER`.
pub const CTAP2_ERR_OTHER: u8 = 0x7f;

/// What `ctap_types::ctap2::Request::deserialize` makes of a request:
/// `Ok(true)` for authenticatorGetInfo, `Ok(false)` for any other accepted
/// request, `Err(code)` with the CTAP2 status of the refusal.
pub uninterp spec fn ctap2_request_decoding(request: Seq<u8>) -> Result<bool, u8>;

/// A CTAP protocol version that GetInfo can announce.
#[derive(Clone, Copy, Debug, PartialEq, Eq, Structural)]
pub enum ProtocolVersion {
    Fido2_0,
}

/// A transport that GetInfo can announce.
#[derive(Clone, Copy, Debug, PartialEq, Eq, Structural)]
pub enum TransportKind {
    Usb,
}

/// The bytes that `ctap_types::ctap2::Response::serialize` writes for a
/// GetInfo response announcing one protocol version, the AAGUID, whether the
/// authenticator is a platform authenticator, the maximum message size and
/// one transport.
pub uninterp spec fn get_info_encoding(
    version: ProtocolVersion,
    aaguid: Seq<u8>,
    platform_authenticator: bool,
    max_msg_size: nat,
    transport: TransportKind,
) -> Seq<u8>;

/// A decoding refused with the given CTAP2 status.
pub open spec fn refused(code: u8) -> Result<bool, u8> {
    Err(code)
}

/// An accepted request; `true` when it is authenticatorGetInfo.
pub open spec fn accepted(get_info: bool) -> Result<bool, u8> {
    Ok(get_info)
}

/// Decodes a CTAP2 request with `ctap_types::ctap2::Request::deserialize` and
/// reports whether it is authenticatorGetInfo, or the CTAP2 status of the
/// refusal. Besides naming the result, the contract states what that
/// function's source shows for three inputs: an empty request is refused as
/// invalid CBOR, and the opcodes of GetInfo (0x04) and Reset (0x07) are
/// accepted whatever follows them.
#[verifier::external_body]
fn decode_request(request: &[u8]) -> (r: Result<bool, u8>)
    ensures
        r == ctap2_request_decoding(request@),
        request@.len() == 0 ==> r == refused(CTAP2_ERR_INVALID_CBOR),
        request@.len() > 0 && request@[0] == 0x04 ==> r == accepted(true),
        request@.len() > 0 && request@[0] == 0x07 ==> r == accepted(false),
{
    match Request::deserialize(request) {
        Ok(Request::GetInfo) => Ok(true),
        Ok(_) => Ok(false),
        Err(error) => Err(error as u8),
    }
}

/// Serializes, with `ctap_types::ctap2::Response::serialize` into a 256-byte
/// buffer, the GetInfo response built by `ResponseBuilder` from the given
/// version and AAGUID, with the `plat` option, the maximum message size and
/// the transport set. The contract names the bytes and states what the
/// serializer's source shows of them for these arguments: the status byte is
/// success, because the CBOR map (one version string, the 16-byte AAGUID, the
/// `rk`, `up` and `plat` options, an integer of at most nine bytes and one
/// transport string) takes well under the 255 bytes after it and the encoder
/// fails only on a full buffer; and the map is more than 16 bytes long.
#[verifier::external_body]
fn serialize_get_info(
    version: ProtocolVersion,
    aaguid: [u8; 16],
    platform_authenticator: bool,
    max_msg_size: usize,
    transport: TransportKind,
) -> (r: Vec<u8>)
    ensures
        r@ == get_info_encoding(
            version,
            aaguid@,
            platform_authenticator,
            max_msg_size as nat,
            transport,
        ),
        17 < r@.len() <= MAX_RESPONSE_SIZE,
        r@[0] == 0u8,
{
    let mut versions = ctap_types::Vec::new();
    versions.push(match version { ProtocolVersion::Fido2_0 => Version::Fido2_0 }).ok();
    let mut response = ResponseBuilder { versions, aaguid: aaguid.into() }.build();
    let mut options = CtapOptions::default();
    options.plat = Some(platform_authenticator);
    response.options = Some(options);
    response.max_msg_size = Some(max_msg_size);
    let mut transports = ctap_types::Vec::new();
    transports.push(match transport { TransportKind::Usb => Transport::Usb }).ok();
    response.transports = Some(transports);
    let mut encoded = ctap_types::Vec::<u8, MAX_RESPONSE_SIZE>::new();
    Response::GetInfo(response).serialize(encoded.as_mut_view());
    encoded.to_vec()
}

/// The GetInfo response of the bring-up firmware: FIDO_2_0, the development
/// AAGUID, not a platform authenticator, the transport's maximum message size
/// and USB.
pub open spec fn bring_up_get_info() -> Seq<u8> {
    get_info_encoding(
        ProtocolVersion::Fido2_0,
        DEVELOPMENT_AAGUID@,
        false,
        MAX_MESSAGE_SIZE as nat,
        TransportKind::Usb,
    )
}

/// The reply to a decoded request: the GetInfo response, `InvalidCommand` for
/// any other operation, and the decoder's status for a refused request.
pub open spec fn spec_response_for(decoded: Result<bool, u8>) -> Seq<u8> {
    match decoded {
        Ok(true) => bring_up_get_info(),
        Ok(false) => seq![CTAP2_ERR_INVALID_COMMAND],
        Err(code) => seq![code],
    }
}

/// A one-byte CTAP2 error response.
pub fn error_response(code: u8) -> (r: Vec<u8>)
    ensures
        r@ == seq![code],
{
    let mut encoded = Vec::new();
    encoded.push(code);
    encoded
}

/// The GetInfo response of the bring-up firmware.
pub fn get_info_response() -> (r: Vec<u8>)
    ensures
        r@ == bring_up_get_info(),
        17 < r@.len() <= MAX_RESPONSE_SIZE,
        r@[0] == 0u8,
{
    serialize_get_info(
        ProtocolVersion::Fido2_0,
        DEVELOPMENT_AAGUID,
        false,
        MAX_MESSAGE_SIZE,
        TransportKind::Usb,
    )
}

/// The reply for a request that the decoder has already classified.
pub fn response_for(decoded: Result<bool, u8>) -> (r: Vec<u8>)
    ensures
        r@ == spec_response_for(decoded),
        decoded == accepted(true) ==> r@[0] == 0u8 && r@.len() > 17,
{
    match decoded {
        Ok(true) => get_info_response(),
        Ok(false) => error_response(CTAP2_ERR_INVALID_COMMAND),
        Err(code) => error_response(code),
    }
}

/// Answers one CTAP2 request: only authenticatorGetInfo succeeds.
pub fn dispatch(request: &[u8]) -> (r: Vec<u8>)
    ensures
        r@ == spec_response_for(ctap2_request_decoding(request@)),
        request@.len() == 0 ==> r@ == seq![CTAP2_ERR_INVALID_CBOR],
        request@.len() > 0 && request@[0] == 0x07 ==> r@ == seq![CTAP2_ERR_INVALID_COMMAND],
        request@.len() > 0 && request@[0] == 0x04 ==> r@ == bring_up_get_info() && r@[0] == 0u8
            && r@.len() > 17,
{
    response_for(decode_request(request))
}

} // verus!
