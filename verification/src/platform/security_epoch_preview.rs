//! Read-only installed-image checks for the separate epoch-preview build.
//!
//! The response contains firmware digests and OTA metadata only. No key blocks,
//! device identifiers, credential data or eFuse programming registers are read.

use vstd::prelude::*;
use crate::bytes::{clear, copy_into, le_bytes_u32, u32_to_le_bytes, zeros};
use crate::platform::ota::QualifiedLayout;
use crate::usb_update::{Phase, VerifiedInstalledImage};

verus! {

pub const REQUEST: u8 = 0x12;

pub const RESPONSE_SIZE: usize = 64;

#[derive(Clone, Copy, Debug, PartialEq, Eq, Structural)]
pub enum PreviewError {
    Busy,
    Layout,
    Image,
    Request,
}

impl PreviewError {
    pub open spec fn spec_code(self) -> u8 {
        match self {
            PreviewError::Busy => 1,
            PreviewError::Layout => 2,
            PreviewError::Image => 3,
            PreviewError::Request => 4,
        }
    }

    /// The byte that reports the error.
    pub fn code(self) -> (r: u8)
        ensures
            r == self.spec_code(),
    {
        match self {
            PreviewError::Busy => 1,
            PreviewError::Layout => 2,
            PreviewError::Image => 3,
            PreviewError::Request => 4,
        }
    }
}

/// A preview names exactly one slot, 0 or 1, and is served only while no
/// update session is live.
pub open spec fn spec_requested_slot(request: Seq<u8>, phase: Phase) -> Result<u8, PreviewError> {
    if request.len() != 2 || request[0] != REQUEST || request[1] > 1 {
        Err(PreviewError::Request)
    } else if phase != Phase::Idle {
        Err(PreviewError::Busy)
    } else {
        Ok(request[1])
    }
}

pub fn requested_slot(request: &[u8], phase: Phase) -> (r: Result<u8, PreviewError>)
    ensures
        r == spec_requested_slot(request@, phase),
{
    if request.len() != 2 || request[0] != REQUEST || request[1] > 1 {
        return Err(PreviewError::Request);
    }
    if phase != Phase::Idle {
        return Err(PreviewError::Busy);
    }
    Ok(request[1])
}

/// The ASCII tag `RKE1` that opens every preview response.
pub open spec fn preview_tag() -> Seq<u8> {
    seq![0x52u8, 0x4b, 0x45, 0x31]
}

/// The 64-byte response. A success carries the running slot, the image's
/// secure version, signed length and digest, and both metadata sequences; an
/// error carries only its code and the slot, every other byte zero.
pub open spec fn preview_response(
    slot: u8,
    result: Result<(QualifiedLayout, VerifiedInstalledImage), PreviewError>,
) -> Seq<u8> {
    match result {
        Ok((layout, image)) => preview_tag() + seq![0u8, slot, layout.running_slot, 0u8]
            + le_bytes_u32(image.secure_version) + le_bytes_u32(image.signed_image_bytes)
            + image.signed_content_digest@ + le_bytes_u32(layout.sequences[0]) + le_bytes_u32(
            layout.sequences[1],
        ) + zeros(8),
        Err(error) => preview_tag() + seq![error.spec_code(), slot] + zeros(58),
    }
}

pub fn encode(
    slot: u8,
    result: Result<(QualifiedLayout, VerifiedInstalledImage), PreviewError>,
    output: &mut [u8; 64],
) -> (r: usize)
    ensures
        final(output)@ == preview_response(slot, result),
        r == RESPONSE_SIZE,
{
    clear(output);
    output[0] = 0x52;
    output[1] = 0x4b;
    output[2] = 0x45;
    output[3] = 0x31;
    output[5] = slot;
    match result {
        Ok((layout, image)) => {
            output[6] = layout.running_slot;
            copy_into(output, 8, &u32_to_le_bytes(image.secure_version));
            copy_into(output, 12, &u32_to_le_bytes(image.signed_image_bytes));
            copy_into(output, 16, &image.signed_content_digest);
            copy_into(output, 48, &u32_to_le_bytes(layout.sequences[0]));
            copy_into(output, 52, &u32_to_le_bytes(layout.sequences[1]));
        },
        Err(error) => {
            output[4] = error.code();
        },
    }
    assert(output@ =~= preview_response(slot, result));
    RESPONSE_SIZE
}

} // verus!
