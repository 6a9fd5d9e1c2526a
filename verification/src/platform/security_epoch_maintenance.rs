//! The decisions and the response of the explicit maintenance requests for a
//! separately signed counter plan: which requests belong here, when one is
//! admitted, when a second qualification still binds the approval, and the
//! 64-byte response. Qualifying the device, asking for presence and
//! programming eFuses are the platform's work between these steps.

use vstd::prelude::*;
use crate::bytes::{clear, copy_into, le_bytes_u32, ones, count_ones_u16, u32_to_le_bytes, zeros};
use crate::platform::ota::QualifiedLayout;
use crate::platform::security_epoch_plan::{
    requested_images, spec_requested_images, REQUEST_INSPECT, REQUEST_PROGRAM, REQUEST_REHEARSE,
};
use crate::usb_update::Phase;

verus! {

pub const RESPONSE_SIZE: usize = 64;

/// Why a maintenance request failed; a failed programming attempt carries
/// the transaction's status code.
#[derive(Clone, Copy, Debug, PartialEq, Eq, Structural)]
pub enum MaintenanceError {
    Request,
    Busy,
    Plan,
    Image,
    Presence,
    Transaction(u8),
    Binding,
    Cancelled,
}

/// The status byte of each error.
pub open spec fn error_code(error: MaintenanceError) -> u8 {
    match error {
        MaintenanceError::Request => 1,
        MaintenanceError::Busy => 2,
        MaintenanceError::Plan => 3,
        MaintenanceError::Image => 4,
        MaintenanceError::Presence => 5,
        MaintenanceError::Transaction(_) => 6,
        MaintenanceError::Binding => 7,
        MaintenanceError::Cancelled => 8,
    }
}

impl MaintenanceError {
    /// The status byte of this error.
    pub fn code(self) -> (r: u8)
        ensures
            r == error_code(self),
    {
        match self {
            MaintenanceError::Request => 1,
            MaintenanceError::Busy => 2,
            MaintenanceError::Plan => 3,
            MaintenanceError::Image => 4,
            MaintenanceError::Presence => 5,
            MaintenanceError::Transaction(_) => 6,
            MaintenanceError::Binding => 7,
            MaintenanceError::Cancelled => 8,
        }
    }
}

/// What a successful maintenance request reports.
#[derive(Clone, Copy, Debug, PartialEq, Eq)]
pub struct MaintenanceReport {
    /// The request's opcode.
    pub opcode: u8,
    pub target_epoch: u8,
    pub layout: QualifiedLayout,
    /// The raw secure-version field before the request.
    pub raw: u16,
    /// The bits the change programs.
    pub delta: u16,
    pub plan_digest: [u8; 32],
    pub apb_clock_hz: u32,
}

/// A request for this handler: it starts with the inspect, program or
/// rehearse opcode.
pub open spec fn spec_is_maintenance_request(request: Seq<u8>) -> bool {
    request.len() > 0 && (request[0] == REQUEST_INSPECT || request[0] == REQUEST_PROGRAM
        || request[0] == REQUEST_REHEARSE)
}

pub fn is_maintenance_request(request: &[u8]) -> (r: bool)
    ensures
        r == spec_is_maintenance_request(request@),
{
    request.len() > 0 && (request[0] == REQUEST_INSPECT || request[0] == REQUEST_PROGRAM
        || request[0] == REQUEST_REHEARSE)
}

/// Whether a request is admitted: not while an update session is under way
/// (`Busy`); then it must be the one-byte inspect request or a program or
/// rehearse request bound to the plan digest (`Request` otherwise), and the
/// image digests it names, if any, come back.
pub open spec fn spec_admission(request: Seq<u8>, phase: Phase, plan_digest: Seq<u8>) -> Result<
    Option<(Seq<u8>, Seq<u8>)>,
    MaintenanceError,
> {
    if phase != Phase::Idle {
        Err(MaintenanceError::Busy)
    } else {
        match spec_requested_images(request, plan_digest) {
            Some(images) => Ok(images),
            None => Err(MaintenanceError::Request),
        }
    }
}

pub fn admission(request: &[u8], phase: Phase, plan_digest: &[u8; 32]) -> (r: Result<
    Option<[[u8; 32]; 2]>,
    MaintenanceError,
>)
    ensures
        r matches Ok(Some(images)) ==> spec_admission(request@, phase, plan_digest@) == Ok::<
            Option<(Seq<u8>, Seq<u8>)>,
            MaintenanceError,
        >(Some((images[0]@, images[1]@))),
        r matches Ok(None) ==> spec_admission(request@, phase, plan_digest@) == Ok::<
            Option<(Seq<u8>, Seq<u8>)>,
            MaintenanceError,
        >(None),
        r matches Err(e) ==> spec_admission(request@, phase, plan_digest@) == Err::<
            Option<(Seq<u8>, Seq<u8>)>,
            MaintenanceError,
        >(e),
{
    if phase != Phase::Idle {
        return Err(MaintenanceError::Busy);
    }
    match requested_images(request, plan_digest) {
        Some(images) => Ok(images),
        None => Err(MaintenanceError::Request),
    }
}

/// After presence, the second qualification binds the approval only when it
/// found the same slot layout as the first (`Binding` otherwise).
pub open spec fn spec_requalification(first: QualifiedLayout, second: QualifiedLayout) -> Result<
    (),
    MaintenanceError,
> {
    if first.running_slot == second.running_slot && first.sequences@ == second.sequences@ {
        Ok(())
    } else {
        Err(MaintenanceError::Binding)
    }
}

pub fn requalification(first: &QualifiedLayout, second: &QualifiedLayout) -> (r: Result<
    (),
    MaintenanceError,
>)
    ensures
        r == spec_requalification(*first, *second),
{
    if first.running_slot == second.running_slot && first.sequences[0] == second.sequences[0]
        && first.sequences[1] == second.sequences[1] {
        assert(first.sequences@ =~= second.sequences@);
        Ok(())
    } else {
        Err(MaintenanceError::Binding)
    }
}

/// The little-endian bytes of `v`.
pub open spec fn le_bytes_u16(v: u16) -> Seq<u8> {
    seq![(v % 0x100) as u8, (v / 0x100) as u8]
}

/// The 64-byte response: the tag `RKM1`, then on failure the error's status
/// byte and, for a failed programming attempt, the transaction's status;
/// on success a zero status, the target epoch, the running slot, the number
/// of secure-version bits already set, the plan digest, both slots' metadata
/// sequences, the APB clock, the raw secure-version field, the bits to
/// program and the opcode. Every other byte is zero.
pub open spec fn maintenance_response(outcome: Result<MaintenanceReport, MaintenanceError>) -> Seq<
    u8,
> {
    let tag = seq![0x52u8, 0x4b, 0x4d, 0x31];
    match outcome {
        Err(error) => tag + seq![
            error_code(error),
            match error {
                MaintenanceError::Transaction(status) => status,
                _ => 0u8,
            },
        ] + zeros(58),
        Ok(report) => tag + seq![
            0u8,
            report.target_epoch,
            report.layout.running_slot,
            ones(report.raw, 16) as u8,
        ] + report.plan_digest@ + le_bytes_u32(report.layout.sequences[0]) + le_bytes_u32(
            report.layout.sequences[1],
        ) + le_bytes_u32(report.apb_clock_hz) + le_bytes_u16(report.raw) + le_bytes_u16(
            report.delta,
        ) + seq![report.opcode] + zeros(7),
    }
}

/// Writes the response for `outcome` into `output`; returns its length.
pub fn encode_response(
    outcome: Result<MaintenanceReport, MaintenanceError>,
    output: &mut [u8; 64],
) -> (r: usize)
    ensures
        final(output)@ == maintenance_response(outcome),
        r == RESPONSE_SIZE,
{
    clear(output);
    output[0] = 0x52;
    output[1] = 0x4b;
    output[2] = 0x4d;
    output[3] = 0x31;
    match outcome {
        Err(error) => {
            output[4] = error.code();
            if let MaintenanceError::Transaction(status) = error {
                output[5] = status;
            }
        },
        Ok(report) => {
            output[5] = report.target_epoch;
            output[6] = report.layout.running_slot;
            output[7] = count_ones_u16(report.raw) as u8;
            copy_into(output, 8, &report.plan_digest);
            copy_into(output, 40, &u32_to_le_bytes(report.layout.sequences[0]));
            copy_into(output, 44, &u32_to_le_bytes(report.layout.sequences[1]));
            copy_into(output, 48, &u32_to_le_bytes(report.apb_clock_hz));
            output[52] = (report.raw % 0x100) as u8;
            output[53] = (report.raw / 0x100) as u8;
            output[54] = (report.delta % 0x100) as u8;
            output[55] = (report.delta / 0x100) as u8;
            output[56] = report.opcode;
        },
    }
    assert(output@ =~= maintenance_response(outcome));
    RESPONSE_SIZE
}

} // verus!
