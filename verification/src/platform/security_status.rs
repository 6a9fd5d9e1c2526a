//! Read-only, non-identifying eFuse status for maintenance over normal USB.
//!
//! This is a fixed allowlist of policy fields. It never reads key blocks, MAC
//! addresses, credential storage, or attestation material and has no write path.

use vstd::prelude::*;
use crate::bytes::{count_ones_u16, le_bytes_u32, ones};

verus! {

pub const REQUEST: u8 = 0x11;

pub const RESPONSE_SIZE: usize = 32;

/// The eFuse policy fields reported to the host.
pub struct SecurityStatus {
    pub secure_version_raw: u16,
    pub write_disable: u32,
    pub policy_flags: u32,
    pub flash_crypt_count: u8,
    pub read_disable: u8,
    pub revoked_roots: u8,
    pub revision_major: u8,
    pub revision_minor: u8,
    pub application_secure_version: u32,
}

/// The 64-byte `RKS1` report: magic, raw secure version (little-endian) and
/// its set-bit count, write-disable and policy words, the crypt counter,
/// read-disable bits, revoked roots, chip revision and the application's
/// secure version; every other byte is zero.
pub open spec fn status_report(s: SecurityStatus) -> Seq<u8> {
    Seq::new(
        64,
        |i: int|
            if i == 0 {
                0x52u8
            } else if i == 1 {
                0x4bu8
            } else if i == 2 {
                0x53u8
            } else if i == 3 {
                0x31u8
            } else if 4 <= i < 6 {
                le_bytes_u32(s.secure_version_raw as u32)[i - 4]
            } else if i == 6 {
                ones(s.secure_version_raw, 16) as u8
            } else if 8 <= i < 12 {
                le_bytes_u32(s.write_disable)[i - 8]
            } else if 12 <= i < 16 {
                le_bytes_u32(s.policy_flags)[i - 12]
            } else if i == 16 {
                s.flash_crypt_count
            } else if i == 17 {
                s.read_disable
            } else if i == 18 {
                s.revoked_roots
            } else if i == 19 {
                s.revision_major
            } else if i == 20 {
                s.revision_minor
            } else if 24 <= i < 28 {
                le_bytes_u32(s.application_secure_version)[i - 24]
            } else {
                0u8
            },
    )
}

fn put_le_u32(output: &mut [u8; 64], at: usize, v: u32, width: usize)
    requires
        at + width <= 64,
        width <= 4,
    ensures
        final(output)@ == Seq::new(
            64,
            |i: int|
                if at <= i < at + width {
                    le_bytes_u32(v)[i - at]
                } else {
                    old(output)@[i]
                },
        ),
{
    let bytes = [
        (v % 0x100) as u8,
        ((v / 0x100) % 0x100) as u8,
        ((v / 0x1_0000) % 0x100) as u8,
        (v / 0x100_0000) as u8,
    ];
    assert(bytes@ =~= le_bytes_u32(v));
    let ghost start = output@;
    let mut k: usize = 0;
    while k < width
        invariant
            k <= width,
            at + width <= 64,
            width <= 4,
            bytes@ == le_bytes_u32(v),
            output@ == Seq::new(
                64,
                |i: int|
                    if at <= i < at + k {
                        le_bytes_u32(v)[i - at]
                    } else {
                        start[i]
                    },
            ),
        decreases width - k,
    {
        output[at + k] = bytes[k];
        k = k + 1;
        assert(output@ =~= Seq::new(
            64,
            |i: int|
                if at <= i < at + k {
                    le_bytes_u32(v)[i - at]
                } else {
                    start[i]
                },
        ));
    }
}

impl SecurityStatus {
    /// Writes the report into `output` and returns its length.
    pub fn encode(&self, output: &mut [u8; 64]) -> (r: usize)
        ensures
            final(output)@ == status_report(*self),
            r == RESPONSE_SIZE,
    {
        let mut i: usize = 0;
        while i < 64
            invariant
                i <= 64,
                forall|j: int| 0 <= j < i ==> output@[j] == 0u8,
            decreases 64 - i,
        {
            output[i] = 0;
            i = i + 1;
        }
        output[0] = 0x52;
        output[1] = 0x4b;
        output[2] = 0x53;
        output[3] = 0x31;
        put_le_u32(output, 4, self.secure_version_raw as u32, 2);
        output[6] = count_ones_u16(self.secure_version_raw) as u8;
        put_le_u32(output, 8, self.write_disable, 4);
        put_le_u32(output, 12, self.policy_flags, 4);
        output[16] = self.flash_crypt_count;
        output[17] = self.read_disable;
        output[18] = self.revoked_roots;
        output[19] = self.revision_major;
        output[20] = self.revision_minor;
        put_le_u32(output, 24, self.application_secure_version, 4);
        assert(output@ =~= status_report(*self));
        RESPONSE_SIZE
    }
}

} // verus!
