//! Private, fixed scope embedded in a separately signed maintenance image.
//!
//! The non-running slot is bound to an independently qualified normal image.
//! The running maintenance image must pass boot, credential, signature and
//! VALID-metadata checks before its counter operation can be approved.

use vstd::prelude::*;
use crate::bytes::{count_ones_u16, le_u32_at, ones};
use crate::platform::security_epoch::{secure_version_raw, spec_secure_version_raw, SHARED_WRITE_DISABLE};

verus! {

pub const PLAN_BYTES: usize = 164;

/// Requests of the maintenance protocol: inspect the plan against the device,
/// program the change, or rehearse it without programming.
pub const REQUEST_INSPECT: u8 = 0x13;

pub const REQUEST_PROGRAM: u8 = 0x14;

pub const REQUEST_REHEARSE: u8 = 0x15;

/// The ASCII magic `RKMPLAN1`.
pub open spec fn plan_magic() -> Seq<u8> {
    seq![0x52u8, 0x4b, 0x4d, 0x50, 0x4c, 0x41, 0x4e, 0x31]
}

/// Exact request binding: a bare preview request, or a rehearse/program
/// request that repeats the plan digest and names one image digest per slot.
/// The target epoch is never accepted from a request.
pub open spec fn spec_requested_images(request: Seq<u8>, plan_digest: Seq<u8>) -> Option<
    Option<(Seq<u8>, Seq<u8>)>,
> {
    if request == seq![REQUEST_INSPECT] {
        Some(None)
    } else if request.len() != 97 || !(request[0] == REQUEST_PROGRAM || request[0]
        == REQUEST_REHEARSE) || request.subrange(1, 33) != plan_digest {
        None
    } else {
        Some(Some((request.subrange(33, 65), request.subrange(65, 97))))
    }
}

fn same_bytes(a: &[u8], at: usize, b: &[u8]) -> (r: bool)
    requires
        at + b@.len() <= a@.len(),
    ensures
        r == (a@.subrange(at as int, at + b@.len()) == b@),
{
    let n = b.len();
    let len = a.len();
    let mut i: usize = 0;
    while i < n
        invariant
            i <= n,
            n == b@.len(),
            len == a@.len(),
            at + n <= len,
            forall|j: int| 0 <= j < i ==> a@[at + j] == b@[j],
        decreases n - i,
    {
        if a[at + i] != b[i] {
            assert(a@.subrange(at as int, at + n)[i as int] != b@[i as int]);
            return false;
        }
        i = i + 1;
    }
    assert(a@.subrange(at as int, at + n) =~= b@);
    true
}

fn digest_at(bytes: &[u8], at: usize) -> (r: [u8; 32])
    requires
        at + 32 <= bytes@.len(),
    ensures
        r@ == bytes@.subrange(at as int, at + 32),
{
    let mut out = [0u8; 32];
    let len = bytes.len();
    let mut i: usize = 0;
    while i < 32
        invariant
            i <= 32,
            len == bytes@.len(),
            at + 32 <= len,
            forall|j: int| 0 <= j < i ==> out@[j] == bytes@[at + j],
        decreases 32 - i,
    {
        out[i] = bytes[at + i];
        i = i + 1;
    }
    assert(out@ =~= bytes@.subrange(at as int, at + 32));
    out
}

pub fn requested_images(request: &[u8], plan_digest: &[u8; 32]) -> (r: Option<
    Option<[[u8; 32]; 2]>,
>)
    ensures
        r matches Some(Some(images)) ==> spec_requested_images(request@, plan_digest@) == Some(
            Some((images[0]@, images[1]@)),
        ),
        r matches Some(None) ==> spec_requested_images(request@, plan_digest@) == Some(
            None::<(Seq<u8>, Seq<u8>)>,
        ),
        r is None <==> spec_requested_images(request@, plan_digest@) is None,
{
    if request.len() == 1 && request[0] == REQUEST_INSPECT {
        assert(request@ =~= seq![REQUEST_INSPECT]);
        return Some(None);
    }
    assert(request@ != seq![REQUEST_INSPECT]);
    if request.len() != 97 || !(request[0] == REQUEST_PROGRAM || request[0] == REQUEST_REHEARSE)
        || !same_bytes(request, 1, plan_digest.as_slice()) {
        return None;
    }
    Some(Some([digest_at(request, 33), digest_at(request, 65)]))
}

#[derive(Clone, Copy, Debug, PartialEq, Eq)]
pub struct MaintenancePlan {
    pub device_digest: [u8; 32],
    pub bootloader_digest: [u8; 32],
    pub trusted_root_digest: [u8; 32],
    pub expected_block0: [u32; 6],
    pub fallback_digest: [u8; 32],
    pub target_epoch: u8,
    pub revision_major: u8,
    pub revision_minor: u8,
}

/// The BLOCK0 words stored in the plan.
pub open spec fn plan_block0(bytes: Seq<u8>) -> Seq<u32> {
    Seq::new(6, |i: int| le_u32_at(bytes, 104 + 4 * i))
}

/// A digest of all zeros.
pub open spec fn is_zero_digest(d: Seq<u8>) -> bool {
    d == Seq::new(32, |_i: int| 0u8)
}

/// The plan layout: magic, device, bootloader and root digests, six BLOCK0
/// words, the fallback digest, target epoch, chip revision and a zero byte.
/// The plan is refused unless the target is 1..=16, SECURE_VERSION is still
/// writable, the target advances the counter, and no digest is all zeros.
pub open spec fn spec_decode(bytes: Seq<u8>) -> Option<MaintenancePlan> {
    if bytes.len() != PLAN_BYTES || bytes.subrange(0, 8) != plan_magic() || bytes[163] != 0 {
        None
    } else {
        let block0 = plan_block0(bytes);
        let target = bytes[160];
        if !(1 <= target <= 16) || block0[0] & SHARED_WRITE_DISABLE != 0 || target <= ones(
            spec_secure_version_raw(block0),
            16,
        ) || is_zero_digest(bytes.subrange(8, 40)) || is_zero_digest(bytes.subrange(40, 72))
            || is_zero_digest(bytes.subrange(72, 104)) || is_zero_digest(bytes.subrange(128, 160)) {
            None
        } else {
            Some(
                MaintenancePlan {
                    device_digest: arbitrary_digest(bytes.subrange(8, 40)),
                    bootloader_digest: arbitrary_digest(bytes.subrange(40, 72)),
                    trusted_root_digest: arbitrary_digest(bytes.subrange(72, 104)),
                    expected_block0: arbitrary_words(block0),
                    fallback_digest: arbitrary_digest(bytes.subrange(128, 160)),
                    target_epoch: target,
                    revision_major: bytes[161],
                    revision_minor: bytes[162],
                },
            )
        }
    }
}

/// The array holding a 32-byte sequence.
pub open spec fn arbitrary_digest(s: Seq<u8>) -> [u8; 32] {
    choose|a: [u8; 32]| a@ == s
}

/// The array holding six words.
pub open spec fn arbitrary_words(s: Seq<u32>) -> [u32; 6] {
    choose|a: [u32; 6]| a@ == s
}

fn is_zero(d: &[u8; 32]) -> (r: bool)
    ensures
        r == is_zero_digest(d@),
{
    let mut i: usize = 0;
    while i < 32
        invariant
            i <= 32,
            forall|j: int| 0 <= j < i ==> d@[j] == 0u8,
        decreases 32 - i,
    {
        if d[i] != 0 {
            assert(d@[i as int] != Seq::new(32, |_i: int| 0u8)[i as int]);
            return false;
        }
        i = i + 1;
    }
    assert(d@ =~= Seq::new(32, |_i: int| 0u8));
    true
}

pub fn decode(bytes: &[u8]) -> (r: Option<MaintenancePlan>)
    ensures
        r matches Some(plan) ==> spec_decode(bytes@) matches Some(p) && plan.device_digest@
            == p.device_digest@ && plan.bootloader_digest@ == p.bootloader_digest@
            && plan.trusted_root_digest@ == p.trusted_root_digest@ && plan.expected_block0@
            == p.expected_block0@ && plan.fallback_digest@ == p.fallback_digest@
            && plan.target_epoch == p.target_epoch && plan.revision_major == p.revision_major
            && plan.revision_minor == p.revision_minor,
        r is None <==> spec_decode(bytes@) is None,
{
    let magic: [u8; 8] = [0x52, 0x4b, 0x4d, 0x50, 0x4c, 0x41, 0x4e, 0x31];
    assert(magic@ =~= plan_magic());
    if bytes.len() != PLAN_BYTES || !same_bytes(bytes, 0, magic.as_slice()) || bytes[163] != 0 {
        return None;
    }
    let mut block0 = [0u32; 6];
    let mut w: usize = 0;
    while w < 6
        invariant
            w <= 6,
            bytes@.len() == PLAN_BYTES,
            forall|j: int| 0 <= j < w ==> block0@[j] == le_u32_at(bytes@, 104 + 4 * j),
        decreases 6 - w,
    {
        let at = 104 + 4 * w;
        block0[w] = bytes[at] as u32 + (bytes[at + 1] as u32) * 0x100 + (bytes[at + 2] as u32)
            * 0x1_0000 + (bytes[at + 3] as u32) * 0x100_0000;
        w = w + 1;
    }
    assert(block0@ =~= plan_block0(bytes@));
    let plan = MaintenancePlan {
        device_digest: digest_at(bytes, 8),
        bootloader_digest: digest_at(bytes, 40),
        trusted_root_digest: digest_at(bytes, 72),
        expected_block0: block0,
        fallback_digest: digest_at(bytes, 128),
        target_epoch: bytes[160],
        revision_major: bytes[161],
        revision_minor: bytes[162],
    };
    if !(1 <= plan.target_epoch && plan.target_epoch <= 16) || block0[0] & SHARED_WRITE_DISABLE
        != 0 || plan.target_epoch as u32 <= count_ones_u16(secure_version_raw(&block0))
        || is_zero(&plan.device_digest) || is_zero(&plan.bootloader_digest) || is_zero(
        &plan.trusted_root_digest,
    ) || is_zero(&plan.fallback_digest) {
        return None;
    }
    proof {
        let p = spec_decode(bytes@)->Some_0;
        assert(arbitrary_digest(bytes@.subrange(8, 40))@ == bytes@.subrange(8, 40)) by {
            assert(plan.device_digest@ == bytes@.subrange(8, 40));
        }
        assert(arbitrary_digest(bytes@.subrange(40, 72))@ == bytes@.subrange(40, 72)) by {
            assert(plan.bootloader_digest@ == bytes@.subrange(40, 72));
        }
        assert(arbitrary_digest(bytes@.subrange(72, 104))@ == bytes@.subrange(72, 104)) by {
            assert(plan.trusted_root_digest@ == bytes@.subrange(72, 104));
        }
        assert(arbitrary_digest(bytes@.subrange(128, 160))@ == bytes@.subrange(128, 160)) by {
            assert(plan.fallback_digest@ == bytes@.subrange(128, 160));
        }
        assert(arbitrary_words(plan_block0(bytes@))@ == plan_block0(bytes@)) by {
            assert(block0@ == plan_block0(bytes@));
        }
    }
    Some(plan)
}

} // verus!
