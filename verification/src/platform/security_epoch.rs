//! Policy for an explicitly approved ESP32-S2 security-epoch change.
//!
//! This module performs no hardware access. A maintenance transport must bind
//! independently verified slot evidence and fresh physical approval to this
//! policy before a separately reviewed programming backend can use its output.

use vstd::prelude::*;
use crate::bytes::{count_ones_u16, lemma_ones_bounded, ones};

verus! {

/// BLOCK0 word that holds the SECURE_VERSION counter.
pub const FIELD_WORD: usize = 4;

/// First bit of SECURE_VERSION in that word.
pub const FIELD_SHIFT: u32 = 11;

/// The SECURE_VERSION bits of the word.
pub const FIELD_MASK: u32 = 0x07ff_f800;

/// WR_DIS bit shared by SECURE_VERSION and other fields.
pub const SHARED_WRITE_DISABLE: u32 = 0x0004_0000;

/// SECURE_BOOT_EN in BLOCK0 word 3.
pub const SECURE_BOOT_BIT: u32 = 0x0010_0000;

#[derive(Clone, Copy, Debug, PartialEq, Eq)]
pub struct SlotEvidence {
    pub signature_verified: bool,
    pub metadata_valid: bool,
    pub secure_version: u32,
    pub signed_content_digest: [u8; 32],
}

#[derive(Clone, Copy, Debug, PartialEq, Eq)]
pub struct ObservedState {
    pub device_digest: [u8; 32],
    pub bootloader_digest: [u8; 32],
    pub trusted_root_digest: [u8; 32],
    pub block0: [u32; 6],
    pub running_slot: u8,
    pub slots: [SlotEvidence; 2],
}

#[derive(Clone, Copy, Debug, PartialEq, Eq)]
pub struct ApprovedPlan {
    pub device_digest: [u8; 32],
    pub bootloader_digest: [u8; 32],
    pub trusted_root_digest: [u8; 32],
    pub expected_block0: [u32; 6],
    /// Digests of the exact images independently qualified for each slot.
    pub qualified_image_digests: [[u8; 32]; 2],
    pub target_epoch: u8,
}

#[derive(Clone, Copy, Debug, PartialEq, Eq, Structural)]
pub enum PlanError {
    Identity,
    Bootloader,
    TrustRoot,
    ChangedEfuses,
    ProtectionDisabled,
    WriteProtected,
    EpochRange,
    NoAdvance,
    RunningSlot,
    UnqualifiedSlot,
    ChangedImage,
    IncompatibleSlot,
    Readback,
}

/// An exact counter-only delta. Constructed only after all policy checks pass.
/// It is deliberately not Copy or Clone; a backend consumes it for one
/// attempted programming transaction and never retries automatically.
#[derive(Debug, PartialEq, Eq)]
pub struct PreparedChange {
    before: [u32; 6],
    after: [u32; 6],
    delta: u16,
    target_epoch: u8,
}

/// The abstract content of a prepared change.
pub struct ChangeModel {
    pub before: Seq<u32>,
    pub after: Seq<u32>,
    pub delta: u16,
    pub target_epoch: u8,
}

impl View for PreparedChange {
    type V = ChangeModel;

    closed spec fn view(&self) -> ChangeModel {
        ChangeModel {
            before: self.before@,
            after: self.after@,
            delta: self.delta,
            target_epoch: self.target_epoch,
        }
    }
}

/// The raw SECURE_VERSION counter of BLOCK0.
pub open spec fn spec_secure_version_raw(block0: Seq<u32>) -> u16 {
    ((block0[FIELD_WORD as int] & FIELD_MASK) >> FIELD_SHIFT) as u16
}

/// The counter bits to program: the lowest `needed` bits that are still clear
/// among the lowest `width` bits of `current`.
pub open spec fn fill_clear_bits(current: u16, needed: nat, width: nat) -> u16
    decreases width,
{
    if width == 0 {
        0
    } else {
        let low: u16 = if current & 1 == 0 && needed > 0 {
            1
        } else {
            0
        };
        (fill_clear_bits(current >> 1u16, (needed - low) as nat, (width - 1) as nat) << 1u16) | low
    }
}

/// Both slots carry verified signatures and valid metadata, run an epoch
/// between the target and 16, and hold exactly the qualified images; the first
/// failing check, slot 0 before slot 1, names the error.
pub open spec fn slot_check(plan: ApprovedPlan, slot: SlotEvidence, index: int) -> Option<
    PlanError,
> {
    if !slot.signature_verified || !slot.metadata_valid {
        Some(PlanError::UnqualifiedSlot)
    } else if slot.secure_version < plan.target_epoch || slot.secure_version > 16 {
        Some(PlanError::IncompatibleSlot)
    } else if slot.signed_content_digest@ != plan.qualified_image_digests[index]@ {
        Some(PlanError::ChangedImage)
    } else {
        None
    }
}

/// The policy: the plan must name this device, bootloader, signing root and
/// unchanged BLOCK0; secure boot must be on with flash encryption enabled (odd
/// crypt counter); SECURE_VERSION must be writable; the target must be at
/// most 16 and above the current epoch; the running slot must exist; and both
/// slots must pass `slot_check`. The change then sets the lowest clear counter
/// bits until the counter reaches the target.
pub open spec fn spec_prepare(plan: ApprovedPlan, observed: ObservedState) -> Result<
    ChangeModel,
    PlanError,
> {
    let block0 = observed.block0@;
    let current = spec_secure_version_raw(block0);
    let count = ones(current, 16);
    if plan.device_digest@ != observed.device_digest@ {
        Err(PlanError::Identity)
    } else if plan.bootloader_digest@ != observed.bootloader_digest@ {
        Err(PlanError::Bootloader)
    } else if plan.trusted_root_digest@ != observed.trusted_root_digest@ {
        Err(PlanError::TrustRoot)
    } else if plan.expected_block0@ != block0 {
        Err(PlanError::ChangedEfuses)
    } else if block0[3] & SECURE_BOOT_BIT == 0 || ones(((block0[2] >> 18u32) & 7) as u16, 16) % 2
        != 1 {
        Err(PlanError::ProtectionDisabled)
    } else if block0[0] & SHARED_WRITE_DISABLE != 0 {
        Err(PlanError::WriteProtected)
    } else if plan.target_epoch > 16 {
        Err(PlanError::EpochRange)
    } else if plan.target_epoch <= count {
        Err(PlanError::NoAdvance)
    } else if observed.running_slot > 1 {
        Err(PlanError::RunningSlot)
    } else if slot_check(plan, observed.slots[0], 0) is Some {
        Err(slot_check(plan, observed.slots[0], 0)->0)
    } else if slot_check(plan, observed.slots[1], 1) is Some {
        Err(slot_check(plan, observed.slots[1], 1)->0)
    } else {
        let delta = fill_clear_bits(current, (plan.target_epoch - count) as nat, 16);
        Ok(
            ChangeModel {
                before: block0,
                after: block0.update(
                    FIELD_WORD as int,
                    block0[FIELD_WORD as int] | ((delta as u32) << FIELD_SHIFT),
                ),
                delta,
                target_epoch: plan.target_epoch,
            },
        )
    }
}

impl PreparedChange {
    pub fn target_epoch(&self) -> (r: u8)
        ensures
            r == self@.target_epoch,
    {
        self.target_epoch
    }

    pub fn bits_to_program(&self) -> (r: u16)
        ensures
            r == self@.delta,
    {
        self.delta
    }

    /// These are BLOCK0 program-register values, not an existing block image.
    /// Every bit outside SECURE_VERSION is zero, including shared WR_DIS.
    pub fn program_words(&self) -> (r: [u32; 8])
        ensures
            r@ == seq![0u32, 0, 0, 0, (self@.delta as u32) << FIELD_SHIFT, 0, 0, 0],
    {
        let mut words = [0u32; 8];
        words[FIELD_WORD] = (self.delta as u32) << FIELD_SHIFT;
        assert(words@ =~= seq![0u32, 0, 0, 0, (self@.delta as u32) << FIELD_SHIFT, 0, 0, 0]);
        words
    }

    /// BLOCK0 still reads as it did when the change was prepared.
    pub fn recheck_before(&self, block0: &[u32; 6]) -> (r: Result<(), PlanError>)
        ensures
            r == (if block0@ == self@.before {
                Ok::<(), PlanError>(())
            } else {
                Err(PlanError::ChangedEfuses)
            }),
    {
        if same_words(block0, &self.before) {
            Ok(())
        } else {
            Err(PlanError::ChangedEfuses)
        }
    }

    /// BLOCK0 reads back exactly the prepared result; consumes the change.
    pub fn verify_after(self, block0: &[u32; 6]) -> (r: Result<(), PlanError>)
        ensures
            r == (if block0@ == self@.after {
                Ok::<(), PlanError>(())
            } else {
                Err(PlanError::Readback)
            }),
    {
        if same_words(block0, &self.after) {
            Ok(())
        } else {
            Err(PlanError::Readback)
        }
    }
}

fn same_words(a: &[u32; 6], b: &[u32; 6]) -> (r: bool)
    ensures
        r == (a@ == b@),
{
    let mut i: usize = 0;
    while i < 6
        invariant
            i <= 6,
            forall|j: int| 0 <= j < i ==> a@[j] == b@[j],
        decreases 6 - i,
    {
        if a[i] != b[i] {
            return false;
        }
        i = i + 1;
    }
    assert(a@ =~= b@);
    true
}

fn same_digest(a: &[u8; 32], b: &[u8; 32]) -> (r: bool)
    ensures
        r == (a@ == b@),
{
    let mut i: usize = 0;
    while i < 32
        invariant
            i <= 32,
            forall|j: int| 0 <= j < i ==> a@[j] == b@[j],
        decreases 32 - i,
    {
        if a[i] != b[i] {
            return false;
        }
        i = i + 1;
    }
    assert(a@ =~= b@);
    true
}

/// The raw SECURE_VERSION counter of BLOCK0.
pub fn secure_version_raw(block0: &[u32; 6]) -> (r: u16)
    ensures
        r == spec_secure_version_raw(block0@),
{
    ((block0[FIELD_WORD] & FIELD_MASK) >> FIELD_SHIFT) as u16
}

fn fill_clear(current: u16, needed: u32, width: u32) -> (r: u16)
    requires
        width <= 16,
    ensures
        r == fill_clear_bits(current, needed as nat, width as nat),
    decreases width,
{
    if width == 0 {
        return 0;
    }
    let low: u16 = if current & 1 == 0 && needed > 0 {
        1
    } else {
        0
    };
    let rest = fill_clear(current >> 1, needed - low as u32, width - 1);
    (rest << 1) | low
}

fn check_slot(plan: &ApprovedPlan, slot: &SlotEvidence, index: usize) -> (r: Option<PlanError>)
    requires
        index < 2,
    ensures
        r == slot_check(*plan, *slot, index as int),
{
    if !slot.signature_verified || !slot.metadata_valid {
        return Some(PlanError::UnqualifiedSlot);
    }
    if slot.secure_version < plan.target_epoch as u32 || slot.secure_version > 16 {
        return Some(PlanError::IncompatibleSlot);
    }
    if !same_digest(&slot.signed_content_digest, &plan.qualified_image_digests[index]) {
        return Some(PlanError::ChangedImage);
    }
    None
}

/// Checks an approved plan against the observed device and prepares the
/// counter change.
#[verifier::loop_isolation(false)]
pub fn prepare(plan: &ApprovedPlan, observed: &ObservedState) -> (r: Result<
    PreparedChange,
    PlanError,
>)
    ensures
        r matches Ok(change) ==> spec_prepare(*plan, *observed) matches Ok(model) && change@
            == model,
        r matches Err(error) ==> spec_prepare(*plan, *observed) == Err::<ChangeModel, PlanError>(
            error,
        ),
{
    if !same_digest(&plan.device_digest, &observed.device_digest) {
        return Err(PlanError::Identity);
    }
    if !same_digest(&plan.bootloader_digest, &observed.bootloader_digest) {
        return Err(PlanError::Bootloader);
    }
    if !same_digest(&plan.trusted_root_digest, &observed.trusted_root_digest) {
        return Err(PlanError::TrustRoot);
    }
    if !same_words(&plan.expected_block0, &observed.block0) {
        return Err(PlanError::ChangedEfuses);
    }
    let secure_boot = observed.block0[3] & SECURE_BOOT_BIT != 0;
    let word2 = observed.block0[2];
    let flash_crypt_count = (word2 >> 18) & 7;
    assert((word2 >> 18u32) & 7u32 <= 7u32) by (bit_vector);
    if !secure_boot || count_ones_u16(flash_crypt_count as u16) % 2 != 1 {
        return Err(PlanError::ProtectionDisabled);
    }
    if observed.block0[0] & SHARED_WRITE_DISABLE != 0 {
        return Err(PlanError::WriteProtected);
    }
    if plan.target_epoch > 16 {
        return Err(PlanError::EpochRange);
    }
    let current = secure_version_raw(&observed.block0);
    let count = count_ones_u16(current);
    if plan.target_epoch as u32 <= count {
        return Err(PlanError::NoAdvance);
    }
    if observed.running_slot > 1 {
        return Err(PlanError::RunningSlot);
    }
    let mut index: usize = 0;
    while index < 2
        invariant
            index <= 2,
            forall|j: int| 0 <= j < index ==> slot_check(*plan, observed.slots[j], j) is None,
        decreases 2 - index,
    {
        if let Some(error) = check_slot(plan, &observed.slots[index], index) {
            return Err(error);
        }
        index = index + 1;
    }
    let delta = fill_clear(current, plan.target_epoch as u32 - count, 16);
    let mut after = observed.block0;
    after[FIELD_WORD] = after[FIELD_WORD] | ((delta as u32) << FIELD_SHIFT);
    let change = PreparedChange {
        before: observed.block0,
        after,
        delta,
        target_epoch: plan.target_epoch,
    };
    assert(change@.after =~= spec_prepare(*plan, *observed)->Ok_0.after);
    Ok(change)
}

/// Setting the lowest clear bits: when the window has at least `needed` clear
/// bits, the added bits were all clear, exactly `needed` are added, and they
/// stay inside the window.
pub proof fn lemma_fill_clear_bits(current: u16, needed: nat, width: nat)
    requires
        width <= 16,
        needed + ones(current, width) <= width,
    ensures
        current & fill_clear_bits(current, needed, width) == 0,
        ones(current | fill_clear_bits(current, needed, width), width) == ones(current, width)
            + needed,
        width <= 15 ==> fill_clear_bits(current, needed, width) >> (width as u16) == 0,
    decreases width,
{
    let f = fill_clear_bits(current, needed, width);
    if width == 0 {
        assert(f == 0);
        assert(current & 0 == 0) by (bit_vector);
        assert(current | 0 == current) by (bit_vector);
        assert(0u16 >> 0u16 == 0) by (bit_vector);
    } else {
        let c = current;
        let low: u16 = if c & 1 == 0 && needed > 0 {
            1
        } else {
            0
        };
        let k = (width - 1) as nat;
        let rest_needed = (needed - low) as nat;
        lemma_ones_bounded(c >> 1u16, k);
        assert(c & 1 <= 1) by (bit_vector);
        lemma_fill_clear_bits(c >> 1u16, rest_needed, k);
        let r = fill_clear_bits(c >> 1u16, rest_needed, k);
        assert(f == (r << 1u16) | low);
        let kk = k as u16;
        assert(r >> kk == 0 && kk <= 15 ==> r >> 15u16 == 0) by (bit_vector);
        assert(r >> 15u16 == 0);
        assert(low <= 1 && (c & 1 == 0 || low == 0) && (c >> 1u16) & r == 0 && r >> 15u16 == 0
            ==> c & ((r << 1u16) | low) == 0) by (bit_vector);
        assert(low <= 1 && r >> 15u16 == 0 ==> ((c | ((r << 1u16) | low)) >> 1u16) == ((c >> 1u16)
            | r)) by (bit_vector);
        assert(low <= 1 && (c & 1 == 0 || low == 0) ==> ((c | ((r << 1u16) | low)) & 1) == (c & 1)
            + low) by (bit_vector);
        if width <= 15 {
            let w = width as u16;
            assert(((w - 1) as u16) == kk);
            assert(r >> kk == 0);
            assert(low <= 1 && 1 <= w <= 15 && r >> ((w - 1) as u16) == 0 ==> ((r << 1u16) | low)
                >> w == 0) by (bit_vector);
        }
    }
}

/// A prepared change sets exactly the counter bits needed to reach the target
/// epoch, never clears or reuses a programmed bit, and changes nothing in
/// BLOCK0 outside the SECURE_VERSION field.
pub proof fn lemma_prepared_change_reaches_target(plan: ApprovedPlan, observed: ObservedState)
    ensures
        spec_prepare(plan, observed) matches Ok(change) ==> {
            let current = spec_secure_version_raw(observed.block0@);
            &&& current & change.delta == 0
            &&& ones(current | change.delta, 16) == plan.target_epoch
            &&& spec_secure_version_raw(change.after) == current | change.delta
            &&& change.before == observed.block0@
            &&& forall|i: int| 0 <= i < 6 && i != FIELD_WORD ==> change.after[i] == change.before[i]
            &&& (change.after[FIELD_WORD as int] ^ change.before[FIELD_WORD as int]) & !FIELD_MASK == 0
            &&& change.target_epoch == plan.target_epoch
        },
{
    if let Ok(change) = spec_prepare(plan, observed) {
        let block0 = observed.block0@;
        let current = spec_secure_version_raw(block0);
        let count = ones(current, 16);
        let needed = (plan.target_epoch - count) as nat;
        lemma_ones_bounded(current, 16);
        lemma_fill_clear_bits(current, needed, 16);
        let d = change.delta;
        let w = block0[FIELD_WORD as int];
        assert(((((w | ((d as u32) << 11u32)) & 0x07ff_f800u32) >> 11u32) as u16) == ((((w
            & 0x07ff_f800u32) >> 11u32) as u16) | d)) by (bit_vector);
        assert(((w | ((d as u32) << 11u32)) ^ w) & !0x07ff_f800u32 == 0) by (bit_vector);
    }
}


/// A change is prepared only on a device whose flash encryption is on and
/// whose secure boot is enabled: the FLASH_CRYPT_CNT field (bits 18 to 20 of
/// BLOCK0 word 2) has an odd number of set bits, that is 0b001, 0b010, 0b100
/// or 0b111, and bit 20 of word 3 is set.
pub proof fn lemma_prepare_needs_protection(plan: ApprovedPlan, observed: ObservedState)
    ensures
        spec_prepare(plan, observed) is Ok ==> {
            let count = (observed.block0@[2] >> 18u32) & 7;
            &&& count == 1 || count == 2 || count == 4 || count == 7
            &&& observed.block0@[3] & 0x0010_0000 != 0
        },
{
    if spec_prepare(plan, observed) is Ok {
        let word = observed.block0@[2];
        let count = (word >> 18u32) & 7;
        assert(count < 8) by (bit_vector)
            requires
                count == (word >> 18u32) & 7,
        ;
        assert(0u16 >> 1u16 == 0u16 && 0u16 & 1u16 == 0u16 && 1u16 >> 1u16 == 0u16 && 1u16 & 1u16
            == 1u16 && 2u16 >> 1u16 == 1u16 && 2u16 & 1u16 == 0u16 && 3u16 >> 1u16 == 1u16 && 3u16
            & 1u16 == 1u16 && 5u16 >> 1u16 == 2u16 && 5u16 & 1u16 == 1u16 && 6u16 >> 1u16 == 3u16
            && 6u16 & 1u16 == 0u16) by (bit_vector);
        lemma_ones_of_zero(16);
        lemma_ones_of_zero(15);
        lemma_ones_of_zero(14);
        lemma_ones_of_zero(13);
        reveal_with_fuel(ones, 4);
        assert(ones(0u16, 16) == 0);
        assert(ones(3u16, 16) == 2);
        assert(ones(5u16, 16) == 2);
        assert(ones(6u16, 16) == 2);
    }
}

/// No bit of zero is set.
proof fn lemma_ones_of_zero(width: nat)
    ensures
        ones(0u16, width) == 0,
    decreases width,
{
    if width > 0 {
        assert(0u16 >> 1u16 == 0u16 && 0u16 & 1u16 == 0u16) by (bit_vector);
        lemma_ones_of_zero((width - 1) as nat);
    }
}

} // verus!
