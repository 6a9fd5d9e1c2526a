//! ESP-IDF-compatible A/B metadata rules.
//!
//! Image delivery, signature verification and the flash transport are handled
//! outside this module. These rules decide which `otadata` entry is active,
//! which slot an update may target, and whether the running image may confirm
//! its `PENDING_VERIFY` entry as `VALID`.

use vstd::prelude::*;
use vstd::string::StringSliceAdditionalSpecFns;
use crate::bytes::{le_bytes_u32, le_u32_at};

verus! {

pub const OTA_ENTRY_SIZE: usize = 32;

pub const OTA_SLOT_COUNT: u32 = 2;

pub const OTA_0_OFFSET: u32 = 0x20000;

pub const OTA_1_OFFSET: u32 = 0x200000;

pub const APP_DESCRIPTOR_SIZE: usize = 256;

pub const APP_DESCRIPTOR_MAGIC: u32 = 0xABCD5432;

pub const APP_VERSION_OFFSET: usize = 16;

pub const APP_VERSION_SIZE: usize = 32;

pub const DROM_START: u32 = 0x3f00_0000;

pub const DROM_APP_END: u32 = 0x3f39_0000;

pub const MMU_FLASH: u32 = 0x8000;

pub const MMU_PAGE_MASK: u32 = 0x3fff;

pub const OTA_STATE_PENDING_VERIFY: u32 = 1;

pub const OTA_STATE_VALID: u32 = 2;

pub const OTA_STATE_INVALID: u32 = 3;

pub const OTA_STATE_ABORTED: u32 = 4;

/// The fields of an `otadata` entry that the rules read.
#[derive(Clone, Copy, Debug, PartialEq, Eq, Structural)]
pub struct OtaEntry {
    pub sequence: u32,
    pub state: u32,
    pub crc: u32,
}

/// Why confirming or activating an image failed.
#[derive(Clone, Copy, Debug, PartialEq, Eq, Structural)]
pub enum ConfirmError {
    FlashRead,
    FlashUnlock,
    FlashErase,
    FlashWrite,
    ReadbackMismatch,
    InvalidLayout,
}

/// The qualified layout of both slots.
#[derive(Clone, Copy, Debug, PartialEq, Eq)]
pub struct QualifiedLayout {
    pub running_slot: u8,
    /// Valid metadata sequence for each physical application slot.
    pub sequences: [u32; 2],
}

/// One bit step of the reflected CRC-32 (polynomial 0xEDB88320).
pub open spec fn crc_shift(crc: u32) -> u32 {
    if crc & 1 == 1 {
        (crc >> 1) ^ 0xedb8_8320
    } else {
        crc >> 1
    }
}

/// `n` bit steps of the CRC.
pub open spec fn crc_shifts(crc: u32, n: nat) -> u32
    decreases n,
{
    if n == 0 {
        crc
    } else {
        crc_shift(crc_shifts(crc, (n - 1) as nat))
    }
}

/// The CRC after feeding one byte.
pub open spec fn crc_byte(crc: u32, byte: u8) -> u32 {
    crc_shifts(crc ^ (byte as u32), 8)
}

/// The ESP-IDF `otadata` CRC: CRC-32 with zero seed and final inversion over
/// the little-endian sequence number.
pub open spec fn spec_ota_crc(sequence: u32) -> u32 {
    let b = le_bytes_u32(sequence);
    !crc_byte(crc_byte(crc_byte(crc_byte(0, b[0]), b[1]), b[2]), b[3])
}

/// An entry the bootloader may select: a real sequence, a state that is
/// neither invalid nor aborted, and a matching CRC.
pub open spec fn selectable(entry: OtaEntry) -> bool {
    &&& entry.sequence != u32::MAX
    &&& entry.state != OTA_STATE_INVALID
    &&& entry.state != OTA_STATE_ABORTED
    &&& entry.crc == spec_ota_crc(entry.sequence)
}

/// The ESP-IDF selection rule: the selectable entry with the larger sequence,
/// the first one on a tie.
pub open spec fn spec_active_entry(entries: [OtaEntry; 2]) -> Option<usize> {
    match (selectable(entries[0]), selectable(entries[1])) {
        (true, true) => if entries[0].sequence >= entries[1].sequence {
            Some(0)
        } else {
            Some(1)
        },
        (true, false) => Some(0),
        (false, true) => Some(1),
        (false, false) => None,
    }
}

/// The application slot that a sequence number selects.
pub open spec fn spec_slot_offset(sequence: u32) -> Option<u32> {
    if sequence == 0 {
        None
    } else if (sequence - 1) % 2 == 0 {
        Some(OTA_0_OFFSET)
    } else {
        Some(OTA_1_OFFSET)
    }
}

/// Slot index of a nonzero sequence number.
pub open spec fn slot_of(sequence: u32) -> u8 {
    ((sequence - 1) % 2) as u8
}

/// The running slot, its sequence and the entry to rewrite for an update;
/// only when the active entry is VALID and describes the executing image.
pub open spec fn spec_update_layout(entries: [OtaEntry; 2], running_offset: u32) -> Option<
    (u8, u32, u8),
> {
    match spec_active_entry(entries) {
        None => None,
        Some(active) => {
            let sequence = entries[active as int].sequence;
            if entries[active as int].state != OTA_STATE_VALID {
                None
            } else if spec_slot_offset(sequence) != Some(running_offset) {
                None
            } else {
                Some((slot_of(sequence), sequence, (1 - active) as u8))
            }
        },
    }
}

/// Both entries VALID and selectable, in different slots, with the active one
/// describing the executing image.
pub open spec fn spec_qualified_layout(entries: [OtaEntry; 2], running_offset: u32) -> Option<
    QualifiedLayout,
> {
    match spec_active_entry(entries) {
        None => None,
        Some(active) => {
            let e0 = entries[0];
            let e1 = entries[1];
            if !selectable(e0) || e0.state != OTA_STATE_VALID || !selectable(e1) || e1.state
                != OTA_STATE_VALID {
                None
            } else if e0.sequence == 0 || e1.sequence == 0 || slot_of(e0.sequence) == slot_of(
                e1.sequence,
            ) {
                None
            } else if spec_slot_offset(entries[active as int].sequence) != Some(running_offset) {
                None
            } else {
                let sequences = if slot_of(e0.sequence) == 0 {
                    [e0.sequence, e1.sequence]
                } else {
                    [e1.sequence, e0.sequence]
                };
                Some(
                    QualifiedLayout {
                        running_slot: slot_of(entries[active as int].sequence),
                        sequences,
                    },
                )
            }
        },
    }
}

/// The descriptor carries the application magic and exactly `version`,
/// terminated by a zero byte inside the version field.
pub open spec fn spec_descriptor_matches(descriptor: Seq<u8>, version: Seq<u8>) -> bool {
    &&& le_u32_at(descriptor, 0) == APP_DESCRIPTOR_MAGIC
    &&& 0 < version.len() < APP_VERSION_SIZE
    &&& descriptor.subrange(
        APP_VERSION_OFFSET as int,
        APP_VERSION_OFFSET + version.len(),
    ) == version
    &&& descriptor[APP_VERSION_OFFSET + version.len()] == 0u8
}

/// The flash offset behind the DROM mapping of the running descriptor: the
/// descriptor must lie in application DROM at offset 32 of a 64 KiB page, and
/// the MMU entry must map flash (no other flag) to one of the two slots.
pub open spec fn spec_running_offset(descriptor_address: u32, mmu_entry: u32) -> Option<u32> {
    if !(DROM_START <= descriptor_address < DROM_APP_END) || descriptor_address & 0xffff != 32
        || mmu_entry & !MMU_PAGE_MASK != MMU_FLASH {
        None
    } else {
        let offset = (mmu_entry & MMU_PAGE_MASK) << 16u32;
        if offset == OTA_0_OFFSET || offset == OTA_1_OFFSET {
            Some(offset)
        } else {
            None
        }
    }
}

/// The first-boot confirmation rule.
pub open spec fn spec_confirmation_matches(
    entry: OtaEntry,
    running_offset: u32,
    descriptor: Seq<u8>,
    version: Seq<u8>,
    secure_version: u32,
) -> bool {
    &&& entry.state == OTA_STATE_PENDING_VERIFY
    &&& spec_slot_offset(entry.sequence) == Some(running_offset)
    &&& spec_descriptor_matches(descriptor, version)
    &&& le_u32_at(descriptor, 4) == secure_version
}

/// An activation request that names the inactive slot with a newer sequence
/// and the entry that is not active.
pub open spec fn spec_activation_is_valid(
    active_slot: u8,
    active_sequence: u32,
    expected_entry: u8,
    target_slot: u8,
    sequence: u32,
    activation_entry: u8,
) -> bool {
    &&& target_slot <= 1
    &&& activation_entry <= 1
    &&& target_slot != active_slot
    &&& activation_entry == expected_entry
    &&& sequence >= 1
    &&& slot_of(sequence) == target_slot
    &&& sequence > active_sequence
}

fn le_u32(bytes: &[u8], at: usize) -> (r: u32)
    requires
        at + 4 <= bytes@.len(),
    ensures
        r == le_u32_at(bytes@, at as int),
{
    bytes[at] as u32 + (bytes[at + 1] as u32) * 0x100 + (bytes[at + 2] as u32) * 0x1_0000 + (
    bytes[at + 3] as u32) * 0x100_0000
}

/// The ESP-IDF `otadata` CRC of a sequence number.
pub fn ota_crc(sequence: u32) -> (r: u32)
    ensures
        r == spec_ota_crc(sequence),
{
    let bytes = [
        (sequence % 0x100) as u8,
        ((sequence / 0x100) % 0x100) as u8,
        ((sequence / 0x1_0000) % 0x100) as u8,
        (sequence / 0x100_0000) as u8,
    ];
    assert(bytes@ =~= le_bytes_u32(sequence));
    let mut crc: u32 = 0;
    let mut i: usize = 0;
    while i < 4
        invariant
            i <= 4,
            bytes@ == le_bytes_u32(sequence),
            crc == (if i == 0 {
                0
            } else if i == 1 {
                crc_byte(0, bytes@[0])
            } else if i == 2 {
                crc_byte(crc_byte(0, bytes@[0]), bytes@[1])
            } else if i == 3 {
                crc_byte(crc_byte(crc_byte(0, bytes@[0]), bytes@[1]), bytes@[2])
            } else {
                crc_byte(crc_byte(crc_byte(crc_byte(0, bytes@[0]), bytes@[1]), bytes@[2]), bytes@[3])
            }),
        decreases 4 - i,
    {
        let ghost before = crc;
        crc = crc ^ (bytes[i] as u32);
        let ghost start = crc;
        let mut j: usize = 0;
        while j < 8
            invariant
                j <= 8,
                crc == crc_shifts(start, j as nat),
            decreases 8 - j,
        {
            crc = if crc & 1 == 1 {
                (crc >> 1) ^ 0xedb8_8320
            } else {
                crc >> 1
            };
            j = j + 1;
        }
        assert(crc == crc_byte(before, bytes@[i as int]));
        i = i + 1;
    }
    !crc
}

impl OtaEntry {
    /// Reads an entry's sequence, state and CRC fields.
    pub fn decode(bytes: &[u8; OTA_ENTRY_SIZE]) -> (r: Self)
        ensures
            r == (OtaEntry {
                sequence: le_u32_at(bytes@, 0),
                state: le_u32_at(bytes@, 24),
                crc: le_u32_at(bytes@, 28),
            }),
    {
        let b = bytes.as_slice();
        Self { sequence: le_u32(b, 0), state: le_u32(b, 24), crc: le_u32(b, 28) }
    }

    pub fn is_selectable(self) -> (r: bool)
        ensures
            r == selectable(self),
    {
        self.sequence != u32::MAX && self.state != OTA_STATE_INVALID && self.state
            != OTA_STATE_ABORTED && self.crc == ota_crc(self.sequence)
    }

    /// The entry's sequence with `state` and the matching CRC; every other
    /// byte is erased flash (0xff).
    pub fn encode_with_state(self, state: u32) -> (r: [u8; OTA_ENTRY_SIZE])
        ensures
            r@ == Seq::new(
                32,
                |i: int|
                    if i < 4 {
                        le_bytes_u32(self.sequence)[i]
                    } else if 24 <= i < 28 {
                        le_bytes_u32(state)[i - 24]
                    } else if 28 <= i {
                        le_bytes_u32(spec_ota_crc(self.sequence))[i - 28]
                    } else {
                        0xffu8
                    },
            ),
    {
        let mut bytes = [0xffu8; 32];
        let crc = ota_crc(self.sequence);
        let words = [self.sequence, state, crc];
        let starts = [0usize, 24, 28];
        let mut k: usize = 0;
        while k < 3
            invariant
                k <= 3,
                words@ == seq![self.sequence, state, crc],
                starts@ == seq![0usize, 24, 28],
                crc == spec_ota_crc(self.sequence),
                forall|i: int|
                    0 <= i < 32 ==> #[trigger] bytes@[i] == (if i < 4 && k > 0 {
                        le_bytes_u32(self.sequence)[i]
                    } else if 24 <= i < 28 && k > 1 {
                        le_bytes_u32(state)[i - 24]
                    } else if 28 <= i && k > 2 {
                        le_bytes_u32(crc)[i - 28]
                    } else {
                        0xffu8
                    }),
            decreases 3 - k,
        {
            let v = words[k];
            let at = starts[k];
            bytes[at] = (v % 0x100) as u8;
            bytes[at + 1] = ((v / 0x100) % 0x100) as u8;
            bytes[at + 2] = ((v / 0x1_0000) % 0x100) as u8;
            bytes[at + 3] = (v / 0x100_0000) as u8;
            k = k + 1;
        }
        assert(bytes@ =~= Seq::new(
            32,
            |i: int|
                if i < 4 {
                    le_bytes_u32(self.sequence)[i]
                } else if 24 <= i < 28 {
                    le_bytes_u32(state)[i - 24]
                } else if 28 <= i {
                    le_bytes_u32(spec_ota_crc(self.sequence))[i - 28]
                } else {
                    0xffu8
                },
        ));
        bytes
    }
}

/// The entry the bootloader selects, if any.
pub fn active_entry(entries: [OtaEntry; 2]) -> (r: Option<usize>)
    ensures
        r == spec_active_entry(entries),
{
    match (entries[0].is_selectable(), entries[1].is_selectable()) {
        (true, true) => if entries[0].sequence >= entries[1].sequence {
            Some(0)
        } else {
            Some(1)
        },
        (true, false) => Some(0),
        (false, true) => Some(1),
        (false, false) => None,
    }
}

/// The application slot that a sequence number selects.
pub fn slot_offset(sequence: u32) -> (r: Option<u32>)
    ensures
        r == spec_slot_offset(sequence),
{
    let value = match sequence.checked_sub(1) {
        Some(value) => value,
        None => return None,
    };
    if value % OTA_SLOT_COUNT == 0 {
        Some(OTA_0_OFFSET)
    } else {
        Some(OTA_1_OFFSET)
    }
}

/// The flash offset of an update slot index.
pub fn update_slot_offset(slot: u8) -> (r: Option<u32>)
    ensures
        r == (if slot == 0 {
            Some(OTA_0_OFFSET)
        } else if slot == 1 {
            Some(OTA_1_OFFSET)
        } else {
            None
        }),
{
    match slot {
        0 => Some(OTA_0_OFFSET),
        1 => Some(OTA_1_OFFSET),
        _ => None,
    }
}

/// Hardware anti-rollback can skip a higher-sequence, correctly signed old
/// image without invalidating its metadata. Never let that record label the
/// executing fallback as the inactive slot to erase.
pub fn update_layout_from_entries(entries: [OtaEntry; 2], running_offset: u32) -> (r: Option<
    (u8, u32, u8),
>)
    ensures
        r == spec_update_layout(entries, running_offset),
{
    let active = match active_entry(entries) {
        Some(active) => active,
        None => return None,
    };
    if entries[active].state != OTA_STATE_VALID {
        return None;
    }
    let sequence = entries[active].sequence;
    match slot_offset(sequence) {
        Some(offset) => if offset != running_offset {
            return None;
        },
        None => return None,
    }
    let slot = ((sequence - 1) % OTA_SLOT_COUNT) as u8;
    Some((slot, sequence, (1 - active) as u8))
}

/// Both records must qualify different slots, and the selected record must
/// describe the executing image. Merely having two selectable records is
/// insufficient before raising a hardware security floor.
pub fn qualified_layout_from_entries(entries: [OtaEntry; 2], running_offset: u32) -> (r: Option<
    QualifiedLayout,
>)
    ensures
        r == spec_qualified_layout(entries, running_offset),
{
    let active = match active_entry(entries) {
        Some(active) => active,
        None => return None,
    };
    let mut sequences: [u32; 2] = [0, 0];
    let mut k: usize = 0;
    while k < 2
        invariant
            k <= 2,
            spec_active_entry(entries) == Some(active),
            forall|j: int| 0 <= j < k ==> selectable(#[trigger] entries[j]) && entries[j].state == OTA_STATE_VALID && entries[j].sequence != 0,
            k == 0 ==> sequences@ == seq![0u32, 0],
            k == 1 ==> sequences@ == (if slot_of(entries[0].sequence) == 0 {
                seq![entries[0].sequence, 0]
            } else {
                seq![0, entries[0].sequence]
            }),
            k == 2 ==> slot_of(entries[0].sequence) != slot_of(entries[1].sequence) && sequences@
                == (if slot_of(entries[0].sequence) == 0 {
                seq![entries[0].sequence, entries[1].sequence]
            } else {
                seq![entries[1].sequence, entries[0].sequence]
            }),
        decreases 2 - k,
    {
        let entry = entries[k];
        if !entry.is_selectable() || entry.state != OTA_STATE_VALID {
            return None;
        }
        let slot: usize = match slot_offset(entry.sequence) {
            Some(OTA_0_OFFSET) => 0,
            Some(OTA_1_OFFSET) => 1,
            _ => return None,
        };
        if sequences[slot] != 0 {
            return None;
        }
        sequences[slot] = entry.sequence;
        k = k + 1;
    }
    let sequence = entries[active].sequence;
    match slot_offset(sequence) {
        Some(offset) => if offset != running_offset {
            return None;
        },
        None => return None,
    }
    let layout = QualifiedLayout {
        running_slot: ((sequence - 1) % OTA_SLOT_COUNT) as u8,
        sequences,
    };
    assert(layout.sequences =~= spec_qualified_layout(entries, running_offset)->0.sequences);
    Some(layout)
}

/// Whether an activation request names the inactive slot, a newer sequence
/// for it, and the entry that is not active.
pub fn activation_is_valid(
    active_slot: u8,
    active_sequence: u32,
    expected_entry: u8,
    target_slot: u8,
    sequence: u32,
    activation_entry: u8,
) -> (r: bool)
    ensures
        r == spec_activation_is_valid(
            active_slot,
            active_sequence,
            expected_entry,
            target_slot,
            sequence,
            activation_entry,
        ),
{
    target_slot <= 1 && activation_entry <= 1 && target_slot != active_slot && activation_entry
        == expected_entry && match sequence.checked_sub(1) {
        Some(value) => (value % OTA_SLOT_COUNT) as u8 == target_slot,
        None => false,
    } && sequence > active_sequence
}

/// Whether the application descriptor names exactly `version`.
pub fn descriptor_matches_version(descriptor: &[u8; APP_DESCRIPTOR_SIZE], version: &str) -> (r:
    bool)
    ensures
        r == spec_descriptor_matches(descriptor@, version.spec_bytes()),
{
    let d = descriptor.as_slice();
    if le_u32(d, 0) != APP_DESCRIPTOR_MAGIC {
        return false;
    }
    let expected = version.as_bytes();
    let len = expected.len();
    if len == 0 || len >= APP_VERSION_SIZE {
        return false;
    }
    let mut i: usize = 0;
    while i < len
        invariant
            i <= len,
            len == expected@.len(),
            expected@ == version.spec_bytes(),
            len < APP_VERSION_SIZE,
            d@ == descriptor@,
            d@.len() == APP_DESCRIPTOR_SIZE,
            forall|j: int| 0 <= j < i ==> d@[APP_VERSION_OFFSET + j] == expected@[j],
        decreases len - i,
    {
        if d[APP_VERSION_OFFSET + i] != expected[i] {
            assert(d@.subrange(APP_VERSION_OFFSET as int, APP_VERSION_OFFSET + len)[i as int]
                != expected@[i as int]);
            return false;
        }
        i = i + 1;
    }
    assert(d@.subrange(APP_VERSION_OFFSET as int, APP_VERSION_OFFSET + len) =~= expected@);
    d[APP_VERSION_OFFSET + len] == 0
}

/// The flash offset of the running image, read from the DROM MMU entry of its
/// descriptor. Pinned ESP32-S2 MMU: 64 KiB pages, flash flag at bit 15, invalid
/// at bit 14 and PSRAM at bit 16; every non-flash or unknown flag is refused.
pub fn running_offset_from_mapping(descriptor_address: u32, mmu_entry: u32) -> (r: Option<u32>)
    ensures
        r == spec_running_offset(descriptor_address, mmu_entry),
{
    if !(DROM_START <= descriptor_address && descriptor_address < DROM_APP_END)
        || descriptor_address & 0xffff != 32 || mmu_entry & !MMU_PAGE_MASK != MMU_FLASH {
        return None;
    }
    let offset = (mmu_entry & MMU_PAGE_MASK) << 16u32;
    if offset == OTA_0_OFFSET || offset == OTA_1_OFFSET {
        Some(offset)
    } else {
        None
    }
}

/// Whether the active entry may be confirmed by the image that is running.
pub fn confirmation_matches_running_image(
    entry: OtaEntry,
    running_offset: u32,
    descriptor: &[u8; APP_DESCRIPTOR_SIZE],
    version: &str,
    secure_version: u32,
) -> (r: bool)
    ensures
        r == spec_confirmation_matches(
            entry,
            running_offset,
            descriptor@,
            version.spec_bytes(),
            secure_version,
        ),
{
    entry.state == OTA_STATE_PENDING_VERIFY && match slot_offset(entry.sequence) {
        Some(offset) => offset == running_offset,
        None => false,
    } && descriptor_matches_version(descriptor, version) && le_u32(descriptor.as_slice(), 4)
        == secure_version
}

/// The selected entry is selectable and has the largest sequence among the
/// selectable entries; nothing is selected only when neither is selectable.
pub proof fn lemma_active_entry_is_newest_selectable(entries: [OtaEntry; 2])
    ensures
        spec_active_entry(entries) matches Some(i) ==> {
            &&& i < 2
            &&& selectable(entries[i as int])
            &&& forall|j: int|
                0 <= j < 2 && selectable(#[trigger] entries[j]) ==> entries[j].sequence
                    <= entries[i as int].sequence
        },
        spec_active_entry(entries) is None <==> !selectable(entries[0]) && !selectable(entries[1]),
{
}

/// An update always targets the other slot through the other entry: the
/// active entry is VALID and describes the executing slot, and the entry to
/// rewrite is the inactive one.
pub proof fn lemma_update_never_targets_running_slot(entries: [OtaEntry; 2], running_offset: u32)
    ensures
        spec_update_layout(entries, running_offset) matches Some((slot, sequence, entry)) ==> {
            &&& entry <= 1
            &&& spec_active_entry(entries) == Some((1 - entry) as usize)
            &&& entries[1 - entry].state == OTA_STATE_VALID
            &&& entries[1 - entry].sequence == sequence
            &&& spec_slot_offset(sequence) == Some(running_offset)
            &&& slot == slot_of(sequence)
            &&& slot <= 1
        },
{
}

/// An activation request is accepted only for the inactive slot, with a
/// sequence newer than the active one that selects that slot.
pub proof fn lemma_activation_targets_inactive_slot(
    active_slot: u8,
    active_sequence: u32,
    expected_entry: u8,
    target_slot: u8,
    sequence: u32,
    activation_entry: u8,
)
    ensures
        spec_activation_is_valid(
            active_slot,
            active_sequence,
            expected_entry,
            target_slot,
            sequence,
            activation_entry,
        ) ==> {
            &&& target_slot != active_slot
            &&& sequence > active_sequence
            &&& spec_slot_offset(sequence) == (if target_slot == 0 {
                Some(OTA_0_OFFSET)
            } else {
                Some(OTA_1_OFFSET)
            })
            &&& activation_entry == expected_entry
        },
{
}

/// Only a PENDING_VERIFY entry that selects the executing slot can be
/// confirmed, so a fallback image never confirms a rejected candidate.
pub proof fn lemma_confirmation_needs_running_pending_entry(
    entry: OtaEntry,
    running_offset: u32,
    descriptor: Seq<u8>,
    version: Seq<u8>,
    secure_version: u32,
)
    ensures
        spec_confirmation_matches(entry, running_offset, descriptor, version, secure_version)
            ==> entry.state == OTA_STATE_PENDING_VERIFY && spec_slot_offset(entry.sequence) == Some(
            running_offset,
        ) && le_u32_at(descriptor, 4) == secure_version,
{
}

/// Little-endian bytes read back as the value they encode.
pub proof fn lemma_le_round_trip(v: u32)
    ensures
        le_u32_at(le_bytes_u32(v), 0) == v,
{
}

/// Rewriting an entry's state keeps its sequence and gives it a correct CRC,
/// so the rewritten entry is selectable unless the new state excludes it.
pub proof fn lemma_rewritten_entry_round_trip(entry: OtaEntry, state: u32, bytes: Seq<u8>)
    requires
        bytes == Seq::new(
            32,
            |i: int|
                if i < 4 {
                    le_bytes_u32(entry.sequence)[i]
                } else if 24 <= i < 28 {
                    le_bytes_u32(state)[i - 24]
                } else if 28 <= i {
                    le_bytes_u32(spec_ota_crc(entry.sequence))[i - 28]
                } else {
                    0xffu8
                },
        ),
    ensures
        le_u32_at(bytes, 0) == entry.sequence,
        le_u32_at(bytes, 24) == state,
        le_u32_at(bytes, 28) == spec_ota_crc(entry.sequence),
        selectable(
            OtaEntry { sequence: entry.sequence, state, crc: le_u32_at(bytes, 28) },
        ) <==> entry.sequence != u32::MAX && state != OTA_STATE_INVALID && state
            != OTA_STATE_ABORTED,
{
    lemma_le_round_trip(entry.sequence);
    lemma_le_round_trip(state);
    lemma_le_round_trip(spec_ota_crc(entry.sequence));
    assert(bytes.subrange(0, 4) =~= le_bytes_u32(entry.sequence));
    assert(bytes.subrange(24, 28) =~= le_bytes_u32(state));
    assert(bytes.subrange(28, 32) =~= le_bytes_u32(spec_ota_crc(entry.sequence)));
    assert(le_u32_at(bytes, 0) == le_u32_at(bytes.subrange(0, 4), 0));
    assert(le_u32_at(bytes, 24) == le_u32_at(bytes.subrange(24, 28), 0));
    assert(le_u32_at(bytes, 28) == le_u32_at(bytes.subrange(28, 32), 0));
}


/// The running image is confirmed only when its application descriptor
/// starts with the ESP-IDF descriptor magic 0xABCD5432 (little-endian), names
/// exactly the expected version and carries the expected secure version.
pub proof fn lemma_confirmation_needs_descriptor_magic(
    entry: OtaEntry,
    running_offset: u32,
    descriptor: Seq<u8>,
    version: Seq<u8>,
    secure_version: u32,
)
    ensures
        spec_descriptor_matches(descriptor, version) ==> le_u32_at(descriptor, 0) == 0xABCD_5432u32,
        spec_confirmation_matches(entry, running_offset, descriptor, version, secure_version)
            ==> le_u32_at(descriptor, 0) == 0xABCD_5432u32 && le_u32_at(descriptor, 4)
            == secure_version,
{
}


/// A descriptor matches a version exactly when it starts with the ESP-IDF
/// application descriptor magic 0xABCD5432 (little-endian) and its version
/// field, from byte 16, holds the 1 to 31 bytes of the version followed by a
/// zero byte.
pub proof fn lemma_descriptor_match_fields(descriptor: Seq<u8>, version: Seq<u8>)
    requires
        descriptor.len() == APP_DESCRIPTOR_SIZE,
    ensures
        spec_descriptor_matches(descriptor, version) <==> {
            &&& le_u32_at(descriptor, 0) == 0xABCD_5432u32
            &&& 1 <= version.len() <= 31
            &&& forall|i: int| 0 <= i < version.len() ==> #[trigger] descriptor[16 + i] == version[i]
            &&& descriptor[16 + version.len() as int] == 0
        },
{
    if 1 <= version.len() <= 31 && forall|i: int|
        0 <= i < version.len() ==> #[trigger] descriptor[16 + i] == version[i] {
        assert forall|i: int| 0 <= i < version.len() implies descriptor.subrange(
            16,
            16 + version.len() as int,
        )[i] == version[i] by {
            assert(descriptor[16 + i] == version[i]);
        }
        assert(descriptor.subrange(16, 16 + version.len() as int) =~= version);
    }
    if spec_descriptor_matches(descriptor, version) {
        assert forall|i: int| 0 <= i < version.len() implies #[trigger] descriptor[16 + i]
            == version[i] by {
            assert(descriptor.subrange(16, 16 + version.len() as int)[i] == version[i]);
        }
    }
}

} // verus!
