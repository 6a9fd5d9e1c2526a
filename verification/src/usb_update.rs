//! Signed A/B update protocol carried by the CTAPHID vendor command `0x51`.
//!
//! The protocol borrows Solo2's public command assignment and host-facing
//! version, hash, progress, and fresh-user-presence model. Flash operations are
//! deliberately platform-specific and are implemented separately for ESP32-S2.

use vstd::prelude::*;
use crate::bytes::{clear, copy_into, le_bytes_u32, le_u32_at, read_le_u32, splice, u32_to_le_bytes};
use crate::platform::ota::crc_byte;
use crate::sha256::{absorbed, sha256, sha256_finish, sha256_start, sha256_update, Sha256State};
use vstd::slice::slice_subrange;
use vstd::string::StringSliceAdditionalSpecFns;

verus! {

pub const VENDOR_COMMAND: u8 = 0x51;

pub const PROTOCOL_VERSION: u8 = 1;

pub const MAX_WRITE_CHUNK: usize = 992;

pub const ERASE_STEP_SIZE: u32 = 0x1_0000;

pub const VERIFY_STEP_SIZE: u32 = 0x1_0000;

pub const OTA_SLOT_SIZE: u32 = 0x1e_0000;

pub const SIGNATURE_SECTOR_SIZE: u32 = 0x1000;

pub const SIGNATURE_BLOCK_SIZE: usize = 1216;

pub const SIGNATURE_CRC_LENGTH: usize = 1196;

pub const RSA_PUBLIC_KEY_SIZE: usize = 776;

pub const RSA_SIGNATURE_SIZE: usize = 384;

pub const MAX_VERSION_LENGTH: usize = 31;

/// No successful erase, write or verification progress for two minutes.
pub const SESSION_IDLE_TIMEOUT_MS: u64 = 120_000;

/// A single physical approval never authorizes more than fifteen minutes.
pub const SESSION_MAX_LIFETIME_MS: u64 = 900_000;

pub const ESP_IMAGE_MAGIC: u8 = 0xe9;

pub const ESP32S2_CHIP_ID: u16 = 2;

pub const ESP_APP_DESCRIPTOR_MAGIC: u32 = 0xabcd_5432;

pub const SECURE_BOOT_V2_SIGNATURE_MAGIC: u8 = 0xe7;

pub const SECURE_BOOT_V2_RSA_VERSION: u8 = 2;

pub const APP_DESCRIPTOR_OFFSET: u32 = 32;

pub const APP_DESCRIPTOR_PREFIX_SIZE: usize = 80;

pub const APP_SECURE_VERSION_OFFSET: usize = 4;

pub const APP_VERSION_OFFSET: usize = 16;

/// The operations of the update protocol; the first request byte selects one.
#[derive(Clone, Copy, Debug, PartialEq, Eq, Structural)]
pub enum Operation {
    Info,
    Begin,
    Write,
    Advance,
    Status,
    Abort,
}

impl Operation {
    pub open spec fn spec_number(self) -> u8 {
        match self {
            Operation::Info => 0,
            Operation::Begin => 1,
            Operation::Write => 2,
            Operation::Advance => 3,
            Operation::Status => 4,
            Operation::Abort => 5,
        }
    }

    /// The byte that selects the operation.
    pub fn number(self) -> (r: u8)
        ensures
            r == self.spec_number(),
    {
        match self {
            Operation::Info => 0,
            Operation::Begin => 1,
            Operation::Write => 2,
            Operation::Advance => 3,
            Operation::Status => 4,
            Operation::Abort => 5,
        }
    }

    /// The operation a request byte selects, if any.
    pub fn parse(value: u8) -> (r: Option<Self>)
        ensures
            r matches Some(op) ==> op.spec_number() == value,
            r is None <==> value > 5,
    {
        match value {
            0 => Some(Operation::Info),
            1 => Some(Operation::Begin),
            2 => Some(Operation::Write),
            3 => Some(Operation::Advance),
            4 => Some(Operation::Status),
            5 => Some(Operation::Abort),
            _ => None,
        }
    }
}

/// The status byte that opens every response.
#[derive(Clone, Copy, Debug, PartialEq, Eq, Structural)]
pub enum StatusCode {
    Success,
    UserPresenceRequired,
    InvalidRequest,
    InvalidState,
    SessionMismatch,
    OutOfOrder,
    ImageSize,
    Flash,
    HashMismatch,
    Signature,
    Rollback,
    VersionMismatch,
    ActiveSlotChanged,
    SessionExpired,
}

impl StatusCode {
    pub open spec fn spec_number(self) -> u8 {
        match self {
            StatusCode::Success => 0,
            StatusCode::UserPresenceRequired => 1,
            StatusCode::InvalidRequest => 2,
            StatusCode::InvalidState => 3,
            StatusCode::SessionMismatch => 4,
            StatusCode::OutOfOrder => 5,
            StatusCode::ImageSize => 6,
            StatusCode::Flash => 7,
            StatusCode::HashMismatch => 8,
            StatusCode::Signature => 9,
            StatusCode::Rollback => 10,
            StatusCode::VersionMismatch => 11,
            StatusCode::ActiveSlotChanged => 12,
            StatusCode::SessionExpired => 13,
        }
    }

    /// The byte sent for the status.
    pub fn number(self) -> (r: u8)
        ensures
            r == self.spec_number(),
    {
        match self {
            StatusCode::Success => 0,
            StatusCode::UserPresenceRequired => 1,
            StatusCode::InvalidRequest => 2,
            StatusCode::InvalidState => 3,
            StatusCode::SessionMismatch => 4,
            StatusCode::OutOfOrder => 5,
            StatusCode::ImageSize => 6,
            StatusCode::Flash => 7,
            StatusCode::HashMismatch => 8,
            StatusCode::Signature => 9,
            StatusCode::Rollback => 10,
            StatusCode::VersionMismatch => 11,
            StatusCode::ActiveSlotChanged => 12,
            StatusCode::SessionExpired => 13,
        }
    }
}

/// Where an update session stands.
#[derive(Clone, Copy, Debug, PartialEq, Eq, Structural)]
pub enum Phase {
    Idle,
    Erasing,
    Receiving,
    Verifying,
    Activated,
    Failed,
}

impl Phase {
    pub open spec fn spec_number(self) -> u8 {
        match self {
            Phase::Idle => 0,
            Phase::Erasing => 1,
            Phase::Receiving => 2,
            Phase::Verifying => 3,
            Phase::Activated => 4,
            Phase::Failed => 5,
        }
    }

    /// The byte sent for the phase.
    pub fn number(self) -> (r: u8)
        ensures
            r == self.spec_number(),
    {
        match self {
            Phase::Idle => 0,
            Phase::Erasing => 1,
            Phase::Receiving => 2,
            Phase::Verifying => 3,
            Phase::Activated => 4,
            Phase::Failed => 5,
        }
    }
}

/// The active slot as the platform reports it.
#[derive(Clone, Copy, Debug, PartialEq, Eq, Structural)]
pub struct UpdateLayout {
    pub active_slot: u8,
    pub active_sequence: u32,
    pub activation_entry: u8,
}

#[derive(Clone, Copy, Debug, PartialEq, Eq, Structural)]
pub enum InstalledImageError {
    Slot,
    Read,
    Header,
    Extent,
    Signature,
}

#[derive(Clone, Copy, Debug, PartialEq, Eq)]
pub struct VerifiedInstalledImage {
    pub secure_version: u32,
    pub signed_image_bytes: u32,
    pub signed_content_digest: [u8; 32],
}

/// The reflected CRC-32 register after feeding `data` into `crc`.
pub open spec fn crc_fold(crc: u32, data: Seq<u8>) -> u32
    decreases data.len(),
{
    if data.len() == 0 {
        crc
    } else {
        crc_byte(crc_fold(crc, data.drop_last()), data.last())
    }
}

/// The ESP ROM `esp_crc32_le`: the seed is inverted on entry and the register
/// on exit, so a zero seed gives the standard CRC-32.
pub open spec fn spec_esp_crc32_le(seed: u32, data: Seq<u8>) -> u32 {
    !crc_fold(!seed, data)
}

pub fn esp_crc32_le(seed: u32, data: &[u8]) -> (r: u32)
    ensures
        r == spec_esp_crc32_le(seed, data@),
{
    let mut crc: u32 = !seed;
    let n = data.len();
    let mut i: usize = 0;
    while i < n
        invariant
            i <= n,
            n == data@.len(),
            crc == crc_fold(!seed, data@.subrange(0, i as int)),
        decreases n - i,
    {
        let ghost before = crc;
        crc = crc ^ (data[i] as u32);
        let ghost start = crc;
        let mut j: usize = 0;
        while j < 8
            invariant
                j <= 8,
                crc == crate::platform::ota::crc_shifts(start, j as nat),
            decreases 8 - j,
        {
            crc = if crc & 1 == 1 {
                (crc >> 1) ^ 0xedb8_8320
            } else {
                crc >> 1
            };
            j = j + 1;
        }
        assert(data@.subrange(0, i + 1).drop_last() =~= data@.subrange(0, i as int));
        assert(crc == crc_byte(before, data@[i as int]));
        i = i + 1;
    }
    assert(data@.subrange(0, n as int) =~= data@);
    !crc
}

/// The metadata sequence that selects `target_slot` next: the smallest larger
/// sequence whose parity picks that slot (sequence 1 selects slot 0).
pub open spec fn spec_next_sequence(current: u32, target_slot: u8) -> Option<u32> {
    if current == 0 || target_slot > 1 {
        None
    } else {
        let increment: int = if current % 2 == (target_slot + 1) % 2 {
            2
        } else {
            1
        };
        if current + increment > u32::MAX {
            None
        } else {
            Some((current + increment) as u32)
        }
    }
}

pub fn next_sequence(current: u32, target_slot: u8) -> (r: Option<u32>)
    ensures
        r == spec_next_sequence(current, target_slot),
{
    if current == 0 || target_slot > 1 {
        return None;
    }
    let parity = target_slot as u32 + 1;
    let increment: u32 = if current % 2 == parity % 2 {
        2
    } else {
        1
    };
    current.checked_add(increment)
}

/// The index of the first zero byte of `s`, if any.
pub open spec fn first_zero(s: Seq<u8>) -> Option<int> {
    if exists|i: int| 0 <= i < s.len() && s[i] == 0 {
        Some(choose|i: int| 0 <= i < s.len() && s[i] == 0 && forall|j: int| 0 <= j < i ==> s[j] != 0)
    } else {
        None
    }
}

/// The application metadata an image prefix declares: an ESP32-S2 image with
/// one to sixteen segments and the ESP-IDF application descriptor, whose
/// secure version and NUL-terminated version string (1..=31 bytes) are
/// returned as the secure version and the version length.
pub open spec fn spec_image_metadata(prefix: Seq<u8>) -> Option<(u32, int)> {
    if prefix[0] != ESP_IMAGE_MAGIC || !(1 <= prefix[1] <= 16) || prefix[12] as int + prefix[13]
        as int * 0x100 != ESP32S2_CHIP_ID || le_u32_at(prefix, 32) != ESP_APP_DESCRIPTOR_MAGIC {
        None
    } else {
        match first_zero(prefix.subrange(48, 80)) {
            Some(n) => if n == 0 || n > MAX_VERSION_LENGTH {
                None
            } else {
                Some((le_u32_at(prefix, 36), n))
            },
            None => None,
        }
    }
}

#[verifier::loop_isolation(false)]
fn parse_image_metadata(image_prefix: &[u8; APP_DESCRIPTOR_PREFIX_SIZE]) -> (r: Option<(u32, usize)>)
    ensures
        r matches Some((v, n)) ==> spec_image_metadata(image_prefix@) == Some((v, n as int)),
        r is None <==> spec_image_metadata(image_prefix@) is None,
{
    if image_prefix[0] != ESP_IMAGE_MAGIC || !(1 <= image_prefix[1] && image_prefix[1] <= 16)
        || image_prefix[12] as u16 + (image_prefix[13] as u16) * 0x100 != ESP32S2_CHIP_ID
        || read_le_u32(image_prefix, 32) != ESP_APP_DESCRIPTOR_MAGIC {
        return None;
    }
    let secure_version = read_le_u32(image_prefix, 36);
    let ghost field = image_prefix@.subrange(48, 80);
    let mut n: usize = 0;
    while n < 32
        invariant
            n <= 32,
            field == image_prefix@.subrange(48, 80),
            forall|j: int| 0 <= j < n ==> field[j] != 0,
        decreases 32 - n,
    {
        if image_prefix[48 + n] == 0 {
            assert(field[n as int] == 0);
            let ghost c = choose|i: int|
                0 <= i < field.len() && field[i] == 0 && forall|j: int|
                    0 <= j < i ==> field[j] != 0;
            assert(c == n) by {
                if c < n {
                    assert(field[c] != 0);
                } else if c > n {
                    assert(field[n as int] != 0);
                }
            }
            if n == 0 || n > MAX_VERSION_LENGTH {
                return None;
            }
            return Some((secure_version, n));
        }
        n = n + 1;
    }
    None
}

/// A Secure Boot V2 RSA signature block that the running firmware accepts:
/// magic and version, a CRC over its first 1196 bytes that matches, and a
/// public key whose SHA-256 is the trusted key digest.
pub open spec fn signature_block_valid(block: Seq<u8>, trusted_key_digest: Seq<u8>) -> bool {
    &&& block[0] == SECURE_BOOT_V2_SIGNATURE_MAGIC
    &&& block[1] == SECURE_BOOT_V2_RSA_VERSION
    &&& le_u32_at(block, 1196) == spec_esp_crc32_le(0, block.subrange(0, 1196))
    &&& sha256(block.subrange(36, 812)) == trusted_key_digest
}

/// The digest, public key and signature carried by a signature block.
pub struct SignatureParts {
    pub image_digest: [u8; 32],
    pub public_key: [u8; RSA_PUBLIC_KEY_SIZE],
    pub signature: [u8; RSA_SIGNATURE_SIZE],
}

fn parse_signature_block(block: &[u8; SIGNATURE_BLOCK_SIZE], trusted_key_digest: &[u8; 32]) -> (r:
    Option<SignatureParts>)
    ensures
        r is Some <==> signature_block_valid(block@, trusted_key_digest@),
        r matches Some(parts) ==> parts.image_digest@ == block@.subrange(4, 36)
            && parts.public_key@ == block@.subrange(36, 812) && parts.signature@
            == block@.subrange(812, 1196),
{
    if block[0] != SECURE_BOOT_V2_SIGNATURE_MAGIC || block[1] != SECURE_BOOT_V2_RSA_VERSION
        || read_le_u32(block, 1196) != esp_crc32_le(0, slice_subrange(block, 0, SIGNATURE_CRC_LENGTH)) {
        return None;
    }
    let mut image_digest = [0u8; 32];
    copy_into(&mut image_digest, 0, slice_subrange(block, 4, 36));
    let mut public_key = [0u8; RSA_PUBLIC_KEY_SIZE];
    copy_into(&mut public_key, 0, slice_subrange(block, 36, 812));
    let mut hasher = sha256_start();
    sha256_update(&mut hasher, &public_key);
    let key_digest = sha256_finish(&hasher);
    assert(image_digest@ =~= block@.subrange(4, 36));
    assert(public_key@ =~= block@.subrange(36, 812));
    assert(Seq::<u8>::empty() + public_key@ =~= public_key@);
    if !same_bytes(&key_digest, trusted_key_digest) {
        return None;
    }
    let mut signature = [0u8; RSA_SIGNATURE_SIZE];
    copy_into(&mut signature, 0, slice_subrange(block, 812, 1196));
    assert(signature@ =~= block@.subrange(812, 1196));
    Some(SignatureParts { image_digest, public_key, signature })
}

fn same_bytes(a: &[u8], b: &[u8]) -> (r: bool)
    ensures
        r == (a@ == b@),
{
    if a.len() != b.len() {
        return false;
    }
    let n = a.len();
    let mut i: usize = 0;
    while i < n
        invariant
            i <= n,
            n == a@.len(),
            n == b@.len(),
            forall|j: int| 0 <= j < i ==> a@[j] == b@[j],
        decreases n - i,
    {
        if a[i] != b[i] {
            return false;
        }
        i = i + 1;
    }
    assert(a@ =~= b@);
    true
}

/// The flash, clock and signature services of the platform. The device
/// implements them over its flash, timer and ROM RSA routines; reads and
/// writes address a slot by offset.
pub trait UpdateBackend {
    type Error;

    /// Trusted device time, independent of host traffic. A backwards clock
    /// expires live authority. Tests supply an explicitly controlled clock.
    fn now_ms(&self) -> u64;

    fn layout(&mut self) -> Result<UpdateLayout, Self::Error>;

    fn erase(&mut self, slot: u8, offset: u32, length: u32) -> Result<(), Self::Error>;

    fn write(&mut self, slot: u8, offset: u32, data: &[u8]) -> Result<(), Self::Error>;

    fn read(&mut self, slot: u8, offset: u32, output: &mut [u8]) -> Result<(), Self::Error>;

    fn verify_rsa_pss(
        &mut self,
        public_key: &[u8; RSA_PUBLIC_KEY_SIZE],
        signature: &[u8; RSA_SIGNATURE_SIZE],
        image_digest: &[u8; 32],
    ) -> Result<bool, Self::Error>;

    fn activate(&mut self, slot: u8, sequence: u32, activation_entry: u8) -> Result<
        (),
        Self::Error,
    >;
}

/// The largest end of the last segment: room must remain for the image
/// trailer and the signature sector.
pub const SEGMENT_AREA_END: u32 = 0x1e_0000 - 0x1000 - 48;

/// What a verified installed image stands on: a header the firmware accepts
/// with secure version at most 16 and a single application descriptor, signed
/// contents that fill whole signature sectors inside the slot, and a
/// signature block whose public key is the trusted one and whose digest is the
/// SHA-256 of exactly those contents, which is the digest returned.
pub open spec fn installed_image_evidence(image: VerifiedInstalledImage, trusted_key_digest: Seq<
    u8,
>) -> bool {
    &&& image.secure_version <= 16
    &&& image.signed_image_bytes % SIGNATURE_SECTOR_SIZE == 0
    &&& 2 * SIGNATURE_SECTOR_SIZE <= image.signed_image_bytes <= OTA_SLOT_SIZE
    &&& exists|prefix: Seq<u8>, contents: Seq<u8>, block: Seq<u8>|
        {
            &&& prefix.len() == APP_DESCRIPTOR_PREFIX_SIZE
            &&& spec_image_metadata(prefix) matches Some((v, _)) && v == image.secure_version
            &&& prefix[23] == 1
            &&& contents.len() == image.signed_image_bytes - SIGNATURE_SECTOR_SIZE
            &&& image.signed_content_digest@ == sha256(contents)
            &&& block.len() == SIGNATURE_BLOCK_SIZE
            &&& signature_block_valid(block, trusted_key_digest)
            &&& block.subrange(4, 36) == sha256(contents)
        }
}

/// One read that the installed-slot check asked the backend for: the slot,
/// the offset, the number of bytes and, when the read succeeded, the bytes.
pub struct SlotRead {
    pub slot: u8,
    pub offset: u32,
    pub length: nat,
    pub data: Option<Seq<u8>>,
}

/// What the installed-slot check does next: read `length` bytes at an
/// offset, reject the image, or accept it (secure version, signed image
/// size, digest of the signed contents) subject to the RSA check.
pub enum SlotStep {
    Read(u32, nat),
    Rejected(InstalledImageError),
    Verified(u32, u32, Seq<u8>),
}

/// The bytes of read `i`.
pub open spec fn read_data(t: Seq<SlotRead>, i: int) -> Seq<u8> {
    t[i].data->Some_0
}

/// The secure version of an image prefix the firmware accepts: the
/// application metadata parses, there is exactly one application descriptor
/// (byte 23), and the secure version is at most 16.
pub open spec fn header_secure_version(prefix: Seq<u8>) -> Option<u32> {
    match spec_image_metadata(prefix) {
        Some((v, _)) => if prefix[23] == 1 && v <= 16 {
            Some(v)
        } else {
            None
        },
        None => None,
    }
}

/// The position after segment `index`, whose 8-byte header stands at
/// `position`: the first segment must hold the application descriptor, and
/// no segment may end past `SEGMENT_AREA_END`.
pub open spec fn segment_next(index: int, position: u32, header: Seq<u8>) -> Result<
    u32,
    InstalledImageError,
> {
    let length = le_u32_at(header, 4);
    if index == 0 && length < APP_DESCRIPTOR_PREFIX_SIZE - APP_DESCRIPTOR_OFFSET {
        Err(InstalledImageError::Header)
    } else if position + 8 + length > SEGMENT_AREA_END {
        Err(InstalledImageError::Extent)
    } else {
        Ok((position + 8 + length) as u32)
    }
}

/// The position after the first `count` segments, whose headers are reads
/// 1 to `count`, starting after the 24-byte image header.
pub open spec fn walk(t: Seq<SlotRead>, count: nat) -> Result<u32, InstalledImageError>
    decreases count,
{
    if count == 0 {
        Ok(24u32)
    } else {
        match walk(t, (count - 1) as nat) {
            Ok(p) => segment_next(count - 1, p, read_data(t, count as int)),
            Err(e) => Err(e),
        }
    }
}

/// The bytes of reads `start` to `end` (exclusive), joined in order.
pub open spec fn joined(t: Seq<SlotRead>, start: int, end: int) -> Seq<u8>
    decreases end - start,
{
    if end <= start {
        Seq::empty()
    } else {
        joined(t, start, end - 1) + read_data(t, end - 1)
    }
}

/// Where the signature sector starts for segments ending at `position`: the
/// checksum byte at the next 16-byte boundary and the appended SHA-256, then
/// padding to a whole sector; the sector must lie inside the slot after at
/// least one sector of contents.
pub open spec fn signature_offset_after(position: u32) -> Option<u32> {
    let trailer_end = (position | 15u32) + 33;
    if trailer_end + (SIGNATURE_SECTOR_SIZE - 1) > u32::MAX {
        None
    } else {
        let rounded = ((trailer_end + 0xfff) as u32) & !0xfffu32;
        if rounded < SIGNATURE_SECTOR_SIZE || rounded > OTA_SLOT_SIZE - SIGNATURE_SECTOR_SIZE {
            None
        } else {
            Some(rounded)
        }
    }
}

/// What the check does after the first `m` reads of `t`, all of which
/// succeeded: read the prefix; then each segment header in turn; then the
/// signed contents in 1 KiB chunks from offset zero; then the signature
/// block; and then decide. The header, a segment or the layout may reject
/// the image on the way; a signature block that is not valid for the trusted
/// key, or whose digest is not the SHA-256 of the contents read, rejects it
/// at the end.
#[verifier::opaque]
pub open spec fn next_step(t: Seq<SlotRead>, m: int, trusted_key_digest: Seq<u8>) -> SlotStep {
    if m == 0 {
        SlotStep::Read(0, APP_DESCRIPTOR_PREFIX_SIZE as nat)
    } else {
        let prefix = read_data(t, 0);
        match header_secure_version(prefix) {
            None => SlotStep::Rejected(InstalledImageError::Header),
            Some(v) => {
                let n = prefix[1] as int;
                let k = m - 1;
                if k < n {
                    match walk(t, k as nat) {
                        Ok(p) => SlotStep::Read(p, 8),
                        Err(e) => SlotStep::Rejected(e),
                    }
                } else {
                    match walk(t, n as nat) {
                        Err(e) => SlotStep::Rejected(e),
                        Ok(p) => match signature_offset_after(p) {
                            None => SlotStep::Rejected(InstalledImageError::Extent),
                            Some(so) => {
                                let j = k - n;
                                if 1024 * j < so {
                                    SlotStep::Read((1024 * j) as u32, 1024)
                                } else if 1024 * j == so {
                                    SlotStep::Read(so, SIGNATURE_BLOCK_SIZE as nat)
                                } else {
                                    let block = read_data(t, m - 1);
                                    let contents = joined(t, 1 + n, m - 1);
                                    if signature_block_valid(block, trusted_key_digest)
                                        && block.subrange(4, 36) == sha256(contents) {
                                        SlotStep::Verified(
                                            v,
                                            (so + SIGNATURE_SECTOR_SIZE) as u32,
                                            sha256(contents),
                                        )
                                    } else {
                                        SlotStep::Rejected(InstalledImageError::Signature)
                                    }
                                }
                            },
                        },
                    }
                }
            },
        }
    }
}

/// The reads in `t` are those the check makes, in order, all of `slot`, each
/// of the length asked for; only the last may have failed.
#[verifier::opaque]
pub open spec fn slot_reads_made(t: Seq<SlotRead>, slot: u8, trusted_key_digest: Seq<u8>) -> bool {
    forall|i: int|
        0 <= i < t.len() ==> {
            &&& (#[trigger] t[i]).slot == slot
            &&& next_step(t, i, trusted_key_digest) == SlotStep::Read(t[i].offset, t[i].length)
            &&& t[i].data matches Some(d) ==> d.len() == t[i].length
            &&& i < t.len() - 1 ==> t[i].data is Some
        }
}

/// The result after the reads in `t`: a failed read gives `Read`; otherwise
/// the check's decision, where an accepted image is still refused with
/// `Signature` when the RSA check does not accept its signature.
pub open spec fn slot_check_result(
    t: Seq<SlotRead>,
    trusted_key_digest: Seq<u8>,
    r: Result<VerifiedInstalledImage, InstalledImageError>,
) -> bool {
    if t.len() > 0 && t.last().data is None {
        r == Err::<VerifiedInstalledImage, InstalledImageError>(InstalledImageError::Read)
    } else {
        match next_step(t, t.len() as int, trusted_key_digest) {
            SlotStep::Read(..) => false,
            SlotStep::Rejected(e) => r == Err::<VerifiedInstalledImage, InstalledImageError>(e),
            SlotStep::Verified(v, bytes, digest) => r == Err::<
                VerifiedInstalledImage,
                InstalledImageError,
            >(InstalledImageError::Signature) || (r matches Ok(image) && image.secure_version == v
                && image.signed_image_bytes == bytes && image.signed_content_digest@ == digest),
        }
    }
}

proof fn lemma_walk_prefix(t: Seq<SlotRead>, u: Seq<SlotRead>, c: nat)
    requires
        c < t.len(),
        c < u.len(),
        forall|i: int| 0 <= i <= c ==> u[i] == t[i],
    ensures
        walk(u, c) == walk(t, c),
    decreases c,
{
    if c > 0 {
        lemma_walk_prefix(t, u, (c - 1) as nat);
    }
}

proof fn lemma_joined_prefix(t: Seq<SlotRead>, u: Seq<SlotRead>, start: int, end: int)
    requires
        forall|i: int| start <= i < end ==> u[i] == t[i],
    ensures
        joined(u, start, end) == joined(t, start, end),
    decreases end - start,
{
    if end > start {
        lemma_joined_prefix(t, u, start, end - 1);
    }
}

/// The next step after `m` reads depends only on those reads.
proof fn lemma_next_step_prefix(t: Seq<SlotRead>, u: Seq<SlotRead>, m: int, key: Seq<u8>)
    requires
        0 <= m <= t.len(),
        m <= u.len(),
        forall|i: int| 0 <= i < m ==> u[i] == t[i],
    ensures
        next_step(u, m, key) == next_step(t, m, key),
{
    reveal(next_step);
    if m > 0 {
        let n = read_data(t, 0)[1] as int;
        let k = m - 1;
        if k < n {
            lemma_walk_prefix(t, u, k as nat);
        } else {
            lemma_walk_prefix(t, u, n as nat);
            lemma_joined_prefix(t, u, 1 + n, m - 1);
        }
    }
}

/// Appending a read keeps what the earlier reads decided.
proof fn lemma_reads_extend(t: Seq<SlotRead>, x: SlotRead, slot: u8, key: Seq<u8>)
    requires
        slot_reads_made(t, slot, key),
        forall|i: int| 0 <= i < t.len() ==> (#[trigger] t[i]).data is Some,
        x.slot == slot,
        next_step(t, t.len() as int, key) == SlotStep::Read(x.offset, x.length),
        x.data matches Some(d) ==> d.len() == x.length,
    ensures
        slot_reads_made(t.push(x), slot, key),
{
    reveal(slot_reads_made);
    let u = t.push(x);
    assert forall|i: int| 0 <= i < u.len() implies {
        &&& (#[trigger] u[i]).slot == slot
        &&& next_step(u, i, key) == SlotStep::Read(u[i].offset, u[i].length)
        &&& u[i].data matches Some(d) ==> d.len() == u[i].length
        &&& i < u.len() - 1 ==> u[i].data is Some
    } by {
        lemma_next_step_prefix(t, u, i, key);
        if i < t.len() {
            assert(u[i] == t[i]);
        }
    }
}

/// The check starts by reading the prefix and rejects a header it does not
/// accept.
proof fn lemma_step_start(t: Seq<SlotRead>, key: Seq<u8>)
    ensures
        next_step(t, 0, key) == SlotStep::Read(0, APP_DESCRIPTOR_PREFIX_SIZE as nat),
        header_secure_version(read_data(t, 0)) is None ==> next_step(t, 1, key)
            == SlotStep::Rejected(InstalledImageError::Header),
{
    reveal(next_step);
}

/// After the prefix, the check reads the segment headers in turn, stops at a
/// segment it rejects, and rejects a layout without room for the signature.
proof fn lemma_step_segments(t: Seq<SlotRead>, key: Seq<u8>, v: u32, k: int)
    requires
        header_secure_version(read_data(t, 0)) == Some(v),
        0 <= k <= read_data(t, 0)[1],
    ensures
        k < read_data(t, 0)[1] ==> (walk(t, k as nat) matches Ok(p) ==> next_step(t, 1 + k, key)
            == SlotStep::Read(p, 8)),
        walk(t, k as nat) matches Err(e) ==> next_step(t, 1 + k, key) == SlotStep::Rejected(e),
        k == read_data(t, 0)[1] ==> (walk(t, k as nat) matches Ok(p) ==> (
        signature_offset_after(p) is None ==> next_step(t, 1 + k, key) == SlotStep::Rejected(
            InstalledImageError::Extent,
        ))),
{
    reveal(next_step);
}

/// After the segments, the check reads the contents chunk by chunk, then the
/// signature block, and then decides.
proof fn lemma_step_contents(t: Seq<SlotRead>, key: Seq<u8>, v: u32, p: u32, so: u32, j: int)
    requires
        header_secure_version(read_data(t, 0)) == Some(v),
        walk(t, read_data(t, 0)[1] as nat) == Ok::<u32, InstalledImageError>(p),
        signature_offset_after(p) == Some(so),
        0 <= j,
        1024 * j <= so,
    ensures
        ({
            let m = 1 + read_data(t, 0)[1] + j;
            &&& 1024 * j < so ==> next_step(t, m, key) == SlotStep::Read((1024 * j) as u32, 1024)
            &&& 1024 * j == so ==> next_step(t, m, key) == SlotStep::Read(
                so,
                SIGNATURE_BLOCK_SIZE as nat,
            )
            &&& 1024 * j == so ==> next_step(t, m + 1, key) == ({
                let block = read_data(t, m);
                let contents = joined(t, 1 + read_data(t, 0)[1], m);
                if signature_block_valid(block, key) && block.subrange(4, 36) == sha256(contents) {
                    SlotStep::Verified(v, (so + SIGNATURE_SECTOR_SIZE) as u32, sha256(contents))
                } else {
                    SlotStep::Rejected(InstalledImageError::Signature)
                }
            })
        }),
{
    reveal(next_step);
}

/// The secure version of an accepted image prefix (`header_secure_version`).
fn header_version(prefix: &[u8; APP_DESCRIPTOR_PREFIX_SIZE]) -> (r: Option<u32>)
    ensures
        r == header_secure_version(prefix@),
{
    match parse_image_metadata(prefix) {
        Some((v, _)) => {
            if prefix[23] != 1 || v > 16 {
                None
            } else {
                Some(v)
            }
        },
        None => None,
    }
}

/// The position after a segment (`segment_next`).
fn next_segment(segment: u8, position: u32, header: &[u8; 8]) -> (r: Result<
    u32,
    InstalledImageError,
>)
    ensures
        r == segment_next(segment as int, position, header@),
{
    let length = read_le_u32(header, 4);
    if segment == 0 && length < APP_DESCRIPTOR_PREFIX_SIZE as u32 - APP_DESCRIPTOR_OFFSET {
        return Err(InstalledImageError::Header);
    }
    let end = match position.checked_add(8) {
        Some(v) => v.checked_add(length),
        None => None,
    };
    match end {
        Some(v) => {
            if v > SEGMENT_AREA_END {
                Err(InstalledImageError::Extent)
            } else {
                Ok(v)
            }
        },
        None => Err(InstalledImageError::Extent),
    }
}

/// The start of the signature sector (`signature_offset_after`).
fn signature_offset(position: u32) -> (r: Option<u32>)
    ensures
        r == signature_offset_after(position),
        r matches Some(v) ==> v % 4096 == 0,
{
    // ESP images put the checksum at the next 16-byte boundary's last byte,
    // followed by their appended SHA-256. Secure Boot V2 then pads to 4 KiB.
    let trailer_end = match (position | 15).checked_add(33) {
        Some(v) => v,
        None => {
            return None;
        },
    };
    let rounded = match trailer_end.checked_add(SIGNATURE_SECTOR_SIZE - 1) {
        Some(v) => {
            let rounded = v & !(SIGNATURE_SECTOR_SIZE - 1);
            assert(rounded % 4096 == 0) by (bit_vector)
                requires
                    rounded == v & !0xfffu32,
            ;
            rounded
        },
        None => {
            return None;
        },
    };
    if rounded < SIGNATURE_SECTOR_SIZE || rounded > OTA_SLOT_SIZE - SIGNATURE_SECTOR_SIZE {
        return None;
    }
    Some(rounded)
}

/// Verify an installed slot without erasing, writing or selecting it.
/// The bounded ESP image layout determines the signature location; a caller
/// cannot supply a shorter length that omits part of the installed image.
/// This authenticates its contents, but does not prove that they boot. Before
/// raising an epoch, bind the returned digest to independent boot evidence.
/// The record of the reads made comes back with the result.
pub fn verify_installed_slot<B: UpdateBackend>(
    backend: &mut B,
    slot: u8,
    trusted_key_digest: &[u8; 32],
) -> (r: (Result<VerifiedInstalledImage, InstalledImageError>, Ghost<Seq<SlotRead>>))
    ensures
        slot > 1 <==> r.0 == Err::<VerifiedInstalledImage, InstalledImageError>(
            InstalledImageError::Slot,
        ),
        slot > 1 ==> r.1@.len() == 0,
        slot <= 1 ==> slot_reads_made(r.1@, slot, trusted_key_digest@),
        slot <= 1 ==> slot_check_result(r.1@, trusted_key_digest@, r.0),
        r.0 matches Ok(image) ==> installed_image_evidence(image, trusted_key_digest@),
{
    let ghost key = trusted_key_digest@;
    let ghost mut t: Seq<SlotRead> = Seq::empty();
    if slot > 1 {
        return (Err(InstalledImageError::Slot), Ghost(t));
    }
    let mut prefix = [0u8; APP_DESCRIPTOR_PREFIX_SIZE];
    let failed = backend.read(slot, 0, &mut prefix).is_err();
    proof {
        reveal(slot_reads_made);
        lemma_step_start(t, key);
        let x = SlotRead {
            slot,
            offset: 0,
            length: APP_DESCRIPTOR_PREFIX_SIZE as nat,
            data: if failed {
                None
            } else {
                Some(prefix@)
            },
        };
        lemma_reads_extend(t, x, slot, key);
        t = t.push(x);
    }
    if failed {
        return (Err(InstalledImageError::Read), Ghost(t));
    }
    let secure_version = match header_version(&prefix) {
        Some(v) => v,
        None => {
            proof {
                lemma_step_start(t, key);
            }
            return (Err(InstalledImageError::Header), Ghost(t));
        },
    };
    let segments = prefix[1];
    let mut position: u32 = 24;
    let mut segment: u8 = 0;
    while segment < segments
        invariant
            slot <= 1,
            key == trusted_key_digest@,
            segments == prefix@[1],
            segment <= segments,
            position <= SEGMENT_AREA_END,
            t.len() == 1 + segment,
            read_data(t, 0) == prefix@,
            header_secure_version(prefix@) == Some(secure_version),
            walk(t, segment as nat) == Ok::<u32, InstalledImageError>(position),
            slot_reads_made(t, slot, key),
            forall|i: int| 0 <= i < t.len() ==> (#[trigger] t[i]).data is Some,
        decreases segments - segment,
    {
        let mut header = [0u8; 8];
        let failed = backend.read(slot, position, &mut header).is_err();
        let ghost before = t;
        proof {
            lemma_step_segments(t, key, secure_version, segment as int);
            let x = SlotRead {
                slot,
                offset: position,
                length: 8,
                data: if failed {
                    None
                } else {
                    Some(header@)
                },
            };
            lemma_reads_extend(t, x, slot, key);
            t = t.push(x);
            lemma_walk_prefix(before, t, segment as nat);
        }
        if failed {
            return (Err(InstalledImageError::Read), Ghost(t));
        }
        match next_segment(segment, position, &header) {
            Ok(p) => {
                position = p;
            },
            Err(e) => {
                proof {
                    lemma_step_segments(t, key, secure_version, segment + 1);
                }
                return (Err(e), Ghost(t));
            },
        }
        segment = segment + 1;
    }
    let ghost n = segments as int;
    let signature_offset = match signature_offset(position) {
        Some(v) => v,
        None => {
            proof {
                lemma_step_segments(t, key, secure_version, n);
            }
            return (Err(InstalledImageError::Extent), Ghost(t));
        },
    };
    let mut hasher = sha256_start();
    let mut buffer = [0u8; 1024];
    let mut offset: u32 = 0;
    while offset < signature_offset
        invariant
            slot <= 1,
            key == trusted_key_digest@,
            n == prefix@[1],
            read_data(t, 0) == prefix@,
            header_secure_version(prefix@) == Some(secure_version),
            walk(t, n as nat) == Ok::<u32, InstalledImageError>(position),
            signature_offset_after(position) == Some(signature_offset),
            offset <= signature_offset,
            offset % 1024 == 0,
            signature_offset % 4096 == 0,
            SIGNATURE_SECTOR_SIZE <= signature_offset <= OTA_SLOT_SIZE - SIGNATURE_SECTOR_SIZE,
            t.len() == 1 + n + offset / 1024,
            absorbed(hasher) == joined(t, 1 + n, t.len() as int),
            absorbed(hasher).len() == offset,
            slot_reads_made(t, slot, key),
            forall|i: int| 0 <= i < t.len() ==> (#[trigger] t[i]).data is Some,
        decreases signature_offset - offset,
    {
        // Every chunk is a whole buffer: the signed contents end on a sector.
        assert(signature_offset - offset >= 1024);
        let failed = backend.read(slot, offset, &mut buffer).is_err();
        let ghost before = t;
        proof {
            assert(1024 * (offset / 1024) == offset);
            lemma_step_contents(t, key, secure_version, position, signature_offset, offset as int / 1024);
            let x = SlotRead {
                slot,
                offset,
                length: 1024,
                data: if failed {
                    None
                } else {
                    Some(buffer@)
                },
            };
            lemma_reads_extend(t, x, slot, key);
            t = t.push(x);
            lemma_walk_prefix(before, t, n as nat);
            lemma_joined_prefix(before, t, 1 + n, before.len() as int);
        }
        if failed {
            return (Err(InstalledImageError::Read), Ghost(t));
        }
        sha256_update(&mut hasher, &buffer);
        offset = offset + 1024;
    }
    let digest = sha256_finish(&hasher);
    let mut block = [0u8; SIGNATURE_BLOCK_SIZE];
    let failed = backend.read(slot, signature_offset, &mut block).is_err();
    let ghost before = t;
    proof {
        assert(1024 * (offset / 1024) == offset);
        lemma_step_contents(t, key, secure_version, position, signature_offset, offset as int / 1024);
        let x = SlotRead {
            slot,
            offset: signature_offset,
            length: SIGNATURE_BLOCK_SIZE as nat,
            data: if failed {
                None
            } else {
                Some(block@)
            },
        };
        lemma_reads_extend(t, x, slot, key);
        t = t.push(x);
        lemma_walk_prefix(before, t, n as nat);
        lemma_joined_prefix(before, t, 1 + n, before.len() as int);
        lemma_step_contents(t, key, secure_version, position, signature_offset, offset as int / 1024);
    }
    if failed {
        return (Err(InstalledImageError::Read), Ghost(t));
    }
    let signature = match parse_signature_block(&block, trusted_key_digest) {
        Some(parts) => parts,
        None => {
            return (Err(InstalledImageError::Signature), Ghost(t));
        },
    };
    if !same_bytes(&signature.image_digest, &digest) {
        return (Err(InstalledImageError::Signature), Ghost(t));
    }
    match backend.verify_rsa_pss(&signature.public_key, &signature.signature, &digest) {
        Ok(true) => {},
        Ok(false) => {
            return (Err(InstalledImageError::Signature), Ghost(t));
        },
        Err(_) => {
            return (Err(InstalledImageError::Signature), Ghost(t));
        },
    }
    let image = VerifiedInstalledImage {
        secure_version,
        signed_image_bytes: signature_offset + SIGNATURE_SECTOR_SIZE,
        signed_content_digest: digest,
    };
    proof {
        let contents = absorbed(hasher);
        assert(contents.len() == image.signed_image_bytes - SIGNATURE_SECTOR_SIZE);
        assert(block@.subrange(4, 36) == sha256(contents));
        assert({
            &&& prefix@.len() == APP_DESCRIPTOR_PREFIX_SIZE
            &&& spec_image_metadata(prefix@) matches Some((v, _)) && v == image.secure_version
            &&& prefix@[23] == 1
            &&& contents.len() == image.signed_image_bytes - SIGNATURE_SECTOR_SIZE
            &&& image.signed_content_digest@ == sha256(contents)
            &&& block@.len() == SIGNATURE_BLOCK_SIZE
            &&& signature_block_valid(block@, trusted_key_digest@)
            &&& block@.subrange(4, 36) == sha256(contents)
        });
    }
    (Ok(image), Ghost(t))
}

/// A flash mutation the updater asked the backend for: an erase of a slot's
/// range, a write of the given bytes at an offset, or an activation.
pub enum Mutation {
    Erase(u8, u32, u32),
    Write(u8, u32, Seq<u8>),
    Activate(u8, u32, u8),
}

/// One call the updater made into its backend, with what came back: a clock
/// reading; the layout, or `None` when it could not be read; an erase, a
/// write or an activation and whether it succeeded; a read of `length` bytes
/// and the bytes, or `None` when it failed; and an RSA check with the key,
/// signature and digest handed to it and its verdict, or `None` on error.
pub enum BackendCall {
    Clock(u64),
    Layout(Option<UpdateLayout>),
    Erase(u8, u32, u32, bool),
    Write(u8, u32, Seq<u8>, bool),
    Read(u8, u32, nat, Option<Seq<u8>>),
    VerifyRsa(Seq<u8>, Seq<u8>, Seq<u8>, Option<bool>),
    Activate(u8, u32, u8, bool),
}

/// What the updater read and was told before it activated an image: the
/// application descriptor and the signature block read back from the target
/// slot, the RSA verdict, and the layout read immediately before.
pub struct ActivationEvidence {
    pub descriptor: Seq<u8>,
    pub block: Seq<u8>,
    pub rsa_accepted: bool,
    pub layout: UpdateLayout,
}

/// The abstract state of an update session.
pub struct SessionModel {
    pub id: u32,
    pub phase: Phase,
    pub target_slot: u8,
    pub active_slot: u8,
    pub active_sequence: u32,
    pub activation_entry: u8,
    pub target_sequence: u32,
    pub total: u32,
    pub completed: u32,
    pub expected_hash: Seq<u8>,
    pub expected_secure_version: u32,
    pub expected_version: Seq<u8>,
    pub started_ms: u64,
    pub last_progress_ms: u64,
    pub last_checked_ms: u64,
    pub failure: StatusCode,
    /// Every byte read back during verification, in order.
    pub full: Seq<u8>,
    /// The read-back bytes covered by the signature.
    pub signed: Seq<u8>,
    pub evidence: ActivationEvidence,
}

/// The abstract state of the updater.
pub struct UpdaterModel {
    pub session: Option<SessionModel>,
    pub next_session_id: u32,
    pub current_version: Seq<u8>,
    pub current_secure_version: u32,
    pub trusted_key_digest: Seq<u8>,
    /// Every flash mutation requested so far, in order.
    pub mutations: Seq<Mutation>,
    /// Every backend call made so far, in order, with its result.
    pub calls: Seq<BackendCall>,
}

/// A phase in which the session holds live, uncommitted authority.
pub open spec fn is_live(phase: Phase) -> bool {
    phase == Phase::Erasing || phase == Phase::Receiving || phase == Phase::Verifying
}

/// A live session expires when the clock runs backwards, fifteen minutes
/// after approval, or two minutes after its last progress.
pub open spec fn deadline_passed(s: SessionModel, now_ms: u64) -> bool {
    now_ms < s.last_checked_ms || now_ms - s.started_ms >= SESSION_MAX_LIFETIME_MS || now_ms
        - s.last_progress_ms >= SESSION_IDLE_TIMEOUT_MS
}

/// What an activation stands on: the whole slot image read back hashes to the
/// hash approved at BEGIN; the read-back descriptor names the approved secure
/// version, not below the running firmware's, and the approved version
/// string; the signature block is valid for the trusted key and covers the
/// SHA-256 of the signed contents read back; the RSA check accepted it; and
/// the active slot was still the one recorded at BEGIN.
pub open spec fn activation_justified(
    s: SessionModel,
    trusted_key_digest: Seq<u8>,
    current_secure_version: u32,
) -> bool {
    &&& s.full.len() == s.total
    &&& sha256(s.full) == s.expected_hash
    &&& s.signed == s.full.subrange(0, s.total - SIGNATURE_SECTOR_SIZE)
    &&& s.evidence.descriptor.len() == APP_DESCRIPTOR_PREFIX_SIZE
    &&& spec_image_metadata(s.evidence.descriptor) matches Some((v, n)) && v
        >= current_secure_version && v == s.expected_secure_version
        && s.evidence.descriptor.subrange(48, 48 + n) == s.expected_version
    &&& s.evidence.block.len() == SIGNATURE_BLOCK_SIZE
    &&& signature_block_valid(s.evidence.block, trusted_key_digest)
    &&& s.evidence.block.subrange(4, 36) == sha256(s.signed)
    &&& s.evidence.rsa_accepted
    &&& s.evidence.layout == UpdateLayout {
        active_slot: s.active_slot,
        active_sequence: s.active_sequence,
        activation_entry: s.activation_entry,
    }
}

/// The invariant of a session: it targets the slot that is not active, with
/// the metadata sequence that selects it; the image size fills whole
/// signature sectors of a slot; verification has read back exactly the
/// completed bytes; and an activated session is justified.
pub open spec fn session_wf(
    s: SessionModel,
    trusted_key_digest: Seq<u8>,
    current_secure_version: u32,
) -> bool {
    &&& s.phase != Phase::Idle
    &&& s.active_slot <= 1
    &&& s.target_slot == 1 - s.active_slot
    &&& s.activation_entry <= 1
    &&& spec_next_sequence(s.active_sequence, s.target_slot) == Some(s.target_sequence)
    &&& 2 * SIGNATURE_SECTOR_SIZE <= s.total <= OTA_SLOT_SIZE
    &&& s.total % SIGNATURE_SECTOR_SIZE == 0
    &&& s.completed <= s.total
    &&& s.expected_hash.len() == 32
    &&& 1 <= s.expected_version.len() <= MAX_VERSION_LENGTH
    &&& s.phase == Phase::Verifying ==> {
        &&& s.completed % 1024 == 0
        &&& s.full.len() == s.completed
        &&& s.signed == s.full.subrange(
            0,
            if s.completed < s.total - SIGNATURE_SECTOR_SIZE {
                s.completed as int
            } else {
                s.total - SIGNATURE_SECTOR_SIZE
            },
        )
    }
    &&& s.phase == Phase::Activated ==> activation_justified(
        s,
        trusted_key_digest,
        current_secure_version,
    )
}

/// The invariant of the updater.
pub open spec fn updater_wf(m: UpdaterModel) -> bool {
    &&& m.next_session_id != 0
    &&& 1 <= m.current_version.len() <= MAX_VERSION_LENGTH
    &&& m.trusted_key_digest.len() == 32
    &&& m.session matches Some(s) ==> session_wf(
        s,
        m.trusted_key_digest,
        m.current_secure_version,
    )
}

struct Session {
    started_ms: u64,
    last_progress_ms: u64,
    last_checked_ms: u64,
    id: u32,
    phase: Phase,
    target_slot: u8,
    active_slot: u8,
    active_sequence: u32,
    activation_entry: u8,
    target_sequence: u32,
    total: u32,
    expected_hash: [u8; 32],
    expected_secure_version: u32,
    expected_version: [u8; MAX_VERSION_LENGTH],
    expected_version_length: usize,
    completed: u32,
    full_hasher: Sha256State,
    signed_hasher: Sha256State,
    failure: StatusCode,
    evidence: Ghost<ActivationEvidence>,
}

impl Session {
    spec fn model(&self) -> SessionModel {
        SessionModel {
            id: self.id,
            phase: self.phase,
            target_slot: self.target_slot,
            active_slot: self.active_slot,
            active_sequence: self.active_sequence,
            activation_entry: self.activation_entry,
            target_sequence: self.target_sequence,
            total: self.total,
            completed: self.completed,
            expected_hash: self.expected_hash@,
            expected_secure_version: self.expected_secure_version,
            expected_version: self.expected_version@.subrange(
                0,
                self.expected_version_length as int,
            ),
            started_ms: self.started_ms,
            last_progress_ms: self.last_progress_ms,
            last_checked_ms: self.last_checked_ms,
            failure: self.failure,
            full: absorbed(self.full_hasher),
            signed: absorbed(self.signed_hasher),
            evidence: self.evidence@,
        }
    }

    spec fn shape(&self) -> bool {
        self.expected_version_length <= MAX_VERSION_LENGTH
    }

    /// Expires a live session at `now_ms`: it fails with `SessionExpired`
    /// when a deadline has passed. A session that is not live is unchanged
    /// and reports whether it expired earlier.
    fn expire(&mut self, now_ms: u64) -> (expired: bool)
        requires
            old(self).shape(),
        ensures
            final(self).shape(),
            !is_live(old(self).phase) ==> final(self).model() == old(self).model() && expired == (
            old(self).failure == StatusCode::SessionExpired),
            is_live(old(self).phase) ==> {
                &&& expired == deadline_passed(old(self).model(), now_ms)
                &&& final(self).model() == (if expired {
                    SessionModel {
                        last_checked_ms: now_ms,
                        phase: Phase::Failed,
                        failure: StatusCode::SessionExpired,
                        ..old(self).model()
                    }
                } else {
                    SessionModel { last_checked_ms: now_ms, ..old(self).model() }
                })
            },
    {
        if !(self.phase == Phase::Erasing || self.phase == Phase::Receiving || self.phase
            == Phase::Verifying) {
            return self.failure == StatusCode::SessionExpired;
        }
        let expired = now_ms < self.last_checked_ms || now_ms.saturating_sub(self.started_ms)
            >= SESSION_MAX_LIFETIME_MS || now_ms.saturating_sub(self.last_progress_ms)
            >= SESSION_IDLE_TIMEOUT_MS;
        self.last_checked_ms = now_ms;
        if expired {
            self.phase = Phase::Failed;
            self.failure = StatusCode::SessionExpired;
        }
        expired
    }

    /// Records progress at `now_ms` unless the session expires first.
    fn progress(&mut self, now_ms: u64) -> (r: StatusCode)
        requires
            old(self).shape(),
            is_live(old(self).phase),
        ensures
            final(self).shape(),
            r == (if deadline_passed(old(self).model(), now_ms) {
                StatusCode::SessionExpired
            } else {
                StatusCode::Success
            }),
            final(self).model() == (if deadline_passed(old(self).model(), now_ms) {
                SessionModel {
                    last_checked_ms: now_ms,
                    phase: Phase::Failed,
                    failure: StatusCode::SessionExpired,
                    ..old(self).model()
                }
            } else {
                SessionModel {
                    last_checked_ms: now_ms,
                    last_progress_ms: now_ms,
                    ..old(self).model()
                }
            }),
    {
        if self.expire(now_ms) {
            return StatusCode::SessionExpired;
        }
        self.last_progress_ms = now_ms;
        StatusCode::Success
    }

    fn fail(&mut self, status: StatusCode) -> (r: StatusCode)
        requires
            old(self).shape(),
        ensures
            final(self).shape(),
            r == status,
            final(self).model() == (SessionModel {
                phase: Phase::Failed,
                failure: status,
                ..old(self).model()
            }),
    {
        self.phase = Phase::Failed;
        self.failure = status;
        status
    }
}

/// A mutation stays inside the session: erases and writes address the target
/// slot below the approved image size, and an activation selects the target
/// slot with the sequence and metadata entry fixed at BEGIN.
pub open spec fn mutation_within(m: Mutation, s: SessionModel) -> bool {
    match m {
        Mutation::Erase(slot, offset, length) => slot == s.target_slot && offset + length
            <= s.total,
        Mutation::Write(slot, offset, data) => slot == s.target_slot && offset + data.len()
            <= s.total,
        Mutation::Activate(slot, sequence, entry) => slot == s.target_slot && sequence
            == s.target_sequence && entry == s.activation_entry,
    }
}

/// The fields fixed by the approval at BEGIN.
pub open spec fn same_authority(a: SessionModel, b: SessionModel) -> bool {
    &&& a.id == b.id
    &&& a.target_slot == b.target_slot
    &&& a.active_slot == b.active_slot
    &&& a.active_sequence == b.active_sequence
    &&& a.activation_entry == b.activation_entry
    &&& a.target_sequence == b.target_sequence
    &&& a.total == b.total
    &&& a.expected_hash == b.expected_hash
    &&& a.expected_secure_version == b.expected_secure_version
    &&& a.expected_version == b.expected_version
    &&& a.started_ms == b.started_ms
}

/// One request's effect on a session that it did not replace: the approved
/// fields stay, a session that is not live stays exactly as it was, and at
/// most one mutation is requested, only while the session was live, inside
/// the session, and an activation only when it is justified.
pub open spec fn session_step(
    before: SessionModel,
    after: SessionModel,
    log_before: Seq<Mutation>,
    log_after: Seq<Mutation>,
    trusted_key_digest: Seq<u8>,
    current_secure_version: u32,
) -> bool {
    &&& same_authority(before, after)
    &&& !is_live(before.phase) ==> after == before
    &&& log_after == log_before || {
        &&& is_live(before.phase)
        &&& log_after.len() == log_before.len() + 1
        &&& log_after.subrange(0, log_before.len() as int) == log_before
        &&& mutation_within(log_after.last(), after)
        &&& log_after.last() is Activate ==> activation_justified(
            after,
            trusted_key_digest,
            current_secure_version,
        )
    }
}

/// The 21-byte response header followed by the running version: status,
/// protocol version, phase, target slot (0xff without a session), session id,
/// progress, image size, running secure version, version length and bytes.
pub open spec fn response_bytes(status: StatusCode, m: UpdaterModel) -> Seq<u8> {
    let (phase, slot, id, completed, total) = match m.session {
        Some(s) => (s.phase, s.target_slot, s.id, s.completed, s.total),
        None => (Phase::Idle, 0xffu8, 0u32, 0u32, 0u32),
    };
    seq![status.spec_number(), PROTOCOL_VERSION, phase.spec_number(), slot] + le_bytes_u32(id)
        + le_bytes_u32(completed) + le_bytes_u32(total) + le_bytes_u32(m.current_secure_version)
        + seq![m.current_version.len() as u8] + m.current_version
}

pub struct UsbUpdater<B> {
    backend: B,
    trusted_key_digest: [u8; 32],
    current_version: [u8; MAX_VERSION_LENGTH],
    current_version_length: usize,
    current_secure_version: u32,
    next_session_id: u32,
    session: Option<Session>,
    mutations: Ghost<Seq<Mutation>>,
    calls: Ghost<Seq<BackendCall>>,
}

impl<B> View for UsbUpdater<B> {
    type V = UpdaterModel;

    closed spec fn view(&self) -> UpdaterModel {
        UpdaterModel {
            session: match self.session {
                Some(s) => Some(s.model()),
                None => None,
            },
            next_session_id: self.next_session_id,
            current_version: self.current_version@.subrange(0, self.current_version_length as int),
            current_secure_version: self.current_secure_version,
            trusted_key_digest: self.trusted_key_digest@,
            mutations: self.mutations@,
            calls: self.calls@,
        }
    }
}

impl<B> UsbUpdater<B> {
    /// The updater's invariant.
    pub closed spec fn wf(&self) -> bool {
        &&& updater_wf(self@)
        &&& self.current_version_length <= MAX_VERSION_LENGTH
        &&& self.session matches Some(s) ==> s.shape()
    }

    pub closed spec fn spec_backend(&self) -> B {
        self.backend
    }

    /// The backend, as the requests so far left it.
    pub fn backend(&self) -> (r: &B)
        ensures
            *r == self.spec_backend(),
    {
        &self.backend
    }

    /// The backend, for the platform to service between requests.
    pub fn backend_mut(&mut self) -> (r: &mut B)
        ensures
            *r == old(self).spec_backend(),
            final(self).spec_backend() == *final(r),
            final(self)@ == old(self)@,
            final(self).wf() == old(self).wf(),
    {
        &mut self.backend
    }

    /// Gives the backend back, ending the updater (as a reset would).
    pub fn into_backend(self) -> (r: B)
        ensures
            r == self.spec_backend(),
    {
        self.backend
    }

    /// Sets the id that the next approved session receives.
    pub fn set_next_session_id(&mut self, id: u32)
        requires
            id != 0,
        ensures
            final(self)@ == (UpdaterModel { next_session_id: id, ..old(self)@ }),
            final(self).spec_backend() == old(self).spec_backend(),
            old(self).wf() ==> final(self).wf(),
    {
        self.next_session_id = id;
    }

    /// The progress of the current session, if there is one.
    pub fn session_progress(&self) -> (r: Option<u32>)
        ensures
            r == (match self@.session {
                Some(s) => Some(s.completed),
                None => None,
            }),
    {
        match &self.session {
            Some(session) => Some(session.completed),
            None => None,
        }
    }

    /// The phase of the current session, `Idle` without one.
    pub fn phase(&self) -> (r: Phase)
        ensures
            r == (match self@.session {
                Some(s) => s.phase,
                None => Phase::Idle,
            }),
    {
        match &self.session {
            Some(session) => session.phase,
            None => Phase::Idle,
        }
    }
}

/// The fields a request never changes except through BEGIN's session id.
pub open spec fn same_configuration(a: UpdaterModel, b: UpdaterModel) -> bool {
    &&& a.current_version == b.current_version
    &&& a.current_secure_version == b.current_secure_version
    &&& a.trusted_key_digest == b.trusted_key_digest
}

/// A request that did not start an approved session: it removed the session,
/// left none, or made one `session_step` on it.
pub open spec fn unapproved_step(a: UpdaterModel, b: UpdaterModel) -> bool {
    &&& b.next_session_id == a.next_session_id
    &&& match (a.session, b.session) {
        (Some(x), Some(y)) => session_step(
            x,
            y,
            a.mutations,
            b.mutations,
            a.trusted_key_digest,
            a.current_secure_version,
        ),
        (Some(x), None) => b.mutations == a.mutations,
        (None, None) => b.mutations == a.mutations,
        (None, Some(_)) => false,
    }
}

/// Two steps compose into one when the first requested no mutation.
pub proof fn lemma_session_steps_compose(
    a: SessionModel,
    b: SessionModel,
    c: SessionModel,
    log: Seq<Mutation>,
    log_after: Seq<Mutation>,
    trusted_key_digest: Seq<u8>,
    current_secure_version: u32,
)
    requires
        session_step(a, b, log, log, trusted_key_digest, current_secure_version),
        session_step(b, c, log, log_after, trusted_key_digest, current_secure_version),
    ensures
        session_step(a, c, log, log_after, trusted_key_digest, current_secure_version),
{
}

/// `b` is `a` with the backend call `call` recorded and nothing else changed.
pub open spec fn recorded(a: UpdaterModel, b: UpdaterModel, call: BackendCall) -> bool {
    b == (UpdaterModel { calls: a.calls.push(call), ..a })
}

/// `b` is `a` with the flash mutation `m` and the backend call `call`
/// recorded and nothing else changed.
pub open spec fn recorded_mutation(
    a: UpdaterModel,
    b: UpdaterModel,
    m: Mutation,
    call: BackendCall,
) -> bool {
    b == (UpdaterModel { calls: a.calls.push(call), mutations: a.mutations.push(m), ..a })
}

impl<B: UpdateBackend> UsbUpdater<B> {
    /// Reads the device clock.
    fn clock(&mut self) -> (now: u64)
        ensures
            recorded(old(self)@, final(self)@, BackendCall::Clock(now)),
            final(self).session == old(self).session,
            final(self).current_version_length == old(self).current_version_length,
    {
        let now = self.backend.now_ms();
        self.calls = Ghost(self.calls@.push(BackendCall::Clock(now)));
        now
    }

    /// Reads the active slot's layout.
    fn read_layout(&mut self) -> (r: Option<UpdateLayout>)
        ensures
            recorded(old(self)@, final(self)@, BackendCall::Layout(r)),
            final(self).session == old(self).session,
            final(self).current_version_length == old(self).current_version_length,
    {
        let r = match self.backend.layout() {
            Ok(layout) => Some(layout),
            Err(_) => None,
        };
        self.calls = Ghost(self.calls@.push(BackendCall::Layout(r)));
        r
    }

    /// Erases `length` bytes of `slot` from `offset`.
    fn flash_erase(&mut self, slot: u8, offset: u32, length: u32) -> (ok: bool)
        ensures
            recorded_mutation(
                old(self)@,
                final(self)@,
                Mutation::Erase(slot, offset, length),
                BackendCall::Erase(slot, offset, length, ok),
            ),
            final(self).session == old(self).session,
            final(self).current_version_length == old(self).current_version_length,
    {
        let ok = self.backend.erase(slot, offset, length).is_ok();
        self.mutations = Ghost(self.mutations@.push(Mutation::Erase(slot, offset, length)));
        self.calls = Ghost(self.calls@.push(BackendCall::Erase(slot, offset, length, ok)));
        ok
    }

    /// Writes `data` to `slot` at `offset`.
    fn flash_write(&mut self, slot: u8, offset: u32, data: &[u8]) -> (ok: bool)
        ensures
            recorded_mutation(
                old(self)@,
                final(self)@,
                Mutation::Write(slot, offset, data@),
                BackendCall::Write(slot, offset, data@, ok),
            ),
            final(self).session == old(self).session,
            final(self).current_version_length == old(self).current_version_length,
    {
        let ok = self.backend.write(slot, offset, data).is_ok();
        self.mutations = Ghost(self.mutations@.push(Mutation::Write(slot, offset, data@)));
        self.calls = Ghost(self.calls@.push(BackendCall::Write(slot, offset, data@, ok)));
        ok
    }

    /// Reads `M` bytes of `slot` from `offset` into `output`.
    fn flash_read<const M: usize>(&mut self, slot: u8, offset: u32, output: &mut [u8; M]) -> (ok:
        bool)
        ensures
            recorded(
                old(self)@,
                final(self)@,
                BackendCall::Read(
                    slot,
                    offset,
                    M as nat,
                    if ok {
                        Some(final(output)@)
                    } else {
                        None
                    },
                ),
            ),
            final(self).session == old(self).session,
            final(self).current_version_length == old(self).current_version_length,
    {
        let ok = self.backend.read(slot, offset, output).is_ok();
        self.calls = Ghost(
            self.calls@.push(
                BackendCall::Read(
                    slot,
                    offset,
                    M as nat,
                    if ok {
                        Some(output@)
                    } else {
                        None
                    },
                ),
            ),
        );
        ok
    }

    /// Asks the backend whether `signature` is a valid RSA-PSS signature by
    /// `public_key` over `digest`; `None` when the check itself failed.
    fn check_rsa(
        &mut self,
        public_key: &[u8; RSA_PUBLIC_KEY_SIZE],
        signature: &[u8; RSA_SIGNATURE_SIZE],
        digest: &[u8; 32],
    ) -> (r: Option<bool>)
        ensures
            recorded(
                old(self)@,
                final(self)@,
                BackendCall::VerifyRsa(public_key@, signature@, digest@, r),
            ),
            final(self).session == old(self).session,
            final(self).current_version_length == old(self).current_version_length,
    {
        let r = match self.backend.verify_rsa_pss(public_key, signature, digest) {
            Ok(accepted) => Some(accepted),
            Err(_) => None,
        };
        self.calls = Ghost(
            self.calls@.push(BackendCall::VerifyRsa(public_key@, signature@, digest@, r)),
        );
        r
    }

    /// Selects `slot` with `sequence` in metadata entry `activation_entry`.
    fn flash_activate(&mut self, slot: u8, sequence: u32, activation_entry: u8) -> (ok: bool)
        ensures
            recorded_mutation(
                old(self)@,
                final(self)@,
                Mutation::Activate(slot, sequence, activation_entry),
                BackendCall::Activate(slot, sequence, activation_entry, ok),
            ),
            final(self).session == old(self).session,
            final(self).current_version_length == old(self).current_version_length,
    {
        let ok = self.backend.activate(slot, sequence, activation_entry).is_ok();
        self.mutations = Ghost(
            self.mutations@.push(Mutation::Activate(slot, sequence, activation_entry)),
        );
        self.calls = Ghost(
            self.calls@.push(BackendCall::Activate(slot, sequence, activation_entry, ok)),
        );
        ok
    }
}

impl<B: UpdateBackend> UsbUpdater<B> {
    pub fn new(
        backend: B,
        trusted_key_digest: [u8; 32],
        current_version: &str,
        current_secure_version: u32,
    ) -> (r: Self)
        requires
            1 <= current_version.spec_bytes().len() <= MAX_VERSION_LENGTH,
        ensures
            r.wf(),
            r@.session is None,
            r@.next_session_id == 1,
            r@.current_version == current_version.spec_bytes(),
            r@.current_secure_version == current_secure_version,
            r@.trusted_key_digest == trusted_key_digest@,
            r@.mutations == Seq::<Mutation>::empty(),
            r@.calls == Seq::<BackendCall>::empty(),
            r.spec_backend() == backend,
    {
        let bytes = current_version.as_bytes();
        let mut version = [0u8; MAX_VERSION_LENGTH];
        copy_into(&mut version, 0, bytes);
        assert(version@.subrange(0, bytes@.len() as int) =~= bytes@);
        UsbUpdater {
            backend,
            trusted_key_digest,
            current_version: version,
            current_version_length: bytes.len(),
            current_secure_version,
            next_session_id: 1,
            session: None,
            mutations: Ghost(Seq::empty()),
            calls: Ghost(Seq::empty()),
        }
    }

    /// Revoke uncommitted authority even when the host sends no update requests.
    /// A flash primitive already in progress is allowed to finish safely.
    pub fn poll(&mut self)
        requires
            old(self).wf(),
        ensures
            final(self).wf(),
            same_configuration(old(self)@, final(self)@),
            unapproved_step(old(self)@, final(self)@),
            final(self)@.mutations == old(self)@.mutations,
            final(self)@.session is Some == old(self)@.session is Some,
            poll_result(old(self)@, final(self)@),
            appended(old(self)@, final(self)@),
    {
        proof {
            lemma_made_start(old(self)@);
        }
        match self.session.take() {
            Some(mut session) => {
                let now = self.clock();
                session.expire(now);
                self.session = Some(session);
                assert(self@ == polled(old(self)@, now));
                proof {
                    lemma_made_push(old(self)@, old(self)@, self@, BackendCall::Clock(now));
                }
            },
            None => {},
        }
    }

    fn status(&self, request: &[u8]) -> (r: StatusCode)
        ensures
            r == status_result(self@, request@),
    {
        if request.len() == 0 {
            return StatusCode::Success;
        }
        let id = match parse_session_id(request) {
            Some(id) => id,
            None => {
                return StatusCode::InvalidRequest;
            },
        };
        match &self.session {
            Some(session) => {
                if session.id == id {
                    if session.phase == Phase::Failed {
                        session.failure
                    } else {
                        StatusCode::Success
                    }
                } else {
                    StatusCode::SessionMismatch
                }
            },
            None => StatusCode::InvalidState,
        }
    }

    fn abort(&mut self, request: &[u8]) -> (r: StatusCode)
        requires
            old(self).wf(),
        ensures
            final(self).wf(),
            same_configuration(old(self)@, final(self)@),
            unapproved_step(old(self)@, final(self)@),
            final(self)@.mutations == old(self)@.mutations,
            r == abort_result(old(self)@, request@),
            final(self)@ == (if r == StatusCode::Success {
                UpdaterModel { session: None, ..old(self)@ }
            } else {
                old(self)@
            }),
    {
        let id = match parse_session_id(request) {
            Some(id) => id,
            None => {
                return StatusCode::InvalidRequest;
            },
        };
        let (matches, activated) = match &self.session {
            Some(session) => (session.id == id, session.phase == Phase::Activated),
            None => {
                return StatusCode::InvalidState;
            },
        };
        if matches && !activated {
            self.session = None;
            StatusCode::Success
        } else if !matches {
            StatusCode::SessionMismatch
        } else {
            StatusCode::InvalidState
        }
    }

    fn encode_response(&self, status: StatusCode, output: &mut [u8]) -> (r: usize)
        requires
            self.wf(),
            old(output)@.len() >= 21 + self@.current_version.len(),
        ensures
            r == 21 + self@.current_version.len(),
            final(output)@ == splice(old(output)@, 0, response_bytes(status, self@)),
    {
        let (phase, slot, id, completed, total) = match &self.session {
            Some(session) => (
                session.phase,
                session.target_slot,
                session.id,
                session.completed,
                session.total,
            ),
            None => (Phase::Idle, 0xffu8, 0u32, 0u32, 0u32),
        };
        let length = self.current_version_length;
        let mut header = [0u8; 21];
        header[0] = status.number();
        header[1] = PROTOCOL_VERSION;
        header[2] = phase.number();
        header[3] = slot;
        copy_into(&mut header, 4, &u32_to_le_bytes(id));
        copy_into(&mut header, 8, &u32_to_le_bytes(completed));
        copy_into(&mut header, 12, &u32_to_le_bytes(total));
        copy_into(&mut header, 16, &u32_to_le_bytes(self.current_secure_version));
        header[20] = length as u8;
        let ghost start = output@;
        copy_into(output, 0, &header);
        copy_into(output, 21, slice_subrange(&self.current_version, 0, length));
        assert(final(output)@ =~= splice(start, 0, response_bytes(status, self@)));
        21 + length
    }
}

fn parse_session_id(request: &[u8]) -> (r: Option<u32>)
    ensures
        r is Some <==> request@.len() == 4,
        r matches Some(id) ==> id == le_u32_at(request@, 0),
{
    if request.len() == 4 {
        Some(read_le_u32(request, 0))
    } else {
        None
    }
}

/// The sequence number that selects the slot other than the active one in
/// `layout`, when the layout names a slot and metadata entry and that slot
/// can be selected.
pub open spec fn layout_target(layout: UpdateLayout) -> Option<u32> {
    if layout.active_slot > 1 || layout.activation_entry > 1 {
        None
    } else {
        spec_next_sequence(layout.active_sequence, (1 - layout.active_slot) as u8)
    }
}

/// The session an approved BEGIN starts on `layout` at clock reading
/// `started_ms`: it takes the next session id and the image size, hash,
/// secure version and version string of the body, targets the slot that is
/// not active with the sequence that selects it, and starts erasing from
/// offset zero with nothing read back.
pub open spec fn begun_session(
    id: u32,
    body: Seq<u8>,
    layout: UpdateLayout,
    started_ms: u64,
) -> SessionModel {
    SessionModel {
        id,
        phase: Phase::Erasing,
        target_slot: (1 - layout.active_slot) as u8,
        active_slot: layout.active_slot,
        active_sequence: layout.active_sequence,
        activation_entry: layout.activation_entry,
        target_sequence: layout_target(layout)->0,
        total: le_u32_at(body, 1),
        completed: 0,
        expected_hash: body.subrange(5, 37),
        expected_secure_version: le_u32_at(body, 37),
        expected_version: body.subrange(42, body.len() as int),
        started_ms,
        last_progress_ms: started_ms,
        last_checked_ms: started_ms,
        failure: StatusCode::Success,
        full: Seq::empty(),
        signed: Seq::empty(),
        evidence: ActivationEvidence {
            descriptor: Seq::empty(),
            block: Seq::empty(),
            rsa_accepted: false,
            layout,
        },
    }
}

/// The id after `id`, skipping zero.
pub open spec fn following_id(id: u32) -> u32 {
    if id == 0xffff_ffff {
        1
    } else {
        (id + 1) as u32
    }
}

/// BEGIN on a body that passed `begin_refusal`, with presence given, over
/// the backend calls it made: a clock reading, then the layout. A layout
/// that cannot be read answers `Flash`, and one that does not select a slot
/// to update `InvalidState`, changing nothing but the record of calls.
/// Otherwise the `begun_session` replaces any earlier session, the next id
/// moves on, nothing is written to flash, and progress is recorded at one
/// more clock reading, where the session expires at once if the clock ran
/// backwards or a deadline already passed.
pub open spec fn begin_outcome(a: UpdaterModel, b: UpdaterModel, body: Seq<u8>, r: StatusCode) -> bool {
    let calls = made(a, b);
    &&& appended(a, b)
    &&& calls.len() >= 2
    &&& calls[0] is Clock
    &&& calls[1] is Layout
    &&& match calls[1]->Layout_0 {
        None => calls.len() == 2 && r == StatusCode::Flash && b == (UpdaterModel {
            calls: b.calls,
            ..a
        }),
        Some(layout) => match layout_target(layout) {
            None => calls.len() == 2 && r == StatusCode::InvalidState && b == (UpdaterModel {
                calls: b.calls,
                ..a
            }),
            Some(_) => {
                let fresh = begun_session(a.next_session_id, body, layout, calls[0]->Clock_0);
                &&& calls.len() == 3
                &&& calls[2] is Clock
                &&& b == (UpdaterModel {
                    session: Some(progressed_at(fresh, calls[2]->Clock_0)),
                    next_session_id: following_id(a.next_session_id),
                    calls: b.calls,
                    ..a
                })
                &&& r == progress_status(fresh, calls[2]->Clock_0)
            },
        },
    }
}

/// The updater with its session taken out for the duration of a request.
pub open spec fn detached(a: UpdaterModel, b: UpdaterModel) -> bool {
    &&& a.session is None
    &&& b.session is None
    &&& a.next_session_id == b.next_session_id
    &&& same_configuration(a, b)
    &&& updater_wf(a)
    &&& updater_wf(b)
}

impl<B: UpdateBackend> UsbUpdater<B> {
    fn begin(&mut self, request: &[u8], user_present: bool) -> (r: StatusCode)
        requires
            old(self).wf(),
        ensures
            final(self).wf(),
            same_configuration(old(self)@, final(self)@),
            final(self)@.mutations == old(self)@.mutations,
            !user_present ==> final(self)@ == old(self)@,
            final(self)@.session != old(self)@.session ==> user_present && (final(self)@.session
                matches Some(s) && s.completed == 0),
            begin_refusal(request@, old(self)@.current_secure_version) matches Some(status) ==> r
                == status && final(self)@ == old(self)@,
            begin_refusal(request@, old(self)@.current_secure_version) is None && !user_present
                ==> r == StatusCode::UserPresenceRequired,
            begin_refusal(request@, old(self)@.current_secure_version) is None && user_present
                ==> begin_outcome(old(self)@, final(self)@, request@, r),
            appended(old(self)@, final(self)@),
    {
        proof {
            lemma_made_start(old(self)@);
        }
        if request.len() < 42 || request[0] != PROTOCOL_VERSION {
            return StatusCode::InvalidRequest;
        }
        let total = read_le_u32(request, 1);
        let version_length = request[41] as usize;
        if request.len() != 42 + version_length || version_length == 0 || version_length
            > MAX_VERSION_LENGTH {
            return StatusCode::InvalidRequest;
        }
        if !(SIGNATURE_SECTOR_SIZE * 2 <= total && total <= OTA_SLOT_SIZE) || total
            % SIGNATURE_SECTOR_SIZE != 0 {
            return StatusCode::ImageSize;
        }
        let mut expected_hash = [0u8; 32];
        copy_into(&mut expected_hash, 0, slice_subrange(request, 5, 37));
        let expected_secure_version = read_le_u32(request, 37);
        if expected_secure_version < self.current_secure_version {
            return StatusCode::Rollback;
        }
        if !user_present {
            return StatusCode::UserPresenceRequired;
        }
        proof {
            lemma_made_start(old(self)@);
        }
        let ghost s0 = self@;
        let started_ms = self.clock();
        proof {
            lemma_made_push(old(self)@, s0, self@, BackendCall::Clock(started_ms));
        }
        let ghost s1 = self@;
        let read = self.read_layout();
        proof {
            lemma_made_push(old(self)@, s1, self@, BackendCall::Layout(read));
        }
        let layout = match read {
            Some(layout) => layout,
            None => {
                return StatusCode::Flash;
            },
        };
        if layout.active_slot > 1 || layout.activation_entry > 1 {
            return StatusCode::InvalidState;
        }
        let target_slot = 1 - layout.active_slot;
        let target_sequence = match next_sequence(layout.active_sequence, target_slot) {
            Some(sequence) => sequence,
            None => {
                return StatusCode::InvalidState;
            },
        };
        let mut expected_version = [0u8; MAX_VERSION_LENGTH];
        copy_into(&mut expected_version, 0, slice_subrange(request, 42, request.len()));
        assert(expected_version@.subrange(0, version_length as int).len() == version_length);
        let id = self.next_session_id;
        let next = self.next_session_id.wrapping_add(1);
        self.next_session_id = if next == 0 {
            1
        } else {
            next
        };
        let mut session = Session {
            started_ms,
            last_progress_ms: started_ms,
            last_checked_ms: started_ms,
            id,
            phase: Phase::Erasing,
            target_slot,
            active_slot: layout.active_slot,
            active_sequence: layout.active_sequence,
            activation_entry: layout.activation_entry,
            target_sequence,
            total,
            expected_hash,
            expected_secure_version,
            expected_version,
            expected_version_length: version_length,
            completed: 0,
            full_hasher: sha256_start(),
            signed_hasher: sha256_start(),
            failure: StatusCode::Success,
            evidence: Ghost(
                ActivationEvidence {
                    descriptor: Seq::empty(),
                    block: Seq::empty(),
                    rsa_accepted: false,
                    layout,
                },
            ),
        };
        let ghost s2 = self@;
        let now = self.clock();
        proof {
            lemma_made_push(old(self)@, s2, self@, BackendCall::Clock(now));
        }
        let status = session.progress(now);
        self.session = Some(session);
        assert(self@.session->0.expected_version =~= request@.subrange(42, request@.len() as int));
        assert(self@.session->0.expected_hash =~= request@.subrange(5, 37));
        status
    }

    fn write(&mut self, request: &[u8]) -> (r: StatusCode)
        requires
            old(self).wf(),
        ensures
            final(self).wf(),
            same_configuration(old(self)@, final(self)@),
            unapproved_step(old(self)@, final(self)@),
            write_request_outcome(old(self)@, final(self)@, request@, r),
            appended(old(self)@, final(self)@),
    {
        proof {
            lemma_made_start(old(self)@);
        }
        if request.len() < 9 || request.len() > 9 + MAX_WRITE_CHUNK {
            return StatusCode::InvalidRequest;
        }
        let id = read_le_u32(request, 0);
        let offset = read_le_u32(request, 4);
        let data = slice_subrange(request, 8, request.len());
        let mut session = match self.session.take() {
            Some(session) => session,
            None => {
                return StatusCode::InvalidState;
            },
        };
        let status = self.write_chunk(&mut session, id, offset, data);
        self.session = Some(session);
        status
    }

    fn write_chunk(&mut self, session: &mut Session, id: u32, offset: u32, data: &[u8]) -> (r:
        StatusCode)
        requires
            detached(old(self)@, old(self)@),
            old(self).current_version_length <= MAX_VERSION_LENGTH,
            old(session).shape(),
            session_wf(
                old(session).model(),
                old(self)@.trusted_key_digest,
                old(self)@.current_secure_version,
            ),
            data@.len() <= MAX_WRITE_CHUNK + 1,
        ensures
            detached(old(self)@, final(self)@),
            final(self).current_version_length == old(self).current_version_length,
            final(session).shape(),
            session_wf(
                final(session).model(),
                old(self)@.trusted_key_digest,
                old(self)@.current_secure_version,
            ),
            session_step(
                old(session).model(),
                final(session).model(),
                old(self)@.mutations,
                final(self)@.mutations,
                old(self)@.trusted_key_digest,
                old(self)@.current_secure_version,
            ),
            appended(old(self)@, final(self)@),
            write_outcome(
                old(session).model(),
                final(session).model(),
                id,
                offset,
                data@,
                made(old(self)@, final(self)@),
                old(self)@.mutations,
                final(self)@.mutations,
                r,
            ),
    {
        proof {
            lemma_made_start(old(self)@);
        }
        if session.id != id {
            return StatusCode::SessionMismatch;
        }
        let ghost s0 = self@;
        let now = self.clock();
        proof {
            lemma_made_push(old(self)@, s0, self@, BackendCall::Clock(now));
        }
        if session.expire(now) {
            return StatusCode::SessionExpired;
        }
        if session.phase != Phase::Receiving {
            return StatusCode::InvalidState;
        }
        if data.len() == 0 || data.len() % 32 != 0 {
            return StatusCode::InvalidRequest;
        }
        if offset != session.completed {
            return StatusCode::OutOfOrder;
        }
        let end = match offset.checked_add(data.len() as u32) {
            Some(end) => end,
            None => {
                return StatusCode::ImageSize;
            },
        };
        if end > session.total {
            return StatusCode::ImageSize;
        }
        let ghost s1 = self@;
        let ok = self.flash_write(session.target_slot, offset, data);
        proof {
            lemma_made_push(
                old(self)@,
                s1,
                self@,
                BackendCall::Write(session.target_slot, offset, data@, ok),
            );
            assert(self@.mutations.subrange(0, s1.mutations.len() as int) =~= s1.mutations);
        }
        if !ok {
            return session.fail(StatusCode::Flash);
        }
        session.completed = end;
        let ghost s2 = self@;
        let now = self.clock();
        proof {
            lemma_made_push(old(self)@, s2, self@, BackendCall::Clock(now));
        }
        session.progress(now)
    }
}

/// The session after the expiry check at clock reading `now_ms`: a live
/// session whose deadline has passed fails with `SessionExpired`; a live
/// session records the reading; any other session is unchanged.
pub open spec fn expired_at(s: SessionModel, now_ms: u64) -> SessionModel {
    if !is_live(s.phase) {
        s
    } else if deadline_passed(s, now_ms) {
        SessionModel {
            last_checked_ms: now_ms,
            phase: Phase::Failed,
            failure: StatusCode::SessionExpired,
            ..s
        }
    } else {
        SessionModel { last_checked_ms: now_ms, ..s }
    }
}

/// STATUS: an empty body asks about the updater, which is fine; a session id
/// must be four bytes and name the current session, whose recorded failure
/// is reported.
pub open spec fn status_result(m: UpdaterModel, body: Seq<u8>) -> StatusCode {
    if body.len() == 0 {
        StatusCode::Success
    } else if body.len() != 4 {
        StatusCode::InvalidRequest
    } else {
        match m.session {
            Some(s) => if s.id != le_u32_at(body, 0) {
                StatusCode::SessionMismatch
            } else if s.phase == Phase::Failed {
                s.failure
            } else {
                StatusCode::Success
            },
            None => StatusCode::InvalidState,
        }
    }
}

/// ABORT: a four-byte id naming the current session drops it unless it has
/// activated.
pub open spec fn abort_result(m: UpdaterModel, body: Seq<u8>) -> StatusCode {
    if body.len() != 4 {
        StatusCode::InvalidRequest
    } else {
        match m.session {
            Some(s) => if s.id != le_u32_at(body, 0) {
                StatusCode::SessionMismatch
            } else if s.phase == Phase::Activated {
                StatusCode::InvalidState
            } else {
                StatusCode::Success
            },
            None => StatusCode::InvalidState,
        }
    }
}

/// What a request on a session that is not live answers once the id matched:
/// an expired session reports the expiry, an activated one success for
/// ADVANCE, a failed one its failure.
pub open spec fn settled_result(s: SessionModel) -> StatusCode {
    if s.failure == StatusCode::SessionExpired {
        StatusCode::SessionExpired
    } else if s.phase == Phase::Activated {
        StatusCode::Success
    } else if s.phase == Phase::Failed {
        s.failure
    } else {
        StatusCode::InvalidState
    }
}

/// The backend calls made between `a` and `b`.
pub open spec fn made(a: UpdaterModel, b: UpdaterModel) -> Seq<BackendCall> {
    b.calls.subrange(a.calls.len() as int, b.calls.len() as int)
}

/// `b` keeps the record of backend calls of `a` and may add to it.
pub open spec fn appended(a: UpdaterModel, b: UpdaterModel) -> bool {
    &&& a.calls.len() <= b.calls.len()
    &&& b.calls.subrange(0, a.calls.len() as int) == a.calls
}

proof fn lemma_made_start(a: UpdaterModel)
    ensures
        appended(a, a),
        made(a, a) == Seq::<BackendCall>::empty(),
{
    assert(a.calls.subrange(0, a.calls.len() as int) =~= a.calls);
    assert(made(a, a) =~= Seq::<BackendCall>::empty());
}

proof fn lemma_made_push(a: UpdaterModel, b: UpdaterModel, c: UpdaterModel, call: BackendCall)
    requires
        appended(a, b),
        c.calls == b.calls.push(call),
    ensures
        appended(a, c),
        made(a, c) == made(a, b).push(call),
{
    assert(c.calls.subrange(0, a.calls.len() as int) =~= b.calls.subrange(0, a.calls.len() as int));
    assert(made(a, c) =~= made(a, b).push(call));
}

proof fn lemma_made_compose(a: UpdaterModel, b: UpdaterModel, c: UpdaterModel)
    requires
        appended(a, b),
        appended(b, c),
    ensures
        appended(a, c),
        made(a, c) == made(a, b) + made(b, c),
{
    assert(c.calls.subrange(0, a.calls.len() as int) =~= b.calls.subrange(0, a.calls.len() as int))
        by {
        assert forall|i: int| 0 <= i < a.calls.len() implies c.calls[i] == b.calls[i] by {
            assert(c.calls.subrange(0, b.calls.len() as int)[i] == b.calls[i]);
        }
    }
    assert(made(a, c) =~= made(a, b) + made(b, c)) by {
        assert forall|i: int| 0 <= i < b.calls.len() implies c.calls[i] == b.calls[i] by {
            assert(c.calls.subrange(0, b.calls.len() as int)[i] == b.calls[i]);
        }
    }
}

/// The session failed with `status`.
pub open spec fn failed(s: SessionModel, status: StatusCode) -> SessionModel {
    SessionModel { phase: Phase::Failed, failure: status, ..s }
}

/// A step that ends after `count` calls with the session failed with
/// `status`, that status answered, and no mutation requested.
pub open spec fn ends_failed(
    s: SessionModel,
    after: SessionModel,
    calls: Seq<BackendCall>,
    count: int,
    status: StatusCode,
    log_before: Seq<Mutation>,
    log_after: Seq<Mutation>,
    r: StatusCode,
) -> bool {
    &&& calls.len() == count
    &&& after == failed(s, status)
    &&& r == status
    &&& log_after == log_before
}

/// The session after recording progress at clock reading `now_ms`: it
/// expires instead when a deadline has passed.
pub open spec fn progressed_at(s: SessionModel, now_ms: u64) -> SessionModel {
    if deadline_passed(s, now_ms) {
        SessionModel {
            last_checked_ms: now_ms,
            phase: Phase::Failed,
            failure: StatusCode::SessionExpired,
            ..s
        }
    } else {
        SessionModel { last_checked_ms: now_ms, last_progress_ms: now_ms, ..s }
    }
}

/// What recording progress at clock reading `now_ms` answers.
pub open spec fn progress_status(s: SessionModel, now_ms: u64) -> StatusCode {
    if deadline_passed(s, now_ms) {
        StatusCode::SessionExpired
    } else {
        StatusCode::Success
    }
}

/// A step whose last call, number `k`, is the clock reading at which the
/// progress of `s` is recorded.
pub open spec fn ends_progressed(
    s: SessionModel,
    after: SessionModel,
    calls: Seq<BackendCall>,
    k: int,
    r: StatusCode,
) -> bool {
    &&& calls.len() == k + 1
    &&& calls[k] is Clock
    &&& after == progressed_at(s, calls[k]->Clock_0)
    &&& r == progress_status(s, calls[k]->Clock_0)
}

/// `call` reads `length` bytes of `slot` from `offset`.
pub open spec fn reads(call: BackendCall, slot: u8, offset: int, length: nat) -> bool {
    call matches BackendCall::Read(s, o, l, _) && s == slot && o == offset && l == length
}

/// The bytes a read gave, if it succeeded.
pub open spec fn read_result(call: BackendCall) -> Option<Seq<u8>> {
    call->Read_3
}

/// The expiry check at the start of a request on a session with a matching
/// id: `None` when the request goes on, at the clock reading in `calls[0]`,
/// with the session `SessionModel { last_checked_ms, ..before }`; otherwise
/// the request ends after that one call, with the session as the check left
/// it, no mutation, and `settled` answered for a session that was not live
/// or `SessionExpired` for one whose deadline passed.
pub open spec fn entry_check(
    before: SessionModel,
    after: SessionModel,
    calls: Seq<BackendCall>,
    settled: StatusCode,
    log_before: Seq<Mutation>,
    log_after: Seq<Mutation>,
    r: StatusCode,
) -> Option<bool> {
    if !(calls.len() >= 1 && calls[0] is Clock) {
        Some(false)
    } else if !is_live(before.phase) {
        Some(calls.len() == 1 && after == before && log_after == log_before && r == settled)
    } else if deadline_passed(before, calls[0]->Clock_0) {
        Some(
            calls.len() == 1 && after == expired_at(before, calls[0]->Clock_0) && log_after
                == log_before && r == StatusCode::SessionExpired,
        )
    } else {
        None
    }
}

/// WRITE on a session, over the backend calls it made: a foreign id changes
/// nothing and calls nothing; then the expiry check; then, with no mutation,
/// a session not receiving, an empty or unaligned chunk, a chunk not at the
/// current progress, or one past the image size is refused; an accepted
/// chunk's bytes are written to the target slot at its offset, and a failed
/// write fails the session with `Flash`, while a successful one advances the
/// progress, recorded at the next clock reading.
pub open spec fn write_outcome(
    before: SessionModel,
    after: SessionModel,
    id: u32,
    offset: u32,
    data: Seq<u8>,
    calls: Seq<BackendCall>,
    log_before: Seq<Mutation>,
    log_after: Seq<Mutation>,
    r: StatusCode,
) -> bool {
    let settled = if before.failure == StatusCode::SessionExpired {
        StatusCode::SessionExpired
    } else {
        StatusCode::InvalidState
    };
    if before.id != id {
        r == StatusCode::SessionMismatch && after == before && calls.len() == 0 && log_after
            == log_before
    } else {
        match entry_check(before, after, calls, settled, log_before, log_after, r) {
            Some(outcome) => outcome,
            None => {
                let mid = SessionModel { last_checked_ms: calls[0]->Clock_0, ..before };
                let refused = |status: StatusCode|
                    calls.len() == 1 && after == mid && r == status && log_after == log_before;
                if before.phase != Phase::Receiving {
                    refused(StatusCode::InvalidState)
                } else if data.len() == 0 || data.len() % 32 != 0 {
                    refused(StatusCode::InvalidRequest)
                } else if offset != before.completed {
                    refused(StatusCode::OutOfOrder)
                } else if offset + data.len() > before.total {
                    refused(StatusCode::ImageSize)
                } else {
                    &&& calls.len() >= 2
                    &&& calls[1] is Write
                    &&& calls[1] == BackendCall::Write(
                        before.target_slot,
                        offset,
                        data,
                        calls[1]->Write_3,
                    )
                    &&& log_after == log_before.push(
                        Mutation::Write(before.target_slot, offset, data),
                    )
                    &&& if calls[1]->Write_3 {
                        ends_progressed(
                            SessionModel { completed: (offset + data.len()) as u32, ..mid },
                            after,
                            calls,
                            2,
                            r,
                        )
                    } else {
                        calls.len() == 2 && after == failed(mid, StatusCode::Flash) && r
                            == StatusCode::Flash
                    }
                }
            },
        }
    }
}

/// The end of the verification step that starts at the session's progress.
pub open spec fn verify_step_end(s: SessionModel) -> int {
    if s.total - s.completed < VERIFY_STEP_SIZE {
        s.total as int
    } else {
        s.completed + VERIFY_STEP_SIZE
    }
}

/// The session after a 1 KiB chunk read back at its progress: the chunk
/// joins the bytes read back, and the signed bytes while it lies before the
/// signature sector.
pub open spec fn absorb(s: SessionModel, chunk: Seq<u8>) -> SessionModel {
    SessionModel {
        completed: (s.completed + 1024) as u32,
        full: s.full + chunk,
        signed: if s.completed < s.total - SIGNATURE_SECTOR_SIZE {
            s.signed + chunk
        } else {
            s.signed
        },
        ..s
    }
}

/// Verification up to `end`, over the backend calls it made: before each
/// chunk and once after the last, a clock reading at which the session may
/// expire; each 1 KiB chunk read back from the target slot at the progress,
/// a failed read failing the session with `Flash`; then, short of the whole
/// image, progress recorded at one more clock reading, and at the end of the
/// image `finish_outcome`.
pub open spec fn verify_outcome(
    s: SessionModel,
    end: int,
    after: SessionModel,
    calls: Seq<BackendCall>,
    log_before: Seq<Mutation>,
    log_after: Seq<Mutation>,
    trusted_key_digest: Seq<u8>,
    current_secure_version: u32,
    r: StatusCode,
) -> bool
    decreases end - s.completed,
{
    match entry_check(s, after, calls, StatusCode::InvalidState, log_before, log_after, r) {
        Some(outcome) => is_live(s.phase) && outcome,
        None => {
            let mid = SessionModel { last_checked_ms: calls[0]->Clock_0, ..s };
            if s.completed < end {
                if !(calls.len() >= 2 && reads(calls[1], s.target_slot, s.completed as int, 1024)
                    && s.completed + 1024 <= end <= s.total) {
                    false
                } else {
                    match read_result(calls[1]) {
                        None => ends_failed(
                            mid,
                            after,
                            calls,
                            2,
                            StatusCode::Flash,
                            log_before,
                            log_after,
                            r,
                        ),
                        Some(chunk) => verify_outcome(
                            absorb(mid, chunk),
                            end,
                            after,
                            calls.subrange(2, calls.len() as int),
                            log_before,
                            log_after,
                            trusted_key_digest,
                            current_secure_version,
                            r,
                        ),
                    }
                }
            } else if s.completed != s.total {
                ends_progressed(mid, after, calls, 1, r) && log_after == log_before
            } else {
                finish_outcome(
                    mid,
                    after,
                    calls.subrange(1, calls.len() as int),
                    log_before,
                    log_after,
                    trusted_key_digest,
                    current_secure_version,
                    r,
                )
            }
        },
    }
}

/// The end of verification, over the backend calls it made: an image whose
/// read-back hash differs from the approved one fails with `HashMismatch`
/// before any call; then the descriptor is read from offset zero, and a
/// failed read fails with `Flash`, a descriptor without application metadata
/// with `Signature`, a secure version below the running one with `Rollback`,
/// and one other than approved, or another version string, with
/// `VersionMismatch`; then `signature_outcome`.
pub open spec fn finish_outcome(
    s: SessionModel,
    after: SessionModel,
    calls: Seq<BackendCall>,
    log_before: Seq<Mutation>,
    log_after: Seq<Mutation>,
    trusted_key_digest: Seq<u8>,
    current_secure_version: u32,
    r: StatusCode,
) -> bool {
    let fails = |count: int, status: StatusCode|
        ends_failed(s, after, calls, count, status, log_before, log_after, r);
    if sha256(s.full) != s.expected_hash {
        fails(0, StatusCode::HashMismatch)
    } else if !(calls.len() >= 1 && reads(calls[0], s.target_slot, 0, APP_DESCRIPTOR_PREFIX_SIZE as nat)) {
        false
    } else {
        match read_result(calls[0]) {
            None => fails(1, StatusCode::Flash),
            Some(descriptor) => match spec_image_metadata(descriptor) {
                None => fails(1, StatusCode::Signature),
                Some((v, n)) => if v < current_secure_version {
                    fails(1, StatusCode::Rollback)
                } else if v != s.expected_secure_version || descriptor.subrange(48, 48 + n)
                    != s.expected_version {
                    fails(1, StatusCode::VersionMismatch)
                } else {
                    signature_outcome(
                        s,
                        descriptor,
                        after,
                        calls,
                        log_before,
                        log_after,
                        trusted_key_digest,
                        r,
                    )
                },
            },
        }
    }
}

/// The signature check, over the calls from the second on: the signature
/// block is read from the signature sector, and a failed read fails with
/// `Flash`; a block not valid for the trusted key, or whose digest is not
/// that of the signed bytes read back, fails with `Signature`; the RSA check
/// is handed the block's key and signature and that digest, and a refusal
/// fails with `Signature` and an error with `Flash`; then
/// `activation_outcome`.
pub open spec fn signature_outcome(
    s: SessionModel,
    descriptor: Seq<u8>,
    after: SessionModel,
    calls: Seq<BackendCall>,
    log_before: Seq<Mutation>,
    log_after: Seq<Mutation>,
    trusted_key_digest: Seq<u8>,
    r: StatusCode,
) -> bool {
    let fails = |count: int, status: StatusCode|
        ends_failed(s, after, calls, count, status, log_before, log_after, r);
    if !(calls.len() >= 2 && reads(
        calls[1],
        s.target_slot,
        s.total - SIGNATURE_SECTOR_SIZE,
        SIGNATURE_BLOCK_SIZE as nat,
    )) {
        false
    } else {
        match read_result(calls[1]) {
            None => fails(2, StatusCode::Flash),
            Some(block) => if !signature_block_valid(block, trusted_key_digest) || block.subrange(
                4,
                36,
            ) != sha256(s.signed) {
                fails(2, StatusCode::Signature)
            } else if !(calls.len() >= 3 && calls[2] is VerifyRsa && calls[2]
                == BackendCall::VerifyRsa(
                block.subrange(36, 812),
                block.subrange(812, 1196),
                sha256(s.signed),
                calls[2]->VerifyRsa_3,
            )) {
                false
            } else {
                match calls[2]->VerifyRsa_3 {
                    None => fails(3, StatusCode::Flash),
                    Some(false) => fails(3, StatusCode::Signature),
                    Some(true) => activation_outcome(
                        s,
                        descriptor,
                        block,
                        after,
                        calls,
                        log_before,
                        log_after,
                        r,
                    ),
                }
            },
        }
    }
}

/// Activation, over the calls from the fourth on: the layout is read again,
/// and a failed read fails with `Flash` and a layout other than the one
/// recorded at BEGIN with `ActiveSlotChanged`; at the next clock reading the
/// session may expire; otherwise the evidence is recorded and the target
/// slot activated with the approved sequence and metadata entry; a failed
/// activation fails with `Flash`, a successful one activates the session.
pub open spec fn activation_outcome(
    s: SessionModel,
    descriptor: Seq<u8>,
    block: Seq<u8>,
    after: SessionModel,
    calls: Seq<BackendCall>,
    log_before: Seq<Mutation>,
    log_after: Seq<Mutation>,
    r: StatusCode,
) -> bool {
    let fails = |count: int, status: StatusCode|
        ends_failed(s, after, calls, count, status, log_before, log_after, r);
    if !(calls.len() >= 4 && calls[3] is Layout) {
        false
    } else {
        match calls[3]->Layout_0 {
            None => fails(4, StatusCode::Flash),
            Some(layout) => if layout != (UpdateLayout {
                active_slot: s.active_slot,
                active_sequence: s.active_sequence,
                activation_entry: s.activation_entry,
            }) {
                fails(4, StatusCode::ActiveSlotChanged)
            } else if !(calls.len() >= 5 && calls[4] is Clock) {
                false
            } else if deadline_passed(s, calls[4]->Clock_0) {
                calls.len() == 5 && after == expired_at(s, calls[4]->Clock_0) && r
                    == StatusCode::SessionExpired && log_after == log_before
            } else {
                let armed = SessionModel {
                    last_checked_ms: calls[4]->Clock_0,
                    evidence: ActivationEvidence { descriptor, block, rsa_accepted: true, layout },
                    ..s
                };
                &&& calls.len() == 6
                &&& calls[5] is Activate
                &&& calls[5] == BackendCall::Activate(
                    s.target_slot,
                    s.target_sequence,
                    s.activation_entry,
                    calls[5]->Activate_3,
                )
                &&& log_after == log_before.push(
                    Mutation::Activate(s.target_slot, s.target_sequence, s.activation_entry),
                )
                &&& if calls[5]->Activate_3 {
                    after == (SessionModel {
                        phase: Phase::Activated,
                        failure: StatusCode::Success,
                        ..armed
                    }) && r == StatusCode::Success
                } else {
                    after == failed(armed, StatusCode::Flash) && r == StatusCode::Flash
                }
            },
        }
    }
}

/// The erase step of one ADVANCE, over the backend calls it made: the next
/// block of at most 64 KiB from the progress is erased in the target slot; a
/// failed erase fails the session with `Flash`; otherwise the progress moves
/// past the block, or after the last block the session starts receiving from
/// offset zero, recorded at the next clock reading.
pub open spec fn erase_outcome(
    s: SessionModel,
    after: SessionModel,
    calls: Seq<BackendCall>,
    log_before: Seq<Mutation>,
    log_after: Seq<Mutation>,
    r: StatusCode,
) -> bool {
    let length = (if s.total - s.completed < ERASE_STEP_SIZE {
        s.total - s.completed
    } else {
        ERASE_STEP_SIZE as int
    }) as u32;
    let next = if s.completed + length == s.total {
        SessionModel { completed: 0, phase: Phase::Receiving, ..s }
    } else {
        SessionModel { completed: (s.completed + length) as u32, ..s }
    };
    &&& calls.len() >= 1
    &&& calls[0] is Erase
    &&& calls[0] == BackendCall::Erase(s.target_slot, s.completed, length, calls[0]->Erase_3)
    &&& log_after == log_before.push(Mutation::Erase(s.target_slot, s.completed, length))
    &&& if calls[0]->Erase_3 {
        ends_progressed(next, after, calls, 1, r)
    } else {
        calls.len() == 1 && after == failed(s, StatusCode::Flash) && r == StatusCode::Flash
    }
}

/// ADVANCE on a session, over the backend calls it made: a foreign id
/// changes nothing and calls nothing; the expiry check answers a session
/// that is not live with `settled_result`; then an erasing session makes
/// `erase_outcome`, a receiving session that has not received the whole
/// image is refused, and a receiving or verifying session makes one
/// verification step, a receiving one from offset zero with nothing read
/// back.
pub open spec fn advance_outcome(
    before: SessionModel,
    after: SessionModel,
    id: u32,
    calls: Seq<BackendCall>,
    log_before: Seq<Mutation>,
    log_after: Seq<Mutation>,
    trusted_key_digest: Seq<u8>,
    current_secure_version: u32,
    r: StatusCode,
) -> bool {
    if before.id != id {
        r == StatusCode::SessionMismatch && after == before && calls.len() == 0 && log_after
            == log_before
    } else {
        match entry_check(
            before,
            after,
            calls,
            settled_result(before),
            log_before,
            log_after,
            r,
        ) {
            Some(outcome) => outcome,
            None => {
                let mid = SessionModel { last_checked_ms: calls[0]->Clock_0, ..before };
                let rest = calls.subrange(1, calls.len() as int);
                if before.phase == Phase::Erasing {
                    erase_outcome(mid, after, rest, log_before, log_after, r)
                } else if before.phase == Phase::Receiving && before.completed != before.total {
                    calls.len() == 1 && after == mid && r == StatusCode::InvalidState && log_after
                        == log_before
                } else {
                    let start = if before.phase == Phase::Receiving {
                        SessionModel {
                            phase: Phase::Verifying,
                            completed: 0,
                            full: Seq::empty(),
                            signed: Seq::empty(),
                            ..mid
                        }
                    } else {
                        mid
                    };
                    verify_outcome(
                        start,
                        verify_step_end(start),
                        after,
                        rest,
                        log_before,
                        log_after,
                        trusted_key_digest,
                        current_secure_version,
                        r,
                    )
                }
            },
        }
    }
}

/// A WRITE body: the session id, the offset and the chunk; a body without
/// a chunk or with one above the largest chunk is refused and a WRITE
/// without a session is out of place, both changing nothing; otherwise the
/// session makes the `write_outcome` step and nothing else changes.
pub open spec fn write_request_outcome(
    a: UpdaterModel,
    b: UpdaterModel,
    body: Seq<u8>,
    r: StatusCode,
) -> bool {
    if body.len() < 9 || body.len() > 9 + MAX_WRITE_CHUNK {
        r == StatusCode::InvalidRequest && b == a
    } else {
        match a.session {
            None => r == StatusCode::InvalidState && b == a,
            Some(s) => {
                &&& appended(a, b)
                &&& b == (UpdaterModel {
                    session: b.session,
                    mutations: b.mutations,
                    calls: b.calls,
                    ..a
                })
                &&& b.session matches Some(t) && write_outcome(
                    s,
                    t,
                    le_u32_at(body, 0),
                    le_u32_at(body, 4),
                    body.subrange(8, body.len() as int),
                    made(a, b),
                    a.mutations,
                    b.mutations,
                    r,
                )
            },
        }
    }
}

/// An ADVANCE body: a four-byte session id; anything else is refused and an
/// ADVANCE without a session is out of place, both changing nothing;
/// otherwise the session makes the `advance_outcome` step and nothing else
/// changes.
pub open spec fn advance_request_outcome(
    a: UpdaterModel,
    b: UpdaterModel,
    body: Seq<u8>,
    r: StatusCode,
) -> bool {
    if body.len() != 4 {
        r == StatusCode::InvalidRequest && b == a
    } else {
        match a.session {
            None => r == StatusCode::InvalidState && b == a,
            Some(s) => {
                &&& appended(a, b)
                &&& b == (UpdaterModel {
                    session: b.session,
                    mutations: b.mutations,
                    calls: b.calls,
                    ..a
                })
                &&& b.session matches Some(t) && advance_outcome(
                    s,
                    t,
                    le_u32_at(body, 0),
                    made(a, b),
                    a.mutations,
                    b.mutations,
                    a.trusted_key_digest,
                    a.current_secure_version,
                    r,
                )
            },
        }
    }
}

/// One request on a detached session: the updater's other state is kept, the
/// session stays well formed, and the session makes one `session_step`.
pub open spec fn session_request(
    a: UpdaterModel,
    b: UpdaterModel,
    x: SessionModel,
    y: SessionModel,
) -> bool {
    &&& detached(a, b)
    &&& session_wf(y, a.trusted_key_digest, a.current_secure_version)
    &&& session_step(x, y, a.mutations, b.mutations, a.trusted_key_digest, a.current_secure_version)
}

impl<B: UpdateBackend> UsbUpdater<B> {
    fn advance(&mut self, request: &[u8]) -> (r: StatusCode)
        requires
            old(self).wf(),
        ensures
            final(self).wf(),
            same_configuration(old(self)@, final(self)@),
            unapproved_step(old(self)@, final(self)@),
            advance_request_outcome(old(self)@, final(self)@, request@, r),
            appended(old(self)@, final(self)@),
    {
        proof {
            lemma_made_start(old(self)@);
        }
        let id = match parse_session_id(request) {
            Some(id) => id,
            None => {
                return StatusCode::InvalidRequest;
            },
        };
        let mut session = match self.session.take() {
            Some(session) => session,
            None => {
                return StatusCode::InvalidState;
            },
        };
        let status = self.advance_session(&mut session, id);
        self.session = Some(session);
        status
    }

    fn advance_session(&mut self, session: &mut Session, id: u32) -> (r: StatusCode)
        requires
            detached(old(self)@, old(self)@),
            old(self).current_version_length <= MAX_VERSION_LENGTH,
            old(session).shape(),
            session_wf(
                old(session).model(),
                old(self)@.trusted_key_digest,
                old(self)@.current_secure_version,
            ),
        ensures
            final(self).current_version_length == old(self).current_version_length,
            final(session).shape(),
            session_request(old(self)@, final(self)@, old(session).model(), final(session).model()),
            appended(old(self)@, final(self)@),
            advance_outcome(
                old(session).model(),
                final(session).model(),
                id,
                made(old(self)@, final(self)@),
                old(self)@.mutations,
                final(self)@.mutations,
                old(self)@.trusted_key_digest,
                old(self)@.current_secure_version,
                r,
            ),
    {
        proof {
            lemma_made_start(old(self)@);
        }
        if session.id != id {
            return StatusCode::SessionMismatch;
        }
        let ghost s0 = self@;
        let now = self.clock();
        proof {
            lemma_made_push(old(self)@, s0, self@, BackendCall::Clock(now));
        }
        if session.expire(now) {
            return StatusCode::SessionExpired;
        }
        let ghost entered = self@;
        match session.phase {
            Phase::Erasing => {
                let remaining = session.total - session.completed;
                let length = if remaining < ERASE_STEP_SIZE {
                    remaining
                } else {
                    ERASE_STEP_SIZE
                };
                let ok = self.flash_erase(session.target_slot, session.completed, length);
                proof {
                    lemma_made_push(
                        old(self)@,
                        entered,
                        self@,
                        BackendCall::Erase(session.target_slot, session.completed, length, ok),
                    );
                    assert(self@.mutations.subrange(0, entered.mutations.len() as int)
                        =~= entered.mutations);
                    assert(made(old(self)@, self@).subrange(1, 2) =~= seq![
                        BackendCall::Erase(session.target_slot, session.completed, length, ok),
                    ]);
                }
                if !ok {
                    return session.fail(StatusCode::Flash);
                }
                session.completed = session.completed + length;
                if session.completed == session.total {
                    session.completed = 0;
                    session.phase = Phase::Receiving;
                }
                let ghost s2 = self@;
                let now = self.clock();
                proof {
                    lemma_made_push(old(self)@, s2, self@, BackendCall::Clock(now));
                    assert(made(old(self)@, self@).subrange(1, 3) =~= seq![
                        made(old(self)@, self@)[1],
                        BackendCall::Clock(now),
                    ]);
                }
                session.progress(now)
            },
            Phase::Receiving => {
                if session.completed != session.total {
                    return StatusCode::InvalidState;
                }
                session.phase = Phase::Verifying;
                session.completed = 0;
                session.full_hasher = sha256_start();
                session.signed_hasher = sha256_start();
                proof {
                    assert(Seq::<u8>::empty().subrange(0, 0) =~= Seq::<u8>::empty());
                }
                let r = self.verify_step(session);
                proof {
                    lemma_made_compose(old(self)@, entered, self@);
                    assert(made(old(self)@, self@).subrange(1, made(old(self)@, self@).len() as int)
                        =~= made(entered, self@));
                }
                r
            },
            Phase::Verifying => {
                let r = self.verify_step(session);
                proof {
                    lemma_made_compose(old(self)@, entered, self@);
                    assert(made(old(self)@, self@).subrange(1, made(old(self)@, self@).len() as int)
                        =~= made(entered, self@));
                }
                r
            },
            Phase::Activated => StatusCode::Success,
            Phase::Failed => session.failure,
            Phase::Idle => StatusCode::InvalidState,
        }
    }

    fn verify_step(&mut self, session: &mut Session) -> (r: StatusCode)
        requires
            detached(old(self)@, old(self)@),
            old(self).current_version_length <= MAX_VERSION_LENGTH,
            old(session).shape(),
            old(session).phase == Phase::Verifying,
            session_wf(
                old(session).model(),
                old(self)@.trusted_key_digest,
                old(self)@.current_secure_version,
            ),
        ensures
            final(self).current_version_length == old(self).current_version_length,
            final(session).shape(),
            session_request(old(self)@, final(self)@, old(session).model(), final(session).model()),
            appended(old(self)@, final(self)@),
            verify_outcome(
                old(session).model(),
                verify_step_end(old(session).model()),
                final(session).model(),
                made(old(self)@, final(self)@),
                old(self)@.mutations,
                final(self)@.mutations,
                old(self)@.trusted_key_digest,
                old(self)@.current_secure_version,
                r,
            ),
    {
        let ghost key = old(self)@.trusted_key_digest;
        let ghost floor = old(self)@.current_secure_version;
        let ghost log = old(self)@.mutations;
        let ghost start = old(session).model();
        let step_end = if session.total - session.completed < VERIFY_STEP_SIZE {
            session.total
        } else {
            session.completed + VERIFY_STEP_SIZE
        };
        let ghost end = step_end as int;
        let signed_length = session.total - SIGNATURE_SECTOR_SIZE;
        let mut buffer = [0u8; 1024];
        proof {
            lemma_made_start(old(self)@);
            assert forall|rest: Seq<BackendCall>, after: SessionModel, la: Seq<Mutation>, r: StatusCode|
                #[trigger] verify_outcome(start, end, after, rest, log, la, key, floor, r)
                implies verify_outcome(
                start,
                end,
                after,
                made(old(self)@, self@) + rest,
                log,
                la,
                key,
                floor,
                r,
            ) by {
                assert(made(old(self)@, self@) + rest =~= rest);
            }
        }
        while session.completed < step_end
            invariant
                detached(old(self)@, self@),
                self@.mutations == old(self)@.mutations,
                self.current_version_length == old(self).current_version_length,
                session.shape(),
                session.phase == Phase::Verifying,
                old(session).phase == Phase::Verifying,
                same_authority(old(session).model(), session.model()),
                session_wf(session.model(), key, floor),
                session.completed <= step_end,
                step_end <= session.total,
                step_end % 1024 == 0,
                step_end == verify_step_end(old(session).model()),
                end == step_end,
                start == old(session).model(),
                key == old(self)@.trusted_key_digest,
                floor == old(self)@.current_secure_version,
                log == old(self)@.mutations,
                signed_length == session.total - SIGNATURE_SECTOR_SIZE,
                appended(old(self)@, self@),
                forall|rest: Seq<BackendCall>, after: SessionModel, la: Seq<Mutation>, r: StatusCode|
                    #[trigger] verify_outcome(session.model(), end, after, rest, log, la, key, floor, r)
                    ==> verify_outcome(
                    start,
                    end,
                    after,
                    made(old(self)@, self@) + rest,
                    log,
                    la,
                    key,
                    floor,
                    r,
                ),
            decreases step_end - session.completed,
        {
            let ghost cur = session.model();
            let ghost before = self@;
            let now = self.clock();
            proof {
                lemma_made_push(old(self)@, before, self@, BackendCall::Clock(now));
            }
            if session.expire(now) {
                proof {
                    let calls = seq![BackendCall::Clock(now)];
                    assert(verify_outcome(cur, end, session.model(), calls, log, self@.mutations, key, floor, StatusCode::SessionExpired));
                    assert(made(old(self)@, before) + calls =~= made(old(self)@, self@));
                }
                return StatusCode::SessionExpired;
            }
            // Every chunk is a whole buffer: the image ends on a sector.
            assert(step_end - session.completed >= 1024);
            let ghost clocked = self@;
            let ok = self.flash_read(session.target_slot, session.completed, &mut buffer);
            let ghost read = BackendCall::Read(
                session.target_slot,
                session.completed,
                1024,
                if ok {
                    Some(buffer@)
                } else {
                    None
                },
            );
            proof {
                lemma_made_push(old(self)@, clocked, self@, read);
            }
            if !ok {
                let r = session.fail(StatusCode::Flash);
                proof {
                    let calls = seq![BackendCall::Clock(now), read];
                    assert(verify_outcome(cur, end, session.model(), calls, log, self@.mutations, key, floor, r));
                    assert(made(old(self)@, before) + calls =~= made(old(self)@, self@));
                }
                return r;
            }
            let ghost mid = session.model();
            let ghost full_before = absorbed(session.full_hasher);
            let ghost signed_before = absorbed(session.signed_hasher);
            sha256_update(&mut session.full_hasher, &buffer);
            if session.completed < signed_length {
                sha256_update(&mut session.signed_hasher, &buffer);
            }
            proof {
                let c = session.completed as int;
                let full = absorbed(session.full_hasher);
                assert(full == full_before + buffer@);
                assert(full_before == full.subrange(0, c));
                if c < signed_length {
                    assert(full.subrange(0, c + 1024) =~= full_before + buffer@);
                    assert(signed_before =~= full.subrange(0, c));
                } else {
                    assert(full.subrange(0, signed_length as int) =~= full_before.subrange(
                        0,
                        signed_length as int,
                    ));
                }
            }
            session.completed = session.completed + 1024;
            proof {
                let next = session.model();
                assert(next == absorb(mid, buffer@));
                let pair = seq![BackendCall::Clock(now), read];
                assert forall|rest: Seq<BackendCall>, after: SessionModel, la: Seq<Mutation>, r: StatusCode|
                    #[trigger] verify_outcome(next, end, after, rest, log, la, key, floor, r)
                    implies verify_outcome(
                    start,
                    end,
                    after,
                    made(old(self)@, self@) + rest,
                    log,
                    la,
                    key,
                    floor,
                    r,
                ) by {
                    let calls = pair + rest;
                    assert(calls.subrange(2, calls.len() as int) =~= rest);
                    assert(verify_outcome(cur, end, after, calls, log, la, key, floor, r));
                    assert(made(old(self)@, before) + calls =~= made(old(self)@, self@) + rest);
                }
            }
        }
        clear(&mut buffer);
        let ghost cur = session.model();
        let ghost before = self@;
        let now = self.clock();
        proof {
            lemma_made_push(old(self)@, before, self@, BackendCall::Clock(now));
        }
        if session.expire(now) {
            proof {
                let calls = seq![BackendCall::Clock(now)];
                assert(verify_outcome(cur, end, session.model(), calls, log, self@.mutations, key, floor, StatusCode::SessionExpired));
                assert(made(old(self)@, before) + calls =~= made(old(self)@, self@));
            }
            return StatusCode::SessionExpired;
        }
        if session.completed != session.total {
            let ghost clocked = self@;
            let later = self.clock();
            proof {
                lemma_made_push(old(self)@, clocked, self@, BackendCall::Clock(later));
            }
            let r = session.progress(later);
            proof {
                let calls = seq![BackendCall::Clock(now), BackendCall::Clock(later)];
                assert(verify_outcome(cur, end, session.model(), calls, log, self@.mutations, key, floor, r));
                assert(made(old(self)@, before) + calls =~= made(old(self)@, self@));
            }
            return r;
        }
        let ghost clocked = self@;
        let r = self.finish_verification(session);
        proof {
            lemma_made_compose(old(self)@, clocked, self@);
            let calls = seq![BackendCall::Clock(now)] + made(clocked, self@);
            assert(calls.subrange(1, calls.len() as int) =~= made(clocked, self@));
            assert(verify_outcome(cur, end, session.model(), calls, log, self@.mutations, key, floor, r));
            assert(made(old(self)@, before) + calls =~= made(old(self)@, self@));
        }
        r
    }

    fn finish_verification(&mut self, session: &mut Session) -> (r: StatusCode)
        requires
            detached(old(self)@, old(self)@),
            old(self).current_version_length <= MAX_VERSION_LENGTH,
            old(session).shape(),
            old(session).phase == Phase::Verifying,
            old(session).completed == old(session).total,
            session_wf(
                old(session).model(),
                old(self)@.trusted_key_digest,
                old(self)@.current_secure_version,
            ),
        ensures
            final(self).current_version_length == old(self).current_version_length,
            final(session).shape(),
            session_request(old(self)@, final(self)@, old(session).model(), final(session).model()),
            appended(old(self)@, final(self)@),
            finish_outcome(
                old(session).model(),
                final(session).model(),
                made(old(self)@, final(self)@),
                old(self)@.mutations,
                final(self)@.mutations,
                old(self)@.trusted_key_digest,
                old(self)@.current_secure_version,
                r,
            ),
    {
        proof {
            lemma_made_start(old(self)@);
        }
        let full_digest = sha256_finish(&session.full_hasher);
        if !same_bytes(&full_digest, &session.expected_hash) {
            return session.fail(StatusCode::HashMismatch);
        }
        let mut descriptor = [0u8; APP_DESCRIPTOR_PREFIX_SIZE];
        let ghost s0 = self@;
        let ok = self.flash_read(session.target_slot, 0, &mut descriptor);
        proof {
            lemma_made_push(
                old(self)@,
                s0,
                self@,
                BackendCall::Read(
                    session.target_slot,
                    0,
                    APP_DESCRIPTOR_PREFIX_SIZE as nat,
                    if ok {
                        Some(descriptor@)
                    } else {
                        None
                    },
                ),
            );
        }
        if !ok {
            return session.fail(StatusCode::Flash);
        }
        let (secure_version, version_length) = match parse_image_metadata(&descriptor) {
            Some(metadata) => metadata,
            None => {
                return session.fail(StatusCode::Signature);
            },
        };
        // Enforce the running firmware's floor directly on the read-back
        // descriptor before comparing it with the untrusted BEGIN claim.
        // Activation still requires the signature over this descriptor below.
        if secure_version < self.current_secure_version {
            return session.fail(StatusCode::Rollback);
        }
        if secure_version != session.expected_secure_version || !same_bytes(
            slice_subrange(&descriptor, 48, 48 + version_length),
            slice_subrange(&session.expected_version, 0, session.expected_version_length),
        ) {
            return session.fail(StatusCode::VersionMismatch);
        }
        let signed_digest = sha256_finish(&session.signed_hasher);
        let mut block = [0u8; SIGNATURE_BLOCK_SIZE];
        let ghost s1 = self@;
        let ok = self.flash_read(
            session.target_slot,
            session.total - SIGNATURE_SECTOR_SIZE,
            &mut block,
        );
        proof {
            lemma_made_push(
                old(self)@,
                s1,
                self@,
                BackendCall::Read(
                    session.target_slot,
                    (session.total - SIGNATURE_SECTOR_SIZE) as u32,
                    SIGNATURE_BLOCK_SIZE as nat,
                    if ok {
                        Some(block@)
                    } else {
                        None
                    },
                ),
            );
        }
        if !ok {
            return session.fail(StatusCode::Flash);
        }
        let signature = match parse_signature_block(&block, &self.trusted_key_digest) {
            Some(parts) => parts,
            None => {
                return session.fail(StatusCode::Signature);
            },
        };
        if !same_bytes(&signature.image_digest, &signed_digest) {
            return session.fail(StatusCode::Signature);
        }
        let ghost s2 = self@;
        let verdict = self.check_rsa(&signature.public_key, &signature.signature, &signed_digest);
        proof {
            lemma_made_push(
                old(self)@,
                s2,
                self@,
                BackendCall::VerifyRsa(
                    signature.public_key@,
                    signature.signature@,
                    signed_digest@,
                    verdict,
                ),
            );
        }
        match verdict {
            Some(true) => {},
            Some(false) => {
                return session.fail(StatusCode::Signature);
            },
            None => {
                return session.fail(StatusCode::Flash);
            },
        }
        let ghost s3 = self@;
        let read = self.read_layout();
        proof {
            lemma_made_push(old(self)@, s3, self@, BackendCall::Layout(read));
        }
        let layout = match read {
            Some(layout) => layout,
            None => {
                return session.fail(StatusCode::Flash);
            },
        };
        if layout.active_slot != session.active_slot || layout.active_sequence
            != session.active_sequence || layout.activation_entry != session.activation_entry {
            return session.fail(StatusCode::ActiveSlotChanged);
        }
        // RSA verification and layout reads can take time. Recheck immediately
        // before the persistent activation operation, not just at request entry.
        let ghost s4 = self@;
        let now = self.clock();
        proof {
            lemma_made_push(old(self)@, s4, self@, BackendCall::Clock(now));
        }
        if session.expire(now) {
            return StatusCode::SessionExpired;
        }
        session.evidence = Ghost(
            ActivationEvidence {
                descriptor: descriptor@,
                block: block@,
                rsa_accepted: true,
                layout,
            },
        );
        let ghost s5 = self@;
        let ok = self.flash_activate(
            session.target_slot,
            session.target_sequence,
            session.activation_entry,
        );
        proof {
            lemma_made_push(
                old(self)@,
                s5,
                self@,
                BackendCall::Activate(
                    session.target_slot,
                    session.target_sequence,
                    session.activation_entry,
                    ok,
                ),
            );
            assert(self@.mutations.subrange(0, s5.mutations.len() as int) =~= s5.mutations);
        }
        if !ok {
            return session.fail(StatusCode::Flash);
        }
        session.phase = Phase::Activated;
        session.failure = StatusCode::Success;
        StatusCode::Success
    }
}

/// The refusal a BEGIN body earns before presence is considered: a protocol
/// version other than 1 or a malformed length (`InvalidRequest`), an image
/// size that is not whole signature sectors between two sectors and a slot
/// (`ImageSize`), or a secure version below the running one (`Rollback`).
/// `None` when the body passes these checks.
pub open spec fn begin_refusal(body: Seq<u8>, current_secure_version: u32) -> Option<StatusCode> {
    if body.len() < 42 || body[0] != PROTOCOL_VERSION {
        Some(StatusCode::InvalidRequest)
    } else if body.len() != 42 + body[41] || body[41] == 0 || body[41] > MAX_VERSION_LENGTH {
        Some(StatusCode::InvalidRequest)
    } else if !(2 * SIGNATURE_SECTOR_SIZE <= le_u32_at(body, 1) <= OTA_SLOT_SIZE) || le_u32_at(
        body,
        1,
    ) % SIGNATURE_SECTOR_SIZE != 0 {
        Some(StatusCode::ImageSize)
    } else if le_u32_at(body, 37) < current_secure_version {
        Some(StatusCode::Rollback)
    } else {
        None
    }
}

/// The status of a request that the updater refuses from its bytes alone: an
/// empty request or an unknown operation is `InvalidRequest`; a BEGIN that
/// fails its checks gets their refusal, and a well-formed BEGIN without fresh
/// presence asks for it. `None` for every other request.
pub open spec fn request_refusal(
    request: Seq<u8>,
    user_present: bool,
    current_secure_version: u32,
) -> Option<StatusCode> {
    if request.len() == 0 || request[0] > 5 {
        Some(StatusCode::InvalidRequest)
    } else if request[0] == Operation::Begin.spec_number() {
        match begin_refusal(request.subrange(1, request.len() as int), current_secure_version) {
            Some(status) => Some(status),
            None => if user_present {
                None
            } else {
                Some(StatusCode::UserPresenceRequired)
            },
        }
    } else {
        None
    }
}

/// An approved BEGIN: the request names BEGIN and fresh presence was given.
pub open spec fn approved_begin(request: Seq<u8>, user_present: bool) -> bool {
    request.len() > 0 && request[0] == Operation::Begin.spec_number() && user_present
}

/// What one request does to the updater and answers, the expiry check
/// aside: an empty request or an unknown operation is refused; INFO succeeds
/// without a body; BEGIN answers its refusal, asks for presence, or makes
/// the `begin_outcome` step; WRITE and ADVANCE make their steps; STATUS
/// answers `status_result`; ABORT answers `abort_result` and drops the
/// session when it succeeds. Only BEGIN, WRITE, ADVANCE and a successful
/// ABORT change the updater.
pub open spec fn request_outcome(
    a: UpdaterModel,
    b: UpdaterModel,
    request: Seq<u8>,
    user_present: bool,
    r: StatusCode,
) -> bool {
    let body = request.subrange(1, request.len() as int);
    if request.len() == 0 || request[0] > 5 {
        r == StatusCode::InvalidRequest && b == a
    } else if request[0] == Operation::Info.spec_number() {
        b == a && r == (if request.len() == 1 {
            StatusCode::Success
        } else {
            StatusCode::InvalidRequest
        })
    } else if request[0] == Operation::Begin.spec_number() {
        match begin_refusal(body, a.current_secure_version) {
            Some(status) => r == status && b == a,
            None => if user_present {
                begin_outcome(a, b, body, r)
            } else {
                r == StatusCode::UserPresenceRequired && b == a
            },
        }
    } else if request[0] == Operation::Write.spec_number() {
        write_request_outcome(a, b, body, r)
    } else if request[0] == Operation::Advance.spec_number() {
        advance_request_outcome(a, b, body, r)
    } else if request[0] == Operation::Status.spec_number() {
        r == status_result(a, body) && b == a
    } else {
        r == abort_result(a, body) && b == (if r == StatusCode::Success {
            UpdaterModel { session: None, ..a }
        } else {
            a
        })
    }
}

/// The updater after the expiry check at clock reading `now_ms`, which is
/// recorded when there is a session to check.
pub open spec fn polled(a: UpdaterModel, now_ms: u64) -> UpdaterModel {
    match a.session {
        None => a,
        Some(s) => UpdaterModel {
            session: Some(expired_at(s, now_ms)),
            calls: a.calls.push(BackendCall::Clock(now_ms)),
            ..a
        },
    }
}

/// The expiry check from `a` to `b`: without a session nothing happens;
/// with one, the clock is read once and the session checked at that reading.
pub open spec fn poll_result(a: UpdaterModel, b: UpdaterModel) -> bool {
    match a.session {
        None => b == a,
        Some(_) => b.calls.len() == a.calls.len() + 1 && b.calls.last() is Clock && b == polled(
            a,
            b.calls.last()->Clock_0,
        ),
    }
}

/// The updater after the expiry check that precedes a request, read from
/// the record of calls `calls` that the request left.
pub open spec fn checked_before(a: UpdaterModel, calls: Seq<BackendCall>) -> UpdaterModel {
    match a.session {
        None => a,
        Some(_) => polled(a, calls[a.calls.len() as int]->Clock_0),
    }
}

impl<B: UpdateBackend> UsbUpdater<B> {
    fn handle_inner(&mut self, request: &[u8], user_present: bool) -> (r: StatusCode)
        requires
            old(self).wf(),
        ensures
            final(self).wf(),
            same_configuration(old(self)@, final(self)@),
            !approved_begin(request@, user_present) ==> unapproved_step(old(self)@, final(self)@),
            approved_begin(request@, user_present) ==> final(self)@.mutations == old(
                self,
            )@.mutations,
            request_refusal(request@, user_present, old(self)@.current_secure_version) matches Some(
                status,
            ) ==> r == status && final(self)@ == old(self)@,
            request_outcome(old(self)@, final(self)@, request@, user_present, r),
            appended(old(self)@, final(self)@),
    {
        proof {
            lemma_made_start(old(self)@);
        }
        if request.len() == 0 {
            return StatusCode::InvalidRequest;
        }
        let operation = match Operation::parse(request[0]) {
            Some(operation) => operation,
            None => {
                return StatusCode::InvalidRequest;
            },
        };
        let rest = slice_subrange(request, 1, request.len());
        match operation {
            Operation::Info => {
                if request.len() == 1 {
                    StatusCode::Success
                } else {
                    StatusCode::InvalidRequest
                }
            },
            Operation::Begin => self.begin(rest, user_present),
            Operation::Write => self.write(rest),
            Operation::Advance => self.advance(rest),
            Operation::Status => self.status(rest),
            Operation::Abort => self.abort(rest),
        }
    }

    /// Serves one update request and writes the response; returns its length.
    /// Only an approved BEGIN can start a session. Any other request keeps or
    /// drops the current session: it never changes what BEGIN approved,
    /// never revives a failed, expired or activated session, and requests
    /// at most one flash mutation, only while the session is live, only on
    /// its target slot inside the approved image, and an activation only when
    /// the read-back image, descriptor, signature and layout justify it. The
    /// response reports the session as the request left it.
    pub fn handle(&mut self, request: &[u8], user_present: bool, response: &mut [u8]) -> (r: usize)
        requires
            old(self).wf(),
            old(response)@.len() >= 21 + old(self)@.current_version.len(),
        ensures
            final(self).wf(),
            same_configuration(old(self)@, final(self)@),
            r == 21 + old(self)@.current_version.len(),
            appended(old(self)@, final(self)@),
            exists|status: StatusCode|
                #[trigger] request_outcome(
                    checked_before(old(self)@, final(self)@.calls),
                    final(self)@,
                    request@,
                    user_present,
                    status,
                ) && final(response)@ == splice(
                    old(response)@,
                    0,
                    response_bytes(status, final(self)@),
                ),
            !approved_begin(request@, user_present) ==> unapproved_step(old(self)@, final(self)@),
            approved_begin(request@, user_present) ==> final(self)@.mutations == old(
                self,
            )@.mutations,
            request_refusal(request@, user_present, old(self)@.current_secure_version) matches Some(
                status,
            ) ==> final(response)@[0] == status.spec_number() && final(self)@.mutations == old(
                self,
            )@.mutations,
    {
        self.poll();
        let ghost mid = self@;
        let status = self.handle_inner(request, user_present);
        proof {
            let c = self@;
            let a = old(self)@;
            if a.session is Some {
                assert(c.calls.subrange(0, mid.calls.len() as int)[a.calls.len() as int]
                    == mid.calls[a.calls.len() as int]);
                assert(a.calls.subrange(0, a.calls.len() as int) =~= a.calls);
                assert(mid.calls.subrange(0, a.calls.len() as int) =~= a.calls);
                lemma_made_compose(a, mid, c);
            } else {
                lemma_made_compose(a, mid, c);
            }
            assert(checked_before(a, c.calls) == mid);
        }
        proof {
            if !approved_begin(request@, user_present) {
                let a = old(self)@;
                let c = self@;
                if a.session is Some && mid.session is Some && c.session is Some {
                    lemma_session_steps_compose(
                        a.session->0,
                        mid.session->0,
                        c.session->0,
                        a.mutations,
                        c.mutations,
                        a.trusted_key_digest,
                        a.current_secure_version,
                    );
                }
            }
        }
        let length = self.encode_response(status, response);
        assert(request_outcome(checked_before(old(self)@, self@.calls), self@, request@, user_present, status));
        length
    }
}

/// Without an approved BEGIN no session comes into being and nothing is
/// written: fresh physical presence is the only source of update authority.
pub proof fn lemma_sessions_need_fresh_approval(a: UpdaterModel, b: UpdaterModel)
    requires
        unapproved_step(a, b),
        a.session is None,
    ensures
        b.session is None,
        b.mutations == a.mutations,
{
}

/// A failed, expired or activated session never changes again and no flash
/// mutation is requested for it: activation is terminal, and a revoked
/// session can only be replaced by a newly approved one.
pub proof fn lemma_settled_sessions_stay_settled(
    before: SessionModel,
    after: SessionModel,
    log_before: Seq<Mutation>,
    log_after: Seq<Mutation>,
    trusted_key_digest: Seq<u8>,
    current_secure_version: u32,
)
    requires
        session_step(
            before,
            after,
            log_before,
            log_after,
            trusted_key_digest,
            current_secure_version,
        ),
        !is_live(before.phase),
    ensures
        after == before,
        log_after == log_before,
{
}

/// Every erase, write and activation addresses the slot that was not active
/// when the session was approved; erases and writes stay below the approved
/// image size.
pub proof fn lemma_mutations_spare_the_active_slot(
    before: SessionModel,
    after: SessionModel,
    log_before: Seq<Mutation>,
    log_after: Seq<Mutation>,
    trusted_key_digest: Seq<u8>,
    current_secure_version: u32,
)
    requires
        session_step(
            before,
            after,
            log_before,
            log_after,
            trusted_key_digest,
            current_secure_version,
        ),
        session_wf(before, trusted_key_digest, current_secure_version),
        log_after != log_before,
    ensures
        match log_after.last() {
            Mutation::Erase(slot, offset, length) => slot == 1 - before.active_slot && slot
                != before.active_slot && offset + length <= before.total,
            Mutation::Write(slot, offset, data) => slot == 1 - before.active_slot && slot
                != before.active_slot && offset + data.len() <= before.total,
            Mutation::Activate(slot, sequence, _) => slot == 1 - before.active_slot && slot
                != before.active_slot && spec_next_sequence(before.active_sequence, slot)
                == Some(sequence),
        },
{
}

/// An activation is requested only after the whole target slot was read back
/// and hashed to the approved hash, the read-back descriptor and signature
/// block were accepted for the trusted key, the RSA check accepted the
/// signature over the read-back contents, and the active slot was unchanged.
pub proof fn lemma_activation_only_after_verification(
    before: SessionModel,
    after: SessionModel,
    log_before: Seq<Mutation>,
    log_after: Seq<Mutation>,
    trusted_key_digest: Seq<u8>,
    current_secure_version: u32,
)
    requires
        session_step(
            before,
            after,
            log_before,
            log_after,
            trusted_key_digest,
            current_secure_version,
        ),
        log_after != log_before,
        log_after.last() is Activate,
    ensures
        activation_justified(after, trusted_key_digest, current_secure_version),
        after.full.len() == before.total,
        sha256(after.full) == before.expected_hash,
        after.evidence.rsa_accepted,
        signature_block_valid(after.evidence.block, trusted_key_digest),
{
}


/// Only ESP32-S2 images are accepted: application metadata is found only in
/// an image prefix whose header names chip id 2 (bytes 12 and 13,
/// little-endian), so an activation stands on a read-back header naming the
/// ESP32-S2, as does a verified installed image.
pub proof fn lemma_only_esp32s2_images(
    prefix: Seq<u8>,
    s: SessionModel,
    trusted_key_digest: Seq<u8>,
    current_secure_version: u32,
)
    ensures
        spec_image_metadata(prefix) is Some ==> prefix[12] as int + 256 * prefix[13] as int == 2,
        activation_justified(s, trusted_key_digest, current_secure_version) ==> s.evidence.descriptor[12]
            as int + 256 * s.evidence.descriptor[13] as int == 2,
{
}


/// The application metadata of an 80-byte image prefix, in full: it is
/// found exactly when the prefix starts with the ESP image magic 0xE9, names
/// one to sixteen segments and chip id 2 (the ESP32-S2), carries the
/// application descriptor magic 0xABCD5432 at byte 32, and holds a version
/// string of 1 to 31 non-zero bytes from byte 48 ended by a zero byte; the
/// secure version is the word at byte 36 and the length that of the string.
pub proof fn lemma_image_metadata_fields(prefix: Seq<u8>, v: u32, n: int)
    requires
        prefix.len() == 80,
    ensures
        spec_image_metadata(prefix) == Some((v, n)) <==> {
            &&& prefix[0] == 0xe9
            &&& 1 <= prefix[1] <= 16
            &&& prefix[12] as int + 256 * prefix[13] as int == 2
            &&& le_u32_at(prefix, 32) == 0xabcd_5432u32
            &&& v == le_u32_at(prefix, 36)
            &&& 1 <= n <= 31
            &&& prefix[48 + n] == 0
            &&& forall|j: int| 0 <= j < n ==> #[trigger] prefix[48 + j] != 0
        },
{
    let field = prefix.subrange(48, 80);
    if spec_image_metadata(prefix) == Some((v, n)) {
        let c = choose|i: int| 0 <= i < field.len() && field[i] == 0 && forall|j: int|
            0 <= j < i ==> field[j] != 0;
        assert(c == n);
        assert(field[n] == prefix[48 + n]);
        assert forall|j: int| 0 <= j < n implies #[trigger] prefix[48 + j] != 0 by {
            assert(field[j] == prefix[48 + j]);
        }
    }
    if {
        &&& prefix[0] == 0xe9
        &&& 1 <= prefix[1] <= 16
        &&& prefix[12] as int + 256 * prefix[13] as int == 2
        &&& le_u32_at(prefix, 32) == 0xabcd_5432u32
        &&& v == le_u32_at(prefix, 36)
        &&& 1 <= n <= 31
        &&& prefix[48 + n] == 0
        &&& forall|j: int| 0 <= j < n ==> #[trigger] prefix[48 + j] != 0
    } {
        assert(field[n] == 0);
        assert forall|j: int| 0 <= j < n implies field[j] != 0 by {
            assert(field[j] == prefix[48 + j]);
        }
        let c = choose|i: int| 0 <= i < field.len() && field[i] == 0 && forall|j: int|
            0 <= j < i ==> field[j] != 0;
        assert(c == n) by {
            if c < n {
                assert(field[c] == prefix[48 + c]);
            } else if c > n {
                assert(field[n] != 0);
            }
        }
    }
}

} // verus!
