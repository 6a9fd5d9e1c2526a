//! Compile-time description of the FIDO flash partition.

use vstd::prelude::*;

verus! {

pub const FLASH_SIZE: usize = 4 * 1024 * 1024;

pub const FIDO_STORE_SIZE: usize = 128 * 1024;

pub const FIDO_STORE_OFFSET: usize = FLASH_SIZE - FIDO_STORE_SIZE;

pub const ERASE_SIZE: usize = 4096;

pub const FIDO_STORE_BLOCK_COUNT: usize = FIDO_STORE_SIZE / ERASE_SIZE;

/// The partition sits at the end of flash and consists of whole erase blocks.
pub proof fn lemma_partition_layout()
    ensures
        FIDO_STORE_OFFSET == 0x3e0000,
        FIDO_STORE_SIZE == 0x20000,
        FIDO_STORE_OFFSET % ERASE_SIZE == 0,
        FIDO_STORE_SIZE % ERASE_SIZE == 0,
        FIDO_STORE_BLOCK_COUNT == 32,
        FIDO_STORE_OFFSET + FIDO_STORE_SIZE == FLASH_SIZE,
{
}

/// The absolute flash range of a partition-relative range that lies inside
/// the partition.
pub open spec fn spec_absolute_range(offset: nat, len: nat) -> Option<(u32, u32)> {
    if offset + len <= FIDO_STORE_SIZE {
        Some(((FIDO_STORE_OFFSET + offset) as u32, (FIDO_STORE_OFFSET + offset + len) as u32))
    } else {
        None
    }
}

pub fn checked_absolute_range(offset: usize, len: usize) -> (r: Option<(u32, u32)>)
    ensures
        r == spec_absolute_range(offset as nat, len as nat),
{
    let end = match offset.checked_add(len) {
        Some(end) => end,
        None => return None,
    };
    if end > FIDO_STORE_SIZE {
        return None;
    }
    let absolute_start = FIDO_STORE_OFFSET + offset;
    let absolute_end = FIDO_STORE_OFFSET + end;
    Some((absolute_start as u32, absolute_end as u32))
}

/// Every range the layout admits lies inside the partition, within flash.
pub proof fn lemma_absolute_range_inside_partition(offset: nat, len: nat)
    ensures
        spec_absolute_range(offset, len) matches Some((start, end)) ==> {
            &&& FIDO_STORE_OFFSET <= start <= end <= FIDO_STORE_OFFSET + FIDO_STORE_SIZE
            &&& end - start == len
            &&& end <= FLASH_SIZE
        },
{
}

} // verus!
