//! Flash address rules of the ESP32-S2 update backend.
//!
//! Every erase, write and read that the updater asks for is addressed by slot
//! and offset; these rules turn it into a flash address that stays inside the
//! update slot, and refuse erases and writes that the flash primitives cannot
//! perform on whole sectors or encryption blocks.

use vstd::prelude::*;
use crate::platform::ota::{update_slot_offset, OTA_0_OFFSET, OTA_1_OFFSET};
use crate::usb_update::OTA_SLOT_SIZE;

verus! {

pub const FLASH_SECTOR_SIZE: u32 = 0x1000;

#[derive(Clone, Copy, Debug, PartialEq, Eq, Structural)]
pub enum Error {
    Address,
    Flash,
    Ota,
}

/// The flash offset of an update slot.
pub open spec fn slot_base(slot: u8) -> Option<u32> {
    if slot == 0 {
        Some(OTA_0_OFFSET)
    } else if slot == 1 {
        Some(OTA_1_OFFSET)
    } else {
        None
    }
}

/// The flash address of `length` bytes at `offset` in `slot`, when they lie
/// inside the slot.
pub open spec fn spec_slot_address(slot: u8, offset: u32, length: int) -> Option<u32> {
    match slot_base(slot) {
        Some(base) => if offset + length <= OTA_SLOT_SIZE {
            Some((base + offset) as u32)
        } else {
            None
        },
        None => None,
    }
}

pub fn slot_address(slot: u8, offset: u32, length: usize) -> (r: Result<u32, Error>)
    ensures
        r matches Ok(address) ==> spec_slot_address(slot, offset, length as int) == Some(address),
        r is Err ==> spec_slot_address(slot, offset, length as int) is None && r == Err::<
            u32,
            Error,
        >(Error::Address),
{
    let base = match update_slot_offset(slot) {
        Some(base) => base,
        None => {
            return Err(Error::Address);
        },
    };
    if length > u32::MAX as usize {
        return Err(Error::Address);
    }
    let end = match offset.checked_add(length as u32) {
        Some(end) => end,
        None => {
            return Err(Error::Address);
        },
    };
    if end > OTA_SLOT_SIZE {
        return Err(Error::Address);
    }
    match base.checked_add(offset) {
        Some(address) => Ok(address),
        None => Err(Error::Address),
    }
}

/// An erase covers whole, non-empty sectors inside the slot.
pub fn erase_address(slot: u8, offset: u32, length: u32) -> (r: Result<u32, Error>)
    ensures
        r matches Ok(address) ==> offset % FLASH_SECTOR_SIZE == 0 && length % FLASH_SECTOR_SIZE
            == 0 && length > 0 && spec_slot_address(slot, offset, length as int) == Some(address),
        r is Err <==> !(offset % FLASH_SECTOR_SIZE == 0 && length % FLASH_SECTOR_SIZE == 0 && length
            > 0 && spec_slot_address(slot, offset, length as int) is Some),
        r is Err ==> r == Err::<u32, Error>(Error::Address),
{
    if offset % FLASH_SECTOR_SIZE != 0 || length % FLASH_SECTOR_SIZE != 0 || length == 0 {
        return Err(Error::Address);
    }
    slot_address(slot, offset, length as usize)
}

/// A write covers whole, non-empty 32-byte blocks inside the slot.
pub fn write_address(slot: u8, offset: u32, length: usize) -> (r: Result<u32, Error>)
    ensures
        r matches Ok(address) ==> offset % 32 == 0 && length % 32 == 0 && length > 0
            && spec_slot_address(slot, offset, length as int) == Some(address),
        r is Err <==> !(offset % 32 == 0 && length % 32 == 0 && length > 0 && spec_slot_address(
            slot,
            offset,
            length as int,
        ) is Some),
        r is Err ==> r == Err::<u32, Error>(Error::Address),
{
    if length == 0 || offset % 32 != 0 || length % 32 != 0 {
        return Err(Error::Address);
    }
    slot_address(slot, offset, length)
}

/// An address the rules hand out lies inside the addressed slot, together
/// with all the bytes it covers.
pub proof fn lemma_addresses_stay_in_their_slot(slot: u8, offset: u32, length: int)
    requires
        length >= 0,
        spec_slot_address(slot, offset, length) is Some,
    ensures
        ({
            let base = slot_base(slot)->0;
            let address = spec_slot_address(slot, offset, length)->0;
            base <= address && address + length <= base + OTA_SLOT_SIZE
        }),
{
}

} // verus!
