use salpa::platform::usb_update::{erase_address, slot_address, write_address, Error};
use salpa::usb_update::OTA_SLOT_SIZE;

#[test]
fn slot_offsets_map_into_their_partitions() {
    assert_eq!(slot_address(0, 0, 32), Ok(0x20000));
    assert_eq!(slot_address(1, 0x1000, 32), Ok(0x201000));
    assert_eq!(slot_address(1, OTA_SLOT_SIZE - 32, 32), Ok(0x200000 + OTA_SLOT_SIZE - 32));
}

#[test]
fn accesses_past_the_slot_or_to_other_slots_are_refused() {
    assert_eq!(slot_address(2, 0, 32), Err(Error::Address));
    assert_eq!(slot_address(0, OTA_SLOT_SIZE - 31, 32), Err(Error::Address));
    assert_eq!(slot_address(0, u32::MAX, 1), Err(Error::Address));
    assert_eq!(slot_address(0, 0, OTA_SLOT_SIZE as usize + 1), Err(Error::Address));
}

#[test]
fn erases_need_whole_sectors() {
    assert_eq!(erase_address(1, 0x1000, 0x2000), Ok(0x201000));
    assert_eq!(erase_address(1, 0x800, 0x1000), Err(Error::Address));
    assert_eq!(erase_address(1, 0x1000, 0x800), Err(Error::Address));
    assert_eq!(erase_address(1, 0x1000, 0), Err(Error::Address));
}

#[test]
fn writes_need_whole_encryption_blocks() {
    assert_eq!(write_address(0, 64, 992), Ok(0x20040));
    assert_eq!(write_address(0, 16, 32), Err(Error::Address));
    assert_eq!(write_address(0, 64, 31), Err(Error::Address));
    assert_eq!(write_address(0, 64, 0), Err(Error::Address));
}
