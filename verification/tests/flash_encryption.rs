use salpa::platform::flash_encryption::{
    encrypted_write_is_aligned, fido_store_mapping, mapped_virtual_address, mappings,
    MMU_PAGE_SIZE, RESERVED_DROM_END, RESERVED_DROM_START,
};

#[test]
fn mappings_are_page_aligned_and_disjoint() {
    let table = mappings();
    for (index, mapping) in table.iter().enumerate() {
        assert!(mapping.virtual_start.is_multiple_of(MMU_PAGE_SIZE));
        assert!(mapping.physical_start.is_multiple_of(MMU_PAGE_SIZE));
        assert!(mapping.size.is_multiple_of(MMU_PAGE_SIZE));
        assert!(mapping.virtual_start >= RESERVED_DROM_START);
        assert!(mapping.virtual_end() <= RESERVED_DROM_END);
        for other in &table[index + 1..] {
            assert!(mapping.virtual_end() <= other.virtual_start);
        }
    }
}

#[test]
fn mappings_cover_release_reads() {
    assert_eq!(mapped_virtual_address(0x0000_f000, 32), Some(0x3f39_f000));
    assert_eq!(mapped_virtual_address(0x0001_0000, 32), Some(0x3f3a_0000));
    assert_eq!(mapped_virtual_address(0x0002_0020, 256), Some(0x3f3b_0020));
    assert_eq!(mapped_virtual_address(0x0020_0020, 256), Some(0x3f3c_0020));
    assert_eq!(
        mapped_virtual_address(0x003e_0000, 0x2_0000),
        Some(0x3f3d_0000)
    );
    assert_eq!(mapped_virtual_address(0x003d_ffff, 2), None);
    assert_eq!(mapped_virtual_address(0x003f_ffff, 2), None);
}

#[test]
fn encrypted_writes_require_rom_block_alignment() {
    assert!(encrypted_write_is_aligned(0x3e_0000, 32));
    assert!(encrypted_write_is_aligned(0x3e_0020, 64));
    assert!(!encrypted_write_is_aligned(0x3e_0004, 32));
    assert!(!encrypted_write_is_aligned(0x3e_0000, 16));
}

#[test]
fn fido_store_window_matches_the_partition() {
    let store = fido_store_mapping();
    assert_eq!(store.physical_start, 0x3e_0000);
    assert_eq!(store.size, 0x2_0000);
    assert_eq!(store.physical_end(), 0x40_0000);
    assert_eq!(mapped_virtual_address(u32::MAX, 2), None);
    assert_eq!(mapped_virtual_address(0, usize::MAX), None);
}
