use salpa::platform::ota::{
    activation_is_valid, active_entry, confirmation_matches_running_image,
    descriptor_matches_version, ota_crc, qualified_layout_from_entries,
    running_offset_from_mapping, slot_offset, update_layout_from_entries, update_slot_offset,
    OtaEntry, QualifiedLayout, APP_DESCRIPTOR_MAGIC, APP_DESCRIPTOR_SIZE, APP_VERSION_OFFSET,
    OTA_0_OFFSET, OTA_1_OFFSET, OTA_ENTRY_SIZE, OTA_STATE_ABORTED, OTA_STATE_INVALID,
    OTA_STATE_PENDING_VERIFY, OTA_STATE_VALID,
};

fn entry(sequence: u32, state: u32) -> OtaEntry {
    OtaEntry {
        sequence,
        state,
        crc: ota_crc(sequence),
    }
}

#[test]
fn crc_matches_pinned_esp_idf_vectors() {
    assert_eq!(ota_crc(1), 0x4743_989a);
    assert_eq!(ota_crc(2), 0x55f6_3774);
    assert_eq!(ota_crc(5), 0xc821_0fcd);
}

#[test]
fn maintenance_layout_requires_distinct_valid_slots_and_the_executing_mapping() {
    let entries = [entry(3, OTA_STATE_VALID), entry(4, OTA_STATE_VALID)];
    assert_eq!(
        qualified_layout_from_entries(entries, OTA_1_OFFSET),
        Some(QualifiedLayout {
            running_slot: 1,
            sequences: [3, 4]
        })
    );
    assert_eq!(
        qualified_layout_from_entries([entries[1], entries[0]], OTA_1_OFFSET),
        Some(QualifiedLayout {
            running_slot: 1,
            sequences: [3, 4]
        })
    );
    assert_eq!(qualified_layout_from_entries(entries, OTA_0_OFFSET), None);
    for sequence in [0, 3, 5, u32::MAX] {
        assert_eq!(
            qualified_layout_from_entries(
                [entries[0], entry(sequence, OTA_STATE_VALID)],
                OTA_0_OFFSET
            ),
            None
        );
    }
    for state in [
        0,
        OTA_STATE_PENDING_VERIFY,
        OTA_STATE_INVALID,
        OTA_STATE_ABORTED,
        u32::MAX,
    ] {
        for index in 0..2 {
            let mut changed = entries;
            changed[index].state = state;
            assert_eq!(qualified_layout_from_entries(changed, OTA_1_OFFSET), None);
        }
    }
    for index in 0..2 {
        let mut changed = entries;
        changed[index].crc ^= 1;
        assert_eq!(qualified_layout_from_entries(changed, OTA_1_OFFSET), None);
    }
}

#[test]
fn active_entry_matches_esp_idf_max_sequence_rule() {
    assert_eq!(
        active_entry([entry(1, OTA_STATE_VALID), entry(2, 0)]),
        Some(1)
    );
    assert_eq!(
        active_entry([entry(3, OTA_STATE_VALID), entry(2, 0)]),
        Some(0)
    );
    assert_eq!(
        active_entry([entry(3, OTA_STATE_ABORTED), entry(2, 0)]),
        Some(1)
    );
}

#[test]
fn rollback_marks_candidate_aborted_and_reselects_previous_valid_slot() {
    let previous = entry(1, OTA_STATE_VALID);
    let candidate = entry(2, 0);
    assert_eq!(active_entry([previous, candidate]), Some(1));
    assert_eq!(
        active_entry([previous, entry(2, OTA_STATE_ABORTED)]),
        Some(0)
    );
    assert_eq!(
        update_layout_from_entries([previous, entry(2, OTA_STATE_ABORTED)], OTA_0_OFFSET),
        Some((0, 1, 1))
    );
}

#[test]
fn pending_candidate_cannot_be_replaced_before_first_boot_confirmation() {
    assert_eq!(
        update_layout_from_entries([entry(1, OTA_STATE_VALID), entry(2, 0)], OTA_1_OFFSET),
        None
    );
}

#[test]
fn hardware_floor_fallback_cannot_offer_the_running_slot_for_update() {
    // Bootloader skips the higher-sequence epoch-4 image, while its VALID
    // metadata survives. Epoch-5 fallback is actually executing in slot 1.
    let entries = [entry(17, OTA_STATE_VALID), entry(16, OTA_STATE_VALID)];
    assert_eq!(active_entry(entries), Some(0));
    assert_eq!(update_layout_from_entries(entries, OTA_1_OFFSET), None);
    assert_eq!(
        update_layout_from_entries([entries[1], entries[0]], OTA_1_OFFSET),
        None
    );
    assert_eq!(
        update_layout_from_entries(entries, OTA_0_OFFSET),
        Some((0, 17, 1))
    );
    let reverse = [entry(17, OTA_STATE_VALID), entry(18, OTA_STATE_VALID)];
    assert_eq!(update_layout_from_entries(reverse, OTA_0_OFFSET), None);
    assert_eq!(update_layout_from_entries(entries, 0), None);
}

#[test]
fn activation_contract_requires_inactive_slot_newer_sequence_and_other_entry() {
    assert!(activation_is_valid(0, 1, 1, 1, 2, 1));
    assert!(!activation_is_valid(0, 1, 1, 0, 3, 1));
    assert!(!activation_is_valid(0, 1, 1, 1, 1, 1));
    assert!(!activation_is_valid(0, 1, 1, 1, 2, 0));
}

#[test]
fn sequence_selects_expected_slot() {
    assert_eq!(slot_offset(1), Some(OTA_0_OFFSET));
    assert_eq!(slot_offset(2), Some(OTA_1_OFFSET));
    assert_eq!(slot_offset(3), Some(OTA_0_OFFSET));
    assert_eq!(slot_offset(0), None);
}

#[test]
fn app_descriptor_version_must_match_exactly() {
    let mut descriptor = [0_u8; APP_DESCRIPTOR_SIZE];
    descriptor[..4].copy_from_slice(&APP_DESCRIPTOR_MAGIC.to_le_bytes());
    descriptor[APP_VERSION_OFFSET..APP_VERSION_OFFSET + 5].copy_from_slice(b"0.1.2");
    assert!(descriptor_matches_version(&descriptor, "0.1.2"));
    assert!(!descriptor_matches_version(&descriptor, "0.1"));
    assert!(!descriptor_matches_version(&descriptor, "0.1.3"));
}

#[test]
fn fallback_cannot_confirm_an_identically_named_candidate() {
    let mut descriptor = [0_u8; APP_DESCRIPTOR_SIZE];
    descriptor[..4].copy_from_slice(&APP_DESCRIPTOR_MAGIC.to_le_bytes());
    descriptor[4..8].copy_from_slice(&4_u32.to_le_bytes());
    descriptor[APP_VERSION_OFFSET..APP_VERSION_OFFSET + 5].copy_from_slice(b"0.1.0");
    let candidate = entry(3, OTA_STATE_PENDING_VERIFY);
    assert!(confirmation_matches_running_image(
        candidate,
        OTA_0_OFFSET,
        &descriptor,
        "0.1.0",
        4,
    ));
    // Even identical descriptor bytes do not let ota_1 confirm ota_0.
    assert!(!confirmation_matches_running_image(
        candidate,
        OTA_1_OFFSET,
        &descriptor,
        "0.1.0",
        4,
    ));
    assert!(!confirmation_matches_running_image(
        candidate,
        OTA_0_OFFSET,
        &descriptor,
        "0.1.0",
        3,
    ));
    assert!(!confirmation_matches_running_image(
        entry(3, OTA_STATE_ABORTED),
        OTA_0_OFFSET,
        &descriptor,
        "0.1.0",
        4,
    ));
}

#[test]
fn running_slot_requires_a_valid_application_drom_flash_mapping() {
    assert_eq!(
        running_offset_from_mapping(0x3f00_0020, 0x8002),
        Some(OTA_0_OFFSET)
    );
    assert_eq!(
        running_offset_from_mapping(0x3f00_0020, 0x8020),
        Some(OTA_1_OFFSET)
    );
    for invalid in [
        0x0002,
        0xc002,
        0x10002,
        0x18002,
        0x8000,
        0x803e,
        0x8000_8002,
    ] {
        assert_eq!(running_offset_from_mapping(0x3f00_0020, invalid), None);
    }
    for address in [0, 0x3f00_0000, 0x3f00_0021, 0x3f39_0020, 0x4008_0020] {
        assert_eq!(running_offset_from_mapping(address, 0x8002), None);
    }
}

#[test]
fn state_rewrite_preserves_sequence_and_crc_contract() {
    let encoded = entry(4, OTA_STATE_PENDING_VERIFY).encode_with_state(OTA_STATE_VALID);
    let decoded = OtaEntry::decode(&encoded);
    assert_eq!(decoded, entry(4, OTA_STATE_VALID));
    assert!(decoded.is_selectable());
}

#[test]
fn interrupted_metadata_write_retains_the_other_valid_entry() {
    // Model a lost write after each byte of the replacement record. This
    // checks selection from partially programmed plaintext records, not
    // the electrical behavior of encrypted flash during a power cut.
    for state in [0, OTA_STATE_PENDING_VERIFY, OTA_STATE_VALID] {
        for replacement_index in 0..2 {
            let previous = entry(2, OTA_STATE_VALID);
            let replacement = entry(3, state).encode_with_state(state);
            for written in 0..=OTA_ENTRY_SIZE {
                let mut partial = [0xff; OTA_ENTRY_SIZE];
                partial[..written].copy_from_slice(&replacement[..written]);
                let mut entries = [previous; 2];
                entries[replacement_index] = OtaEntry::decode(&partial);
                let expected = if written == OTA_ENTRY_SIZE {
                    replacement_index
                } else {
                    1 - replacement_index
                };
                assert_eq!(active_entry(entries), Some(expected));
            }
        }
    }
}

#[test]
fn update_slot_offsets_name_the_two_slots() {
    assert_eq!(update_slot_offset(0), Some(OTA_0_OFFSET));
    assert_eq!(update_slot_offset(1), Some(OTA_1_OFFSET));
    assert_eq!(update_slot_offset(2), None);
}
