use salpa::platform::security_epoch::{
    prepare, secure_version_raw, ApprovedPlan, ObservedState, PlanError, SlotEvidence,
    FIELD_MASK, FIELD_SHIFT, FIELD_WORD, SHARED_WRITE_DISABLE,
};

fn fixture(raw: u16, target: u8) -> (ApprovedPlan, ObservedState) {
    let mut block0 = [
        0x100,
        0xa5,
        0x1234 | (7 << 18),
        0x42 | (1 << 20),
        0x8000_0001,
        0x5678,
    ];
    block0[FIELD_WORD] |= u32::from(raw) << FIELD_SHIFT;
    let plan = ApprovedPlan {
        device_digest: [1; 32],
        bootloader_digest: [2; 32],
        trusted_root_digest: [3; 32],
        expected_block0: block0,
        qualified_image_digests: [[4; 32]; 2],
        target_epoch: target,
    };
    let observed = ObservedState {
        device_digest: plan.device_digest,
        bootloader_digest: plan.bootloader_digest,
        trusted_root_digest: plan.trusted_root_digest,
        block0,
        running_slot: 0,
        slots: [SlotEvidence {
            signature_verified: true,
            metadata_valid: true,
            secure_version: 16,
            signed_content_digest: [4; 32],
        }; 2],
    };
    (plan, observed)
}

#[test]
fn epoch_four_programs_four_bits_and_no_shared_locks() {
    let (plan, observed) = fixture(0, 4);
    let change = prepare(&plan, &observed).unwrap();
    assert_eq!(change.target_epoch(), 4);
    assert_eq!(change.bits_to_program(), 0xf);
    assert_eq!(change.program_words(), [0, 0, 0, 0, 0xf << 11, 0, 0, 0]);
    let mut after = observed.block0;
    after[4] |= 0xf << 11;
    assert_eq!(change.verify_after(&after), Ok(()));
}

#[test]
fn noncontiguous_existing_bits_are_preserved() {
    let (plan, observed) = fixture(0x8005, 5);
    let change = prepare(&plan, &observed).unwrap();
    assert_eq!(change.bits_to_program(), 0xa);
    let mut after = observed.block0;
    after[4] |= 0xa << FIELD_SHIFT;
    assert_eq!(secure_version_raw(&after), 0x800f);
    assert_eq!(secure_version_raw(&after).count_ones(), 5);
    assert_eq!(change.verify_after(&after), Ok(()));
}

#[test]
fn a_different_signed_image_with_the_same_epoch_is_not_qualified() {
    for index in 0..2 {
        let (plan, mut observed) = fixture(0, 4);
        observed.slots[index].signed_content_digest[0] ^= 1;
        assert_eq!(prepare(&plan, &observed), Err(PlanError::ChangedImage));
    }
}

#[test]
fn every_counter_pattern_preserves_set_bits_and_reaches_the_requested_count() {
    for raw in 0..=u16::MAX {
        for target in (raw.count_ones() + 1)..=16 {
            let (plan, observed) = fixture(raw, target as u8);
            let change = prepare(&plan, &observed).unwrap();
            let delta = change.bits_to_program();
            assert_eq!(delta & raw, 0);
            assert_eq!((raw | delta).count_ones(), target);
            let words = change.program_words();
            assert_eq!(words[FIELD_WORD] & !FIELD_MASK, 0);
            for (index, value) in words.into_iter().enumerate() {
                if index != FIELD_WORD {
                    assert_eq!(value, 0);
                }
            }
        }
    }
}

#[test]
fn the_last_available_bit_can_be_used_but_exhaustion_cannot_wrap() {
    let (plan, observed) = fixture(0xfffe, 16);
    assert_eq!(prepare(&plan, &observed).unwrap().bits_to_program(), 1);
    for (raw, target, error) in [
        (0xffff, 16, PlanError::NoAdvance),
        (0xffff, 17, PlanError::EpochRange),
        (0xf, 3, PlanError::NoAdvance),
        (0xf, 4, PlanError::NoAdvance),
    ] {
        let (plan, observed) = fixture(raw, target);
        assert_eq!(prepare(&plan, &observed), Err(error));
    }
}

#[test]
fn both_slots_need_valid_metadata_signatures_and_a_compatible_epoch() {
    for slot in 0..2 {
        for defect in 0..4 {
            let (plan, mut observed) = fixture(0, 4);
            match defect {
                0 => observed.slots[slot].signature_verified = false,
                1 => observed.slots[slot].metadata_valid = false,
                2 => observed.slots[slot].secure_version = 3,
                _ => observed.slots[slot].secure_version = 17,
            }
            assert_eq!(
                prepare(&plan, &observed),
                Err(if defect < 2 {
                    PlanError::UnqualifiedSlot
                } else {
                    PlanError::IncompatibleSlot
                })
            );
        }
    }
}

#[test]
fn device_bootloader_and_signing_root_are_independently_bound() {
    for (field, expected) in [
        (0, PlanError::Identity),
        (1, PlanError::Bootloader),
        (2, PlanError::TrustRoot),
    ] {
        let (plan, mut observed) = fixture(0, 4);
        match field {
            0 => observed.device_digest[0] ^= 1,
            1 => observed.bootloader_digest[0] ^= 1,
            _ => observed.trusted_root_digest[0] ^= 1,
        }
        assert_eq!(prepare(&plan, &observed), Err(expected));
    }
}

#[test]
fn changed_fuses_or_shared_write_protection_stop_preparation() {
    for word in 0..6 {
        let (plan, mut observed) = fixture(0, 4);
        observed.block0[word] ^= 1;
        assert_eq!(prepare(&plan, &observed), Err(PlanError::ChangedEfuses));
    }
    let (mut plan, mut observed) = fixture(0, 4);
    plan.expected_block0[0] |= SHARED_WRITE_DISABLE;
    observed.block0 = plan.expected_block0;
    assert_eq!(prepare(&plan, &observed), Err(PlanError::WriteProtected));
}

#[test]
fn disabled_protection_or_invalid_running_slot_is_rejected() {
    for defect in 0..3 {
        let (mut plan, mut observed) = fixture(0, 4);
        match defect {
            0 => observed.block0[3] &= !(1 << 20),
            1 => observed.block0[2] &= !(7 << 18),
            _ => observed.running_slot = 2,
        }
        plan.expected_block0 = observed.block0;
        assert_eq!(
            prepare(&plan, &observed),
            Err(if defect < 2 {
                PlanError::ProtectionDisabled
            } else {
                PlanError::RunningSlot
            })
        );
    }
}

#[test]
fn stale_preflight_partial_programming_and_unrelated_bit_changes_fail() {
    let (plan, observed) = fixture(0, 4);
    let change = prepare(&plan, &observed).unwrap();
    assert_eq!(change.recheck_before(&observed.block0), Ok(()));
    let mut partial = observed.block0;
    partial[4] |= 3 << FIELD_SHIFT;
    assert_eq!(
        change.recheck_before(&partial),
        Err(PlanError::ChangedEfuses)
    );
    assert_eq!(change.verify_after(&partial), Err(PlanError::Readback));
    for word in 0..6 {
        let change = prepare(&plan, &observed).unwrap();
        let mut after = observed.block0;
        after[4] |= 0xf << FIELD_SHIFT;
        after[word] ^= 1;
        assert_eq!(change.verify_after(&after), Err(PlanError::Readback));
    }
}
