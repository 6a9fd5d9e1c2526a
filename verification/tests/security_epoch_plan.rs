use salpa::platform::security_epoch_plan::{decode, requested_images, PLAN_BYTES};

#[test]
fn only_exact_plan_bound_requests_can_rehearse_or_program() {
    let mut request = [7; 97];
    assert_eq!(requested_images(&[0x13], &[7; 32]), Some(None));
    for command in [0x14, 0x15] {
        request[0] = command;
        assert_eq!(
            requested_images(&request, &[7; 32]),
            Some(Some([[7; 32]; 2]))
        );
    }
    for length in 0..97 {
        assert_eq!(requested_images(&request[..length], &[7; 32]), None);
    }
    for command in [0, 0x12, 0x13, 0x16, 0xff] {
        request[0] = command;
        assert_eq!(requested_images(&request, &[7; 32]), None);
    }
    request[0] = 0x14;
    assert_eq!(requested_images(&request, &[8; 32]), None);
}

#[test]
fn malformed_scope_and_exhausted_or_locked_counters_are_rejected() {
    let mut bytes = [1; PLAN_BYTES];
    bytes[..8].copy_from_slice(b"RKMPLAN1");
    bytes[104..128].fill(0);
    bytes[160..].copy_from_slice(&[4, 1, 0, 0]);
    assert_eq!(decode(&bytes).unwrap().target_epoch, 4);
    for (index, value) in [(0, 0), (160, 0), (160, 17), (163, 1), (106, 4)] {
        let mut invalid = bytes;
        invalid[index] = value;
        assert!(decode(&invalid).is_none());
    }
    let mut exhausted = bytes;
    exhausted[120..124].copy_from_slice(&(0xffff_u32 << 11).to_le_bytes());
    assert!(decode(&exhausted).is_none());
    for range in [8..40, 40..72, 72..104, 128..160] {
        let mut invalid = bytes;
        invalid[range].fill(0);
        assert!(decode(&invalid).is_none());
    }
    for length in 0..PLAN_BYTES {
        assert!(decode(&bytes[..length]).is_none());
    }
}

#[test]
fn a_decoded_plan_keeps_every_field_of_its_bytes() {
    let mut bytes = [0; PLAN_BYTES];
    bytes[..8].copy_from_slice(b"RKMPLAN1");
    bytes[8..40].fill(0x11);
    bytes[40..72].fill(0x22);
    bytes[72..104].fill(0x33);
    bytes[104..108].copy_from_slice(&0x0403_0201_u32.to_le_bytes());
    bytes[124..128].copy_from_slice(&0xdead_beef_u32.to_le_bytes());
    bytes[128..160].fill(0x44);
    bytes[160..].copy_from_slice(&[16, 3, 1, 0]);
    let plan = decode(&bytes).unwrap();
    assert_eq!(plan.device_digest, [0x11; 32]);
    assert_eq!(plan.bootloader_digest, [0x22; 32]);
    assert_eq!(plan.trusted_root_digest, [0x33; 32]);
    assert_eq!(plan.expected_block0, [0x0403_0201, 0, 0, 0, 0, 0xdead_beef]);
    assert_eq!(plan.fallback_digest, [0x44; 32]);
    assert_eq!((plan.target_epoch, plan.revision_major, plan.revision_minor), (16, 3, 1));
}
