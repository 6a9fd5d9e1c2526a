use salpa::platform::security_status::{SecurityStatus, RESPONSE_SIZE};

#[test]
fn response_reports_bit_count_and_clears_unused_bytes() {
    for raw in [0, 1, 7, 15, 0x8000, 0xffff] {
        let state = SecurityStatus {
            secure_version_raw: raw,
            write_disable: 0x01800305,
            policy_flags: 0x21,
            flash_crypt_count: 7,
            read_disable: 1,
            revoked_roots: 6,
            revision_major: 1,
            revision_minor: 0,
            application_secure_version: 4,
        };
        let mut output = [0xa5; 64];
        assert_eq!(state.encode(&mut output), 32);
        assert_eq!(&output[..4], b"RKS1");
        assert_eq!(u16::from_le_bytes(output[4..6].try_into().unwrap()), raw);
        assert_eq!(output[6], raw.count_ones() as u8);
        assert_eq!(output[7], 0);
        assert_eq!(&output[21..24], &[0; 3]);
        assert_eq!(&output[28..], &[0; 36]);
        assert_eq!(u32::from_le_bytes(output[24..28].try_into().unwrap()), 4);
    }
}

#[test]
fn every_reported_field_lands_at_its_offset() {
    let state = SecurityStatus {
        secure_version_raw: 0x0102,
        write_disable: 0x0a0b_0c0d,
        policy_flags: 0x1122_3344,
        flash_crypt_count: 0x55,
        read_disable: 0x66,
        revoked_roots: 0x77,
        revision_major: 0x88,
        revision_minor: 0x99,
        application_secure_version: 0xdead_beef,
    };
    let mut output = [0; 64];
    assert_eq!(state.encode(&mut output), RESPONSE_SIZE);
    assert_eq!(&output[4..7], &[0x02, 0x01, 2]);
    assert_eq!(&output[8..12], &[0x0d, 0x0c, 0x0b, 0x0a]);
    assert_eq!(&output[12..16], &[0x44, 0x33, 0x22, 0x11]);
    assert_eq!(&output[16..21], &[0x55, 0x66, 0x77, 0x88, 0x99]);
    assert_eq!(&output[24..28], &[0xef, 0xbe, 0xad, 0xde]);
}
