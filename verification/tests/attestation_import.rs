use salpa::identity::DEVELOPMENT_AAGUID;
use salpa::platform::attestation_import::{parse, InvalidPayload, STAGING_BYTES};
use sha2::{Digest, Sha256};

fn fixture() -> ([u8; STAGING_BYTES], [u8; 32]) {
    // Public scalar 1 and synthetic AAGUID fixture, never a device key.
    let mut data = [0; STAGING_BYTES];
    data[..8].copy_from_slice(b"RKATST01");
    data[8..12].copy_from_slice(&33u32.to_le_bytes());
    data[47] = 1;
    data[48..65].copy_from_slice(&[6, 11, 43, 6, 1, 4, 1, 130, 229, 28, 1, 1, 4, 4, 18, 4, 16]);
    data[65..81].copy_from_slice(&DEVELOPMENT_AAGUID);
    let digest = Sha256::digest(&data[48..81]).into();
    (data, digest)
}

#[test]
fn accepts_bound_payload() {
    let (d, h) = fixture();
    assert_eq!(parse(&d, &h).unwrap().key[31], 1);
}

#[test]
fn rejects_wrong_certificate_reference() {
    let (d, _) = fixture();
    assert!(matches!(
        parse(&d, &[0; 32]),
        Err(InvalidPayload::Certificate)
    ));
}

#[test]
fn rejects_bad_lengths_without_slicing_outside_buffer() {
    for length in [0, 1025, u32::MAX] {
        let (mut d, h) = fixture();
        d[8..12].copy_from_slice(&length.to_le_bytes());
        assert!(matches!(parse(&d, &h), Err(InvalidPayload::Format)));
    }
}

#[test]
fn rejects_corruption_and_unexpected_padding() {
    for offset in [0, 12, 4095] {
        let (mut d, h) = fixture();
        d[offset] ^= 1;
        assert!(matches!(parse(&d, &h), Err(InvalidPayload::Format)));
    }
}

#[test]
fn rejects_zero_private_scalar() {
    let (mut d, h) = fixture();
    d[47] = 0;
    assert!(matches!(parse(&d, &h), Err(InvalidPayload::Key)));
}

#[test]
fn rejects_wrong_aaguid_even_with_matching_hash() {
    let (mut d, _) = fixture();
    d[80] ^= 1;
    let h = Sha256::digest(&d[48..81]).into();
    assert!(matches!(parse(&d, &h), Err(InvalidPayload::Certificate)));
}

#[test]
fn an_accepted_payload_borrows_the_key_and_certificate() {
    let (d, h) = fixture();
    let identity = parse(&d, &h).unwrap();
    assert_eq!(identity.key, &d[16..48]);
    assert_eq!(identity.certificate, &d[48..81]);
}

#[test]
fn a_scalar_at_the_group_order_is_rejected() {
    let (mut d, h) = fixture();
    d[16..48].copy_from_slice(&[
        0xff, 0xff, 0xff, 0xff, 0x00, 0x00, 0x00, 0x00, 0xff, 0xff, 0xff, 0xff, 0xff, 0xff, 0xff,
        0xff, 0xbc, 0xe6, 0xfa, 0xad, 0xa7, 0x17, 0x9e, 0x84, 0xf3, 0xb9, 0xca, 0xc2, 0xfc, 0x63,
        0x25, 0x51,
    ]);
    assert!(matches!(parse(&d, &h), Err(InvalidPayload::Key)));
}
