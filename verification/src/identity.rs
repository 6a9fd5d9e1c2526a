//! Public development identity shared by GetInfo and attestation provisioning.

use vstd::prelude::*;

verus! {

/// Public, development-only AAGUID for RissoKey bring-up firmware.
///
/// The AAGUID is not secret. It must be replaced together with the attestation
/// identity before any production use.
pub const DEVELOPMENT_AAGUID: [u8; 16] = [
    0x98,
    0x9e,
    0x2c,
    0xc2,
    0x05,
    0xdf,
    0x4e,
    0x64,
    0x80,
    0x68,
    0x22,
    0x68,
    0x38,
    0x86,
    0xe8,
    0xb3,
];

/// DER encoding of OID 1.3.6.1.4.1.45724.1.1.4 followed by the X.509
/// extension's outer and inner OCTET STRING headers. This is the encoding the
/// fido-authenticator Identity implementation recognizes.
pub const AAGUID_EXTENSION_PREFIX: [u8; 17] = [
    0x06,
    0x0b,
    0x2b,
    0x06,
    0x01,
    0x04,
    0x01,
    0x82,
    0xe5,
    0x1c,
    0x01,
    0x01,
    0x04,
    0x04,
    0x12,
    0x04,
    0x10,
];

/// The order of the NIST P-256 group, big-endian.
pub const P256_GROUP_ORDER: [u8; 32] = [
    0xff,
    0xff,
    0xff,
    0xff,
    0x00,
    0x00,
    0x00,
    0x00,
    0xff,
    0xff,
    0xff,
    0xff,
    0xff,
    0xff,
    0xff,
    0xff,
    0xbc,
    0xe6,
    0xfa,
    0xad,
    0xa7,
    0x17,
    0x9e,
    0x84,
    0xf3,
    0xb9,
    0xca,
    0xc2,
    0xfc,
    0x63,
    0x25,
    0x51,
];

/// The AAGUID extension header starts at `p` in `der`.
pub open spec fn prefix_at(der: Seq<u8>, p: int) -> bool {
    &&& 0 <= p
    &&& p + 17 <= der.len()
    &&& forall|j: int| 0 <= j < 17 ==> #[trigger] der[p + j] == AAGUID_EXTENSION_PREFIX@[j]
}

/// `p` is the first place where the AAGUID extension header starts.
pub open spec fn is_first_prefix(der: Seq<u8>, p: int) -> bool {
    &&& prefix_at(der, p)
    &&& forall|q: int| 0 <= q < p ==> !#[trigger] prefix_at(der, q)
}

/// The 16 bytes that follow the first AAGUID extension header in `der`, when
/// the header occurs and is followed by at least 16 bytes.
pub open spec fn spec_certificate_aaguid(der: Seq<u8>) -> Option<Seq<u8>> {
    if exists|p: int| is_first_prefix(der, p) {
        let p = choose|p: int| is_first_prefix(der, p);
        if p + 33 <= der.len() {
            Some(der.subrange(p + 17, p + 33))
        } else {
            None
        }
    } else {
        None
    }
}

/// `a` is below `b` in lexicographic (big-endian) order.
pub open spec fn lex_less(a: Seq<u8>, b: Seq<u8>) -> bool {
    exists|i: int|
        0 <= i < a.len() && i < b.len() && (forall|j: int| 0 <= j < i ==> a[j] == b[j])
            && #[trigger] a[i] < b[i]
}

/// A valid P-256 private scalar: not zero and below the group order.
pub open spec fn valid_p256_scalar(raw: Seq<u8>) -> bool {
    (exists|i: int| 0 <= i < raw.len() && #[trigger] raw[i] != 0u8) && lex_less(
        raw,
        P256_GROUP_ORDER@,
    )
}

fn prefix_matches(der: &[u8], p: usize) -> (r: bool)
    requires
        p + 17 <= der@.len(),
    ensures
        r == prefix_at(der@, p as int),
{
    let len = der.len();
    let mut j: usize = 0;
    while j < 17
        invariant
            j <= 17,
            len == der@.len(),
            p + 17 <= der@.len(),
            forall|k: int| 0 <= k < j ==> der@[p + k] == AAGUID_EXTENSION_PREFIX@[k],
        decreases 17 - j,
    {
        if der[p + j] != AAGUID_EXTENSION_PREFIX[j] {
            assert(der@[p + j as int] != AAGUID_EXTENSION_PREFIX@[j as int]);
            return false;
        }
        j = j + 1;
    }
    true
}

/// The AAGUID carried by an attestation certificate: the 16 bytes after the
/// first AAGUID extension header.
pub fn certificate_aaguid(der: &[u8]) -> (r: Option<[u8; 16]>)
    ensures
        r matches Some(aaguid) ==> spec_certificate_aaguid(der@) == Some(aaguid@),
        r is None <==> spec_certificate_aaguid(der@) is None,
{
    let len = der.len();
    if len < 17 {
        assert(!exists|p: int| is_first_prefix(der@, p));
        return None;
    }
    let mut p: usize = 0;
    while p <= len - 17
        invariant
            len == der@.len(),
            17 <= len,
            p + 17 <= len + 1,
            forall|q: int| 0 <= q < p ==> !#[trigger] prefix_at(der@, q),
        decreases len - p,
    {
        if prefix_matches(der, p) {
            proof {
                assert(is_first_prefix(der@, p as int));
                let c = choose|c: int| is_first_prefix(der@, c);
                if c < p {
                    assert(!prefix_at(der@, c));
                } else if c > p {
                    assert(!prefix_at(der@, p as int));
                }
            }
            let value_start = p + 17;
            if len - value_start < 16 {
                return None;
            }
            let mut aaguid = [0u8; 16];
            let mut k: usize = 0;
            while k < 16
                invariant
                    k <= 16,
                    len == der@.len(),
                    value_start + 16 <= len,
                    forall|m: int| 0 <= m < k ==> aaguid@[m] == der@[value_start + m],
                decreases 16 - k,
            {
                aaguid[k] = der[value_start + k];
                k = k + 1;
            }
            assert(aaguid@ =~= der@.subrange(value_start as int, value_start + 16));
            return Some(aaguid);
        }
        p = p + 1;
    }
    proof {
        assert forall|q: int| !is_first_prefix(der@, q) by {
            if 0 <= q && q + 17 <= der@.len() {
                assert(q < p);
            }
        }
    }
    None
}

/// A raw 32-byte big-endian scalar is a usable P-256 private key: it is not
/// zero and lies below the group order.
pub fn is_valid_p256_scalar(raw: &[u8; 32]) -> (r: bool)
    ensures
        r == valid_p256_scalar(raw@),
{
    let mut nonzero = false;
    let mut i: usize = 0;
    while i < 32
        invariant
            i <= 32,
            nonzero == exists|j: int| 0 <= j < i && #[trigger] raw@[j] != 0u8,
        decreases 32 - i,
    {
        if raw[i] != 0 {
            nonzero = true;
        }
        assert(nonzero == exists|j: int| 0 <= j < i + 1 && #[trigger] raw@[j] != 0u8) by {
            if raw@[i as int] != 0u8 {
                assert(raw@[i as int] != 0u8);
            }
        }
        i = i + 1;
    }
    if !nonzero {
        return false;
    }
    let mut k: usize = 0;
    while k < 32
        invariant
            k <= 32,
            exists|j: int| 0 <= j < 32 && #[trigger] raw@[j] != 0u8,
            forall|j: int| 0 <= j < k ==> raw@[j] == P256_GROUP_ORDER@[j],
        decreases 32 - k,
    {
        if raw[k] != P256_GROUP_ORDER[k] {
            let below = raw[k] < P256_GROUP_ORDER[k];
            proof {
                if below {
                    assert(raw@[k as int] < P256_GROUP_ORDER@[k as int]);
                    assert(lex_less(raw@, P256_GROUP_ORDER@));
                } else {
                    assert forall|m: int|
                        0 <= m < 32 && (forall|j: int| 0 <= j < m ==> raw@[j]
                            == P256_GROUP_ORDER@[j]) implies !(#[trigger] raw@[m]
                        < P256_GROUP_ORDER@[m]) by {
                        if m > k {
                            assert(raw@[k as int] == P256_GROUP_ORDER@[k as int]);
                        }
                    }
                }
            }
            return below;
        }
        k = k + 1;
    }
    proof {
        assert forall|m: int|
            0 <= m < 32 && (forall|j: int| 0 <= j < m ==> raw@[j] == P256_GROUP_ORDER@[j]) implies !(
            #[trigger] raw@[m] < P256_GROUP_ORDER@[m]) by {
            assert(raw@[m] == P256_GROUP_ORDER@[m]);
        }
    }
    false
}

} // verus!
