//! Bounded, certificate-bound staging format for the separate import image.

use vstd::prelude::*;
use crate::bytes::{all_zero, copy_into, le_u32_at, read_le_u32, zeroize_array};
use crate::identity::{
    certificate_aaguid, is_valid_p256_scalar, spec_certificate_aaguid, valid_p256_scalar,
    DEVELOPMENT_AAGUID,
};
use crate::sha256::{sha256, sha256_finish, sha256_start, sha256_update};
use vstd::slice::slice_subrange;

verus! {

pub const STAGING_ADDRESS: u32 = 0x0020_0000;

pub const STAGING_BYTES: usize = 4096;

pub const MAX_CERTIFICATE_BYTES: usize = 1024;

/// The identity held in a staging area: the private scalar and the
/// certificate, both borrowed from the staged bytes.
pub struct Identity<'a> {
    pub key: &'a [u8],
    pub certificate: &'a [u8],
}

#[derive(Clone, Copy, Debug, PartialEq, Eq, Structural)]
pub enum InvalidPayload {
    Format,
    Certificate,
    Key,
}

/// The ASCII magic `RKATST01`.
pub open spec fn staging_magic() -> Seq<u8> {
    seq![0x52u8, 0x4b, 0x41, 0x54, 0x53, 0x54, 0x30, 0x31]
}

/// The staging layout: magic, a little-endian certificate length of 1..=1024
/// and four zero bytes, the 32-byte private scalar, the certificate, and zero
/// padding to the end. The certificate must hash to the expected reference
/// and carry the development AAGUID; the scalar must be a valid P-256 key.
/// The result is the certificate length.
pub open spec fn spec_parse(data: Seq<u8>, expected_certificate: Seq<u8>) -> Result<
    int,
    InvalidPayload,
> {
    let length = le_u32_at(data, 8) as int;
    if data.subrange(0, 8) != staging_magic() || !all_zero(data.subrange(12, 16)) {
        Err(InvalidPayload::Format)
    } else if length == 0 || length > MAX_CERTIFICATE_BYTES || !all_zero(
        data.subrange(48 + length, STAGING_BYTES as int),
    ) {
        Err(InvalidPayload::Format)
    } else if sha256(data.subrange(48, 48 + length)) != expected_certificate
        || spec_certificate_aaguid(data.subrange(48, 48 + length)) != Some(
        DEVELOPMENT_AAGUID@,
    ) {
        Err(InvalidPayload::Certificate)
    } else if !valid_p256_scalar(data.subrange(16, 48)) {
        Err(InvalidPayload::Key)
    } else {
        Ok(length)
    }
}

fn same_bytes(a: &[u8], b: &[u8]) -> (r: bool)
    ensures
        r == (a@ == b@),
{
    if a.len() != b.len() {
        return false;
    }
    let n = a.len();
    let mut i: usize = 0;
    while i < n
        invariant
            i <= n,
            n == a@.len(),
            n == b@.len(),
            forall|j: int| 0 <= j < i ==> a@[j] == b@[j],
        decreases n - i,
    {
        if a[i] != b[i] {
            return false;
        }
        i = i + 1;
    }
    assert(a@ =~= b@);
    true
}

fn zero_from(data: &[u8], start: usize) -> (r: bool)
    requires
        start <= data@.len(),
    ensures
        r == all_zero(data@.subrange(start as int, data@.len() as int)),
{
    let n = data.len();
    let mut i: usize = start;
    while i < n
        invariant
            start <= i <= n,
            n == data@.len(),
            forall|j: int| start <= j < i ==> data@[j] == 0u8,
        decreases n - i,
    {
        if data[i] != 0 {
            assert(data@.subrange(start as int, n as int)[i - start] != 0u8);
            return false;
        }
        i = i + 1;
    }
    assert forall|j: int|
        0 <= j < data@.subrange(start as int, n as int).len() implies #[trigger] data@.subrange(
        start as int,
        n as int,
    )[j] == 0u8 by {
        assert(data@[start + j] == 0u8);
    }
    true
}

pub fn parse<'a>(data: &'a [u8; STAGING_BYTES], expected_certificate: &[u8; 32]) -> (r: Result<
    Identity<'a>,
    InvalidPayload,
>)
    ensures
        r matches Ok(identity) ==> spec_parse(data@, expected_certificate@) matches Ok(length)
            && identity.key@ == data@.subrange(16, 48) && identity.certificate@ == data@.subrange(
            48,
            48 + length,
        ),
        r matches Err(e) ==> spec_parse(data@, expected_certificate@) == Err::<int, InvalidPayload>(e),
{
    let magic: [u8; 8] = [0x52, 0x4b, 0x41, 0x54, 0x53, 0x54, 0x30, 0x31];
    assert(magic@ =~= staging_magic());
    let header = slice_subrange(data, 12, 16);
    if !same_bytes(slice_subrange(data, 0, 8), &magic) || !zero_from(header, 0) {
        assert(header@.subrange(0, 4) =~= header@);
        return Err(InvalidPayload::Format);
    }
    assert(header@.subrange(0, 4) =~= header@);
    let length = read_le_u32(data, 8);
    if length == 0 || length > MAX_CERTIFICATE_BYTES as u32 || !zero_from(
        data,
        48 + length as usize,
    ) {
        return Err(InvalidPayload::Format);
    }
    let end = 48 + length as usize;
    let certificate = slice_subrange(data, 48, end);
    let mut hasher = sha256_start();
    sha256_update(&mut hasher, certificate);
    let digest = sha256_finish(&hasher);
    assert(Seq::<u8>::empty() + certificate@ =~= certificate@);
    let aaguid_matches = match certificate_aaguid(certificate) {
        Some(aaguid) => same_bytes(&aaguid, &DEVELOPMENT_AAGUID),
        None => false,
    };
    if !same_bytes(&digest, expected_certificate) || !aaguid_matches {
        return Err(InvalidPayload::Certificate);
    }
    let key = slice_subrange(data, 16, 48);
    let mut scalar = [0u8; 32];
    copy_into(&mut scalar, 0, key);
    assert(scalar@ =~= key@);
    let valid = is_valid_p256_scalar(&scalar);
    zeroize_array(&mut scalar);
    if !valid {
        return Err(InvalidPayload::Key);
    }
    Ok(Identity { key, certificate })
}

} // verus!
