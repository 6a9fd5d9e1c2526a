//! Byte-level helpers shared by the transport and completion code: clearing
//! buffers through `zeroize`, and the big-endian encodings used on the wire.

use vstd::prelude::*;

verus! {

/// A sequence of `n` zero bytes.
pub open spec fn zeros(n: nat) -> Seq<u8> {
    Seq::new(n, |_i: int| 0u8)
}

/// `true` when every byte of `s` is zero.
pub open spec fn all_zero(s: Seq<u8>) -> bool {
    forall|i: int| 0 <= i < s.len() ==> #[trigger] s[i] == 0u8
}

/// `s` with the bytes of `data` written from index `at` on; the length of `s`
/// is kept.
pub open spec fn splice(s: Seq<u8>, at: int, data: Seq<u8>) -> Seq<u8> {
    Seq::new(
        s.len(),
        |i: int|
            if at <= i < at + data.len() {
                data[i - at]
            } else {
                s[i]
            },
    )
}

/// The four big-endian bytes of `v`.
pub open spec fn be_bytes_u32(v: u32) -> Seq<u8> {
    seq![
        (v / 0x100_0000) as u8,
        ((v / 0x1_0000) % 0x100) as u8,
        ((v / 0x100) % 0x100) as u8,
        (v % 0x100) as u8,
    ]
}

/// The two big-endian bytes of `v` taken modulo 2^16.
pub open spec fn be_bytes_u16(v: nat) -> Seq<u8> {
    seq![((v % 0x1_0000) / 0x100) as u8, (v % 0x100) as u8]
}

/// The little-endian `u32` at `s[at..at + 4]`.
pub open spec fn le_u32_at(s: Seq<u8>, at: int) -> u32 {
    (s[at] as int + s[at + 1] as int * 0x100 + s[at + 2] as int * 0x1_0000 + s[at + 3] as int
        * 0x100_0000) as u32
}

/// The little-endian bytes of `v`.
pub open spec fn le_bytes_u32(v: u32) -> Seq<u8> {
    seq![
        (v % 0x100) as u8,
        ((v / 0x100) % 0x100) as u8,
        ((v / 0x1_0000) % 0x100) as u8,
        (v / 0x100_0000) as u8,
    ]
}

/// The big-endian `u32` held in `s[at..at + 4]`.
pub open spec fn be_u32_at(s: Seq<u8>, at: int) -> u32 {
    (s[at] as int * 0x100_0000 + s[at + 1] as int * 0x1_0000 + s[at + 2] as int * 0x100 + s[at
        + 3] as int) as u32
}

/// The big-endian `u16` held in `s[at..at + 2]`.
pub open spec fn be_u16_at(s: Seq<u8>, at: int) -> nat {
    (s[at] as int * 0x100 + s[at + 1] as int) as nat
}

/// Overwrites every byte of an array with zero, through `Zeroize` for arrays
/// (`zeroize::Zeroize::zeroize` on `[u8; M]`, which writes each byte with a
/// volatile store). The contract claims only the resulting contents.
#[verifier::external_body]
pub(crate) fn zeroize_array<const M: usize>(bytes: &mut [u8; M])
    ensures
        final(bytes)@ == zeros(M as nat),
{
    zeroize::Zeroize::zeroize(bytes);
}

/// Overwrites every byte of a slice with zero, through `Zeroize` for slices of
/// `DefaultIsZeroes` values (`zeroize::Zeroize::zeroize` on `[u8]`). That impl
/// panics only when the length exceeds `isize::MAX`, which `requires` excludes.
#[verifier::external_body]
pub(crate) fn zeroize_slice(bytes: &mut [u8])
    requires
        old(bytes)@.len() <= isize::MAX,
    ensures
        final(bytes)@ == zeros(old(bytes)@.len()),
{
    zeroize::Zeroize::zeroize(bytes);
}

/// The big-endian bytes of a `u32`, computed with arithmetic.
pub fn u32_to_be_bytes(v: u32) -> (r: [u8; 4])
    ensures
        r@ == be_bytes_u32(v),
{
    let r = [
        (v / 0x100_0000) as u8,
        ((v / 0x1_0000) % 0x100) as u8,
        ((v / 0x100) % 0x100) as u8,
        (v % 0x100) as u8,
    ];
    assert(r@ =~= be_bytes_u32(v));
    r
}

/// The number of set bits among the lowest `width` bits of `v`.
pub open spec fn ones(v: u16, width: nat) -> nat
    decreases width,
{
    if width == 0 {
        0
    } else {
        ones(v >> 1u16, (width - 1) as nat) + (v & 1) as nat
    }
}

/// A `width`-bit window has at most `width` set bits.
pub proof fn lemma_ones_bounded(v: u16, width: nat)
    ensures
        ones(v, width) <= width,
    decreases width,
{
    if width > 0 {
        lemma_ones_bounded(v >> 1u16, (width - 1) as nat);
        assert(v & 1 <= 1) by (bit_vector);
    }
}

/// `u16::count_ones`, one bit at a time.
pub fn count_ones_u16(v: u16) -> (r: u32)
    ensures
        r == ones(v, 16),
        r <= 16,
{
    let mut x = v;
    let mut count: u32 = 0;
    let mut i: u32 = 0;
    proof {
        lemma_ones_bounded(v, 16);
    }
    while i < 16
        invariant
            i <= 16,
            count <= i,
            count + ones(x, (16 - i) as nat) == ones(v, 16),
        decreases 16 - i,
    {
        proof {
            lemma_ones_bounded(x >> 1u16, (15 - i) as nat);
        }
        assert(x & 1 <= 1) by (bit_vector);
        count = count + (x & 1) as u32;
        x = x >> 1;
        i = i + 1;
    }
    count
}


/// The little-endian bytes of a `u32`, computed with arithmetic.
pub fn u32_to_le_bytes(v: u32) -> (r: [u8; 4])
    ensures
        r@ == le_bytes_u32(v),
{
    let r = [
        (v % 0x100) as u8,
        ((v / 0x100) % 0x100) as u8,
        ((v / 0x1_0000) % 0x100) as u8,
        (v / 0x100_0000) as u8,
    ];
    assert(r@ =~= le_bytes_u32(v));
    r
}

/// Copies `data` into `output` from index `at` on.
pub fn copy_into(output: &mut [u8], at: usize, data: &[u8])
    requires
        at + data@.len() <= old(output)@.len(),
    ensures
        final(output)@ == splice(old(output)@, at as int, data@),
{
    let ghost start = output@;
    let n = data.len();
    let len = output.len();
    let mut k: usize = 0;
    while k < n
        invariant
            k <= n,
            n == data@.len(),
            len == start.len(),
            at + n <= len,
            output@.len() == start.len(),
            output@ == splice(start, at as int, data@.subrange(0, k as int)),
        decreases n - k,
    {
        output[at + k] = data[k];
        k = k + 1;
        assert(output@ =~= splice(start, at as int, data@.subrange(0, k as int)));
    }
    assert(data@.subrange(0, n as int) =~= data@);
}

/// Sets every byte of `output` to zero.
pub fn clear(output: &mut [u8])
    ensures
        final(output)@ == zeros(old(output)@.len()),
{
    let n = output.len();
    let mut k: usize = 0;
    while k < n
        invariant
            k <= n,
            n == output@.len(),
            forall|j: int| 0 <= j < k ==> output@[j] == 0u8,
        decreases n - k,
    {
        output[k] = 0;
        k = k + 1;
    }
    assert(output@ =~= zeros(n as nat));
}


/// The little-endian `u32` at `bytes[at..at + 4]`.
pub fn read_le_u32(bytes: &[u8], at: usize) -> (r: u32)
    requires
        at + 4 <= bytes@.len(),
    ensures
        r == le_u32_at(bytes@, at as int),
{
    bytes[at] as u32 + (bytes[at + 1] as u32) * 0x100 + (bytes[at + 2] as u32) * 0x1_0000 + (
    bytes[at + 3] as u32) * 0x100_0000
}

} // verus!
