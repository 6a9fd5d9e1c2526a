//! ESP32-S2 SRAM permissions. No flash or eFuse writes.
//!
//! Register encoding follows Espressif's Apache-2.0 memprot implementation at
//! fff9895c82d744c7237be8847347bdd1b07c6643; see the memory-protection guide.
//! Code is RX, its DRAM alias is read-only, and data cannot execute through
//! its IRAM alias. RTC fast/slow memory is non-executable. Locks reset on CPU
//! restart; an incompatible inherited locked policy fails closed.

use vstd::prelude::*;
use crate::bytes::{clear, copy_into, le_bytes_u32, splice, u32_to_le_bytes, zeros};

verus! {

pub const REQUEST: u8 = 0x14;

pub const RESPONSE_SIZE: usize = 64;

pub const SRAM_ALIAS_OFFSET: u32 = 0x70000;

pub const MIN_IRAM_SPLIT: u32 = 0x4002_8000;

pub const MAX_IRAM_SPLIT: u32 = 0x4005_0000;

// Offsets in ESP32-S2 PMS, base 0x3f4c1000. The four buses are IRAM, DRAM,
// peripheral DPORT and AHB. Only the listed permission bits are modified.
/// The lock register of each bus.
pub const LOCKS: [usize; 4] = [0x10, 0x28, 0x3c, 0x5c];

/// The violation monitor register of each bus.
pub const MONITORS: [usize; 4] = [0x20, 0x34, 0x54, 0x68];

/// The permission registers and the bits of each that the policy owns.
pub const PERMISSIONS: [(usize, u32); 8] = [
    (0x14, 0xfff),
    (0x18, 0x7fffff),
    (0x1c, 0x1ffff),
    (0x2c, 0x1fffffff),
    (0x30, 0x7fff),
    (0x40, 0xfffe),
    (0x60, 0x1ffff),
    (0x64, 0x1ffff),
];

#[derive(Clone, Copy, Debug, PartialEq, Eq, Structural)]
pub enum Error {
    Layout,
    LockedPolicy,
    Readback,
}

#[derive(Clone, Copy, Debug, PartialEq, Eq)]
pub struct Policy {
    pub iram_end: u32,
    pub data_start: u32,
    pub values: [u32; 8],
}

/// A split the permission registers can encode: word aligned, inside the
/// allowed SRAM window, with the data region starting at its DRAM alias.
pub open spec fn valid_layout(iram_end: u32, data_start: u32) -> bool {
    &&& MIN_IRAM_SPLIT <= iram_end < MAX_IRAM_SPLIT
    &&& iram_end % 4 == 0
    &&& iram_end - SRAM_ALIAS_OFFSET == data_start
}

/// The permission values, in the order of `PERMISSIONS`.
pub open spec fn policy_values(iram_end: u32, data_start: u32) -> Seq<u32> {
    seq![
        // Coarse SRAM blocks 0..3: read + fetch, never write.
        0x6dbu32,
        // Fine SRAM: low RX; high denies all IRAM-bus access.
        ((iram_end >> 2) & 0x1ffff) | (1u32 << 18) | (1u32 << 17),
        // No execution or data access through the RTC instruction alias.
        0u32,
        // DRAM: coarse blocks read-only; low read-only; high read/write.
        0x55u32 | (((data_start >> 2) & 0x1ffff) << 8) | (1u32 << 25) | (1u32 << 27) | (1u32
            << 28),
        // RTC fast data alias: read/write on both sides of split zero.
        0x7800u32,
        // Peripheral alias of RTC slow: deny access, preserve FIFO bits.
        0u32,
        // RTC slow primary alias: read/write, never fetch.
        (1u32 << 16) | (1u32 << 15) | (1u32 << 13) | (1u32 << 12),
        // RTC slow secondary alias: deny all access.
        0u32,
    ]
}

impl Policy {
    pub fn new(iram_end: u32, data_start: u32) -> (r: Result<Self, Error>)
        ensures
            r is Err <==> !valid_layout(iram_end, data_start),
            r is Err ==> r == Err::<Policy, Error>(Error::Layout),
            r matches Ok(p) ==> p.iram_end == iram_end && p.data_start == data_start
                && p.values@ == policy_values(iram_end, data_start),
    {
        if !(MIN_IRAM_SPLIT <= iram_end && iram_end < MAX_IRAM_SPLIT) || iram_end % 4 != 0 {
            return Err(Error::Layout);
        }
        match iram_end.checked_sub(SRAM_ALIAS_OFFSET) {
            Some(alias) => {
                if alias != data_start {
                    return Err(Error::Layout);
                }
            },
            None => {
                return Err(Error::Layout);
            },
        }
        let values = [
            0x6dbu32,
            ((iram_end >> 2) & 0x1ffff) | (1u32 << 18) | (1u32 << 17),
            0u32,
            0x55u32 | (((data_start >> 2) & 0x1ffff) << 8) | (1u32 << 25) | (1u32 << 27) | (1u32
                << 28),
            0x7800u32,
            0u32,
            (1u32 << 16) | (1u32 << 15) | (1u32 << 13) | (1u32 << 12),
            0u32,
        ];
        assert(values@ =~= policy_values(iram_end, data_start));
        Ok(Policy { iram_end, data_start, values })
    }
}

/// The documented access rights of a valid policy: the four coarse code
/// blocks and the low fine region are read and fetch but never write through
/// the IRAM bus and read-only through the DRAM bus; data above the split is
/// read/write and never fetch; the RTC instruction alias, the RTC slow
/// peripheral alias and its secondary alias deny all access; RTC fast data
/// is read/write on both sides; the RTC slow primary alias is read/write
/// without fetch. The encoded split decodes back to the layout.
pub proof fn lemma_policy_access_rights(iram_end: u32, data_start: u32)
    requires
        valid_layout(iram_end, data_start),
    ensures
        ({
            let v = policy_values(iram_end, data_start);
            &&& v[0] & 7 == 3 && (v[0] >> 3) & 7 == 3 && (v[0] >> 6) & 7 == 3 && (v[0] >> 9) & 7
                == 3
            &&& v[3] & 3 == 1 && (v[3] >> 2) & 3 == 1 && (v[3] >> 4) & 3 == 1 && (v[3] >> 6) & 3
                == 1
            &&& (v[1] >> 17) & 7 == 3
            &&& (v[3] >> 25) & 3 == 1
            &&& (v[1] >> 20) & 7 == 0
            &&& (v[3] >> 27) & 3 == 3
            &&& v[2] == 0
            &&& (v[4] >> 11) & 15 == 15
            &&& v[5] == 0
            &&& (v[6] >> 11) & 7 == 6
            &&& (v[6] >> 14) & 7 == 6
            &&& v[7] == 0
            &&& ((v[1] & 0x1ffff) << 2) | 0x4000_0000 == iram_end
            &&& (((v[3] >> 8) & 0x1ffff) << 2) | 0x3ff8_0000 == data_start
        }),
{
    let v = policy_values(iram_end, data_start);
    let v1 = v[1];
    let v3 = v[3];
    assert(v1 == ((iram_end >> 2) & 0x1ffff) | (1u32 << 18) | (1u32 << 17));
    assert(v3 == 0x55u32 | (((data_start >> 2) & 0x1ffff) << 8) | (1u32 << 25) | (1u32 << 27)
        | (1u32 << 28));
    assert(0x6dbu32 & 7 == 3 && (0x6dbu32 >> 3) & 7 == 3 && (0x6dbu32 >> 6) & 7 == 3 && (0x6dbu32
        >> 9) & 7 == 3) by (bit_vector);
    assert(v3 & 3 == 1 && (v3 >> 2) & 3 == 1 && (v3 >> 4) & 3 == 1 && (v3 >> 6) & 3 == 1)
        by (bit_vector)
        requires
            v3 == 0x55u32 | (((data_start >> 2) & 0x1ffff) << 8) | (1u32 << 25) | (1u32 << 27)
                | (1u32 << 28),
    ;
    assert((v1 >> 17) & 7 == 3 && (v1 >> 20) & 7 == 0) by (bit_vector)
        requires
            v1 == ((iram_end >> 2) & 0x1ffff) | (1u32 << 18) | (1u32 << 17),
    ;
    assert((v3 >> 25) & 3 == 1 && (v3 >> 27) & 3 == 3) by (bit_vector)
        requires
            v3 == 0x55u32 | (((data_start >> 2) & 0x1ffff) << 8) | (1u32 << 25) | (1u32 << 27)
                | (1u32 << 28),
    ;
    assert(((v1 & 0x1ffff) << 2) | 0x4000_0000 == iram_end) by (bit_vector)
        requires
            v1 == ((iram_end >> 2) & 0x1ffff) | (1u32 << 18) | (1u32 << 17),
            0x4002_8000 <= iram_end < 0x4005_0000,
            iram_end % 4 == 0,
    ;
    assert((((v3 >> 8) & 0x1ffff) << 2) | 0x3ff8_0000 == data_start) by (bit_vector)
        requires
            v3 == 0x55u32 | (((data_start >> 2) & 0x1ffff) << 8) | (1u32 << 25) | (1u32 << 27)
                | (1u32 << 28),
            data_start == iram_end - 0x70000,
            0x4002_8000 <= iram_end < 0x4005_0000,
            iram_end % 4 == 0,
    ;
    assert(((0x7800u32 >> 11) & 15 == 15) && ((((1u32 << 16) | (1u32 << 15) | (1u32 << 13) | (1u32
        << 12)) >> 11) & 7 == 6) && ((((1u32 << 16) | (1u32 << 15) | (1u32 << 13) | (1u32 << 12))
        >> 14) & 7 == 6)) by (bit_vector);
}

/// Access to the PMS register file by byte offset from its base. The device
/// implements it with volatile MMIO; reads have no side effects.
pub trait Registers {
    fn read(&self, offset: usize) -> u32;

    fn write(&mut self, offset: usize, value: u32);
}

/// The value written by a masked update: the bits under `mask` come from
/// `value`, every other bit keeps its previous state.
pub open spec fn masked_update(previous: u32, mask: u32, value: u32) -> u32 {
    (previous & !mask) | (value & mask)
}

/// The owned bits of every permission register hold the policy value, and
/// every monitor reads back enabled (bit 1) with its clear and pending bits
/// zero.
pub open spec fn readback_matches(permissions: Seq<u32>, monitors: Seq<u32>, values: Seq<u32>) -> bool {
    &&& forall|i: int| 0 <= i < 8 ==> #[trigger] permissions[i] & PERMISSIONS[i].1 == values[i]
    &&& forall|i: int| 0 <= i < 4 ==> #[trigger] monitors[i] & 7 == 2
}

/// Decides from the values read whether the installed policy is in place.
pub fn readback_matches_policy(permissions: &[u32; 8], monitors: &[u32; 4], policy: &Policy) -> (r:
    bool)
    ensures
        r == readback_matches(permissions@, monitors@, policy.values@),
{
    let mut i: usize = 0;
    while i < 8
        invariant
            i <= 8,
            forall|j: int| 0 <= j < i ==> #[trigger] permissions@[j] & PERMISSIONS[j].1
                == policy.values@[j],
        decreases 8 - i,
    {
        if permissions[i] & PERMISSIONS[i].1 != policy.values[i] {
            return false;
        }
        i = i + 1;
    }
    let mut k: usize = 0;
    while k < 4
        invariant
            k <= 4,
            forall|j: int| 0 <= j < 8 ==> #[trigger] permissions@[j] & PERMISSIONS[j].1
                == policy.values@[j],
            forall|j: int| 0 <= j < k ==> #[trigger] monitors@[j] & 7 == 2,
        decreases 4 - k,
    {
        if monitors[k] & 7 != 2 {
            return false;
        }
        k = k + 1;
    }
    true
}

/// The reads `read_permissions` makes: each permission register in order,
/// with the value it gave.
pub open spec fn permission_reads(values: Seq<u32>) -> Seq<RegisterAccess> {
    Seq::new(8, |i: int| RegisterAccess::Read(PERMISSIONS[i].0, values[i]))
}

/// The reads `read_four` makes: each of the four offsets in order, with the
/// value it gave.
pub open spec fn four_reads(offsets: Seq<usize>, values: Seq<u32>) -> Seq<RegisterAccess> {
    Seq::new(4, |i: int| RegisterAccess::Read(offsets[i], values[i]))
}

/// Reads the eight permission registers in order; the record `t` of earlier
/// accesses comes back extended by these reads.
fn read_permissions<R: Registers>(registers: &R, Ghost(t): Ghost<Seq<RegisterAccess>>) -> (r: (
    [u32; 8],
    Ghost<Seq<RegisterAccess>>,
))
    ensures
        r.1@ == t + permission_reads(r.0@),
{
    let ghost mut u = t;
    let mut values = [0u32; 8];
    let mut i: usize = 0;
    while i < 8
        invariant
            i <= 8,
            u == t + permission_reads(values@).subrange(0, i as int),
        decreases 8 - i,
    {
        let value = registers.read(PERMISSIONS[i].0);
        values[i] = value;
        proof {
            u = u.push(RegisterAccess::Read(PERMISSIONS[i as int].0, value));
            assert(u =~= t + permission_reads(values@).subrange(0, i + 1));
        }
        i = i + 1;
    }
    assert(permission_reads(values@).subrange(0, 8) =~= permission_reads(values@));
    (values, Ghost(u))
}

/// Reads the registers at the four offsets in order; the record `t` of
/// earlier accesses comes back extended by these reads.
fn read_four<R: Registers>(
    registers: &R,
    offsets: [usize; 4],
    Ghost(t): Ghost<Seq<RegisterAccess>>,
) -> (r: ([u32; 4], Ghost<Seq<RegisterAccess>>))
    ensures
        r.1@ == t + four_reads(offsets@, r.0@),
{
    let a = registers.read(offsets[0]);
    let b = registers.read(offsets[1]);
    let c = registers.read(offsets[2]);
    let d = registers.read(offsets[3]);
    let values = [a, b, c, d];
    let ghost u = t.push(RegisterAccess::Read(offsets@[0], a)).push(
        RegisterAccess::Read(offsets@[1], b),
    ).push(RegisterAccess::Read(offsets@[2], c)).push(RegisterAccess::Read(offsets@[3], d));
    assert(u =~= t + four_reads(offsets@, values@));
    (values, Ghost(u))
}

/// Reads every permission register and then every monitor, and decides
/// whether the policy is installed, through `readback_matches_policy`; the
/// record of the twelve reads comes back with the verdict.
pub fn matches_policy<R: Registers>(registers: &R, policy: &Policy) -> (r: (
    bool,
    Ghost<Seq<RegisterAccess>>,
))
    ensures
        r.1@.len() == 12,
        forall|i: int|
            0 <= i < 8 ==> #[trigger] r.1@[i] is Read && r.1@[i]->Read_0 == PERMISSIONS[i].0,
        forall|i: int|
            0 <= i < 4 ==> #[trigger] r.1@[8 + i] is Read && r.1@[8 + i]->Read_0 == MONITORS[i],
        r.0 == readback_matches(
            Seq::new(8, |i: int| r.1@[i]->Read_1),
            Seq::new(4, |i: int| r.1@[8 + i]->Read_1),
            policy.values@,
        ),
{
    let (matched, Ghost(t)) = readback_traced(registers, policy, Ghost(Seq::empty()));
    proof {
        assert forall|i: int| 0 <= i < 8 implies #[trigger] t[i] is Read && t[i]->Read_0
            == PERMISSIONS[i].0 by {
            assert(t[0 + i] == t[i]);
        }
        assert(Seq::new(8, |i: int| t[0 + i]->Read_1) =~= Seq::new(8, |i: int| t[i]->Read_1));
        assert(Seq::new(4, |i: int| t[0 + 8 + i]->Read_1) =~= Seq::new(4, |i: int| t[8 + i]->Read_1));
    }
    (matched, Ghost(t))
}

/// One access to the register file, with the value read or written.
#[derive(Clone, Copy, Debug, PartialEq, Eq, Structural)]
pub enum RegisterAccess {
    Read(usize, u32),
    Write(usize, u32),
}

pub open spec fn is_lock(offset: usize) -> bool {
    offset == LOCKS[0] || offset == LOCKS[1] || offset == LOCKS[2] || offset == LOCKS[3]
}

pub open spec fn is_monitor(offset: usize) -> bool {
    offset == MONITORS[0] || offset == MONITORS[1] || offset == MONITORS[2] || offset
        == MONITORS[3]
}

/// A write the installer may make: a lock register set to 1, or a masked
/// update computed from the value of the same register read just before,
/// which only touches a monitor's clear and enable bits or a permission
/// register's policy bits (set to the policy value).
pub open spec fn permitted_write(t: Seq<RegisterAccess>, k: int, policy: Policy) -> bool {
    match t[k] {
        RegisterAccess::Write(offset, value) => {
            ||| is_lock(offset) && value == 1
            ||| k > 0 && t[k - 1] is Read && t[k - 1]->Read_0 == offset && masked_from(
                offset,
                t[k - 1]->Read_1,
                value,
                policy,
            )
        },
        RegisterAccess::Read(..) => true,
    }
}

/// A masked update of `previous` that touches only a monitor's clear and
/// enable bits, or sets a permission register's policy bits to the policy.
pub open spec fn masked_from(offset: usize, previous: u32, value: u32, policy: Policy) -> bool {
    ||| is_monitor(offset) && (value == masked_update(previous, 3, 0) || value == masked_update(
        previous,
        3,
        1,
    ) || value == masked_update(previous, 3, 2))
    ||| exists|p: int|
        0 <= p < 8 && PERMISSIONS[p].0 == offset && value == masked_update(
            previous,
            PERMISSIONS[p].1,
            #[trigger] policy.values[p],
        )
}

/// The four lock registers are read first, in order.
pub open spec fn lock_reads_first(t: Seq<RegisterAccess>) -> bool {
    &&& t.len() >= 4
    &&& forall|i: int| 0 <= i < 4 ==> #[trigger] t[i] is Read && t[i]->Read_0 == LOCKS[i]
}

/// One of the first four reads found a lock bit set by an earlier stage.
pub open spec fn inherited_lock(t: Seq<RegisterAccess>) -> bool {
    exists|i: int| 0 <= i < 4 && #[trigger] t[i] is Read && t[i]->Read_1 & 1 != 0
}

/// The twelve accesses from `start` read the eight permission registers and
/// then the four monitors, and their values match the policy.
pub open spec fn readback_matched_at(t: Seq<RegisterAccess>, start: int, policy: Policy) -> bool {
    &&& 0 <= start
    &&& start + 12 <= t.len()
    &&& forall|i: int|
        0 <= i < 8 ==> #[trigger] t[start + i] is Read && t[start + i]->Read_0
            == PERMISSIONS[i].0
    &&& forall|i: int|
        0 <= i < 4 ==> #[trigger] t[start + 8 + i] is Read && t[start + 8 + i]->Read_0
            == MONITORS[i]
    &&& readback_matches(
        Seq::new(8, |i: int| t[start + i]->Read_1),
        Seq::new(4, |i: int| t[start + 8 + i]->Read_1),
        policy.values@,
    )
}

/// The installer's discipline over its accesses: every write is permitted;
/// with an inherited lock nothing is written; and every lock write follows
/// a readback that matched the policy, with only lock writes after it.
pub open spec fn installation_discipline(t: Seq<RegisterAccess>, policy: Policy) -> bool {
    &&& forall|k: int| 0 <= k < t.len() ==> #[trigger] permitted_write(t, k, policy)
    &&& inherited_lock(t) ==> forall|k: int| 0 <= k < t.len() ==> !(#[trigger] t[k] is Write)
    &&& forall|k: int|
        0 <= k < t.len() && #[trigger] t[k] is Write && is_lock(t[k]->Write_0) ==> exists|j: int|
            #[trigger] readback_matched_at(t, j, policy) && j + 12 <= k && forall|i: int|
                j + 12 <= i < k ==> #[trigger] t[i] is Write && is_lock(t[i]->Write_0)
}

/// A successful installation ends with the four locks read back set and then
/// a readback that matched the policy.
pub open spec fn ends_locked_and_matching(t: Seq<RegisterAccess>, policy: Policy) -> bool {
    &&& t.len() >= 16
    &&& forall|i: int|
        0 <= i < 4 ==> #[trigger] t[t.len() - 16 + i] is Read && t[t.len() - 16 + i]->Read_0
            == LOCKS[i] && t[t.len() - 16 + i]->Read_1 & 1 == 1
    &&& readback_matched_at(t, t.len() - 12, policy)
}

fn read_traced<R: Registers>(registers: &R, offset: usize, Ghost(t): Ghost<Seq<RegisterAccess>>) -> (r: (
    u32,
    Ghost<Seq<RegisterAccess>>,
))
    ensures
        r.1@ == t.push(RegisterAccess::Read(offset, r.0)),
{
    let value = registers.read(offset);
    (value, Ghost(t.push(RegisterAccess::Read(offset, value))))
}

fn replace_bits_traced<R: Registers>(
    registers: &mut R,
    offset: usize,
    mask: u32,
    value: u32,
    Ghost(t): Ghost<Seq<RegisterAccess>>,
) -> (r: Ghost<Seq<RegisterAccess>>)
    ensures
        r@.len() == t.len() + 2,
        r@.subrange(0, t.len() as int) == t,
        r@[t.len() as int] is Read,
        r@[t.len() as int]->Read_0 == offset,
        r@[t.len() + 1int] == RegisterAccess::Write(
            offset,
            masked_update(r@[t.len() as int]->Read_1, mask, value),
        ),
{
    let previous = registers.read(offset);
    let written = (previous & !mask) | (value & mask);
    registers.write(offset, written);
    let ghost u = t.push(RegisterAccess::Read(offset, previous)).push(
        RegisterAccess::Write(offset, written),
    );
    assert(u.subrange(0, t.len() as int) =~= t);
    Ghost(u)
}

fn readback_traced<R: Registers>(
    registers: &R,
    policy: &Policy,
    Ghost(t): Ghost<Seq<RegisterAccess>>,
) -> (r: (bool, Ghost<Seq<RegisterAccess>>))
    ensures
        r.1@.len() == t.len() + 12,
        r.1@.subrange(0, t.len() as int) == t,
        forall|i: int| t.len() <= i < t.len() + 12 ==> #[trigger] r.1@[i] is Read,
        r.0 <==> readback_matched_at(r.1@, t.len() as int, *policy),
        forall|i: int|
            0 <= i < 8 ==> #[trigger] r.1@[t.len() + i] is Read && r.1@[t.len() + i]->Read_0
                == PERMISSIONS[i].0,
        forall|i: int|
            0 <= i < 4 ==> #[trigger] r.1@[t.len() + 8 + i] is Read && r.1@[t.len() + 8
                + i]->Read_0 == MONITORS[i],
{
    let ghost mut u = t;
    let mut permissions = [0u32; 8];
    let mut i: usize = 0;
    while i < 8
        invariant
            i <= 8,
            u.len() == t.len() + i,
            u.subrange(0, t.len() as int) == t,
            forall|j: int|
                0 <= j < i ==> #[trigger] u[t.len() + j] == RegisterAccess::Read(
                    PERMISSIONS[j].0,
                    permissions@[j],
                ),
        decreases 8 - i,
    {
        let value = registers.read(PERMISSIONS[i].0);
        proof {
            u = u.push(RegisterAccess::Read(PERMISSIONS[i as int].0, value));
            assert(u.subrange(0, t.len() as int) =~= t);
        }
        permissions[i] = value;
        i = i + 1;
    }
    let mut monitors = [0u32; 4];
    let mut m: usize = 0;
    while m < 4
        invariant
            m <= 4,
            u.len() == t.len() + 8 + m,
            u.subrange(0, t.len() as int) == t,
            forall|j: int|
                0 <= j < 8 ==> #[trigger] u[t.len() + j] == RegisterAccess::Read(
                    PERMISSIONS[j].0,
                    permissions@[j],
                ),
            forall|j: int|
                0 <= j < m ==> #[trigger] u[t.len() + 8 + j] == RegisterAccess::Read(
                    MONITORS[j],
                    monitors@[j],
                ),
        decreases 4 - m,
    {
        let value = registers.read(MONITORS[m]);
        proof {
            u = u.push(RegisterAccess::Read(MONITORS[m as int], value));
            assert(u.subrange(0, t.len() as int) =~= t);
        }
        monitors[m] = value;
        m = m + 1;
    }
    let matched = readback_matches_policy(&permissions, &monitors, policy);
    proof {
        let base = t.len() as int;
        assert(Seq::new(8, |i: int| u[base + i]->Read_1) =~= permissions@);
        assert(Seq::new(4, |i: int| u[base + 8 + i]->Read_1) =~= monitors@);
        assert forall|i: int| base <= i < base + 12 implies #[trigger] u[i] is Read by {
            if i < base + 8 {
                assert(u[base + (i - base)] is Read);
            } else {
                assert(u[base + 8 + (i - base - 8)] is Read);
            }
        }
    }
    (matched, Ghost(u))
}

proof fn lemma_readback_survives_extension(
    t: Seq<RegisterAccess>,
    u: Seq<RegisterAccess>,
    j: int,
    policy: Policy,
)
    requires
        t.len() <= u.len(),
        u.subrange(0, t.len() as int) == t,
        readback_matched_at(t, j, policy),
    ensures
        readback_matched_at(u, j, policy),
{
    assert forall|i: int| 0 <= i < t.len() implies #[trigger] u[i] == t[i] by {
        assert(u.subrange(0, t.len() as int)[i] == t[i]);
    }
    assert(Seq::new(8, |i: int| u[j + i]->Read_1) =~= Seq::new(8, |i: int| t[j + i]->Read_1));
    assert(Seq::new(4, |i: int| u[j + 8 + i]->Read_1) =~= Seq::new(
        4,
        |i: int| t[j + 8 + i]->Read_1,
    ));
    assert forall|i: int| 0 <= i < 8 implies #[trigger] u[j + i] is Read && u[j + i]->Read_0
        == PERMISSIONS[i].0 by {
        assert(u[j + i] == t[j + i]);
    }
    assert forall|i: int| 0 <= i < 4 implies #[trigger] u[j + 8 + i] is Read && u[j + 8
        + i]->Read_0 == MONITORS[i] by {
        assert(u[j + 8 + i] == t[j + 8 + i]);
    }
}

/// Extending an access record of an installation that found no inherited
/// lock keeps its discipline when every new write is permitted and every new
/// lock write follows the readback at `readback` with only lock writes since.
proof fn lemma_discipline_extends(
    t: Seq<RegisterAccess>,
    u: Seq<RegisterAccess>,
    policy: Policy,
    readback: int,
)
    requires
        t.len() <= u.len(),
        u.subrange(0, t.len() as int) == t,
        lock_reads_first(t),
        !inherited_lock(t),
        installation_discipline(t, policy),
        forall|k: int| t.len() <= k < u.len() ==> #[trigger] permitted_write(u, k, policy),
        (exists|k: int| t.len() <= k < u.len() && #[trigger] u[k] is Write && is_lock(u[k]->Write_0))
            ==> readback_matched_at(u, readback, policy) && readback + 12 <= t.len() && forall|i: int|
            readback + 12 <= i < u.len() ==> #[trigger] u[i] is Write && is_lock(u[i]->Write_0),
    ensures
        lock_reads_first(u),
        !inherited_lock(u),
        installation_discipline(u, policy),
{
    assert forall|k: int| 0 <= k < t.len() implies u[k] == t[k] by {
        assert(u.subrange(0, t.len() as int)[k] == t[k]);
    }
    assert forall|k: int| 0 <= k < u.len() implies #[trigger] permitted_write(u, k, policy) by {
        if k < t.len() {
            assert(permitted_write(t, k, policy));
            if k > 0 {
                assert(u[k - 1] == t[k - 1]);
            }
        }
    }
    assert(lock_reads_first(u)) by {
        assert forall|i: int| 0 <= i < 4 implies #[trigger] u[i] is Read && u[i]->Read_0
            == LOCKS[i] by {
            assert(u[i] == t[i]);
        }
    }
    assert(!inherited_lock(u)) by {
        assert forall|i: int| 0 <= i < 4 implies !(#[trigger] u[i] is Read && u[i]->Read_1 & 1
            != 0) by {
            assert(u[i] == t[i]);
        }
    }
    assert forall|k: int|
        0 <= k < u.len() && #[trigger] u[k] is Write && is_lock(u[k]->Write_0) implies exists|j: int|
        #[trigger] readback_matched_at(u, j, policy) && j + 12 <= k && forall|i: int|
            j + 12 <= i < k ==> #[trigger] u[i] is Write && is_lock(u[i]->Write_0) by {
        if k < t.len() {
            assert(t[k] is Write && is_lock(t[k]->Write_0));
            let j = choose|j: int|
                #[trigger] readback_matched_at(t, j, policy) && j + 12 <= k && forall|i: int|
                    j + 12 <= i < k ==> #[trigger] t[i] is Write && is_lock(t[i]->Write_0);
            lemma_readback_survives_extension(t, u, j, policy);
            assert forall|i: int| j + 12 <= i < k implies #[trigger] u[i] is Write && is_lock(
                u[i]->Write_0,
            ) by {
                assert(t[i] is Write && is_lock(t[i]->Write_0));
            }
        } else {
            assert(readback_matched_at(u, readback, policy));
            assert forall|i: int| readback + 12 <= i < k implies #[trigger] u[i] is Write && is_lock(
                u[i]->Write_0,
            ) by {}
        }
    }
}

fn write_traced<R: Registers>(
    registers: &mut R,
    offset: usize,
    value: u32,
    Ghost(t): Ghost<Seq<RegisterAccess>>,
) -> (r: Ghost<Seq<RegisterAccess>>)
    ensures
        r@ == t.push(RegisterAccess::Write(offset, value)),
{
    registers.write(offset, value);
    Ghost(t.push(RegisterAccess::Write(offset, value)))
}


/// Installs the policy, or accepts a compatible one that an earlier stage
/// already locked, and records every register access it makes. The lock
/// registers are read first. With any lock already set nothing is written:
/// the result is success only when every bus is locked and the policy reads
/// back. Otherwise the monitors are cleared and disabled, the owned
/// permission bits written, the monitors enabled, and the locks set only
/// after the full readback matched; the locks and the policy are then read
/// back once more.
pub fn configure_traced<R: Registers>(registers: &mut R, policy: &Policy) -> (r: (
    Result<(), Error>,
    Ghost<Seq<RegisterAccess>>,
))
    ensures
        r.0 != Err::<(), Error>(Error::Layout),
        lock_reads_first(r.1@),
        installation_discipline(r.1@, *policy),
        r.0 is Ok ==> ends_locked_and_matching(r.1@, *policy),
        inherited_lock(r.1@) ==> r.0 is Ok || r.0 == Err::<(), Error>(Error::LockedPolicy),
        !inherited_lock(r.1@) ==> r.0 != Err::<(), Error>(Error::LockedPolicy),
{
    let ghost mut t: Seq<RegisterAccess> = Seq::empty();
    let mut any_locked = false;
    let mut i: usize = 0;
    while i < 4
        invariant
            i <= 4,
            t.len() == i,
            forall|j: int| 0 <= j < i ==> #[trigger] t[j] is Read && t[j]->Read_0 == LOCKS[j],
            any_locked <==> exists|j: int| 0 <= j < i && #[trigger] t[j] is Read && t[j]->Read_1 & 1
                != 0,
        decreases 4 - i,
    {
        let ghost before = t;
        let was_locked = any_locked;
        let (value, Ghost(u)) = read_traced(registers, LOCKS[i], Ghost(t));
        proof {
            t = u;
            assert(forall|j: int| 0 <= j < i ==> t[j] == before[j]);
        }
        if value & 1 != 0 {
            any_locked = true;
        }
        proof {
            if value & 1 != 0 {
                assert(t[i as int] is Read && t[i as int]->Read_1 & 1 != 0);
            } else if was_locked {
                let j = choose|j: int| 0 <= j < i && #[trigger] before[j] is Read && before[j]->Read_1 & 1 != 0;
                assert(t[j] is Read && t[j]->Read_1 & 1 != 0);
            } else {
                assert forall|j: int| 0 <= j < i + 1 implies !(#[trigger] t[j] is Read && t[j]->Read_1 & 1
                    != 0) by {
                    if j < i {
                        assert(t[j] == before[j]);
                    }
                }
            }
        }
        i = i + 1;
    }
    assert(any_locked == inherited_lock(t));
    if any_locked {
        let mut all_locked = true;
        let mut k: usize = 0;
        while k < 4
            invariant
                k <= 4,
                t.len() == 4 + k,
                lock_reads_first(t),
                inherited_lock(t),
                forall|j: int| 0 <= j < t.len() ==> #[trigger] t[j] is Read,
                forall|j: int|
                    4 <= j < 4 + k ==> #[trigger] t[j] is Read && t[j]->Read_0 == LOCKS[j - 4],
                all_locked <==> forall|j: int| 4 <= j < 4 + k ==> #[trigger] t[j]->Read_1 & 1 == 1,
            decreases 4 - k,
        {
            let ghost before = t;
            let was_all = all_locked;
            let (value, Ghost(u)) = read_traced(registers, LOCKS[k], Ghost(t));
            proof {
                t = u;
                assert(forall|j: int| 0 <= j < before.len() ==> t[j] == before[j]);
            }
            if value & 1 == 0 {
                all_locked = false;
            }
            proof {
                assert(value & 1 == 0 || value & 1 == 1) by (bit_vector);
                if all_locked {
                    assert forall|j: int| 4 <= j < 4 + k + 1 implies #[trigger] t[j]->Read_1 & 1 == 1 by {
                        if j < 4 + k {
                            assert(t[j] == before[j]);
                        }
                    }
                } else if value & 1 == 0 {
                    assert(t[4 + k as int]->Read_1 & 1 != 1);
                } else {
                    let j = choose|j: int| 4 <= j < 4 + k && !(#[trigger] before[j]->Read_1 & 1 == 1);
                    assert(t[j] == before[j]);
                }
            }
            k = k + 1;
        }
        if !all_locked {
            return (Err(Error::LockedPolicy), Ghost(t));
        }
        let (matched, Ghost(u)) = readback_traced(registers, policy, Ghost(t));
        proof {
            assert(forall|j: int| 0 <= j < t.len() ==> u[j] == t[j]);
            assert(forall|j: int| 4 <= j < 8 ==> #[trigger] u[j] == t[j]);
        }
        return if matched {
            (Ok(()), Ghost(u))
        } else {
            (Err(Error::LockedPolicy), Ghost(u))
        };
    }
    assert(installation_discipline(t, *policy)) by {
        assert forall|k: int| 0 <= k < t.len() implies #[trigger] permitted_write(t, k, *policy) by {
            assert(t[k] is Read);
        }
    }
    // Clear latched faults and disable monitors while installing permissions.
    let mut m: usize = 0;
    while m < 4
        invariant
            m <= 4,
            t.len() == 4 + 4 * m,
            lock_reads_first(t),
            !inherited_lock(t),
            installation_discipline(t, *policy),
            forall|k: int| 0 <= k < t.len() ==> !(#[trigger] t[k] is Write && is_lock(t[k]->Write_0)),
        decreases 4 - m,
    {
        let ghost before = t;
        let Ghost(u) = replace_bits_traced(registers, MONITORS[m], 3, 1, Ghost(t));
        let Ghost(w) = replace_bits_traced(registers, MONITORS[m], 3, 0, Ghost(u));
        proof {
            assert(w.subrange(0, before.len() as int) =~= before) by {
                assert(w.subrange(0, u.len() as int) == u);
                assert forall|k: int| 0 <= k < before.len() implies w[k] == before[k] by {
                    assert(w.subrange(0, u.len() as int)[k] == u[k]);
                    assert(u.subrange(0, before.len() as int)[k] == before[k]);
                }
            }
            assert forall|k: int| before.len() <= k < w.len() implies #[trigger] permitted_write(
                w,
                k,
                *policy,
            ) by {
                assert(w[before.len() as int] == u[before.len() as int]) by {
                    assert(w.subrange(0, u.len() as int)[before.len() as int] == u[before.len() as int]);
                }
            }
            assert forall|k: int| 0 <= k < w.len() implies !(#[trigger] w[k] is Write && is_lock(
                w[k]->Write_0,
            )) by {
                if k < before.len() {
                    assert(w[k] == before[k]);
                } else if k == before.len() + 1 {
                    assert(w[k] == u[k]) by {
                        assert(w.subrange(0, u.len() as int)[k] == u[k]);
                    }
                }
            }
            lemma_discipline_extends(before, w, *policy, 0);
            t = w;
        }
        m = m + 1;
    }
    let mut p: usize = 0;
    while p < 8
        invariant
            p <= 8,
            t.len() == 20 + 2 * p,
            lock_reads_first(t),
            !inherited_lock(t),
            installation_discipline(t, *policy),
            forall|k: int| 0 <= k < t.len() ==> !(#[trigger] t[k] is Write && is_lock(t[k]->Write_0)),
        decreases 8 - p,
    {
        let ghost before = t;
        let Ghost(u) = replace_bits_traced(
            registers,
            PERMISSIONS[p].0,
            PERMISSIONS[p].1,
            policy.values[p],
            Ghost(t),
        );
        proof {
            assert(policy.values[p as int] == policy.values@[p as int]);
            assert forall|k: int| before.len() <= k < u.len() implies #[trigger] permitted_write(
                u,
                k,
                *policy,
            ) by {
                if k == before.len() + 1 {
                    assert(masked_from(u[k - 1]->Read_0, u[k - 1]->Read_1, u[k]->Write_1, *policy))
                        by {
                        assert(PERMISSIONS[p as int].0 == u[k]->Write_0);
                        assert(u[k]->Write_1 == masked_update(
                            u[k - 1]->Read_1,
                            PERMISSIONS[p as int].1,
                            policy.values[p as int],
                        ));
                    }
                }
            }
            assert forall|k: int| 0 <= k < u.len() implies !(#[trigger] u[k] is Write && is_lock(
                u[k]->Write_0,
            )) by {
                if k < before.len() {
                    assert(u.subrange(0, before.len() as int)[k] == before[k]);
                }
            }
            lemma_discipline_extends(before, u, *policy, 0);
            t = u;
        }
        p = p + 1;
    }
    let mut e: usize = 0;
    while e < 4
        invariant
            e <= 4,
            t.len() == 36 + 2 * e,
            lock_reads_first(t),
            !inherited_lock(t),
            installation_discipline(t, *policy),
            forall|k: int| 0 <= k < t.len() ==> !(#[trigger] t[k] is Write && is_lock(t[k]->Write_0)),
        decreases 4 - e,
    {
        let ghost before = t;
        let Ghost(u) = replace_bits_traced(registers, MONITORS[e], 3, 2, Ghost(t));
        proof {
            assert forall|k: int| 0 <= k < u.len() implies !(#[trigger] u[k] is Write && is_lock(
                u[k]->Write_0,
            )) by {
                if k < before.len() {
                    assert(u.subrange(0, before.len() as int)[k] == before[k]);
                }
            }
            lemma_discipline_extends(before, u, *policy, 0);
            t = u;
        }
        e = e + 1;
    }
    let ghost installed = t;
    let (matched, Ghost(u)) = readback_traced(registers, policy, Ghost(t));
    proof {
        assert forall|k: int| installed.len() <= k < u.len() implies #[trigger] permitted_write(
            u,
            k,
            *policy,
        ) by {
            assert(u[k] is Read);
        }
        lemma_discipline_extends(installed, u, *policy, 0);
        t = u;
    }
    if !matched {
        return (Err(Error::Readback), Ghost(t));
    }
    let readback: usize = 44;
    // Lock only after every permission and monitor has been read back.
    let mut l: usize = 0;
    while l < 4
        invariant
            l <= 4,
            t.len() == 56 + l,
            lock_reads_first(t),
            !inherited_lock(t),
            installation_discipline(t, *policy),
            readback == 44,
            readback_matched_at(t, readback as int, *policy),
            forall|i: int| 56 <= i < t.len() ==> #[trigger] t[i] is Write && is_lock(t[i]->Write_0),
        decreases 4 - l,
    {
        let ghost before = t;
        let Ghost(u) = write_traced(registers, LOCKS[l], 1, Ghost(t));
        proof {
            assert(is_lock(LOCKS[l as int])) by {
                if l == 0 {
                } else if l == 1 {
                } else if l == 2 {
                } else {
                }
            }
            assert(u.subrange(0, before.len() as int) =~= before);
            lemma_readback_survives_extension(before, u, readback as int, *policy);
            assert forall|i: int| 56 <= i < u.len() implies #[trigger] u[i] is Write && is_lock(
                u[i]->Write_0,
            ) by {
                if i < before.len() {
                    assert(u[i] == before[i]);
                }
            }
            lemma_discipline_extends(before, u, *policy, readback as int);
            t = u;
        }
        l = l + 1;
    }
    let mut locked = true;
    let mut c: usize = 0;
    while c < 4
        invariant
            c <= 4,
            t.len() == 60 + c,
            lock_reads_first(t),
            !inherited_lock(t),
            installation_discipline(t, *policy),
            readback == 44,
            forall|j: int|
                60 <= j < 60 + c ==> #[trigger] t[j] is Read && t[j]->Read_0 == LOCKS[j - 60],
            locked <==> forall|j: int| 60 <= j < 60 + c ==> #[trigger] t[j]->Read_1 & 1 == 1,
        decreases 4 - c,
    {
        let ghost before = t;
        let (value, Ghost(u)) = read_traced(registers, LOCKS[c], Ghost(t));
        proof {
            assert(u.subrange(0, before.len() as int) =~= before);
            assert(forall|j: int| 0 <= j < before.len() ==> u[j] == before[j]);
            assert forall|k: int| before.len() <= k < u.len() implies #[trigger] permitted_write(
                u,
                k,
                *policy,
            ) by {}
            lemma_discipline_extends(before, u, *policy, readback as int);
            t = u;
        }
        if value & 1 != 1 {
            locked = false;
        }
        proof {
            if locked {
                assert forall|j: int| 60 <= j < 60 + c + 1 implies #[trigger] t[j]->Read_1 & 1 == 1 by {
                    if j < 60 + c {
                        assert(t[j] == before[j]);
                    }
                }
            } else if value & 1 != 1 {
                assert(t[60 + c as int]->Read_1 & 1 != 1);
            } else {
                let j = choose|j: int| 60 <= j < 60 + c && !(#[trigger] before[j]->Read_1 & 1 == 1);
                assert(t[j] == before[j]);
            }
        }
        c = c + 1;
    }
    let ghost locks_read = t;
    let (matched_again, Ghost(u)) = readback_traced(registers, policy, Ghost(t));
    proof {
        assert forall|k: int| locks_read.len() <= k < u.len() implies #[trigger] permitted_write(
            u,
            k,
            *policy,
        ) by {
            assert(u[k] is Read);
        }
        lemma_discipline_extends(locks_read, u, *policy, readback as int);
        assert(forall|j: int| 60 <= j < 64 ==> #[trigger] u[j] == locks_read[j]) by {
            assert forall|j: int| 60 <= j < 64 implies #[trigger] u[j] == locks_read[j] by {
                assert(u.subrange(0, locks_read.len() as int)[j] == locks_read[j]);
            }
        }
        t = u;
    }
    if !locked || !matched_again {
        return (Err(Error::Readback), Ghost(t));
    }
    (Ok(()), Ghost(t))
}

/// Installs the policy; see `configure_traced`, which this runs without
/// keeping the record of register accesses.
pub fn configure<R: Registers>(registers: &mut R, policy: &Policy) -> (r: Result<(), Error>)
    ensures
        r != Err::<(), Error>(Error::Layout),
{
    configure_traced(registers, policy).0
}

/// The status response for the given register reads: the tag `RKMP`, format
/// 1, the lock bits, the monitor enable and pending bits (one bit per bus),
/// the layout, and the owned bits of each permission register; the rest is
/// zero. No fault address or memory content is included.
pub open spec fn status_response(
    locks: Seq<u32>,
    monitor_enables: Seq<u32>,
    monitor_pendings: Seq<u32>,
    permissions: Seq<u32>,
    policy: Policy,
) -> Seq<u8> {
    seq![0x52u8, 0x4b, 0x4d, 0x50, 1u8, flag_bits(locks, 0), flag_bits(monitor_enables, 1),
        flag_bits(monitor_pendings, 2)] + le_bytes_u32(policy.iram_end) + le_bytes_u32(
        policy.data_start,
    ) + permission_bytes(permissions) + zeros(16)
}

/// Bit `bit` of each of the four registers, packed into bits 0..4.
pub open spec fn flag_bits(registers: Seq<u32>, bit: u32) -> u8 {
    (((registers[0] >> bit) & 1) | (((registers[1] >> bit) & 1) << 1u32) | (((registers[2] >> bit)
        & 1) << 2u32) | (((registers[3] >> bit) & 1) << 3u32)) as u8
}

/// The owned bits of each permission register, little-endian, in order.
pub open spec fn permission_bytes(permissions: Seq<u32>) -> Seq<u8> {
    Seq::new(
        32,
        |i: int| le_bytes_u32(permissions[i / 4] & PERMISSIONS[i / 4].1)[i % 4],
    )
}


/// Writes the status response for the given register reads into `output`,
/// which it clears first, and returns the response length.
pub fn write_status(
    locks: &[u32; 4],
    monitor_enables: &[u32; 4],
    monitor_pendings: &[u32; 4],
    permissions: &[u32; 8],
    policy: &Policy,
    output: &mut [u8],
) -> (r: usize)
    requires
        old(output)@.len() >= RESPONSE_SIZE,
    ensures
        r == RESPONSE_SIZE,
        final(output)@ == status_response(
            locks@,
            monitor_enables@,
            monitor_pendings@,
            permissions@,
            *policy,
        ) + zeros((old(output)@.len() - RESPONSE_SIZE) as nat),
{
    let mut response = [0u8; 64];
    assert(response@ =~= zeros(64));
    response[0] = 0x52;
    response[1] = 0x4b;
    response[2] = 0x4d;
    response[3] = 0x50;
    response[4] = 1;
    response[5] = flags(locks, 0);
    response[6] = flags(monitor_enables, 1);
    response[7] = flags(monitor_pendings, 2);
    copy_into(&mut response, 8, &u32_to_le_bytes(policy.iram_end));
    copy_into(&mut response, 12, &u32_to_le_bytes(policy.data_start));
    let ghost head = response@.subrange(0, 16);
    assert(head =~= seq![0x52u8, 0x4b, 0x4d, 0x50, 1u8, flag_bits(locks@, 0), flag_bits(
        monitor_enables@,
        1,
    ), flag_bits(monitor_pendings@, 2)] + le_bytes_u32(policy.iram_end) + le_bytes_u32(
        policy.data_start,
    ));
    let mut i: usize = 0;
    while i < 8
        invariant
            i <= 8,
            response@.len() == 64,
            response@.subrange(0, 16) == head,
            forall|j: int| 16 + 4 * i <= j < 64 ==> response@[j] == 0u8,
            forall|j: int|
                0 <= j < 4 * i ==> response@[16 + j] == #[trigger] permission_bytes(
                    permissions@,
                )[j],
        decreases 8 - i,
    {
        let bytes = u32_to_le_bytes(permissions[i] & PERMISSIONS[i].1);
        let ghost before = response@;
        copy_into(&mut response, 16 + 4 * i, &bytes);
        assert forall|j: int|
            0 <= j < 4 * (i + 1) implies response@[16 + j] == #[trigger] permission_bytes(
            permissions@,
        )[j] by {
            if j >= 4 * i {
                assert(j / 4 == i as int);
                assert(j % 4 == j - 4 * i);
            }
        }
        assert(response@.subrange(0, 16) =~= head);
        i = i + 1;
    }
    let ghost expected = status_response(
        locks@,
        monitor_enables@,
        monitor_pendings@,
        permissions@,
        *policy,
    );
    assert forall|j: int| 0 <= j < 64 implies response@[j] == expected[j] by {
        if j < 16 {
            assert(response@.subrange(0, 16)[j] == head[j]);
        } else if j < 48 {
            assert(response@[16 + (j - 16)] == permission_bytes(permissions@)[j - 16]);
        }
    }
    assert(response@ =~= expected);
    clear(output);
    copy_into(output, 0, &response);
    assert(final(output)@ =~= status_response(
        locks@,
        monitor_enables@,
        monitor_pendings@,
        permissions@,
        *policy,
    ) + zeros((old(output)@.len() - RESPONSE_SIZE) as nat));
    RESPONSE_SIZE
}

fn flags(registers: &[u32; 4], bit: u32) -> (r: u8)
    requires
        bit < 32,
    ensures
        r == flag_bits(registers@, bit),
{
    let a = registers[0];
    let b = registers[1];
    let c = registers[2];
    let d = registers[3];
    let v = ((a >> bit) & 1) | (((b >> bit) & 1) << 1u32) | (((c >> bit) & 1) << 2u32) | (((d
        >> bit) & 1) << 3u32);
    assert(v < 256) by (bit_vector)
        requires
            v == ((a >> bit) & 1) | (((b >> bit) & 1) << 1u32) | (((c >> bit) & 1) << 2u32) | (((d
                >> bit) & 1) << 3u32),
    ;
    v as u8
}

/// Reads the lock, monitor and permission registers (each monitor once for
/// its enable bit and once for its pending bit) and writes the status
/// response through `write_status`. Nothing is written to the registers.
pub fn encode_status<R: Registers>(registers: &R, policy: &Policy, output: &mut [u8]) -> (r: usize)
    requires
        old(output)@.len() >= RESPONSE_SIZE,
    ensures
        r == RESPONSE_SIZE,
        exists|locks: Seq<u32>, enables: Seq<u32>, pendings: Seq<u32>, permissions: Seq<u32>|
            locks.len() == 4 && enables.len() == 4 && pendings.len() == 4 && permissions.len()
                == 8 && final(output)@ == status_response(
                locks,
                enables,
                pendings,
                permissions,
                *policy,
            ) + zeros((old(output)@.len() - RESPONSE_SIZE) as nat),
{
    let (locks, Ghost(t)) = read_four(registers, LOCKS, Ghost(Seq::empty()));
    let (enables, Ghost(t)) = read_four(registers, MONITORS, Ghost(t));
    let (pendings, Ghost(t)) = read_four(registers, MONITORS, Ghost(t));
    let (permissions, _) = read_permissions(registers, Ghost(t));
    // No raw fault addresses or memory contents cross this interface.
    write_status(&locks, &enables, &pendings, &permissions, policy, output)
}

} // verus!
