//! ESP32-S2 flash-encryption address rules used by release builds.
//!
//! Encrypted reads use fixed DROM cache mappings because raw SPI reads return
//! ciphertext. Writes use the ROM encryption primitive in 32-byte blocks. This
//! module holds the mapping table and the alignment rule; it never enables
//! flash encryption or changes eFuses.

use vstd::prelude::*;

verus! {

pub const MMU_PAGE_SIZE: u32 = 0x1_0000;

pub const RESERVED_DROM_START: u32 = 0x3f39_0000;

pub const RESERVED_DROM_END: u32 = 0x3f3f_0000;

/// A fixed window of the DROM cache mapped onto flash.
#[derive(Clone, Copy, Debug, PartialEq, Eq, Structural)]
pub struct Mapping {
    pub virtual_start: u32,
    pub physical_start: u32,
    pub size: u32,
}

#[derive(Clone, Copy, Debug, PartialEq, Eq, Structural)]
pub enum FlashEncryptionError {
    Disabled,
    MappingFailed(i32),
    UnmappedRange,
    NotAligned,
    UnlockFailed(i32),
    EraseFailed(i32),
    WriteFailed(i32),
}

impl Mapping {
    pub fn new(virtual_start: u32, physical_start: u32, size: u32) -> (r: Self)
        ensures
            r == (Mapping { virtual_start, physical_start, size }),
    {
        Self { virtual_start, physical_start, size }
    }

    /// Neither window wraps the address space.
    pub open spec fn wf(self) -> bool {
        self.virtual_start + self.size <= u32::MAX && self.physical_start + self.size <= u32::MAX
    }

    /// End of the virtual window.
    pub fn virtual_end(self) -> (r: u32)
        requires
            self.wf(),
        ensures
            r == self.virtual_start + self.size,
    {
        self.virtual_start + self.size
    }

    /// End of the physical window.
    pub fn physical_end(self) -> (r: u32)
        requires
            self.wf(),
        ensures
            r == self.physical_start + self.size,
    {
        self.physical_start + self.size
    }
}

/// The fixed table: otadata, the two application descriptors, and the FIDO
/// store.
pub open spec fn spec_mappings() -> Seq<Mapping> {
    seq![
        Mapping { virtual_start: 0x3f39_0000, physical_start: 0x0000_0000, size: 0x0002_0000 },
        Mapping { virtual_start: 0x3f3b_0000, physical_start: 0x0002_0000, size: 0x1_0000 },
        Mapping { virtual_start: 0x3f3c_0000, physical_start: 0x0020_0000, size: 0x1_0000 },
        Mapping { virtual_start: 0x3f3d_0000, physical_start: 0x003e_0000, size: 0x0002_0000 },
    ]
}

/// The mapping table.
pub fn mappings() -> (r: [Mapping; 4])
    ensures
        r@ == spec_mappings(),
{
    let r = [
        Mapping::new(0x3f39_0000, 0x0000_0000, 0x0002_0000),
        Mapping::new(0x3f3b_0000, 0x0002_0000, MMU_PAGE_SIZE),
        Mapping::new(0x3f3c_0000, 0x0020_0000, MMU_PAGE_SIZE),
        fido_store_mapping(),
    ];
    assert(r@ =~= spec_mappings());
    r
}

/// The window of the FIDO store partition.
pub fn fido_store_mapping() -> (r: Mapping)
    ensures
        r == spec_mappings()[3],
{
    Mapping::new(0x3f3d_0000, 0x003e_0000, 0x0002_0000)
}

/// `m` covers the physical range `[address, address + length)`.
pub open spec fn covers(m: Mapping, address: int, length: int) -> bool {
    m.physical_start <= address && address + length <= m.physical_start + m.size
}

/// `k` is the first table entry that covers the physical range.
pub open spec fn is_first_covering(k: int, address: int, length: int) -> bool {
    &&& 0 <= k < 4
    &&& covers(spec_mappings()[k], address, length)
    &&& forall|j: int| 0 <= j < k ==> !covers(#[trigger] spec_mappings()[j], address, length)
}

/// The virtual address of a physical range, through the first mapping that
/// covers it entirely.
pub open spec fn spec_mapped_virtual_address(address: u32, length: nat) -> Option<u32> {
    if address + length > u32::MAX {
        None
    } else if exists|k: int| is_first_covering(k, address as int, length as int) {
        let k = choose|k: int| is_first_covering(k, address as int, length as int);
        let m = spec_mappings()[k];
        Some((m.virtual_start + (address - m.physical_start)) as u32)
    } else {
        None
    }
}

pub fn mapped_virtual_address(address: u32, length: usize) -> (r: Option<u32>)
    ensures
        r == spec_mapped_virtual_address(address, length as nat),
{
    if length > u32::MAX as usize {
        return None;
    }
    let len32 = length as u32;
    let end = match address.checked_add(len32) {
        Some(end) => end,
        None => return None,
    };
    let table = mappings();
    let mut k: usize = 0;
    while k < 4
        invariant
            k <= 4,
            table@ == spec_mappings(),
            end == address + length,
            length <= u32::MAX,
            forall|j: int| 0 <= j < k ==> !covers(#[trigger] spec_mappings()[j], address as int, length as int),
        decreases 4 - k,
    {
        let mapping = table[k];
        if address >= mapping.physical_start && end <= mapping.physical_end() {
            proof {
                assert(is_first_covering(k as int, address as int, length as int));
                let c = choose|c: int| is_first_covering(c, address as int, length as int);
                if c < k {
                    assert(!covers(spec_mappings()[c], address as int, length as int));
                } else if c > k {
                    assert(!covers(spec_mappings()[k as int], address as int, length as int));
                }
                assert(c == k);
                assert(mapping == spec_mappings()[k as int]);
                assert(address + length <= u32::MAX);
                assert(spec_mapped_virtual_address(address, length as nat) == Some((mapping.virtual_start + (address - mapping.physical_start)) as u32));
            }
            return Some(mapping.virtual_start + (address - mapping.physical_start));
        }
        k = k + 1;
    }
    proof {
        assert forall|c: int| !is_first_covering(c, address as int, length as int) by {
            if 0 <= c < 4 {
                assert(!covers(spec_mappings()[c], address as int, length as int));
            }
        }
    }
    None
}

/// ROM encryption writes whole 32-byte blocks.
pub fn encrypted_write_is_aligned(address: u32, length: usize) -> (r: bool)
    ensures
        r == (address % 32 == 0 && length % 32 == 0),
{
    address % 32 == 0 && length % 32 == 0
}

/// The table's windows are page aligned, lie inside the reserved DROM window,
/// do not overlap, and the FIDO store window covers the store partition.
pub proof fn lemma_mappings_are_page_aligned_and_disjoint()
    ensures
        forall|k: int|
            0 <= k < 4 ==> {
                let m = #[trigger] spec_mappings()[k];
                &&& m.wf()
                &&& m.virtual_start % MMU_PAGE_SIZE == 0
                &&& m.physical_start % MMU_PAGE_SIZE == 0
                &&& m.size % MMU_PAGE_SIZE == 0
                &&& RESERVED_DROM_START <= m.virtual_start
                &&& m.virtual_start + m.size <= RESERVED_DROM_END
            },
        forall|i: int, j: int|
            0 <= i < j < 4 ==> spec_mappings()[i].virtual_start + spec_mappings()[i].size
                <= spec_mappings()[j].virtual_start,
        spec_mappings()[3].physical_start == 0x3e_0000,
        spec_mappings()[3].size == 0x2_0000,
{
}

/// A mapped range lands inside the virtual window of a mapping that covers
/// it, at the same offset as in flash.
pub proof fn lemma_mapped_range_stays_in_window(address: u32, length: nat)
    ensures
        spec_mapped_virtual_address(address, length) matches Some(v) ==> exists|k: int|
            0 <= k < 4 && covers(#[trigger] spec_mappings()[k], address as int, length as int) && v
                - spec_mappings()[k].virtual_start == address - spec_mappings()[k].physical_start
                && v + length <= spec_mappings()[k].virtual_start + spec_mappings()[k].size,
{
}

} // verus!
