//! Minimal startup sanity checks for hardware RNG output.
//!
//! These checks can catch an obviously stuck source. They are not a statistical
//! test suite and do not certify the RNG.

use vstd::prelude::*;

verus! {

#[derive(Clone, Copy, Debug, PartialEq, Eq, Structural)]
pub enum StartupSanityError {
    AllZero,
    RepeatedBlock,
}

/// The verdict on two consecutive output blocks: both entirely zero is a
/// stuck source, two equal blocks a repeating one.
pub open spec fn spec_check_blocks(first: Seq<u8>, second: Seq<u8>) -> Result<
    (),
    StartupSanityError,
> {
    if crate::bytes::all_zero(first) && crate::bytes::all_zero(second) {
        Err(StartupSanityError::AllZero)
    } else if first == second {
        Err(StartupSanityError::RepeatedBlock)
    } else {
        Ok(())
    }
}

fn all_zero_slice(bytes: &[u8]) -> (r: bool)
    ensures
        r == crate::bytes::all_zero(bytes@),
{
    let len = bytes.len();
    let mut i: usize = 0;
    while i < len
        invariant
            i <= len,
            len == bytes@.len(),
            forall|j: int| 0 <= j < i ==> #[trigger] bytes@[j] == 0u8,
        decreases len - i,
    {
        if bytes[i] != 0 {
            assert(bytes@[i as int] != 0u8);
            return false;
        }
        i = i + 1;
    }
    true
}

fn same_bytes(first: &[u8], second: &[u8]) -> (r: bool)
    ensures
        r == (first@ == second@),
{
    let len = first.len();
    if len != second.len() {
        return false;
    }
    let mut i: usize = 0;
    while i < len
        invariant
            i <= len,
            len == first@.len(),
            len == second@.len(),
            forall|j: int| 0 <= j < i ==> first@[j] == second@[j],
        decreases len - i,
    {
        if first[i] != second[i] {
            return false;
        }
        i = i + 1;
    }
    assert(first@ =~= second@);
    true
}

pub fn check_blocks(first: &[u8], second: &[u8]) -> (r: Result<(), StartupSanityError>)
    ensures
        r == spec_check_blocks(first@, second@),
{
    if all_zero_slice(first) && all_zero_slice(second) {
        return Err(StartupSanityError::AllZero);
    }
    if same_bytes(first, second) {
        return Err(StartupSanityError::RepeatedBlock);
    }
    Ok(())
}

} // verus!
