//! Build input compatibility: a setting may be given under its current name
//! or under the previous product name, never as two different values.

use vstd::prelude::*;

verus! {

/// The value a setting resolves to: the one given, whichever name carries it;
/// the shared value when both names carry the same one; nothing when neither
/// does; and a refusal when the two names disagree.
pub open spec fn spec_resolve(current: Option<Seq<u8>>, previous: Option<Seq<u8>>) -> Result<
    Option<Seq<u8>>,
    (),
> {
    match (current, previous) {
        (Some(a), Some(b)) => if a == b {
            Ok(Some(a))
        } else {
            Err(())
        },
        (Some(a), None) => Ok(Some(a)),
        (None, b) => Ok(b),
    }
}

/// The view of an optional raw value.
pub open spec fn bytes_of(value: Option<Vec<u8>>) -> Option<Seq<u8>> {
    match value {
        Some(v) => Some(v@),
        None => None,
    }
}

fn same_bytes(a: &Vec<u8>, b: &Vec<u8>) -> (r: bool)
    ensures
        r == (a@ == b@),
{
    if a.len() != b.len() {
        return false;
    }
    let n = a.len();
    let mut i: usize = 0;
    while i < n
        invariant
            i <= n,
            n == a@.len(),
            n == b@.len(),
            forall|j: int| 0 <= j < i ==> a@[j] == b@[j],
        decreases n - i,
    {
        if a[i] != b[i] {
            return false;
        }
        i = i + 1;
    }
    assert(a@ =~= b@);
    true
}

/// Resolves a setting given as raw bytes under its current and its previous
/// name.
pub fn resolve(current: Option<Vec<u8>>, previous: Option<Vec<u8>>) -> (r: Result<
    Option<Vec<u8>>,
    (),
>)
    ensures
        r matches Ok(value) ==> spec_resolve(bytes_of(current), bytes_of(previous)) == Ok::<
            Option<Seq<u8>>,
            (),
        >(bytes_of(value)),
        r is Err <==> spec_resolve(bytes_of(current), bytes_of(previous)) is Err,
{
    let conflict = match (&current, &previous) {
        (Some(a), Some(b)) => !same_bytes(a, b),
        _ => false,
    };
    if conflict {
        return Err(());
    }
    match current {
        Some(a) => Ok(Some(a)),
        None => Ok(previous),
    }
}

/// Giving a value under either name, or the same value under both, resolves
/// to that value; two different values are never resolved to either one.
pub proof fn lemma_aliases_resolve_without_choosing(value: Seq<u8>, other: Seq<u8>)
    ensures
        spec_resolve(Some(value), None) == Ok::<Option<Seq<u8>>, ()>(Some(value)),
        spec_resolve(None, Some(value)) == Ok::<Option<Seq<u8>>, ()>(Some(value)),
        spec_resolve(Some(value), Some(value)) == Ok::<Option<Seq<u8>>, ()>(Some(value)),
        value != other ==> spec_resolve(Some(value), Some(other)) is Err,
{
}

} // verus!
