//! SHA-256 through the `sha2` crate, as a running computation whose absorbed
//! bytes the contracts can name.

use vstd::prelude::*;

verus! {

/// A running SHA-256 computation: a `sha2::Sha256` held privately, opaque to
/// the proofs. `absorbed` names the bytes it has taken in, and the three
/// wrappers below are the only code that touches the hasher.
#[verifier::external_body]
pub struct Sha256State {
    hasher: sha2::Sha256,
}

/// The bytes a running SHA-256 computation has absorbed, in order.
pub uninterp spec fn absorbed(state: Sha256State) -> Seq<u8>;

/// The SHA-256 digest of `data`.
pub uninterp spec fn sha256(data: Seq<u8>) -> Seq<u8>;

/// Starts a computation (`sha2::Digest::new` for `Sha256`): nothing absorbed.
#[verifier::external_body]
pub(crate) fn sha256_start() -> (r: Sha256State)
    ensures
        absorbed(r) == Seq::<u8>::empty(),
{
    Sha256State { hasher: sha2::Digest::new() }
}

/// Absorbs `data` (`sha2::Digest::update`): the bytes are appended to what was
/// absorbed before.
#[verifier::external_body]
pub(crate) fn sha256_update(state: &mut Sha256State, data: &[u8])
    ensures
        absorbed(*final(state)) == absorbed(*old(state)) + data@,
{
    sha2::Digest::update(&mut state.hasher, data);
}

/// The digest of everything absorbed so far (`sha2::Digest::finalize` on a
/// clone, so the running state is kept): 32 bytes, named by `sha256`.
#[verifier::external_body]
pub(crate) fn sha256_finish(state: &Sha256State) -> (r: [u8; 32])
    ensures
        r@ == sha256(absorbed(*state)),
{
    sha2::Digest::finalize(state.hasher.clone()).into()
}

} // verus!
