//! The one place where chance enters: picking one of several candidates.
//!
//! The generator comes from the `rand` crate and is handed in by the
//! caller, so that a caller who seeds it gets the same picks again.

use vstd::prelude::*;

verus! {

/// The generator of the `rand` crate. Nothing inside it is visible here.
#[verifier::external_type_specification]
#[verifier::external_body]
pub struct ExStdRng(rand::rngs::StdRng);

/// Trusted: calls `rand::Rng::gen_range` on the range `0..len`, which
/// `rand` documents to return a value in the range and to panic where the
/// range is empty. The contract says no more than that: the number is below
/// `len`. Which number it is depends on the state of the generator.
#[verifier::external_body]
pub(crate) fn pick_index(rng: &mut rand::rngs::StdRng, len: usize) -> (i: usize)
    requires
        len > 0,
    ensures
        i < len,
{
    rand::Rng::gen_range(rng, 0..len)
}

} // verus!
