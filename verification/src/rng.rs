//! The source of randomness for weight initialization.
//!
//! The generator is rand's `StdRng`, seeded and owned by the caller, so a
//! training run is reproducible.  Nothing is assumed about the values it
//! yields: every contract above this module holds for every possible draw.

use vstd::prelude::*;

verus! {

#[verifier::external_type_specification]
#[verifier::external_body]
pub struct ExStdRng(rand::rngs::StdRng);

/// Relies on rand's `Rng::next_u32` on `StdRng`: one 32-bit draw from the
/// generator.  Nothing is assumed of the value.
#[verifier::external_body]
pub(crate) fn rng_next_u32(rng: &mut rand::rngs::StdRng) -> u32 {
    rand::Rng::next_u32(rng)
}

} // verus!
