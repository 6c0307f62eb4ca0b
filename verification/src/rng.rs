//! The random source of the fuzzing session.
//!
//! Randomness comes from the fuzzing framework's fast generator; nothing is
//! promised of the values drawn, and every function that consumes them is
//! verified for every value they could take.

use vstd::prelude::*;

verus! {

#[verifier::external_type_specification]
#[verifier::external_body]
/// The framework's pseudo-random generator, opaque to verification.
pub struct ExStdRand(libafl_bolts::rands::RomuDuoJrRand);

/// Relies on `RomuDuoJrRand::with_seed`: builds a generator from a seed.
#[verifier::external_body]
pub fn rand_with_seed(seed: u64) -> libafl_bolts::rands::RomuDuoJrRand {
    libafl_bolts::rands::RomuDuoJrRand::with_seed(seed)
}

/// Relies on `Rand::next` of `RomuDuoJrRand`: draws the next 64-bit value.
/// Nothing can be promised of a random draw.
#[verifier::external_body]
pub fn rand_next(rand: &mut libafl_bolts::rands::RomuDuoJrRand) -> u64 {
    libafl_bolts::rands::Rand::next(rand)
}

} // verus!
