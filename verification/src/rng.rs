//! The pseudo-random generator carried by the game state.
//!
//! The engine never draws from the generator itself; it only constructs one
//! deterministically from a seed so that a replayed event log reproduces the
//! same generator state. The generator value is opaque to verification; the
//! seed it was built from is tracked alongside it in ghost state.

use vstd::prelude::*;

use rand::RngCore;
use rand::SeedableRng;
use rand_chacha::ChaCha20Rng;

verus! {

/// Declares `rand_chacha::ChaCha20Rng` so that it can stand in a field of a
/// verified struct; its value is opaque here.
#[verifier::external_type_specification]
#[verifier::external_body]
pub struct ExChaCha20Rng(ChaCha20Rng);

/// Relies on `rand::thread_rng` and `rand::RngCore::next_u64`: draws an
/// arbitrary seed. Nothing is assumed about the value.
#[verifier::external_body]
pub(crate) fn random_seed() -> u64 {
    rand::thread_rng().next_u64()
}

/// Relies on `rand_chacha::ChaCha20Rng::seed_from_u64` (through
/// `rand_core::SeedableRng`): expands the given seed into a generator, as a
/// function of the seed alone. The generator is opaque here, so nothing is
/// stated of the result; callers record the seed in ghost state instead.
#[verifier::external_body]
pub(crate) fn rng_from_seed(seed: u64) -> ChaCha20Rng {
    ChaCha20Rng::seed_from_u64(seed)
}

} // verus!
