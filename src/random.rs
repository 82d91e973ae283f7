use rand::{Rng, SeedableRng};
use rand_chacha::ChaCha8Rng;
use vstd::prelude::*;

verus! {

#[verifier::external_type_specification]
#[verifier::external_body]
pub struct ExChaCha8Rng(ChaCha8Rng);

/// Relies on `rand_chacha::ChaCha8Rng::from_seed` (through
/// `rand_core::SeedableRng`): a generator whose stream the seed fixes.
#[verifier::external_body]
pub(crate) fn seeded_rng(seed: [u8; 32]) -> ChaCha8Rng {
    ChaCha8Rng::from_seed(seed)
}

/// Relies on `rand::Rng::gen::<bool>`: one random bit; nothing is known of it.
#[verifier::external_body]
pub(crate) fn random_bool(rng: &mut ChaCha8Rng) -> bool {
    rng.gen()
}

/// Relies on `rand::Rng::gen_range` over `0..bound`: a value below `bound`.
/// It panics on an empty range, which `requires` leaves out.
#[verifier::external_body]
pub(crate) fn random_below(rng: &mut ChaCha8Rng, bound: u32) -> (r: u32)
    requires
        0 < bound,
    ensures
        r < bound,
{
    rng.gen_range(0..bound)
}

/// Relies on `rand::thread_rng` and `rand::Rng::fill`: 32 bytes from the
/// thread's generator, seeded by the operating system; nothing is known of them.
#[verifier::external_body]
pub(crate) fn entropy_seed() -> [u8; 32] {
    let mut seed = [0u8; 32];
    rand::thread_rng().fill(&mut seed);
    seed
}

} // verus!
