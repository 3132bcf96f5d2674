//! Random choices, made by the operating system's generator.
use vstd::prelude::*;

verus! {

/// A number drawn by `rand::Rng::gen_range(0, bound)` from the thread's
/// generator: below `bound`, and nothing more is known of it.
#[verifier::external_body]
pub(crate) fn random_below(bound: usize) -> (r: usize)
    requires
        bound > 0,
    ensures
        r < bound,
{
    let mut rng = rand::thread_rng();
    rand::Rng::gen_range(&mut rng, 0, bound)
}

/// A number drawn by `rand::Rng::gen` from the thread's generator; any
/// `u16` may come back.
#[verifier::external_body]
pub(crate) fn random_u16() -> (r: u16) {
    let mut rng = rand::thread_rng();
    rand::Rng::gen(&mut rng)
}

} // verus!
