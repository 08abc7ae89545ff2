use vstd::prelude::*;

verus! {

#[verifier::external_type_specification]
#[verifier::external_body]
pub struct ExThreadRng(rand::rngs::ThreadRng);

/// Relies on rand::thread_rng: a handle to the calling thread's generator,
/// seeded from the operating system.
pub assume_specification[ rand::thread_rng ]() -> rand::rngs::ThreadRng;

/// Relies on rand's `Uniform::new(0, bound)` and its `sample`: a value in
/// `[0, bound)`; `Uniform::new` panics when the range is empty.
#[verifier::external_body]
pub(crate) fn draw_below(rng: &mut rand::rngs::ThreadRng, bound: u8) -> (r: u8)
    requires
        0 < bound,
    ensures
        r < bound,
{
    rand::distributions::Distribution::sample(&rand::distributions::Uniform::new(0u8, bound), rng)
}

} // verus!
