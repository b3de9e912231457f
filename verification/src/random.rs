use vstd::prelude::*;

verus! {

/// The handle to the thread-local generator of `rand`. Nothing is known of
/// what it holds; it is only carried from one draw to the next.
#[verifier::external_type_specification]
#[verifier::external_body]
pub struct ExThreadRng(rand::rngs::ThreadRng);

/// `rand::thread_rng` hands out the calling thread's generator. Nothing is
/// claimed of the handle. The call fails only where the system has no entropy
/// to seed the generator with, which no argument decides.
pub assume_specification[ rand::thread_rng ]() -> (rng: rand::rngs::ThreadRng)
;

/// `Rng::gen_range(0, bound)`: one draw from the half-open range `[0, bound)`.
/// The call panics on an empty range, so `bound` must be positive. Only the
/// range of the result is claimed, not its distribution.
#[verifier::external_body]
pub(crate) fn draw_below(rng: &mut rand::rngs::ThreadRng, bound: usize) -> (draw: usize)
    requires
        bound > 0,
    ensures
        draw < bound,
{
    rand::Rng::gen_range(rng, 0, bound)
}

/// `SliceRandom::shuffle`: rearranges the slice in place by a chain of
/// swaps. The claim is that the outcome holds the same elements, each as
/// often as before; which arrangement comes out is left open.
#[verifier::external_body]
pub(crate) fn rearrange<T>(lines: &mut Vec<T>, rng: &mut rand::rngs::ThreadRng)
    ensures
        final(lines)@.to_multiset() == old(lines)@.to_multiset(),
{
    rand::seq::SliceRandom::shuffle(lines.as_mut_slice(), rng)
}

} // verus!
