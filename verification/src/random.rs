//! The random source: a seeded generator of the `rand` crate, and the calls
//! into that crate. Nothing here is proved: each contract states what the
//! crate documents of the call.

use vstd::prelude::*;
use rand::Rng;
use rand::SeedableRng;
use rand::rngs::StdRng;
use rand::seq::SliceRandom;

verus! {

/// `rand::rngs::StdRng`, the generator that every draw comes from. Nothing
/// inside it is visible here.
#[verifier::external_type_specification]
#[verifier::external_body]
pub struct ExStdRng(StdRng);

/// `StdRng::seed_from_u64`: a generator whose stream is fixed by `seed`.
/// Nothing is claimed of the generator.
#[verifier::external_body]
pub(crate) fn generator(seed: u64) -> StdRng {
    StdRng::seed_from_u64(seed)
}

/// `Rng::gen_range` on `0..bound`: some number below `bound`. The range
/// must not be empty, on which the call would panic.
#[verifier::external_body]
pub(crate) fn draw_below(rng: &mut StdRng, bound: u64) -> (r: u64)
    requires
        bound > 0,
    ensures
        r < bound,
{
    rng.gen_range(0..bound)
}

/// `SliceRandom::shuffle`: the items are rearranged among themselves by
/// swaps; which order comes out is left open.
#[verifier::external_body]
pub(crate) fn shuffle<T>(items: &mut Vec<T>, rng: &mut StdRng)
    ensures
        final(items)@.to_multiset() == old(items)@.to_multiset(),
{
    items.shuffle(rng);
}

/// `SliceRandom::choose`: one of the items, or nothing if there is none;
/// which one is left open.
#[verifier::external_body]
pub(crate) fn pick<T: Copy>(items: &Vec<T>, rng: &mut StdRng) -> (r: Option<T>)
    ensures
        items@.len() == 0 ==> r is None,
        items@.len() > 0 ==> r is Some && items@.contains(r->0),
{
    items.choose(rng).copied()
}

} // verus!
