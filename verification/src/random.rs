//! The game's source of chance.

use rand::rngs::ThreadRng;
use rand::Rng;

use vstd::prelude::*;

verus! {

#[verifier::external_type_specification]
#[verifier::external_body]
pub struct ExThreadRng(ThreadRng);

/// rand's `thread_rng`: the thread's random number generator.
#[verifier::external_body]
pub fn thread_rng() -> (rng: ThreadRng) {
    rand::thread_rng()
}

/// rand's `Rng::gen_range(0, high)`: a number below `high`, which one is
/// chance. rand panics when the range is empty, so `high` is at least 1.
#[verifier::external_body]
pub(crate) fn gen_below(rng: &mut ThreadRng, high: usize) -> (r: usize)
    requires
        0 < high,
    ensures
        r < high,
{
    rng.gen_range(0, high)
}

} // verus!
