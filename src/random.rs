use vstd::prelude::*;

use rand::rngs::StdRng;
use rand::Rng;

verus! {

/// A seedable random generator handed to each sharing session.
#[verifier::external_type_specification]
#[verifier::external_body]
pub struct ExStdRng(StdRng);

/// Relies on `rand::Rng::gen_range`: a value drawn uniformly from
/// `[0, bound)`; it panics only on an empty range, which `requires` excludes.
#[verifier::external_body]
pub(crate) fn draw_below(rng: &mut StdRng, bound: u64) -> (r: u64)
    requires
        bound > 0,
    ensures
        r < bound,
{
    rng.gen_range(0..bound)
}

} // verus!
