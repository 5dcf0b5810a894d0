//! Integer draws from a seedable random source.

use vstd::prelude::*;
use rand::Rng;

verus! {

/// The seedable random source; opaque, only handed on to the draws below.
#[verifier::external_type_specification]
#[verifier::external_body]
pub struct ExStdRng(rand::rngs::StdRng);

/// Relies on `rand::Rng::gen_range` over an exclusive `u64` range: the value
/// lies in `[lo, hi)`. It panics on an empty range, which `requires` leaves out.
#[verifier::external_body]
pub(crate) fn draw_in_range(rng: &mut rand::rngs::StdRng, lo: u64, hi: u64) -> (r: u64)
    requires
        lo < hi,
    ensures
        lo <= r < hi,
{
    rng.gen_range(lo..hi)
}

} // verus!
