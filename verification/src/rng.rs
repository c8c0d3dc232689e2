//! Random source, threaded explicitly through every sampling operation.
//!
//! The generator itself comes from the `rand` crate and is opaque to the
//! verifier; the one trusted fact about a draw is the range it falls in.

use rand::Rng;
use vstd::prelude::*;

verus! {

#[verifier::external_type_specification]
#[verifier::external_body]
pub struct ExThreadRng(rand::rngs::ThreadRng);

/// Relies on `rand::thread_rng`: it hands out a handle to the thread-local
/// generator; nothing is assumed about the values it will produce.
#[verifier::external_body]
fn fresh_thread_rng() -> rand::rngs::ThreadRng {
    rand::thread_rng()
}

/// Relies on `rand::Rng::gen_range` on a half-open `i64` range: the result
/// lies in `lo..hi`, and the call only panics on an empty range, which the
/// precondition rules out.  No distribution is assumed, only membership.
#[verifier::external_body]
pub(crate) fn draw_in(rng: &mut rand::rngs::ThreadRng, lo: i64, hi: i64) -> (r: i64)
    requires
        lo < hi,
    ensures
        lo <= r < hi,
{
    rng.gen_range(lo..hi)
}

/// A fresh handle to the thread-local random generator, the explicit
/// dependency of every sampling and scattering operation.
pub fn new_rng() -> rand::rngs::ThreadRng {
    fresh_thread_rng()
}

} // verus!
