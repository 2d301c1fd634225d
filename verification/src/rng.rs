use rand::Rng;
use vstd::prelude::*;

verus! {

/// Relies on `rand::rngs::ThreadRng` through `Rng::gen_range` on a half-open
/// `i64` range: it returns a value in `[lo, hi)` and panics only when the
/// range is empty, which the precondition rules out. Nothing more is assumed
/// of the draw.
#[verifier::external_body]
pub(crate) fn rand_range(lo: i64, hi: i64) -> (r: i64)
    requires
        lo < hi,
    ensures
        lo <= r < hi,
{
    rand::thread_rng().gen_range(lo..hi)
}

/// A uniform fixed-point draw from `[0, 1)`.
pub fn random_double() -> (r: i64)
    ensures
        0 <= r < crate::math::SCALE as int,
{
    rand_range(0, crate::math::SCALE)
}

/// A uniform fixed-point draw from `[min, max)`.
pub fn random_double_from_range(min: i64, max: i64) -> (r: i64)
    requires
        min < max,
    ensures
        min <= r < max,
{
    rand_range(min, max)
}

} // verus!
