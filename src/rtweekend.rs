use rand::Rng;
use std::sync::Arc;
use vstd::prelude::*;

verus! {

/// Relies on `rand::Rng::gen_range` over `rand::thread_rng()`: for a closed range
/// `min..=max` that is not empty it yields a value inside it (it panics on an
/// empty range, which `requires` leaves out).
#[verifier::external_body]
fn draw_in_range(min: i32, max: i32) -> (r: i32)
    requires
        min <= max,
    ensures
        min <= r <= max,
{
    rand::thread_rng().gen_range(min..=max)
}

/// A uniformly drawn integer in the closed range `[min, max]`.
pub fn random_i32(min: i32, max: i32) -> (r: i32)
    requires
        min <= max,
    ensures
        min <= r <= max,
{
    draw_in_range(min, max)
}

/// Moves a value behind a shared, reference-counted pointer.
pub fn into_arc<T>(arg: T) -> (r: Arc<T>)
    ensures
        *r == arg,
{
    Arc::new(arg)
}

} // verus!
