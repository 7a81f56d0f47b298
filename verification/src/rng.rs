//! Trusted access to the random sources the server relies on.
use vstd::prelude::*;

use crate::messages::MoveDirection;
use crate::messages::PlayerId;

verus! {

#[verifier::external_type_specification]
#[verifier::external_body]
pub struct ExRng(fastrand::Rng);

/// Relies on `fastrand::Rng::new`: a fresh seeded generator. Nothing is
/// promised of the values it will produce.
#[verifier::external_body]
pub fn rng_new() -> (r: fastrand::Rng) {
    fastrand::Rng::new()
}

/// Relies on `fastrand::Rng::u32` over the range `0..n`: the draw lies below
/// `n`. The function panics on an empty range, which the precondition
/// excludes.
#[verifier::external_body]
pub fn rng_u32_below(rng: &fastrand::Rng, n: u32) -> (r: u32)
    requires
        n > 0,
    ensures
        r < n,
{
    rng.u32(0..n)
}

/// Relies on `fastrand::Rng::shuffle`: the slice is permuted in place by
/// pairwise swaps, so the new contents are a rearrangement of the old.
#[verifier::external_body]
pub fn rng_shuffle_directions(rng: &fastrand::Rng, dirs: &mut Vec<MoveDirection>)
    ensures
        final(dirs)@.len() == old(dirs)@.len(),
        final(dirs)@.to_multiset() == old(dirs)@.to_multiset(),
{
    rng.shuffle(dirs.as_mut_slice());
}

/// Relies on `uuid::Uuid::new_v4` and `uuid::Uuid::as_u128`: a freshly drawn
/// random identity. Nothing is promised of the value.
#[verifier::external_body]
pub fn new_player_id() -> (r: PlayerId) {
    uuid::Uuid::new_v4().as_u128()
}

} // verus!
