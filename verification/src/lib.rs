//! A game with tetrominoes falling: the data structures, grid algorithms and game rules,
//! with their contracts.

pub mod cli;
pub mod controller;
pub mod data;

use vstd::prelude::*;

verus! {

/// The standard random number generator of rand; opaque here
#[verifier::external_type_specification]
#[verifier::external_body]
pub struct ExStdRng(rand::rngs::StdRng);

/// Calls `rand::Rng::gen_range` on the half-open range `low..high`. What it returns depends
/// on the generator's state, so the contract claims only that the value lies in the range
/// (rand panics on an empty range, which `requires` leaves out).
#[verifier::external_body]
pub(crate) fn gen_range_u8(rng: &mut rand::rngs::StdRng, low: u8, high: u8) -> (r: u8)
    requires
        low < high,
    ensures
        low <= r < high,
{
    rand::Rng::gen_range(rng, low..high)
}

} // verus!
pub mod game;
pub mod input;
pub mod online;
pub mod tmp_ptr;
