//! Draws from the process's random number generator, behind trusted
//! wrappers. Nothing more is promised of a draw than which values it can
//! take.

use crate::game::Color;
use rand::seq::SliceRandom;
use rand::Rng;
use vstd::prelude::*;

verus! {

/// Relies on rand's `SliceRandom::choose`: for a non-empty slice it returns
/// `Some` of one of the slice's elements.
#[verifier::external_body]
pub(crate) fn pick_color(options: &[Color]) -> (c: Color)
    requires
        options@.len() > 0,
    ensures
        options@.contains(c),
{
    *options.choose(&mut rand::thread_rng()).unwrap()
}

/// Relies on rand's `Rng::gen_range` on an inclusive range: a value between
/// the two bounds; it panics only on an empty range.
#[verifier::external_body]
pub(crate) fn pick_in_range(min: u32, max: u32) -> (r: u32)
    requires
        min <= max,
    ensures
        min <= r <= max,
{
    rand::thread_rng().gen_range(min..=max)
}

/// Relies on rand's `Rng::gen` for `bool`: a coin flip, of whose outcome
/// nothing can be promised.
#[verifier::external_body]
pub(crate) fn coin_flip() -> (b: bool)
{
    rand::thread_rng().gen()
}

} // verus!
