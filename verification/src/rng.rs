//! The pseudo-random generator that a world owns.

use rand::{Rng, SeedableRng};
use rand_xorshift::XorShiftRng;
use vstd::prelude::*;

verus! {

/// `rand_xorshift::XorShiftRng`, a generator whose state is four words.
/// Nothing is seen of a value of it but through `generator_words`.
#[verifier::external_type_specification]
#[verifier::external_body]
pub struct ExXorShiftRng(XorShiftRng);

/// The four words that a xorshift generator holds.
#[derive(Clone, Copy, PartialEq, Eq, Structural, Debug)]
pub struct XorShiftWords {
    pub x: u32,
    pub y: u32,
    pub z: u32,
    pub w: u32,
}

/// A number drawn, and the words that the generator holds after the draw.
pub struct RangeDraw {
    pub value: i32,
    pub words: XorShiftWords,
}

/// The words that a generator holds: its fields `x`, `y`, `z` and `w`.
pub uninterp spec fn generator_words(rng: XorShiftRng) -> XorShiftWords;

/// The words of the generator that `XorShiftRng::seed_from_u64` makes from
/// `seed`. They depend on the seed alone: the seed is spread over sixteen
/// bytes by a fixed recurrence, and the bytes are read as four words in
/// little-endian order on every machine.
pub uninterp spec fn seeded_words(seed: u64) -> XorShiftWords;

/// What `Rng::gen_range` draws between `low` and `high` from a generator
/// that holds `words`, and what the generator holds then. Both depend on
/// the words and the bounds alone: the generator steps, words are drawn
/// from it until one falls outside the part of the word range that would
/// favour some numbers, and the number is computed from that word.
pub uninterp spec fn range_draw(words: XorShiftWords, low: i32, high: i32) -> RangeDraw;

/// Calls `XorShiftRng::seed_from_u64`. Believed, not proved: the new
/// generator holds the words that belong to the seed.
#[verifier::external_body]
pub(crate) fn seeded_generator(seed: u64) -> (rng: XorShiftRng)
    ensures
        generator_words(rng) == seeded_words(seed),
{
    XorShiftRng::seed_from_u64(seed)
}

/// Calls `Rng::gen_range` for `i32`, which panics unless `low < high`.
/// Believed, not proved: the number drawn is at least `low` and less than
/// `high`, and it and the state of the generator after the draw are those
/// that belong to the state before the draw and to the bounds.
#[verifier::external_body]
pub(crate) fn draw_in_range(rng: &mut XorShiftRng, low: i32, high: i32) -> (value: i32)
    requires
        low < high,
    ensures
        low <= value < high,
        value == range_draw(generator_words(*old(rng)), low, high).value,
        generator_words(*final(rng)) == range_draw(generator_words(*old(rng)), low, high).words,
{
    rng.gen_range(low, high)
}

} // verus!
