//! The seeded random source. Everything the library knows of `rand` is stated
//! in this file and taken on trust; nothing here is proved.

use rand::{Rng, SeedableRng, StdRng};
use vstd::prelude::*;

verus! {

/// `rand::StdRng`, the seedable generator of `rand`. Its fields stay hidden.
#[verifier::external_type_specification]
#[verifier::external_body]
pub struct ExStdRng(rand::StdRng);

/// The state that a generator holds, word by word: the counters and the two
/// tables of the ISAAC generator inside `StdRng`. What a generator yields next
/// depends on these words and on nothing else.
pub uninterp spec fn rng_words(rng: StdRng) -> Seq<u64>;

/// The state of the generator that `StdRng::from_seed` makes from `seed`.
/// (`StdRng` is one generator where `usize` has 64 bits and another where it
/// has 32; the state is that of the one the library is built with.)
pub uninterp spec fn seeded_words(seed: Seq<usize>) -> Seq<u64>;

/// What `Rng::gen_range(low, high)` does on a generator in state `words`: the
/// number it returns, and the state it leaves behind.
pub uninterp spec fn range_draw(words: Seq<u64>, low: u32, high: u32) -> (u32, Seq<u64>);

/// The number drawn from `[low, high)` in state `words`. It lies in the range
/// whenever the range has a member.
pub open spec fn drawn(words: Seq<u64>, low: u32, high: u32) -> u32 {
    let value = range_draw(words, low, high).0;
    if low <= value < high {
        value
    } else {
        low
    }
}

/// The state after a draw from `[low, high)` in state `words`.
pub open spec fn rest(words: Seq<u64>, low: u32, high: u32) -> Seq<u64> {
    range_draw(words, low, high).1
}

/// Calls `StdRng::from_seed` (`SeedableRng<&[usize]>`). `rand` documents that
/// generators made from one seed yield one sequence of values: the state of
/// the new generator is a function of the seed.
#[verifier::external_body]
pub(crate) fn seeded(seed: &[usize]) -> (rng: StdRng)
    ensures
        rng_words(rng) == seeded_words(seed@),
{
    SeedableRng::from_seed(seed)
}

/// Calls `Rng::gen_range` on a `StdRng`, for `u32`. `rand` documents a value
/// in `[low, high)` and a panic for `low >= high`; the value and the state
/// afterwards are fixed by the state before and the two bounds.
#[verifier::external_body]
pub(crate) fn draw(rng: &mut StdRng, low: u32, high: u32) -> (value: u32)
    requires
        low < high,
    ensures
        low <= value < high,
        (value, rng_words(*final(rng))) == range_draw(rng_words(*old(rng)), low, high),
{
    rng.gen_range(low, high)
}

} // verus!
