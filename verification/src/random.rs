//! The injected source of randomness.
//!
//! Generators, the planner and the simulation never reach for a hidden global
//! generator: every draw comes from a [`RandomSource`] that the caller hands
//! in, so a run can be repeated from its seed.

use crate::fixed::SCALE;
use rand::rngs::StdRng;
use rand::Rng;
use rand::SeedableRng;
use vstd::prelude::*;

verus! {

/// `rand::rngs::StdRng`, the generator behind [`SeededSource`]. Nothing is
/// known here of what is inside it.
#[verifier::external_type_specification]
#[verifier::external_body]
pub struct ExStdRng(rand::rngs::StdRng);

/// A source of uniform draws.
pub trait RandomSource {
    /// In its present state the source may answer a draw from `low`
    /// (inclusive) to `high` (exclusive) with `r`, and be left as `next` by it.
    /// A source that says nothing of itself may answer with any value of the
    /// range.
    open spec fn hands_out(&self, low: int, high: int, r: int, next: &Self) -> bool {
        low <= r < high
    }

    /// A draw from `low` (inclusive) to `high` (exclusive).
    fn uniform(&mut self, low: i64, high: i64) -> (r: i64)
        requires
            low < high,
        ensures
            low <= r < high,
            old(self).hands_out(low as int, high as int, r as int, final(self)),
    ;
}

/// A source that is made from a seed. With one build of the generator behind
/// it, the same seed gives the same draws.
pub struct SeededSource {
    rng: StdRng,
}

impl SeededSource {
    /// The source for `seed`.
    pub fn new(seed: u64) -> (s: SeededSource) {
        SeededSource { rng: seeded_generator(seed) }
    }
}

impl RandomSource for SeededSource {
    fn uniform(&mut self, low: i64, high: i64) -> (r: i64) {
        draw_between(&mut self.rng, low, high)
    }
}

/// `rand::SeedableRng::seed_from_u64` for `rand::rngs::StdRng`. Nothing is
/// claimed of the generator that comes back.
#[verifier::external_body]
fn seeded_generator(seed: u64) -> (rng: StdRng) {
    StdRng::seed_from_u64(seed)
}

/// `rand::Rng::gen_range` on the half-open range `low..high` of `i64`. The
/// call panics on an empty range, which `requires` leaves out; the value that
/// comes back lies in the range.
#[verifier::external_body]
fn draw_between(rng: &mut StdRng, low: i64, high: i64) -> (r: i64)
    requires
        low < high,
    ensures
        low <= r < high,
{
    rng.gen_range(low..high)
}

/// Sum of the first `n` draws.
pub open spec fn total(draws: Seq<i64>, n: nat) -> int
    decreases n,
{
    if n == 0 {
        0
    } else {
        total(draws, (n - 1) as nat) + draws[n - 1]
    }
}

/// The deviate that twelve draws from `[0, SCALE)` make: their sum, less its mean.
pub open spec fn centred(draws: Seq<i64>) -> int {
    total(draws, 12) - 6 * SCALE
}

/// Turns twelve uniform draws from `[0, SCALE)` into one deviate of mean zero
/// and standard deviation one (in fixed point), by summing and centring them.
pub fn deviate_from_draws(draws: &[i64; 12]) -> (r: i64)
    requires
        forall|i: int| 0 <= i < 12 ==> 0 <= #[trigger] draws@[i] < SCALE,
    ensures
        r == centred(draws@),
        -6 * SCALE <= r < 6 * SCALE,
{
    let mut acc: i64 = 0;
    let mut i: usize = 0;
    while i < 12
        invariant
            i <= 12,
            acc == total(draws@, i as nat),
            0 <= acc <= i * (SCALE - 1),
            SCALE == 1_000_000,
            forall|j: int| 0 <= j < 12 ==> 0 <= #[trigger] draws@[j] < SCALE,
        decreases 12 - i,
    {
        acc = acc + draws[i];
        i = i + 1;
    }
    acc - 6 * SCALE
}

/// `r` is the deviate that some twelve draws from `[0, SCALE)` make.
pub open spec fn is_deviate(r: int) -> bool {
    exists|draws: Seq<i64>|
        draws.len() == 12 && r == #[trigger] centred(draws) && forall|i: int|
            0 <= i < 12 ==> 0 <= #[trigger] draws[i] < SCALE
}

/// The source goes from `before` to `after` through the states `states`,
/// handing out the twelve draws `draws` from `[0, SCALE)` on the way, and
/// those draws make the deviate `r`.
pub open spec fn deviate_chain<R: RandomSource>(
    before: R,
    after: R,
    r: int,
    draws: Seq<i64>,
    states: Seq<R>,
) -> bool {
    &&& draws.len() == 12
    &&& states.len() == 13
    &&& states[0] == before
    &&& states[12] == after
    &&& forall|i: int|
        0 <= i < 12 ==> 0 <= #[trigger] draws[i] < SCALE && states[i].hands_out(
            0,
            SCALE as int,
            draws[i] as int,
            &states[i + 1],
        )
    &&& r == centred(draws)
}

/// The deviate `r` is made of the twelve draws that the source hands out on
/// its way from `before` to `after`.
pub open spec fn draws_deviate<R: RandomSource>(before: R, r: int, after: R) -> bool {
    exists|draws: Seq<i64>, states: Seq<R>| #[trigger] deviate_chain(before, after, r, draws, states)
}

/// Draws an approximately normal deviate of mean zero and standard deviation
/// one: the centred sum of the next twelve draws that the source hands out
/// from `[0, SCALE)`. It lies within six standard deviations of zero.
pub fn unit_deviate<R: RandomSource>(source: &mut R) -> (r: i64)
    ensures
        draws_deviate(*old(source), r as int, *final(source)),
        is_deviate(r as int),
        -6 * SCALE <= r < 6 * SCALE,
{
    let ghost mut states: Seq<R> = seq![*source];
    let mut draws: [i64; 12] = [0; 12];
    let mut i: usize = 0;
    while i < 12
        invariant
            i <= 12,
            states.len() == i + 1,
            states[0] == *old(source),
            states[i as int] == *source,
            forall|j: int|
                0 <= j < i ==> 0 <= #[trigger] draws@[j] < SCALE && states[j].hands_out(
                    0,
                    SCALE as int,
                    draws@[j] as int,
                    &states[j + 1],
                ),
        decreases 12 - i,
    {
        let d = source.uniform(0, SCALE);
        let ghost earlier = states;
        let ghost drawn = draws@;
        draws[i] = d;
        proof {
            states = states.push(*source);
            assert forall|j: int| 0 <= j < i + 1 implies 0 <= #[trigger] draws@[j] < SCALE
                && states[j].hands_out(0, SCALE as int, draws@[j] as int, &states[j + 1]) by {
                if j < i {
                    assert(draws@[j] == drawn[j]);
                    assert(states[j] == earlier[j]);
                    assert(states[j + 1] == earlier[j + 1]);
                }
            }
        }
        i = i + 1;
    }
    let r = deviate_from_draws(&draws);
    proof {
        assert(draws@.len() == 12 && r == centred(draws@));
        assert(deviate_chain(*old(source), *source, r as int, draws@, states));
    }
    r
}

} // verus!
