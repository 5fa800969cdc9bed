//! Random waypoint generators.
//!
//! A generator appends waypoints until the requested duration is reached. Each
//! new waypoint lies one randomly long segment after the last one, at the
//! position that a randomly chosen speed reaches in that time. The last segment
//! is never cut short, so a trajectory may run past the requested duration.
//!
//! On a line the whole loop runs here. In the plane the direction of a heading
//! is a matter of trigonometry, which this crate leaves to its caller:
//! [`PlanarGenerator`] hands out the draws of the next segment and takes the
//! direction back.

use crate::base::{products, sums, Metres, Metres2D, MetresPerSecond, Radians, Seconds, Vector};
use crate::error::ConfigurationError;
use crate::fixed::{
    clamp, clamped, fx_mul, lemma_product_range, lemma_product_units, product, sat_add, sum, SCALE,
};
use crate::random::{draws_deviate, is_deviate, unit_deviate, RandomSource};
use crate::trajectory::{is_sparse, last_time};
use vstd::prelude::*;

verus! {

/// The parameters that every generator accepts.
pub open spec fn valid_generator(max_speed: int, min_duration: int, variability: int, rsd: int) -> bool {
    &&& 0 <= max_speed
    &&& 0 <= min_duration
    &&& 1 <= variability
    &&& 0 <= rsd
    &&& min_duration + variability <= i64::MAX
}

/// The speed of a segment: the nominal speed, perturbed by the deviate scaled
/// to the fraction `rsd` of the maximal speed, and limited to `lowest..=max_speed`.
pub open spec fn perturbed_speed(
    max_speed: int,
    rsd: int,
    lowest: int,
    nominal: int,
    deviate: int,
) -> int {
    clamped(sum(nominal, product(product(rsd, max_speed), deviate)), lowest, max_speed)
}

/// Where a segment ends that starts at `pos` and runs in `direction` at `speed` for `duration`.
pub open spec fn step_coords(pos: Seq<int>, direction: Seq<int>, speed: int, duration: int) -> Seq<
    int,
> {
    sums(pos, products(direction, product(speed, duration)))
}

/// Computes the speed of a segment from its two draws.
pub fn segment_speed(
    max_speed: MetresPerSecond,
    rsd: i64,
    lowest: MetresPerSecond,
    nominal: MetresPerSecond,
    deviate: i64,
) -> (speed: MetresPerSecond)
    ensures
        speed == perturbed_speed(
            max_speed as int,
            rsd as int,
            lowest as int,
            nominal as int,
            deviate as int,
        ),
        lowest <= max_speed ==> lowest <= speed <= max_speed,
{
    let noise = fx_mul(fx_mul(rsd, max_speed), deviate);
    clamp(sat_add(nominal, noise), lowest, max_speed)
}

/// Appends to `prev` the waypoint that lies `duration` later, at the position
/// reached at `speed` along `direction`.
pub fn next_waypoint<V: Vector>(
    prev: (Seconds, V),
    duration: Seconds,
    speed: MetresPerSecond,
    direction: V,
) -> (next: (Seconds, V))
    requires
        0 < duration,
        prev.0 + duration <= i64::MAX,
    ensures
        next.0 == prev.0 + duration,
        next.1.coords() == step_coords(
            prev.1.coords(),
            direction.coords(),
            speed as int,
            duration as int,
        ),
{
    let travelled = fx_mul(speed, duration);
    (prev.0 + duration, prev.1.plus(direction.scaled(travelled)))
}

/// The duration `d` is one time step more than what the source hands out,
/// on its way from `before` to `after`, for a draw from zero up to, but not
/// including, `variability`.
pub open spec fn draws_duration<R: RandomSource>(before: R, variability: int, d: int, after: R) -> bool {
    before.hands_out(0, variability, d - 1, &after)
}

/// Draws the length of a segment: one time step more than what the source
/// hands out for a draw from zero up to, but not including, `variability`.
/// That is at least one time step and at most `variability`.
pub fn draw_duration<R: RandomSource>(source: &mut R, variability: Seconds) -> (d: Seconds)
    requires
        1 <= variability,
    ensures
        1 <= d <= variability,
        draws_duration(*old(source), variability as int, d as int, *final(source)),
{
    source.uniform(0, variability) + 1
}

/// `speed` is the speed of a segment for some nominal speed between `lowest`
/// and `max_speed` and some deviate.
pub open spec fn is_segment_speed(speed: int, max_speed: int, rsd: int, lowest: int) -> bool {
    exists|nominal: int, deviate: int|
        lowest <= nominal <= max_speed && is_deviate(deviate) && speed == #[trigger] perturbed_speed(
            max_speed,
            rsd,
            lowest,
            nominal,
            deviate,
        )
}

/// The source goes from `before` by way of `mid` to `after`. On the first
/// leg it hands out the nominal speed, between `lowest` and `max_speed`; where
/// the two are equal, nothing is drawn and the nominal speed is `max_speed`.
/// On the second leg it hands out the draws of the deviate. The two make `speed`.
pub open spec fn speed_chain<R: RandomSource>(
    before: R,
    mid: R,
    after: R,
    max_speed: int,
    rsd: int,
    lowest: int,
    nominal: int,
    deviate: int,
    speed: int,
) -> bool {
    &&& if lowest < max_speed {
        lowest <= nominal < max_speed && before.hands_out(lowest, max_speed, nominal, &mid)
    } else {
        nominal == max_speed && mid == before
    }
    &&& draws_deviate(mid, deviate, after)
    &&& speed == perturbed_speed(max_speed, rsd, lowest, nominal, deviate)
}

/// `speed` is the speed that the draws make which the source hands out on
/// its way from `before` to `after`.
pub open spec fn draws_speed<R: RandomSource>(
    before: R,
    max_speed: int,
    rsd: int,
    lowest: int,
    speed: int,
    after: R,
) -> bool {
    exists|mid: R, nominal: int, deviate: int|
        #[trigger] speed_chain(before, mid, after, max_speed, rsd, lowest, nominal, deviate, speed)
}

/// Two neighbouring waypoints on a line: the segment between them is at most
/// `variability` long and was run, forwards or backwards, at the speed that
/// some nominal speed and some deviate make, which is at most `max_speed`.
pub open spec fn is_segment_1d(
    p: (i64, i64),
    q: (i64, i64),
    max_speed: int,
    variability: int,
    rsd: int,
) -> bool {
    &&& 1 <= q.0 - p.0 <= variability
    &&& exists|speed: int|
        -max_speed <= speed <= max_speed && is_segment_speed(speed, max_speed, rsd, -max_speed)
            && q.1 == sum(p.1 as int, #[trigger] product(speed, q.0 - p.0))
}

/// The source goes from `before` by way of `mid` to `after`. On the first
/// leg it hands out the duration of the segment from the waypoint `p` to the
/// waypoint `q`, on the second the speed `speed` at which the segment is
/// run, forwards or backwards.
pub open spec fn segment_chain<R: RandomSource>(
    before: R,
    mid: R,
    after: R,
    p: (i64, i64),
    q: (i64, i64),
    max_speed: int,
    variability: int,
    rsd: int,
    speed: int,
) -> bool {
    &&& draws_duration(before, variability, q.0 - p.0, mid)
    &&& draws_speed(mid, max_speed, rsd, -max_speed, speed, after)
    &&& q.1 == sum(p.1 as int, product(speed, q.0 - p.0))
}

/// The waypoint `q` follows the waypoint `p` by the segment that the source
/// draws on its way from `before` to `after`.
pub open spec fn draws_segment<R: RandomSource>(
    before: R,
    p: (i64, i64),
    q: (i64, i64),
    max_speed: int,
    variability: int,
    rsd: int,
    after: R,
) -> bool {
    exists|mid: R, speed: int|
        #[trigger] segment_chain(before, mid, after, p, q, max_speed, variability, rsd, speed)
}

/// The source goes from `before` to `after` through the states `states`, one
/// for each waypoint, and on the way from each state to the next it draws the
/// segment from that waypoint to the next.
pub open spec fn trajectory_chain<R: RandomSource>(
    before: R,
    after: R,
    points: Seq<(i64, i64)>,
    max_speed: int,
    variability: int,
    rsd: int,
    states: Seq<R>,
) -> bool {
    &&& points.len() > 0
    &&& states.len() == points.len()
    &&& states[0] == before
    &&& states[states.len() - 1] == after
    &&& forall|i: int|
        0 <= i < points.len() - 1 ==> draws_segment(
            states[i],
            #[trigger] points[i],
            points[i + 1],
            max_speed,
            variability,
            rsd,
            states[i + 1],
        )
}

/// The waypoints are the ones that the draws make which the source hands
/// out on its way from `before` to `after`.
pub open spec fn draws_trajectory<R: RandomSource>(
    before: R,
    points: Seq<(i64, i64)>,
    max_speed: int,
    variability: int,
    rsd: int,
    after: R,
) -> bool {
    exists|states: Seq<R>|
        #[trigger] trajectory_chain(before, after, points, max_speed, variability, rsd, states)
}

/// Draws the speed of a segment, between `lowest` and `max_speed`: the
/// nominal speed that the source hands out, perturbed by the deviate that it
/// hands out next.
pub fn draw_speed<R: RandomSource>(
    source: &mut R,
    max_speed: MetresPerSecond,
    rsd: i64,
    lowest: MetresPerSecond,
) -> (speed: MetresPerSecond)
    requires
        lowest <= max_speed,
    ensures
        lowest <= speed <= max_speed,
        draws_speed(
            *old(source),
            max_speed as int,
            rsd as int,
            lowest as int,
            speed as int,
            *final(source),
        ),
        is_segment_speed(speed as int, max_speed as int, rsd as int, lowest as int),
{
    let nominal = if lowest < max_speed {
        source.uniform(lowest, max_speed)
    } else {
        max_speed
    };
    let ghost mid = *source;
    let deviate = unit_deviate(source);
    let speed = segment_speed(max_speed, rsd, lowest, nominal, deviate);
    proof {
        assert(speed_chain(
            *old(source),
            mid,
            *source,
            max_speed as int,
            rsd as int,
            lowest as int,
            nominal as int,
            deviate as int,
            speed as int,
        ));
    }
    speed
}

/// Generates waypoints on a line, from the origin, until `min_duration` is
/// reached. For each segment the source hands out a duration and then a
/// speed; nothing else is drawn, and nothing at all where the parameters are
/// refused.
pub fn generate_1d_trajectory_points_simple<R: RandomSource>(
    max_speed: MetresPerSecond,
    min_duration: Seconds,
    variability: Seconds,
    rsd: i64,
    source: &mut R,
) -> (r: Result<Vec<(Seconds, Metres)>, ConfigurationError>)
    ensures
        r is Ok <==> valid_generator(
            max_speed as int,
            min_duration as int,
            variability as int,
            rsd as int,
        ),
        r matches Err(e) ==> e == ConfigurationError::InvalidParameter && *final(source) == *old(
            source,
        ),
        r matches Ok(points) ==> {
            &&& draws_trajectory(
                *old(source),
                points@,
                max_speed as int,
                variability as int,
                rsd as int,
                *final(source),
            )
            &&& is_sparse(points@)
            &&& points@[0] == (0i64, 0i64)
            &&& last_time(points@) >= min_duration
            &&& points@.len() >= 2 ==> points@[points@.len() - 2].0 < min_duration
            &&& forall|i: int|
                0 <= i < points@.len() - 1 ==> is_segment_1d(
                    #[trigger] points@[i],
                    points@[i + 1],
                    max_speed as int,
                    variability as int,
                    rsd as int,
                )
        },
{
    if max_speed < 0 || min_duration < 0 || variability < 1 || rsd < 0 || min_duration > i64::MAX
        - variability {
        return Err(ConfigurationError::InvalidParameter);
    }
    let mut points: Vec<(Seconds, Metres)> = Vec::new();
    points.push((0, 0));
    let mut t: i64 = 0;
    let mut x: i64 = 0;
    let ghost mut states: Seq<R> = seq![*source];
    while t < min_duration
        invariant
            valid_generator(max_speed as int, min_duration as int, variability as int, rsd as int),
            trajectory_chain(
                *old(source),
                *source,
                points@,
                max_speed as int,
                variability as int,
                rsd as int,
                states,
            ),
            is_sparse(points@),
            points@[0] == (0i64, 0i64),
            points@[points@.len() - 1] == (t, x),
            points@.len() >= 2 ==> points@[points@.len() - 2].0 < min_duration,
            forall|i: int|
                0 <= i < points@.len() - 1 ==> is_segment_1d(
                    #[trigger] points@[i],
                    points@[i + 1],
                    max_speed as int,
                    variability as int,
                    rsd as int,
                ),
        decreases min_duration - t + variability,
    {
        let ghost before_segment = *source;
        let d = draw_duration(source, variability);
        let ghost mid = *source;
        let s = draw_speed(source, max_speed, rsd, -max_speed);
        let next = next_waypoint((t, x), d, s, SCALE);
        let ghost states_before = states;
        proof {
            states = states.push(*source);
            let travelled = product(s as int, d as int);
            lemma_product_range(s as int, d as int);
            lemma_product_units(travelled);
            assert(next.1.coords()[0] == sum(x as int, product(SCALE as int, travelled)));
            assert(is_segment_1d((t, x), next, max_speed as int, variability as int, rsd as int));
            assert(segment_chain(
                before_segment,
                mid,
                *source,
                (t, x),
                next,
                max_speed as int,
                variability as int,
                rsd as int,
                s as int,
            ));
        }
        let ghost before = points@;
        points.push(next);
        proof {
            assert forall|i: int| 0 <= i < points@.len() - 1 implies draws_segment(
                states[i],
                #[trigger] points@[i],
                points@[i + 1],
                max_speed as int,
                variability as int,
                rsd as int,
                states[i + 1],
            ) by {
                assert(points@[i] == before[i]);
                assert(states[i] == states_before[i]);
                if i < before.len() - 1 {
                    assert(points@[i + 1] == before[i + 1]);
                    assert(states[i + 1] == states_before[i + 1]);
                }
            }
            assert forall|i: int| 0 <= i < points@.len() - 1 implies is_segment_1d(
                #[trigger] points@[i],
                points@[i + 1],
                max_speed as int,
                variability as int,
                rsd as int,
            ) by {
                if i < before.len() - 1 {
                    assert(points@[i] == before[i]);
                    assert(points@[i + 1] == before[i + 1]);
                }
            }
            assert forall|i: int| 0 <= i < points@.len() - 1 implies (#[trigger] points@[i]).0
                < points@[i + 1].0 by {
                if i < before.len() - 1 {
                    assert(points@[i] == before[i]);
                    assert(points@[i + 1] == before[i + 1]);
                }
            }
        }
        t = next.0;
        x = next.1;
    }
    Ok(points)
}

/// The draws of one segment in the plane.
#[derive(Clone, Copy, Debug, PartialEq, Eq, Structural)]
pub struct SegmentDraw {
    /// How long the segment lasts.
    pub duration: Seconds,
    /// How fast it is run.
    pub speed: MetresPerSecond,
    /// In which direction, as an anticlockwise angle.
    pub heading: Radians,
}

/// What the caller of a [`PlanarGenerator`] does next.
#[derive(Clone, Copy, Debug, PartialEq, Eq, Structural)]
pub enum GeneratorAction {
    /// Work out the direction of the heading and call `extend` with it.
    Extend(SegmentDraw),
    /// The trajectory is as long as was asked for.
    Finished,
}

/// Generator of waypoints in the plane.
pub struct PlanarGenerator {
    pub max_speed: MetresPerSecond,
    pub min_duration: Seconds,
    pub variability: Seconds,
    pub rsd: i64,
    /// The most that the heading changes from one segment to the next.
    pub turnability: Radians,
    /// The heading of the last segment.
    pub heading: Radians,
    /// The waypoints so far.
    pub points: Vec<(Seconds, Metres2D)>,
}

impl PlanarGenerator {
    /// The parameters are in range and the waypoints form a sparse trajectory
    /// that stopped growing as soon as it was long enough.
    pub open spec fn wf(&self) -> bool {
        &&& valid_generator(
            self.max_speed as int,
            self.min_duration as int,
            self.variability as int,
            self.rsd as int,
        )
        &&& 0 <= self.turnability < i64::MAX
        &&& is_sparse(self.points@)
        &&& self.points@.len() >= 2 ==> self.points@[self.points@.len() - 2].0 < self.min_duration
    }

    /// The trajectory has reached the requested duration.
    pub open spec fn complete(&self) -> bool {
        last_time(self.points@) >= self.min_duration
    }

    /// `draw` is a segment that this generator may have proposed.
    pub open spec fn admits(&self, draw: SegmentDraw) -> bool {
        &&& 1 <= draw.duration <= self.variability
        &&& 0 <= draw.speed <= self.max_speed
    }

    /// A generator that starts at the origin, heading along the first axis.
    pub fn new(
        max_speed: MetresPerSecond,
        min_duration: Seconds,
        variability: Seconds,
        rsd: i64,
        turnability: Radians,
    ) -> (r: Result<PlanarGenerator, ConfigurationError>)
        ensures
            r is Ok <==> valid_generator(
                max_speed as int,
                min_duration as int,
                variability as int,
                rsd as int,
            ) && 0 <= turnability < i64::MAX,
            r matches Err(e) ==> e == ConfigurationError::InvalidParameter,
            r matches Ok(g) ==> {
                &&& g.wf()
                &&& g.max_speed == max_speed
                &&& g.min_duration == min_duration
                &&& g.variability == variability
                &&& g.rsd == rsd
                &&& g.turnability == turnability
                &&& g.heading == 0
                &&& g.points@ == seq![(0i64, Metres2D { x: 0, y: 0 })]
            },
    {
        if max_speed < 0 || min_duration < 0 || variability < 1 || rsd < 0 || min_duration
            > i64::MAX - variability || turnability < 0 || turnability == i64::MAX {
            return Err(ConfigurationError::InvalidParameter);
        }
        let mut points: Vec<(Seconds, Metres2D)> = Vec::new();
        points.push((0, Metres2D { x: 0, y: 0 }));
        assert(points@ =~= seq![(0i64, Metres2D { x: 0, y: 0 })]);
        Ok(
            PlanarGenerator {
                max_speed,
                min_duration,
                variability,
                rsd,
                turnability,
                heading: 0,
                points,
            },
        )
    }

    /// Whether the trajectory has reached the requested duration.
    pub fn is_complete(&self) -> (b: bool)
        requires
            self.wf(),
        ensures
            b == self.complete(),
    {
        self.points[self.points.len() - 1].0 >= self.min_duration
    }

    /// The source goes from `before` by way of `first` and `second` to
    /// `after`, and hands out, leg by leg, the duration, the speed and the
    /// turn `turn` of the segment `draw`.
    pub open spec fn proposes<R: RandomSource>(
        &self,
        before: R,
        first: R,
        second: R,
        after: R,
        turn: int,
        draw: SegmentDraw,
    ) -> bool {
        &&& draws_duration(before, self.variability as int, draw.duration as int, first)
        &&& draws_speed(first, self.max_speed as int, self.rsd as int, 0, draw.speed as int, second)
        &&& second.hands_out(-self.turnability, self.turnability + 1, turn, &after)
        &&& draw.heading == sum(self.heading as int, turn)
    }

    /// Says what to do next: nothing, once the trajectory is long enough, or
    /// else extend it by a segment whose length, speed and turn are the next
    /// that the source hands out. The heading of the segment is the heading of
    /// the one before, turned by that turn. A finished generator draws nothing.
    pub fn next_action<R: RandomSource>(&self, source: &mut R) -> (action: GeneratorAction)
        requires
            self.wf(),
        ensures
            action is Finished <==> self.complete(),
            action is Finished ==> *final(source) == *old(source),
            action matches GeneratorAction::Extend(draw) ==> {
                &&& exists|first: R, second: R, turn: int| #[trigger]
                    self.proposes(*old(source), first, second, *final(source), turn, draw)
                &&& self.admits(draw)
                &&& is_segment_speed(
                    draw.speed as int,
                    self.max_speed as int,
                    self.rsd as int,
                    0,
                )
                &&& self.heading - self.turnability <= draw.heading <= self.heading
                    + self.turnability
            },
    {
        if self.is_complete() {
            return GeneratorAction::Finished;
        }
        let duration = draw_duration(source, self.variability);
        let ghost first = *source;
        let speed = draw_speed(source, self.max_speed, self.rsd, 0);
        let ghost second = *source;
        let turn = source.uniform(-self.turnability, self.turnability + 1);
        let draw = SegmentDraw { duration, speed, heading: sat_add(self.heading, turn) };
        proof {
            assert(self.proposes(*old(source), first, second, *source, turn as int, draw));
        }
        GeneratorAction::Extend(draw)
    }

    /// Appends the waypoint at the end of the segment `draw`, run along `direction`.
    /// A segment that this generator cannot have proposed, or one offered to a
    /// trajectory that is long enough, changes nothing.
    pub fn extend(&mut self, draw: SegmentDraw, direction: Metres2D) -> (appended: bool)
        requires
            old(self).wf(),
        ensures
            final(self).wf(),
            appended == (!old(self).complete() && old(self).admits(draw)),
            final(self).max_speed == old(self).max_speed,
            final(self).min_duration == old(self).min_duration,
            final(self).variability == old(self).variability,
            final(self).rsd == old(self).rsd,
            final(self).turnability == old(self).turnability,
            !appended ==> *final(self) == *old(self),
            appended ==> {
                &&& final(self).heading == draw.heading
                &&& final(self).points@.len() == old(self).points@.len() + 1
                &&& final(self).points@.drop_last() == old(self).points@
                &&& final(self).points@.last().0 == last_time(old(self).points@) + draw.duration
                &&& final(self).points@.last().1.coords() == step_coords(
                    old(self).points@.last().1.coords(),
                    direction.coords(),
                    draw.speed as int,
                    draw.duration as int,
                )
            },
    {
        if self.is_complete() || draw.duration < 1 || draw.duration > self.variability || draw.speed
            < 0 || draw.speed > self.max_speed {
            return false;
        }
        let prev = self.points[self.points.len() - 1];
        let next = next_waypoint(prev, draw.duration, draw.speed, direction);
        let ghost before = self.points@;
        self.points.push(next);
        self.heading = draw.heading;
        proof {
            assert(self.points@.drop_last() =~= before);
            assert forall|i: int| 0 <= i < self.points@.len() - 1 implies (
            #[trigger] self.points@[i]).0 < self.points@[i + 1].0 by {
                if i < before.len() - 1 {
                    assert(self.points@[i] == before[i]);
                    assert(self.points@[i + 1] == before[i + 1]);
                }
            }
        }
        true
    }

    /// The waypoints.
    pub fn into_points(self) -> (points: Vec<(Seconds, Metres2D)>)
        ensures
            points@ == self.points@,
    {
        self.points
    }
}

/// The parameters of a generated trajectory.
#[derive(Clone, Copy, Debug, PartialEq, Eq, Structural)]
pub struct GeneratorParams {
    /// The greatest speed of a segment.
    pub max_speed: MetresPerSecond,
    /// The least duration of the trajectory.
    pub min_duration: Seconds,
    /// The greatest duration of a segment.
    pub variability: Seconds,
    /// Standard deviation of the speed noise, as a fraction of the greatest speed.
    pub rsd: i64,
    /// The most that the heading changes from one segment to the next.
    pub turnability: Radians,
    /// The time step at which the trajectory is sampled.
    pub resolution: Seconds,
}

impl Default for GeneratorParams {
    /// Half a metre per second, ten seconds, segments of up to two seconds,
    /// speed noise of a tenth, turns of up to one radian, ten samples a second.
    fn default() -> (p: GeneratorParams)
        ensures
            p.max_speed == 500_000,
            p.min_duration == 10_000_000,
            p.variability == 2_000_000,
            p.rsd == 100_000,
            p.turnability == 1_000_000,
            p.resolution == 100_000,
    {
        GeneratorParams {
            max_speed: 500_000,
            min_duration: 10_000_000,
            variability: 2_000_000,
            rsd: 100_000,
            turnability: 1_000_000,
            resolution: 100_000,
        }
    }
}

impl GeneratorParams {
    /// Every parameter is in range.
    pub open spec fn valid(&self) -> bool {
        &&& valid_generator(
            self.max_speed as int,
            self.min_duration as int,
            self.variability as int,
            self.rsd as int,
        )
        &&& 0 <= self.turnability < i64::MAX
        &&& 0 < self.resolution
    }

    /// Says what is wrong with the parameters, if anything is: a time step
    /// that is not positive first, then any other parameter out of range.
    pub fn check(&self) -> (r: Result<(), ConfigurationError>)
        ensures
            r is Ok <==> self.valid(),
            r matches Err(e) ==> e == if self.resolution <= 0 {
                ConfigurationError::NonPositiveResolution
            } else {
                ConfigurationError::InvalidParameter
            },
    {
        if self.resolution <= 0 {
            return Err(ConfigurationError::NonPositiveResolution);
        }
        if self.max_speed < 0 || self.min_duration < 0 || self.variability < 1 || self.rsd < 0
            || self.min_duration > i64::MAX - self.variability || self.turnability < 0
            || self.turnability == i64::MAX {
            return Err(ConfigurationError::InvalidParameter);
        }
        Ok(())
    }
}


} // verus!
