//! Curvature-constrained paths inside a bounded arena.
//!
//! A path is a chain of straight segments and circular arcs of one turning
//! radius. It grows by one three-segment word at a time: towards a randomly
//! chosen pose, the shortest of the candidate words is taken, and it is
//! accepted only if every sampled point of it lies inside the arena.
//!
//! Working out the candidate words for two poses is trigonometry, which this
//! crate leaves to its caller. [`DubinsPlanner`] decides everything else: which
//! pose to aim for, which candidate to take, whether it is accepted, when the
//! path is long enough and when to give up.

use crate::base::{
    Metres, Metres2D, MetresPerSecond, OrientedPosition2D, RadiansPerSecond, Seconds,
};
use crate::error::{ConfigurationError, PlanningFailure};
use crate::fixed::{fx_div, fx_mul, product, quotient, sat_add, saturated, SCALE};
use crate::random::RandomSource;
use vstd::arithmetic::div_mod::{
    lemma_div_is_ordered, lemma_fundamental_div_mod, lemma_mod_pos_bound,
};
use vstd::prelude::*;

verus! {

/// A full turn, in fixed-point radians.
pub const FULL_TURN: i64 = 6_283_185;

/// How often in a row the planner may fail to extend the path before it gives up.
pub const RETRY_LIMIT: usize = 100;

/// The way a segment bends.
#[derive(Clone, Copy, Debug, PartialEq, Eq, Structural)]
pub enum Turn {
    /// Anticlockwise arc.
    Left,
    /// No curvature.
    Straight,
    /// Clockwise arc.
    Right,
}

impl Turn {
    /// One for an anticlockwise arc, minus one for a clockwise arc, zero for a straight line.
    pub open spec fn sign(self) -> int {
        match self {
            Turn::Left => 1,
            Turn::Straight => 0,
            Turn::Right => -1,
        }
    }
}

/// The six words, in the order in which they are constructed.
#[derive(Clone, Copy, Debug, PartialEq, Eq, Structural)]
pub enum DubinsWord {
    LSL,
    RSR,
    LSR,
    RSL,
    RLR,
    LRL,
}

impl DubinsWord {
    /// The three letters of the word.
    pub open spec fn letters(self) -> Seq<Turn> {
        match self {
            DubinsWord::LSL => seq![Turn::Left, Turn::Straight, Turn::Left],
            DubinsWord::RSR => seq![Turn::Right, Turn::Straight, Turn::Right],
            DubinsWord::LSR => seq![Turn::Left, Turn::Straight, Turn::Right],
            DubinsWord::RSL => seq![Turn::Right, Turn::Straight, Turn::Left],
            DubinsWord::RLR => seq![Turn::Right, Turn::Left, Turn::Right],
            DubinsWord::LRL => seq![Turn::Left, Turn::Right, Turn::Left],
        }
    }

    /// The letter at position `i` of the word, for `i < 3`.
    pub fn letter(&self, i: usize) -> (t: Turn)
        requires
            i < 3,
        ensures
            t == self.letters()[i as int],
    {
        match self {
            DubinsWord::LSL => if i == 1 {
                Turn::Straight
            } else {
                Turn::Left
            },
            DubinsWord::RSR => if i == 1 {
                Turn::Straight
            } else {
                Turn::Right
            },
            DubinsWord::LSR => if i == 0 {
                Turn::Left
            } else if i == 1 {
                Turn::Straight
            } else {
                Turn::Right
            },
            DubinsWord::RSL => if i == 0 {
                Turn::Right
            } else if i == 1 {
                Turn::Straight
            } else {
                Turn::Left
            },
            DubinsWord::RLR => if i == 1 {
                Turn::Left
            } else {
                Turn::Right
            },
            DubinsWord::LRL => if i == 1 {
                Turn::Right
            } else {
                Turn::Left
            },
        }
    }
}

/// The point lies inside the square arena of the given half size.
pub open spec fn inside(p: Metres2D, half: int) -> bool {
    -half <= p.x <= half && -half <= p.y <= half
}

/// Every point lies inside the arena.
pub open spec fn all_inside(points: Seq<Metres2D>, half: int) -> bool {
    forall|i: int| 0 <= i < points.len() ==> inside(#[trigger] points[i], half)
}

/// One straight line or one arc.
#[derive(Debug)]
pub struct DubinsSegment {
    /// Where the segment starts, and in which direction.
    pub start: OrientedPosition2D,
    /// Where it ends, and in which direction.
    pub end: OrientedPosition2D,
    /// Its length along the path.
    pub length: Metres,
    /// The way it bends.
    pub turn: Turn,
    /// Points of the segment, between its two ends.
    pub samples: Vec<Metres2D>,
}

impl DubinsSegment {
    /// Both ends and every sampled point of the segment lie inside the arena.
    pub open spec fn stays_inside(&self, half: int) -> bool {
        &&& inside(self.start.position, half)
        &&& inside(self.end.position, half)
        &&& all_inside(self.samples@, half)
    }

    /// Checks the two ends and every sampled point against the arena.
    pub fn is_inside(&self, half: Metres) -> (b: bool)
        ensures
            b == self.stays_inside(half as int),
    {
        if !point_inside(self.start.position, half) || !point_inside(self.end.position, half) {
            return false;
        }
        let mut i: usize = 0;
        while i < self.samples.len()
            invariant
                i <= self.samples@.len(),
                forall|j: int| 0 <= j < i ==> inside(#[trigger] self.samples@[j], half as int),
            decreases self.samples@.len() - i,
        {
            if !point_inside(self.samples[i], half) {
                return false;
            }
            i = i + 1;
        }
        true
    }
}

/// Checks one point against the arena.
pub fn point_inside(p: Metres2D, half: Metres) -> (b: bool)
    ensures
        b == inside(p, half as int),
{
    half >= 0 && -half <= p.x && p.x <= half && -half <= p.y && p.y <= half
}

/// The reciprocal of the turning radius, with the sign of the turn: the
/// curvature of an arc of that radius, and zero for a straight line.
pub open spec fn signed_curvature(turn: Turn, turning_radius: int) -> int {
    turn.sign() * quotient(SCALE as int, turning_radius)
}

/// The curvature of a segment that bends as `turn` says.
pub fn curvature(turn: Turn, turning_radius: Metres) -> (c: i64)
    requires
        turning_radius > 0,
    ensures
        c == signed_curvature(turn, turning_radius as int),
{
    let k = fx_div(SCALE, turning_radius);
    proof {
        reveal(quotient);
        assert(0 <= (SCALE * SCALE) / (turning_radius as int) <= SCALE * SCALE) by (nonlinear_arith)
            requires
                turning_radius > 0,
                SCALE == 1_000_000,
        ;
    }
    match turn {
        Turn::Left => k,
        Turn::Straight => 0,
        Turn::Right => -k,
    }
}

/// Each segment ends where the next one starts, in position and in heading.
pub open spec fn chained(segments: Seq<DubinsSegment>) -> bool {
    forall|i: int, j: int|
        0 <= i && j == i + 1 && j < segments.len() ==> (#[trigger] segments[i]).end == (
        #[trigger] segments[j]).start
}

/// No segment has a negative length.
pub open spec fn lengths_valid(segments: Seq<DubinsSegment>) -> bool {
    forall|i: int| 0 <= i < segments.len() ==> (#[trigger] segments[i]).length >= 0
}

/// Every segment stays inside the arena.
pub open spec fn all_stay_inside(segments: Seq<DubinsSegment>, half: int) -> bool {
    forall|i: int| 0 <= i < segments.len() ==> (#[trigger] segments[i]).stays_inside(half)
}

/// Sum of the lengths of the segments.
pub open spec fn path_length(segments: Seq<DubinsSegment>) -> int
    decreases segments.len(),
{
    if segments.len() == 0 {
        0
    } else {
        path_length(segments.drop_last()) + segments.last().length
    }
}

/// The length of a chain is the sum of the lengths of its two parts, and is not
/// negative where no segment has a negative length.
pub proof fn lemma_path_length_concat(a: Seq<DubinsSegment>, b: Seq<DubinsSegment>)
    ensures
        path_length(a + b) == path_length(a) + path_length(b),
        lengths_valid(a) ==> path_length(a) >= 0,
    decreases b.len(), a.len(),
{
    if b.len() == 0 {
        assert(a + b =~= a);
    } else {
        lemma_path_length_concat(a, b.drop_last());
        assert((a + b).drop_last() =~= a + b.drop_last());
        assert((a + b).last() == b.last());
    }
    if a.len() > 0 && lengths_valid(a) {
        assert forall|i: int| 0 <= i < a.drop_last().len() implies (#[trigger] a.drop_last()[i]).length
            >= 0 by {
            assert(a.drop_last()[i] == a[i]);
        }
        lemma_path_length_concat(a.drop_last(), Seq::empty());
        assert(a.last() == a[a.len() - 1]);
    }
}

/// Length of the first `i` segments.
pub open spec fn prefix_length(segments: Seq<DubinsSegment>, i: int) -> int {
    path_length(segments.take(i))
}

/// The first `i + 1` segments are as long as the first `i` and segment `i` together.
pub proof fn lemma_prefix_step(segments: Seq<DubinsSegment>, i: int)
    requires
        0 <= i < segments.len(),
    ensures
        prefix_length(segments, i + 1) == prefix_length(segments, i) + segments[i].length,
        prefix_length(segments, 0) == 0,
        prefix_length(segments, segments.len() as int) == path_length(segments),
{
    assert(segments.take(i + 1).drop_last() =~= segments.take(i));
    assert(segments.take(i + 1).last() == segments[i]);
    assert(segments.take(segments.len() as int) =~= segments);
    assert(segments.take(0).len() == 0);
}

/// The length of a chain of segments, saturated.
pub fn chain_length(segments: &Vec<DubinsSegment>) -> (l: Metres)
    ensures
        l == saturated(path_length(segments@)),
{
    let acc = exact_length(segments);
    if acc < i64::MIN as i128 {
        i64::MIN
    } else if acc > i64::MAX as i128 {
        i64::MAX
    } else {
        acc as i64
    }
}

fn exact_length(segments: &Vec<DubinsSegment>) -> (acc: i128)
    ensures
        acc == path_length(segments@),
        -0x7fff_ffff_ffff_ffff_8000_0000_0000_0000 <= acc <= 0x7fff_ffff_ffff_ffff_8000_0000_0000_0000,
{
    let mut acc: i128 = 0;
    let mut i: usize = 0;
    while i < segments.len()
        invariant
            i <= segments@.len(),
            acc == path_length(segments@.take(i as int)),
            -(i as int) * 0x8000_0000_0000_0000 <= acc <= (i as int) * 0x8000_0000_0000_0000,
        decreases segments@.len() - i,
    {
        proof {
            assert(segments@.take(i + 1).drop_last() =~= segments@.take(i as int));
            assert(segments@.take(i + 1).last() == segments@[i as int]);
        }
        acc = acc + segments[i].length as i128;
        i = i + 1;
    }
    proof {
        assert(segments@.take(i as int) =~= segments@);
    }
    acc
}

/// One way to reach a pose: a word and its three segments.
#[derive(Debug)]
pub struct WordCandidate {
    pub word: DubinsWord,
    pub segments: Vec<DubinsSegment>,
}

impl WordCandidate {
    /// The candidate spells its word with three chained segments of
    /// non-negative length that lead from `from` to `to`, and it has some length.
    pub open spec fn connects(&self, from: OrientedPosition2D, to: OrientedPosition2D) -> bool {
        &&& self.spelled()
        &&& self.joins(from, to)
        &&& path_length(self.segments@) >= 1
    }

    /// The length of the candidate, saturated.
    pub open spec fn span(&self) -> int {
        saturated(path_length(self.segments@))
    }

    /// The three segments bend as the letters of the word say, and none has a
    /// negative length.
    pub open spec fn spelled(&self) -> bool {
        &&& self.segments@.len() == 3
        &&& forall|i: int|
            0 <= i < 3 ==> (#[trigger] self.segments@[i]).turn == self.word.letters()[i]
        &&& lengths_valid(self.segments@)
    }

    /// The three segments are chained and lead from `from` to `to`.
    pub open spec fn joins(&self, from: OrientedPosition2D, to: OrientedPosition2D) -> bool {
        &&& self.segments@.len() == 3
        &&& chained(self.segments@)
        &&& self.segments@[0].start == from
        &&& self.segments@[2].end == to
    }

    fn is_spelled_inside(&self, half: Metres) -> (b: bool)
        ensures
            b == (self.spelled() && all_stay_inside(self.segments@, half as int)),
    {
        if self.segments.len() != 3 {
            return false;
        }
        let mut i: usize = 0;
        while i < 3
            invariant
                i <= 3,
                self.segments@.len() == 3,
                forall|j: int|
                    0 <= j < i ==> (#[trigger] self.segments@[j]).turn == self.word.letters()[j],
                forall|j: int| 0 <= j < i ==> (#[trigger] self.segments@[j]).length >= 0,
                forall|j: int|
                    0 <= j < i ==> (#[trigger] self.segments@[j]).stays_inside(half as int),
            decreases 3 - i,
        {
            let seg = &self.segments[i];
            if seg.turn != self.word.letter(i) || seg.length < 0 || !seg.is_inside(half) {
                return false;
            }
            i = i + 1;
        }
        true
    }

    fn is_joined(&self, from: OrientedPosition2D, to: OrientedPosition2D) -> (b: bool)
        ensures
            b == self.joins(from, to),
    {
        if self.segments.len() != 3 {
            return false;
        }
        proof {
            if chained(self.segments@) {
                assert(self.segments@[0].end == self.segments@[1].start);
                assert(self.segments@[1].end == self.segments@[2].start);
            }
        }
        self.segments[0].end == self.segments[1].start && self.segments[1].end
            == self.segments[2].start && self.segments[0].start == from && self.segments[2].end
            == to
    }

    /// Checks that the candidate leads from `from` to `to` and stays inside the arena.
    pub fn is_acceptable(&self, from: OrientedPosition2D, to: OrientedPosition2D, half: Metres) -> (b:
        bool)
        ensures
            b == (self.connects(from, to) && all_stay_inside(self.segments@, half as int)),
    {
        if !self.is_spelled_inside(half) || !self.is_joined(from, to) {
            return false;
        }
        chain_length(&self.segments) >= 1
    }
}

/// Candidate `i` is the shortest, and the first of those that are equally short.
pub open spec fn is_first_shortest(candidates: Seq<WordCandidate>, i: int) -> bool {
    &&& 0 <= i < candidates.len()
    &&& forall|j: int|
        0 <= j < candidates.len() ==> candidates[i].span() <= (#[trigger] candidates[j]).span()
    &&& forall|j: int| 0 <= j < i ==> candidates[i].span() < (#[trigger] candidates[j]).span()
}

/// Only one candidate is the first shortest.
pub proof fn lemma_first_shortest_unique(candidates: Seq<WordCandidate>, i: int, j: int)
    requires
        is_first_shortest(candidates, i),
        is_first_shortest(candidates, j),
    ensures
        i == j,
{
    if i < j {
        assert(candidates[j].span() < candidates[i].span());
        assert(candidates[i].span() <= candidates[j].span());
    } else if j < i {
        assert(candidates[i].span() < candidates[j].span());
        assert(candidates[j].span() <= candidates[i].span());
    }
}

/// Picks the shortest candidate; among equally short ones, the one constructed first.
pub fn shortest(candidates: &Vec<WordCandidate>) -> (r: Option<usize>)
    ensures
        r is None <==> candidates@.len() == 0,
        r matches Some(i) ==> is_first_shortest(candidates@, i as int),
{
    if candidates.len() == 0 {
        return None;
    }
    let mut best: usize = 0;
    let mut best_span = chain_length(&candidates[0].segments);
    let mut i: usize = 1;
    while i < candidates.len()
        invariant
            1 <= i <= candidates@.len(),
            best < i,
            best_span == candidates@[best as int].span(),
            forall|j: int|
                0 <= j < i ==> candidates@[best as int].span() <= (#[trigger] candidates@[j]).span(),
            forall|j: int|
                0 <= j < best ==> candidates@[best as int].span() < (#[trigger] candidates@[j]).span(),
        decreases candidates@.len() - i,
    {
        let span = chain_length(&candidates[i].segments);
        if span < best_span {
            best = i;
            best_span = span;
        }
        i = i + 1;
    }
    Some(best)
}

/// The parameters of a planned path and of the trajectory that is sampled
/// from it. They are checked together, before anything is drawn or planned.
#[derive(Clone, Copy, Debug, PartialEq, Eq, Structural)]
pub struct DubinsParams {
    pub turning_radius: Metres,
    pub speed: MetresPerSecond,
    /// The least length of the path.
    pub min_length: Metres,
    pub arena_half_size: Metres,
    /// The time step at which the path is sampled.
    pub resolution: Seconds,
}

impl DubinsParams {
    /// What is wrong with the parameters, if anything is: the turning radius
    /// first, then the time step, then the rest.
    pub open spec fn rejection(&self) -> Option<ConfigurationError> {
        if self.turning_radius <= 0 {
            Some(ConfigurationError::NonPositiveTurningRadius)
        } else if self.resolution <= 0 {
            Some(ConfigurationError::NonPositiveResolution)
        } else if self.speed <= 0 || self.min_length < 0 || self.arena_half_size < 0
            || self.arena_half_size == i64::MAX {
            Some(ConfigurationError::InvalidParameter)
        } else {
            None
        }
    }

    /// Says what is wrong with the parameters, if anything is.
    pub fn check(&self) -> (r: Result<(), ConfigurationError>)
        ensures
            r is Err <==> self.rejection() is Some,
            r matches Err(e) ==> self.rejection() == Some(e),
    {
        if self.turning_radius <= 0 {
            return Err(ConfigurationError::NonPositiveTurningRadius);
        }
        if self.resolution <= 0 {
            return Err(ConfigurationError::NonPositiveResolution);
        }
        if self.speed <= 0 || self.min_length < 0 || self.arena_half_size < 0
            || self.arena_half_size == i64::MAX {
            return Err(ConfigurationError::InvalidParameter);
        }
        Ok(())
    }

    /// A planner for these parameters with an empty chain that ends at
    /// `start_pose`, if nothing is wrong with the parameters.
    pub fn planner(&self, start_pose: OrientedPosition2D) -> (r: Result<
        DubinsPlanner,
        ConfigurationError,
    >)
        ensures
            r is Err <==> self.rejection() is Some,
            r matches Err(e) ==> self.rejection() == Some(e),
            r matches Ok(p) ==> {
                &&& p.wf()
                &&& p.active()
                &&& p.turning_radius == self.turning_radius
                &&& p.speed == self.speed
                &&& p.min_length == self.min_length
                &&& p.arena_half_size == self.arena_half_size
                &&& p.pose == start_pose
                &&& p.segments@.len() == 0
                &&& p.retries_left == RETRY_LIMIT
            },
    {
        match self.check() {
            Err(e) => Err(e),
            Ok(()) => DubinsPlanner::new(
                self.turning_radius,
                self.speed,
                self.min_length,
                start_pose,
                self.arena_half_size,
            ),
        }
    }
}

/// Where the parameters were accepted, a path that was planned with them is
/// sampled at their time step unless it has too many samples: the time step
/// is not refused then.
pub proof fn lemma_checked_parameters_sample(params: DubinsParams, path: MultiDubinsPath)
    requires
        params.rejection() is None,
        path.speed == params.speed,
    ensures
        dynamic_rejection(path.segments@, path.speed as int, params.resolution as int) is None
            || dynamic_rejection(path.segments@, path.speed as int, params.resolution as int)
            == Some(ConfigurationError::TooManySamples),
{
}

/// What the caller of a [`DubinsPlanner`] does next.
#[derive(Clone, Copy, Debug, PartialEq, Eq, Structural)]
pub enum PlannerAction {
    /// Construct the candidate words from `from` to `to` and offer them.
    Connect { from: OrientedPosition2D, to: OrientedPosition2D },
    /// The path is long enough: call `finish`.
    Finished,
    /// The retries are used up: planning has failed.
    Failed,
}

/// The planner of a path: the chain so far, and how often it may still fail
/// to extend it.
pub struct DubinsPlanner {
    pub turning_radius: Metres,
    pub speed: MetresPerSecond,
    pub min_length: Metres,
    pub arena_half_size: Metres,
    /// Where the chain ends.
    pub pose: OrientedPosition2D,
    /// The accepted segments.
    pub segments: Vec<DubinsSegment>,
    /// Their length, saturated.
    pub total: Metres,
    /// Rejections that are left before planning fails.
    pub retries_left: usize,
}

impl DubinsPlanner {
    /// The parameters are in range; the accepted segments are chained, end at
    /// `pose`, stay inside the arena and add up to `total`.
    pub open spec fn wf(&self) -> bool {
        &&& self.turning_radius > 0
        &&& self.speed > 0
        &&& 0 <= self.min_length
        &&& 0 <= self.arena_half_size < i64::MAX
        &&& self.retries_left <= RETRY_LIMIT
        &&& lengths_valid(self.segments@)
        &&& chained(self.segments@)
        &&& all_stay_inside(self.segments@, self.arena_half_size as int)
        &&& self.total == saturated(path_length(self.segments@))
        &&& self.segments@.len() > 0 ==> self.segments@.last().end == self.pose
    }

    /// The retries are used up.
    pub open spec fn failed(&self) -> bool {
        self.retries_left == 0
    }

    /// The path has a segment and is as long as was asked for.
    pub open spec fn complete(&self) -> bool {
        self.segments@.len() > 0 && self.total >= self.min_length
    }

    /// The planner still takes offers.
    pub open spec fn active(&self) -> bool {
        !self.failed() && !self.complete()
    }

    /// A bound on the number of offers that the planner still takes.
    pub open spec fn fuel(&self) -> int {
        if self.active() {
            let missing = if self.min_length - self.total >= 1 {
                self.min_length - self.total
            } else {
                1
            };
            missing * (RETRY_LIMIT + 1) + self.retries_left
        } else {
            0
        }
    }

    /// The offer is taken: the planner is active, and the first shortest
    /// candidate leads from the end of the chain to `target` inside the arena.
    pub open spec fn accepts(&self, target: OrientedPosition2D, candidates: Seq<WordCandidate>) -> bool {
        &&& self.active()
        &&& exists|i: int|
            {
                &&& is_first_shortest(candidates, i)
                &&& (#[trigger] candidates[i]).connects(self.pose, target)
                &&& all_stay_inside(candidates[i].segments@, self.arena_half_size as int)
            }
    }

    /// The planner after `n` offers in a row that it did not take.
    pub open spec fn after_rejections(self, n: nat) -> DubinsPlanner {
        DubinsPlanner {
            retries_left: if self.retries_left > n {
                (self.retries_left - n) as usize
            } else {
                0
            },
            ..self
        }
    }

    /// A planner with an empty chain that ends at `start_pose`.
    pub fn new(
        turning_radius: Metres,
        speed: MetresPerSecond,
        min_length: Metres,
        start_pose: OrientedPosition2D,
        arena_half_size: Metres,
    ) -> (r: Result<DubinsPlanner, ConfigurationError>)
        ensures
            r is Ok <==> turning_radius > 0 && speed > 0 && 0 <= min_length && 0 <= arena_half_size
                < i64::MAX,
            r matches Err(e) ==> e == if turning_radius <= 0 {
                ConfigurationError::NonPositiveTurningRadius
            } else {
                ConfigurationError::InvalidParameter
            },
            r matches Ok(p) ==> {
                &&& p.wf()
                &&& p.active()
                &&& p.turning_radius == turning_radius
                &&& p.speed == speed
                &&& p.min_length == min_length
                &&& p.arena_half_size == arena_half_size
                &&& p.pose == start_pose
                &&& p.segments@.len() == 0
                &&& p.retries_left == RETRY_LIMIT
            },
    {
        if turning_radius <= 0 {
            return Err(ConfigurationError::NonPositiveTurningRadius);
        }
        if speed <= 0 || min_length < 0 || arena_half_size < 0 || arena_half_size == i64::MAX {
            return Err(ConfigurationError::InvalidParameter);
        }
        Ok(
            DubinsPlanner {
                turning_radius,
                speed,
                min_length,
                arena_half_size,
                pose: start_pose,
                segments: Vec::new(),
                total: 0,
                retries_left: RETRY_LIMIT,
            },
        )
    }

    /// The source goes from `before` by way of `first` and `second` to
    /// `after`, and hands out, leg by leg, the two coordinates and the heading
    /// of the pose `to`: each coordinate from the arena, the heading from one
    /// full turn.
    pub open spec fn aims<R: RandomSource>(
        &self,
        before: R,
        first: R,
        second: R,
        after: R,
        to: OrientedPosition2D,
    ) -> bool {
        &&& before.hands_out(
            -self.arena_half_size,
            self.arena_half_size + 1,
            to.position.x as int,
            &first,
        )
        &&& first.hands_out(
            -self.arena_half_size,
            self.arena_half_size + 1,
            to.position.y as int,
            &second,
        )
        &&& second.hands_out(0, FULL_TURN as int, to.rotation as int, &after)
    }

    /// Says what to do next. While the planner is active it draws the pose to
    /// aim for: the next three draws that the source hands out are the two
    /// coordinates, inside the arena, and the heading, within one full turn.
    /// A planner that is not active draws nothing.
    pub fn next_action<R: RandomSource>(&self, source: &mut R) -> (action: PlannerAction)
        requires
            self.wf(),
        ensures
            action is Failed <==> self.failed(),
            action is Finished <==> !self.failed() && self.complete(),
            !(action is Connect) ==> *final(source) == *old(source),
            action matches PlannerAction::Connect { from, to } ==> {
                &&& exists|first: R, second: R| #[trigger]
                    self.aims(*old(source), first, second, *final(source), to)
                &&& from == self.pose
                &&& inside(to.position, self.arena_half_size as int)
                &&& 0 <= to.rotation < FULL_TURN
            },
    {
        if self.retries_left == 0 {
            return PlannerAction::Failed;
        }
        if self.segments.len() > 0 && self.total >= self.min_length {
            return PlannerAction::Finished;
        }
        let x = source.uniform(-self.arena_half_size, self.arena_half_size + 1);
        let ghost first = *source;
        let y = source.uniform(-self.arena_half_size, self.arena_half_size + 1);
        let ghost second = *source;
        let heading = source.uniform(0, FULL_TURN);
        let to = OrientedPosition2D::new(x, y, heading);
        proof {
            assert(self.aims(*old(source), first, second, *source, to));
        }
        PlannerAction::Connect { from: self.pose, to }
    }

    /// Takes the candidate words for `target`. The shortest of them, and among
    /// equally short ones the first, is appended to the chain if it leads from
    /// the end of the chain to `target` and stays inside the arena. Otherwise
    /// one retry is used up. Every offer to an active planner lowers `fuel`, so
    /// no sequence of offers goes on for ever.
    pub fn offer(&mut self, target: OrientedPosition2D, candidates: Vec<WordCandidate>) -> (accepted:
        bool)
        requires
            old(self).wf(),
        ensures
            final(self).wf(),
            final(self).turning_radius == old(self).turning_radius,
            final(self).speed == old(self).speed,
            final(self).min_length == old(self).min_length,
            final(self).arena_half_size == old(self).arena_half_size,
            accepted == old(self).accepts(target, candidates@),
            accepted ==> {
                &&& final(self).pose == target
                &&& final(self).retries_left == RETRY_LIMIT
                &&& forall|i: int|
                    is_first_shortest(candidates@, i) ==> final(self).segments@ == old(
                        self,
                    ).segments@ + (#[trigger] candidates@[i]).segments@
            },
            !accepted && old(self).active() ==> *final(self) == old(self).after_rejections(1),
            !old(self).active() ==> *final(self) == *old(self),
            old(self).active() ==> final(self).fuel() < old(self).fuel(),
    {
        if self.retries_left == 0 || (self.segments.len() > 0 && self.total >= self.min_length) {
            return false;
        }
        let mut candidates = candidates;
        let ghost offered = candidates@;
        let ghost before = self.segments@;
        match shortest(&candidates) {
            Some(i) => {
                proof {
                    assert forall|j: int| is_first_shortest(offered, j) implies j == i by {
                        lemma_first_shortest_unique(offered, i as int, j);
                    }
                }
                if candidates[i].is_acceptable(self.pose, target, self.arena_half_size) {
                    let chosen = candidates.remove(i);
                    let mut added = chosen.segments;
                    let ghost word = added@;
                    let span = chain_length(&added);
                    self.segments.append(&mut added);
                    self.total = sat_add(self.total, span);
                    self.pose = target;
                    self.retries_left = RETRY_LIMIT;
                    proof {
                        lemma_path_length_concat(before, word);
                        lemma_path_length_concat(word, Seq::empty());
                        lemma_chain_concat(before, word, self.arena_half_size as int);
                    }
                    return true;
                }
            },
            None => {},
        }
        self.retries_left = self.retries_left - 1;
        false
    }

    /// Hands out the path, if it is long enough.
    pub fn finish(self) -> (r: Result<MultiDubinsPath, PlanningFailure>)
        requires
            self.wf(),
        ensures
            r is Ok <==> self.complete(),
            r matches Ok(path) ==> {
                &&& path.wf()
                &&& path.turning_radius == self.turning_radius
                &&& path.speed == self.speed
                &&& path.arena_half_size == self.arena_half_size
                &&& path.segments@ == self.segments@
                &&& path_length(path.segments@) >= self.min_length
            },
            r matches Err(e) ==> e.accepted == self.segments@.len(),
    {
        if self.segments.len() > 0 && self.total >= self.min_length {
            proof {
                lemma_path_length_concat(self.segments@, Seq::empty());
            }
            Ok(
                MultiDubinsPath {
                    turning_radius: self.turning_radius,
                    speed: self.speed,
                    arena_half_size: self.arena_half_size,
                    segments: self.segments,
                },
            )
        } else {
            Err(PlanningFailure { accepted: self.segments.len() })
        }
    }
}

/// Where none of the candidates stays inside the arena, as in an arena that is
/// too small for the turning radius, the offer is not taken.
pub proof fn lemma_outside_arena_is_rejected(
    p: DubinsPlanner,
    target: OrientedPosition2D,
    candidates: Seq<WordCandidate>,
)
    requires
        forall|i: int|
            0 <= i < candidates.len() ==> !all_stay_inside(
                (#[trigger] candidates[i]).segments@,
                p.arena_half_size as int,
            ),
    ensures
        !p.accepts(target, candidates),
{
}

/// Planning that never finds a continuation ends in failure: an active
/// planner stays active through fewer rejections in a row than it has retries
/// left, and has failed after as many as that, or more. The chain is untouched.
pub proof fn lemma_rejections_exhaust(p: DubinsPlanner, n: nat)
    requires
        p.active(),
    ensures
        n < p.retries_left ==> p.after_rejections(n).active(),
        n >= p.retries_left ==> p.after_rejections(n).failed(),
        p.after_rejections(n).after_rejections(1) == p.after_rejections(n + 1),
        p.after_rejections(n).segments@ == p.segments@,
{
}

/// Every sampled point of every segment of a well-formed path lies inside the
/// arena, on both axes.
pub proof fn lemma_path_stays_inside(path: MultiDubinsPath, i: int, j: int)
    requires
        path.wf(),
        0 <= i < path.segments@.len(),
        0 <= j < path.segments@[i].samples@.len(),
    ensures
        -path.arena_half_size <= path.segments@[i].samples@[j].x <= path.arena_half_size,
        -path.arena_half_size <= path.segments@[i].samples@[j].y <= path.arena_half_size,
{
    assert(path.segments@[i].stays_inside(path.arena_half_size as int));
    assert(inside(path.segments@[i].samples@[j], path.arena_half_size as int));
}

/// Both ends of every segment of a well-formed path lie inside the arena,
/// whether the segment holds sampled points or not, and the curvature of every
/// segment is zero or the reciprocal of the turning radius, with either sign.
pub proof fn lemma_segment_ends_inside(path: MultiDubinsPath, i: int)
    requires
        path.wf(),
        0 <= i < path.segments@.len(),
    ensures
        inside(path.segments@[i].start.position, path.arena_half_size as int),
        inside(path.segments@[i].end.position, path.arena_half_size as int),
        signed_curvature(path.segments@[i].turn, path.turning_radius as int) == 0
            || signed_curvature(path.segments@[i].turn, path.turning_radius as int) == quotient(
            SCALE as int,
            path.turning_radius as int,
        ) || signed_curvature(path.segments@[i].turn, path.turning_radius as int) == -quotient(
            SCALE as int,
            path.turning_radius as int,
        ),
{
    assert(path.segments@[i].stays_inside(path.arena_half_size as int));
}

/// Two chains of which the second starts where the first ends make one chain;
/// what holds of every segment of both holds of every segment of the whole.
pub proof fn lemma_chain_concat(a: Seq<DubinsSegment>, b: Seq<DubinsSegment>, half: int)
    requires
        chained(a),
        chained(b),
        a.len() > 0 && b.len() > 0 ==> a.last().end == b[0].start,
        lengths_valid(a),
        lengths_valid(b),
        all_stay_inside(a, half),
        all_stay_inside(b, half),
    ensures
        chained(a + b),
        lengths_valid(a + b),
        all_stay_inside(a + b, half),
{
    let c = a + b;
    assert forall|i: int, j: int| 0 <= i && j == i + 1 && j < c.len() implies (#[trigger] c[i]).end
        == (#[trigger] c[j]).start by {
        if j < a.len() {
            assert(c[i] == a[i] && c[j] == a[j]);
        } else if i >= a.len() {
            assert(c[i] == b[i - a.len()] && c[j] == b[j - a.len()]);
        } else {
            assert(c[i] == a.last() && c[j] == b[0]);
        }
    }
    assert forall|i: int| 0 <= i < c.len() implies (#[trigger] c[i]).length >= 0 by {
        if i < a.len() {
            assert(c[i] == a[i]);
        } else {
            assert(c[i] == b[i - a.len()]);
        }
    }
    assert forall|i: int| 0 <= i < c.len() implies (#[trigger] c[i]).stays_inside(half) by {
        if i < a.len() {
            assert(c[i] == a[i]);
        } else {
            assert(c[i] == b[i - a.len()]);
        }
    }
}

/// A finished path: a chain of segments of one turning radius inside an arena.
#[derive(Debug)]
pub struct MultiDubinsPath {
    pub turning_radius: Metres,
    pub speed: MetresPerSecond,
    pub arena_half_size: Metres,
    pub segments: Vec<DubinsSegment>,
}

impl MultiDubinsPath {
    /// The path is not empty, its segments are chained, and every sampled
    /// point of every segment lies inside the arena.
    pub open spec fn wf(&self) -> bool {
        &&& self.turning_radius > 0
        &&& self.speed > 0
        &&& self.segments@.len() > 0
        &&& lengths_valid(self.segments@)
        &&& chained(self.segments@)
        &&& all_stay_inside(self.segments@, self.arena_half_size as int)
    }

    /// The length of the path, saturated.
    pub fn length(&self) -> (l: Metres)
        ensures
            l == saturated(path_length(self.segments@)),
    {
        chain_length(&self.segments)
    }

    /// The curvature of segment `i`: zero for a straight line, and the
    /// reciprocal of the turning radius, signed, for an arc.
    pub fn curvature_of(&self, i: usize) -> (c: i64)
        requires
            self.wf(),
            i < self.segments@.len(),
        ensures
            c == signed_curvature(self.segments@[i as int].turn, self.turning_radius as int),
    {
        curvature(self.segments[i].turn, self.turning_radius)
    }

    /// `sample` is what a vehicle on this path does at step `k`, that is at
    /// the time `k * resolution`: it is on the segment that holds the distance
    /// travelled by that time, turns as that segment bends, and moves at the
    /// speed of the path.
    pub open spec fn is_sample(&self, sample: DynamicSample, k: int, resolution: int) -> bool {
        let distance = travelled(self.speed as int, k * resolution);
        &&& sample.time == k * resolution
        &&& locates(self.segments@, sample.segment as int, distance)
        &&& sample.offset == distance - prefix_length(self.segments@, sample.segment as int)
        &&& sample.curvature == signed_curvature(
            self.segments@[sample.segment as int].turn,
            self.turning_radius as int,
        )
        &&& sample.linear_velocity == self.speed
        &&& sample.angular_velocity == product(self.speed as int, sample.curvature as int)
    }

    /// Walks along the path at its speed and says, for every multiple of
    /// `resolution` at which the vehicle has not yet reached the end of the
    /// path, where it is (the segment, and the distance from the start of
    /// that segment), how the path bends there and how fast the vehicle moves
    /// and turns. No sample is later than the length of the path over the
    /// speed.
    pub fn to_dynamic_trajectory(&self, resolution: Seconds) -> (r: Result<
        Vec<DynamicSample>,
        ConfigurationError,
    >)
        requires
            self.wf(),
        ensures
            r is Err <==> dynamic_rejection(self.segments@, self.speed as int, resolution as int)
                is Some,
            r matches Err(e) ==> dynamic_rejection(
                self.segments@,
                self.speed as int,
                resolution as int,
            ) == Some(e),
            r matches Ok(samples) ==> {
                &&& samples@.len() == dynamic_len(
                    path_length(self.segments@),
                    self.speed as int,
                    resolution as int,
                )
                &&& forall|k: int|
                    0 <= k < samples@.len() ==> self.is_sample(
                        #[trigger] samples@[k],
                        k,
                        resolution as int,
                    )
                &&& forall|k: int|
                    0 <= k < samples@.len() ==> (#[trigger] samples@[k]).time <= quotient(
                        path_length(self.segments@),
                        self.speed as int,
                    )
            },
    {
        if resolution <= 0 {
            return Err(ConfigurationError::NonPositiveResolution);
        }
        let speed = self.speed;
        assert(1 <= resolution * speed <= 0x7fff_ffff_ffff_ffff * 0x7fff_ffff_ffff_ffff)
            by (nonlinear_arith)
            requires
                1 <= resolution <= 0x7fff_ffff_ffff_ffff,
                1 <= speed <= 0x7fff_ffff_ffff_ffff,
        ;
        let pace: i128 = (resolution as i128) * (speed as i128);
        let total = exact_length(&self.segments);
        proof {
            lemma_path_length_concat(self.segments@, Seq::empty());
            lemma_ceiling(total as int * SCALE, pace as int);
        }
        let limit: i128 = (i128::MAX - pace) / (SCALE as i128);
        if total > limit {
            proof {
                lemma_long_path(total as int, speed as int, resolution as int);
            }
            return Err(ConfigurationError::TooManySamples);
        }
        assert(0 <= total * SCALE <= 0x7fff_ffff_ffff_ffff_ffff_ffff_ffff_ffff - pace)
            by (nonlinear_arith)
            requires
                0 <= total <= limit,
                limit == (0x7fff_ffff_ffff_ffff_ffff_ffff_ffff_ffff - pace) / (SCALE as int),
                SCALE == 1_000_000,
                pace <= 0x7fff_ffff_ffff_ffff * 0x7fff_ffff_ffff_ffff,
        ;
        let count: i128 = (total * (SCALE as i128) + pace - 1) / pace;
        if count > usize::MAX as i128 || count > i64::MAX as i128 {
            proof {
                if count > i64::MAX {
                    assert(count * resolution > i64::MAX) by (nonlinear_arith)
                        requires
                            count > i64::MAX,
                            resolution >= 1,
                    ;
                }
            }
            return Err(ConfigurationError::TooManySamples);
        }
        assert(0 <= count * resolution <= 0x7fff_ffff_ffff_ffff * 0x7fff_ffff_ffff_ffff)
            by (nonlinear_arith)
            requires
                0 <= count <= 0x7fff_ffff_ffff_ffff,
                0 < resolution <= 0x7fff_ffff_ffff_ffff,
        ;
        if count * (resolution as i128) > i64::MAX as i128 {
            return Err(ConfigurationError::TooManySamples);
        }
        let n: usize = count as usize;
        let mut samples: Vec<DynamicSample> = Vec::new();
        let mut k: usize = 0;
        let mut t: i64 = 0;
        let mut i: usize = 0;
        let mut before: i128 = 0;
        proof {
            lemma_prefix_step(self.segments@, 0);
            assert(0 * resolution == 0);
            lemma_travelled(speed as int, 0, 0);
        }
        while k < n
            invariant
                self.wf(),
                speed == self.speed,
                0 < resolution,
                total == path_length(self.segments@),
                0 <= total <= 0x7fff_ffff_ffff_ffff_8000_0000_0000_0000,
                n == dynamic_len(total as int, speed as int, resolution as int),
                n * resolution <= i64::MAX,
                k <= n,
                t == k * resolution,
                i < self.segments@.len(),
                before == prefix_length(self.segments@, i as int),
                before <= travelled(speed as int, t as int),
                samples@.len() == k,
                forall|j: int|
                    0 <= j < k ==> self.is_sample(#[trigger] samples@[j], j, resolution as int),
                forall|j: int|
                    0 <= j < k ==> (#[trigger] samples@[j]).time <= quotient(
                        total as int,
                        speed as int,
                    ),
            decreases n - k,
        {
            assert(0 <= t * speed <= 0x7fff_ffff_ffff_ffff * 0x7fff_ffff_ffff_ffff)
                by (nonlinear_arith)
                requires
                    0 <= t <= 0x7fff_ffff_ffff_ffff,
                    1 <= speed <= 0x7fff_ffff_ffff_ffff,
            ;
            let distance: i128 = ((t as i128) * (speed as i128)) / (SCALE as i128);
            proof {
                lemma_dynamic_len(total as int, speed as int, resolution as int, k as int);
                lemma_time_bound(total as int, speed as int, t as int);
            }
            let (at, start) = locate(&self.segments, i, before, distance);
            i = at;
            before = start;
            let bend = curvature(self.segments[i].turn, self.turning_radius);
            proof {
                lemma_prefix_step(self.segments@, i as int);
            }
            let sample = DynamicSample {
                time: t,
                segment: i,
                offset: (distance - before) as i64,
                curvature: bend,
                linear_velocity: speed,
                angular_velocity: fx_mul(speed, bend),
            };
            let ghost earlier = samples@;
            samples.push(sample);
            proof {
                assert((k + 1) * resolution == k * resolution + resolution) by (nonlinear_arith);
                assert((k + 1) * resolution <= n * resolution) by (nonlinear_arith)
                    requires
                        k + 1 <= n,
                        0 < resolution,
                ;
                lemma_travelled(speed as int, t as int, t + resolution);
                assert forall|j: int| 0 <= j < k + 1 implies self.is_sample(
                    #[trigger] samples@[j],
                    j,
                    resolution as int,
                ) by {
                    if j < k {
                        assert(samples@[j] == earlier[j]);
                    }
                }
                assert forall|j: int| 0 <= j < k + 1 implies (#[trigger] samples@[j]).time
                    <= quotient(total as int, speed as int) by {
                    if j < k {
                        assert(samples@[j] == earlier[j]);
                    }
                }
            }
            t = t + resolution;
            k = k + 1;
        }
        Ok(samples)
    }

    /// `row` is the row of `sample` at `position`: the time, the two
    /// coordinates, the curvature and the two velocities.
    pub open spec fn is_dynamic_row(row: Seq<i64>, sample: DynamicSample, position: Metres2D) -> bool {
        row == seq![
            sample.time,
            position.x,
            position.y,
            sample.curvature,
            sample.linear_velocity,
            sample.angular_velocity,
        ]
    }

    /// The rows of a sampled trajectory, one for each sample, with the
    /// position that the vehicle has at it. The rows are handed out only if
    /// there is a position for every sample and every position lies inside
    /// the arena; every row that is handed out lies inside the arena.
    pub fn dynamic_rows(&self, samples: &Vec<DynamicSample>, positions: &Vec<Metres2D>) -> (r: Option<
        Vec<Vec<i64>>,
    >)
        ensures
            r is Some <==> positions@.len() == samples@.len() && all_inside(
                positions@,
                self.arena_half_size as int,
            ),
            r matches Some(rows) ==> {
                &&& rows@.len() == samples@.len()
                &&& forall|k: int|
                    0 <= k < rows@.len() ==> Self::is_dynamic_row(
                        (#[trigger] rows@[k])@,
                        samples@[k],
                        positions@[k],
                    ) && inside(positions@[k], self.arena_half_size as int)
            },
    {
        if positions.len() != samples.len() {
            return None;
        }
        let mut rows: Vec<Vec<i64>> = Vec::new();
        let mut k: usize = 0;
        while k < samples.len()
            invariant
                k <= samples@.len(),
                positions@.len() == samples@.len(),
                rows@.len() == k,
                forall|j: int|
                    0 <= j < k ==> inside(#[trigger] positions@[j], self.arena_half_size as int),
                forall|j: int|
                    0 <= j < k ==> Self::is_dynamic_row(
                        (#[trigger] rows@[j])@,
                        samples@[j],
                        positions@[j],
                    ),
            decreases samples@.len() - k,
        {
            let position = positions[k];
            if !point_inside(position, self.arena_half_size) {
                return None;
            }
            let sample = samples[k];
            let mut row: Vec<i64> = Vec::new();
            row.push(sample.time);
            row.push(position.x);
            row.push(position.y);
            row.push(sample.curvature);
            row.push(sample.linear_velocity);
            row.push(sample.angular_velocity);
            assert(Self::is_dynamic_row(row@, sample, position)) by {
                assert(row@ =~= seq![
                    sample.time,
                    position.x,
                    position.y,
                    sample.curvature,
                    sample.linear_velocity,
                    sample.angular_velocity,
                ]);
            }
            let ghost earlier = rows@;
            rows.push(row);
            assert forall|j: int| 0 <= j < k + 1 implies Self::is_dynamic_row(
                (#[trigger] rows@[j])@,
                samples@[j],
                positions@[j],
            ) by {
                if j < k {
                    assert(rows@[j] == earlier[j]);
                }
            }
            k = k + 1;
        }
        Some(rows)
    }
}

/// What a vehicle on a path does at one instant.
#[derive(Clone, Copy, Debug, PartialEq, Eq, Structural)]
pub struct DynamicSample {
    pub time: Seconds,
    /// Index of the segment that the vehicle is on.
    pub segment: usize,
    /// Distance from the start of that segment.
    pub offset: Metres,
    /// Signed curvature of the path.
    pub curvature: i64,
    pub linear_velocity: MetresPerSecond,
    pub angular_velocity: RadiansPerSecond,
}

/// Distance that a vehicle covers in the time `t` at `speed`, rounded down.
pub open spec fn travelled(speed: int, t: int) -> int {
    (t * speed) / (SCALE as int)
}

/// Number of samples of a dynamic trajectory: the number of multiples of
/// `resolution`, from zero on, at which a vehicle at `speed` has covered less
/// than `length`. That is `length` over the distance of one time step,
/// rounded up, with the rounding done once.
pub open spec fn dynamic_len(length: int, speed: int, resolution: int) -> int {
    (length * SCALE + resolution * speed - 1) / (resolution * speed)
}

/// `n` is `x` over `m`, rounded up.
proof fn lemma_ceiling(x: int, m: int)
    requires
        0 <= x,
        0 < m,
    ensures
        0 <= (x + m - 1) / m,
        x <= ((x + m - 1) / m) * m,
        ((x + m - 1) / m - 1) * m < x,
{
    let n = (x + m - 1) / m;
    let r = (x + m - 1) % m;
    lemma_fundamental_div_mod(x + m - 1, m);
    lemma_mod_pos_bound(x + m - 1, m);
    assert(0 <= n && x <= n * m && (n - 1) * m < x) by (nonlinear_arith)
        requires
            x + m - 1 == m * n + r,
            0 <= r < m,
            0 <= x,
            0 < m,
    ;
}

/// The distance travelled does not fall with time, and is zero at time zero.
proof fn lemma_travelled(speed: int, earlier: int, later: int)
    requires
        0 < speed,
        0 <= earlier <= later,
    ensures
        0 <= travelled(speed, earlier) <= travelled(speed, later),
        travelled(speed, 0) == 0,
{
    assert(0 <= earlier * speed <= later * speed) by (nonlinear_arith)
        requires
            0 < speed,
            0 <= earlier <= later,
    ;
    lemma_div_is_ordered(0, earlier * speed, SCALE as int);
    lemma_div_is_ordered(earlier * speed, later * speed, SCALE as int);
    assert(0 * speed == 0);
    assert(0int / (SCALE as int) == 0);
}

/// Step `k` is sampled just when the vehicle has covered less than the
/// length of the path by the time `k * resolution`.
pub proof fn lemma_dynamic_len(length: int, speed: int, resolution: int, k: int)
    requires
        0 <= length,
        0 < speed,
        0 < resolution,
        0 <= k,
    ensures
        k < dynamic_len(length, speed, resolution) <==> travelled(speed, k * resolution) < length,
        0 <= travelled(speed, k * resolution),
{
    let m = resolution * speed;
    let x = length * SCALE;
    let n = dynamic_len(length, speed, resolution);
    let a = (k * resolution) * speed;
    assert(0 < m && 0 <= x && a == k * m && 0 <= a) by (nonlinear_arith)
        requires
            m == resolution * speed,
            x == length * SCALE,
            a == (k * resolution) * speed,
            0 <= length,
            0 < speed,
            0 < resolution,
            0 <= k,
            SCALE == 1_000_000,
    ;
    lemma_ceiling(x, m);
    assert(k < n <==> a < x) by (nonlinear_arith)
        requires
            a == k * m,
            0 < m,
            x <= n * m,
            (n - 1) * m < x,
    ;
    lemma_floor_below(a, length, SCALE as int);
}

/// A quotient rounded down is below `bound` just when the dividend is below
/// `bound` times the divisor.
proof fn lemma_floor_below(a: int, bound: int, d: int)
    requires
        0 <= a,
        0 < d,
    ensures
        a / d < bound <==> a < bound * d,
        0 <= a / d,
{
    let q = a / d;
    let r = a % d;
    lemma_fundamental_div_mod(a, d);
    lemma_mod_pos_bound(a, d);
    assert((q < bound <==> a < bound * d) && 0 <= q) by (nonlinear_arith)
        requires
            a == d * q + r,
            0 <= r < d,
            0 <= a,
    ;
}

/// A time at which the vehicle has covered less than the length of the path
/// is not later than the length over the speed.
proof fn lemma_time_bound(length: int, speed: int, t: int)
    requires
        0 < speed,
        0 <= t <= i64::MAX,
        travelled(speed, t) < length,
    ensures
        t <= quotient(length, speed),
{
    reveal(quotient);
    let x = length * SCALE;
    lemma_travelled(speed, 0, t);
    lemma_floor_below(t * speed, length, SCALE as int);
    assert(t * speed < x);
    let q = x / speed;
    let r = x % speed;
    lemma_fundamental_div_mod(x, speed);
    lemma_mod_pos_bound(x, speed);
    assert(t <= q) by (nonlinear_arith)
        requires
            t * speed < x,
            x == speed * q + r,
            0 <= r < speed,
    ;
}

/// A path so long that its length in fixed-point steps, with one time step
/// of distance added, is beyond the greatest 128-bit number has samples
/// later than the greatest time.
proof fn lemma_long_path(length: int, speed: int, resolution: int)
    requires
        0 < speed <= i64::MAX,
        0 < resolution <= i64::MAX,
        length > (0x7fff_ffff_ffff_ffff_ffff_ffff_ffff_ffff - resolution * speed) / (SCALE as int),
        0 <= length,
    ensures
        dynamic_len(length, speed, resolution) * resolution > i64::MAX,
{
    let m = resolution * speed;
    let x = length * SCALE;
    let top = 0x7fff_ffff_ffff_ffff_ffff_ffff_ffff_ffffint;
    let n = dynamic_len(length, speed, resolution);
    assert(0 < m <= 0x7fff_ffff_ffff_ffff * 0x7fff_ffff_ffff_ffff) by (nonlinear_arith)
        requires
            m == resolution * speed,
            0 < speed <= 0x7fff_ffff_ffff_ffff,
            0 < resolution <= 0x7fff_ffff_ffff_ffff,
    ;
    lemma_floor_below(top - m, length, SCALE as int);
    assert(x > top - m) by (nonlinear_arith)
        requires
            top - m < length * (SCALE as int),
            x == length * SCALE,
    ;
    lemma_ceiling(x, m);
    assert(n * resolution > 0x7fff_ffff_ffff_ffff) by (nonlinear_arith)
        requires
            x <= n * m,
            x > top - m,
            top == 0x7fff_ffff_ffff_ffff_ffff_ffff_ffff_ffff,
            m == resolution * speed,
            0 < speed <= 0x7fff_ffff_ffff_ffff,
            0 < resolution <= 0x7fff_ffff_ffff_ffff,
            0 <= n,
    ;
}

/// Segment `i` holds the point at distance `s` from the start of the path.
pub open spec fn locates(segments: Seq<DubinsSegment>, i: int, s: int) -> bool {
    0 <= i < segments.len() && prefix_length(segments, i) <= s < prefix_length(segments, i + 1)
}

/// Why `to_dynamic_trajectory` refuses a time step, if it does.
pub open spec fn dynamic_rejection(segments: Seq<DubinsSegment>, speed: int, resolution: int) -> Option<
    ConfigurationError,
> {
    if resolution <= 0 {
        Some(ConfigurationError::NonPositiveResolution)
    } else if dynamic_len(path_length(segments), speed, resolution) > usize::MAX || dynamic_len(
        path_length(segments),
        speed,
        resolution,
    ) * resolution > i64::MAX {
        Some(ConfigurationError::TooManySamples)
    } else {
        None
    }
}

/// Moves from segment `start` to the segment that holds the distance `s`.
fn locate(segments: &Vec<DubinsSegment>, start: usize, before: i128, s: i128) -> (r: (usize, i128))
    requires
        lengths_valid(segments@),
        start < segments@.len(),
        before == prefix_length(segments@, start as int),
        before <= s < path_length(segments@),
        s <= 0x7fff_ffff_ffff_ffff_8000_0000_0000_0000,
    ensures
        start <= r.0,
        locates(segments@, r.0 as int, s as int),
        r.1 == prefix_length(segments@, r.0 as int),
{
    let count = segments.len();
    let mut i = start;
    let mut c = before;
    proof {
        lemma_prefix_step(segments@, i as int);
    }
    while c + segments[i].length as i128 <= s
        invariant
            count == segments@.len(),
            lengths_valid(segments@),
            start <= i < segments@.len(),
            c == prefix_length(segments@, i as int),
            c <= s < path_length(segments@),
            s <= 0x7fff_ffff_ffff_ffff_8000_0000_0000_0000,
            prefix_length(segments@, i + 1) == c + segments@[i as int].length,
        decreases segments@.len() - i,
    {
        c = c + segments[i].length as i128;
        i = i + 1;
        proof {
            if i == segments@.len() {
                lemma_prefix_step(segments@, i - 1);
            }
            if i < segments@.len() {
                lemma_prefix_step(segments@, i as int);
            }
        }
    }
    (i, c)
}

} // verus!
