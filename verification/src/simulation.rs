//! The formation model, the observers and the simulation loop.
//!
//! One robot, the leader, is moved along the dense reference trajectory. Every
//! other robot follows it: at each time step it senses where the leader is,
//! compares that with where the formation wants the leader to be, turns the
//! error into a velocity command and moves by the command times the time step.
//! An observer records the true positions, with or without noise.

use crate::base::{differences, products, sums, zeros, Seconds, Vector};
use crate::control::{within, Controller};
use crate::error::ConfigurationError;
use crate::random::RandomSource;
use crate::sensor::{draw_deviate, draws_noise, is_noise, Sensor};
use crate::trajectory::DenseTrajectory;
use vstd::prelude::*;

verus! {

/// How the leader moves.
#[derive(Clone, Copy, Debug, PartialEq, Eq, Structural)]
pub enum LeaderTrajectoryMode {
    /// The leader is where the reference trajectory says; no controller acts on it.
    Follow,
}

/// The place of every robot in the formation.
pub struct SimpleFormation<V: Vector> {
    pub robot_count: usize,
    /// Where the leader is, relative to the reference trajectory.
    pub leader_offset: V,
    /// Where each robot is, relative to the origin of the formation.
    pub offsets: Vec<V>,
}

impl<V: Vector> SimpleFormation<V> {
    /// There is one offset for each robot.
    pub open spec fn wf(&self) -> bool {
        self.offsets@.len() == self.robot_count
    }

    /// Where the formation wants `leader` to be, as seen from `robot`.
    pub open spec fn desired(&self, leader: int, robot: int) -> Seq<int> {
        differences(self.offsets@[leader].coords(), self.offsets@[robot].coords())
    }

    pub fn new(robot_count: usize, leader_offset: V, per_robot_offsets: Vec<V>) -> (f: Self)
        ensures
            f.robot_count == robot_count,
            f.leader_offset == leader_offset,
            f.offsets@ == per_robot_offsets@,
    {
        SimpleFormation { robot_count, leader_offset, offsets: per_robot_offsets }
    }

    /// The offset of one robot, if the formation has that robot.
    pub fn offset_of(&self, robot: usize) -> (r: Option<V>)
        ensures
            r == if robot < self.offsets@.len() {
                Some(self.offsets@[robot as int])
            } else {
                None
            },
    {
        if robot < self.offsets.len() {
            Some(self.offsets[robot])
        } else {
            None
        }
    }

    /// Where the formation wants `leader` to be, as seen from `robot`.
    pub fn desired_relative(&self, leader: usize, robot: usize) -> (d: V)
        requires
            leader < self.offsets@.len(),
            robot < self.offsets@.len(),
        ensures
            d.coords() == self.desired(leader as int, robot as int),
    {
        self.offsets[leader].minus(self.offsets[robot])
    }
}

/// What the simulation asks of an observer.
pub trait Observer<V: Vector>: Sized {
    /// What is recorded of the true position `truth` under the noise `deviate`.
    spec fn recorded(&self, truth: V, deviate: V) -> Seq<int>;

    fn observe(&self, truth: V, deviate: V) -> (r: V)
        ensures
            r.coords() == self.recorded(truth, deviate),
    ;
}

/// Records the true state as it is.
#[derive(Clone, Copy, Debug, PartialEq, Eq, Structural)]
pub struct PerfectObserver {}

impl<V: Vector> Observer<V> for PerfectObserver {
    open spec fn recorded(&self, truth: V, deviate: V) -> Seq<int> {
        truth.coords()
    }

    fn observe(&self, truth: V, deviate: V) -> (r: V) {
        truth
    }
}

/// Records the true state with noise of a given standard deviation, drawn
/// anew for every sample.
#[derive(Clone, Copy, Debug, PartialEq, Eq, Structural)]
pub struct SimpleObserver {
    pub noise_std: i64,
}

impl SimpleObserver {
    pub fn new(noise_std: i64) -> (o: SimpleObserver)
        ensures
            o.noise_std == noise_std,
    {
        SimpleObserver { noise_std }
    }
}

impl<V: Vector> Observer<V> for SimpleObserver {
    open spec fn recorded(&self, truth: V, deviate: V) -> Seq<int> {
        sums(truth.coords(), products(deviate.coords(), self.noise_std as int))
    }

    fn observe(&self, truth: V, deviate: V) -> (r: V) {
        truth.plus(deviate.scaled(self.noise_std))
    }
}

/// Where the leader is at step `k`.
pub open spec fn leader_coords<V: Vector>(reference: Seq<V>, leader_offset: V, k: int) -> Seq<int> {
    sums(reference[k].coords(), leader_offset.coords())
}

/// At every step the leader is where the reference says, shifted by its offset.
pub open spec fn is_leader_trace<V: Vector>(trace: Seq<V>, reference: Seq<V>, leader_offset: V) -> bool {
    forall|k: int|
        0 <= k < trace.len() ==> (#[trigger] trace[k]).coords() == leader_coords(
            reference,
            leader_offset,
            k,
        )
}

/// One step of a follower: from `prev` it has moved for the time `dt` at a
/// velocity of which every component lies between `lo` and `hi`.
pub open spec fn moved(prev: Seq<int>, next: Seq<int>, lo: int, hi: int, dt: int) -> bool {
    exists|cmd: Seq<int>|
        #[trigger] within(cmd, lo, hi) && cmd.len() == prev.len() && next == sums(
            prev,
            products(cmd, dt),
        )
}

/// From `start` on, every position of the trace is one step away from the one before.
pub open spec fn is_follower_trace<V: Vector>(
    trace: Seq<V>,
    start: Seq<int>,
    lo: int,
    hi: int,
    dt: int,
) -> bool {
    &&& trace.len() > 0 ==> moved(start, trace[0].coords(), lo, hi, dt)
    &&& forall|k: int, j: int|
        0 <= k && j == k + 1 && j < trace.len() ==> moved(
            (#[trigger] trace[k]).coords(),
            (#[trigger] trace[j]).coords(),
            lo,
            hi,
            dt,
        )
}

/// `recorded` is what the observer may record of `truth`.
pub open spec fn observes<V: Vector, O: Observer<V>>(observer: &O, truth: V, recorded: V) -> bool {
    exists|deviate: V|
        is_noise(deviate) && recorded.coords() == #[trigger] observer.recorded(truth, deviate)
}

/// Sample by sample, `recorded` is what the observer may record of `truth`.
pub open spec fn is_observation<V: Vector, O: Observer<V>>(
    observer: &O,
    truth: Seq<V>,
    recorded: Seq<V>,
) -> bool {
    &&& recorded.len() == truth.len()
    &&& forall|k: int| 0 <= k < truth.len() ==> observes(observer, truth[k], #[trigger] recorded[k])
}

/// The error that a follower hands to its controller: where the formation
/// wants the leader to be, less where the sensor says it is.
pub open spec fn follower_error<V: Vector, S: Sensor<V>>(
    position: V,
    leader: V,
    desired: V,
    sensor: &S,
    deviate: V,
) -> V {
    let relative = V::from_coords(differences(leader.coords(), position.coords()));
    let measured = V::from_coords(sensor.reading(relative, deviate));
    V::from_coords(differences(desired.coords(), measured.coords()))
}

/// What the simulation keeps of one robot: where it is, the velocity that was
/// last commanded, and its controller with the state that the controller keeps.
pub struct RobotState<V: Vector, C: Controller<V>> {
    pub position: V,
    pub velocity: V,
    pub controller: C,
}

impl<V: Vector, C: Controller<V>> RobotState<V, C> {
    /// A robot at rest at `position`.
    pub fn new(position: V, controller: C) -> (state: Self)
        ensures
            state.position == position,
            state.velocity.coords() == zeros(V::dim()),
            state.controller == controller,
    {
        RobotState { position, velocity: V::zero(), controller }
    }

    /// Moves a follower by one time step: it senses where the leader is,
    /// hands the error to its controller and moves by the command times `dt`.
    pub fn advance<S: Sensor<V>>(&mut self, leader: V, desired: V, sensor: &S, deviate: V, dt: Seconds)
        ensures
            final(self).velocity.coords() == old(self).controller.command(
                follower_error(old(self).position, leader, desired, sensor, deviate),
                dt as int,
            ),
            final(self).position.coords() == sums(
                old(self).position.coords(),
                products(final(self).velocity.coords(), dt as int),
            ),
            old(self).controller.steps_to(
                follower_error(old(self).position, leader, desired, sensor, deviate),
                dt as int,
                &final(self).controller,
            ),
            final(self).controller.limits() == old(self).controller.limits(),
            old(self).controller.limits().0 <= old(self).controller.limits().1 ==> moved(
                old(self).position.coords(),
                final(self).position.coords(),
                old(self).controller.limits().0,
                old(self).controller.limits().1,
                dt as int,
            ),
    {
        let relative = leader.minus(self.position);
        let measured = sensor.sense(relative, deviate);
        let error = desired.minus(measured);
        proof {
            V::lemma_coords(relative, relative);
            V::lemma_coords(measured, measured);
            V::lemma_coords(error, error);
        }
        let ghost limits = self.controller.limits();
        let command = self.controller.step(error, dt);
        proof {
            V::lemma_coords(command, self.position);
            V::lemma_coords(self.position, command);
            if limits.0 <= limits.1 {
                assert(within(command.coords(), limits.0, limits.1));
            }
        }
        self.velocity = command;
        self.position = self.position.plus(command.scaled(dt));
    }
}

/// The positions of the leader over the first `steps` steps.
pub fn leader_trace<V: Vector>(trajectory: &DenseTrajectory<V>, leader_offset: V, steps: usize) -> (trace:
    Vec<V>)
    requires
        steps <= trajectory.samples@.len(),
    ensures
        trace@.len() == steps,
        is_leader_trace(trace@, trajectory.samples@, leader_offset),
{
    let mut trace: Vec<V> = Vec::new();
    let mut k: usize = 0;
    while k < steps
        invariant
            k <= steps <= trajectory.samples@.len(),
            trace@.len() == k,
            is_leader_trace(trace@, trajectory.samples@, leader_offset),
        decreases steps - k,
    {
        trace.push(trajectory.samples[k].plus(leader_offset));
        k = k + 1;
    }
    trace
}

/// The leader at step `k`, as a vector.
pub open spec fn leader_at<V: Vector>(reference: Seq<V>, leader_offset: V, k: int) -> V {
    V::from_coords(leader_coords(reference, leader_offset, k))
}

/// One step of a follower under the noise `deviate`: from `prev` it has moved
/// to `next` by the command of its controller times `dt`, and the controller
/// has gone from the state `before` to the state `after`.
pub open spec fn is_follower_step<V: Vector, S: Sensor<V>, C: Controller<V>>(
    prev: V,
    next: V,
    leader: V,
    desired: V,
    sensor: &S,
    before: C,
    after: C,
    deviate: V,
    dt: int,
) -> bool {
    let error = follower_error(prev, leader, desired, sensor, deviate);
    &&& is_noise(deviate)
    &&& before.steps_to(error, dt, &after)
    &&& next.coords() == sums(prev.coords(), products(before.command(error, dt), dt))
}

/// The trace is the run of a follower that starts at `start` with the
/// controller `controller`: step by step, under the noise `deviates`, through
/// the controller states `states`. The noise of each step is what the source
/// draws on its way from one of the states `sources` to the next; they lead
/// from `before` to `after`.
pub open spec fn is_follower_run<V: Vector, S: Sensor<V>, C: Controller<V>, R: RandomSource>(
    trace: Seq<V>,
    start: V,
    reference: Seq<V>,
    leader_offset: V,
    desired: V,
    sensor: &S,
    controller: C,
    dt: int,
    states: Seq<C>,
    deviates: Seq<V>,
    sources: Seq<R>,
    before: R,
    after: R,
) -> bool {
    &&& states.len() == trace.len() + 1
    &&& deviates.len() == trace.len()
    &&& sources.len() == trace.len() + 1
    &&& states[0] == controller
    &&& sources[0] == before
    &&& sources[trace.len() as int] == after
    &&& forall|k: int|
        0 <= k < trace.len() ==> draws_noise(sources[k], #[trigger] deviates[k], sources[k + 1])
    &&& forall|k: int|
        0 <= k < trace.len() ==> is_follower_step(
            if k == 0 {
                start
            } else {
                trace[k - 1]
            },
            trace[k],
            leader_at(reference, leader_offset, k),
            desired,
            sensor,
            states[k],
            states[k + 1],
            #[trigger] deviates[k],
            dt,
        )
}

/// The trace is the run of a follower under the noise that the source draws
/// on its way from `before` to `after`.
pub open spec fn follows<V: Vector, S: Sensor<V>, C: Controller<V>, R: RandomSource>(
    trace: Seq<V>,
    start: V,
    reference: Seq<V>,
    leader_offset: V,
    desired: V,
    sensor: &S,
    controller: C,
    dt: int,
    before: R,
    after: R,
) -> bool {
    exists|states: Seq<C>, deviates: Seq<V>, sources: Seq<R>|
        #[trigger] is_follower_run(
            trace,
            start,
            reference,
            leader_offset,
            desired,
            sensor,
            controller,
            dt,
            states,
            deviates,
            sources,
            before,
            after,
        )
}

/// The positions of one follower over the first `steps` steps, from `start`.
/// At each step the source draws the noise of the sensor, and nothing else.
/// The trace is the run of the follower under that noise, and each position
/// is one step away from the one before, at a velocity within the limits of
/// the controller.
pub fn follower_trace<V: Vector, S: Sensor<V>, C: Controller<V>, R: RandomSource>(
    trajectory: &DenseTrajectory<V>,
    leader_offset: V,
    start: V,
    desired: V,
    sensor: &S,
    controller: C,
    steps: usize,
    dt: Seconds,
    source: &mut R,
) -> (trace: Vec<V>)
    requires
        steps <= trajectory.samples@.len(),
    ensures
        trace@.len() == steps,
        follows(
            trace@,
            start,
            trajectory.samples@,
            leader_offset,
            desired,
            sensor,
            controller,
            dt as int,
            *old(source),
            *final(source),
        ),
        controller.limits().0 <= controller.limits().1 ==> is_follower_trace(
            trace@,
            start.coords(),
            controller.limits().0,
            controller.limits().1,
            dt as int,
        ),
{
    let ghost limits = controller.limits();
    let ghost mut states: Seq<C> = seq![controller];
    let ghost mut deviates: Seq<V> = Seq::empty();
    let ghost mut sources: Seq<R> = seq![*source];
    let mut state = RobotState::new(start, controller);
    let mut trace: Vec<V> = Vec::new();
    let mut k: usize = 0;
    while k < steps
        invariant
            k <= steps <= trajectory.samples@.len(),
            trace@.len() == k,
            state.controller.limits() == limits,
            state.position == if k == 0 {
                start
            } else {
                trace@[k - 1]
            },
            states[k as int] == state.controller,
            is_follower_run(
                trace@,
                start,
                trajectory.samples@,
                leader_offset,
                desired,
                sensor,
                controller,
                dt as int,
                states,
                deviates,
                sources,
                *old(source),
                *source,
            ),
            limits.0 <= limits.1 ==> is_follower_trace(
                trace@,
                start.coords(),
                limits.0,
                limits.1,
                dt as int,
            ),
        decreases steps - k,
    {
        let lead = trajectory.samples[k].plus(leader_offset);
        let deviate = draw_deviate::<V, R>(source);
        let ghost position = state.position;
        let ghost earlier = state.controller;
        state.advance(lead, desired, sensor, deviate, dt);
        let next = state.position;
        let ghost before = trace@;
        let ghost states_before = states;
        let ghost deviates_before = deviates;
        let ghost sources_before = sources;
        trace.push(next);
        proof {
            states = states.push(state.controller);
            deviates = deviates.push(deviate);
            sources = sources.push(*source);
            V::lemma_coords(lead, lead);
            assert(lead == leader_at(trajectory.samples@, leader_offset, k as int));
            assert(is_follower_step(
                position,
                next,
                lead,
                desired,
                sensor,
                earlier,
                state.controller,
                deviate,
                dt as int,
            ));
            assert forall|j: int| 0 <= j < trace@.len() implies draws_noise(
                sources[j],
                #[trigger] deviates[j],
                sources[j + 1],
            ) by {
                if j < k {
                    assert(deviates[j] == deviates_before[j]);
                    assert(sources[j] == sources_before[j]);
                    assert(sources[j + 1] == sources_before[j + 1]);
                } else {
                    assert(sources[j] == sources_before[j]);
                }
            }
            assert forall|j: int| 0 <= j < trace@.len() implies is_follower_step(
                if j == 0 {
                    start
                } else {
                    trace@[j - 1]
                },
                trace@[j],
                leader_at(trajectory.samples@, leader_offset, j),
                desired,
                sensor,
                states[j],
                states[j + 1],
                #[trigger] deviates[j],
                dt as int,
            ) by {
                if j < k {
                    assert(deviates[j] == deviates_before[j]);
                    assert(states[j] == states_before[j]);
                    assert(states[j + 1] == states_before[j + 1]);
                    assert(trace@[j] == before[j]);
                    if j > 0 {
                        assert(trace@[j - 1] == before[j - 1]);
                    }
                }
            }
            if limits.0 <= limits.1 {
                assert forall|a: int, b: int| 0 <= a && b == a + 1 && b < trace@.len() implies moved(
                    (#[trigger] trace@[a]).coords(),
                    (#[trigger] trace@[b]).coords(),
                    limits.0,
                    limits.1,
                    dt as int,
                ) by {
                    if b < before.len() {
                        assert(trace@[a] == before[a] && trace@[b] == before[b]);
                    } else {
                        assert(trace@[a] == position && trace@[b] == next);
                    }
                }
                if k > 0 {
                    assert(trace@[0] == before[0]);
                }
            }
        }
        k = k + 1;
    }
    trace
}

/// What is recorded of the trace `truth` is `recorded`, sample by sample,
/// under the noise `deviates`; the noise of each sample is what the source
/// draws on its way from one of the states `sources` to the next, and they
/// lead from `before` to `after`.
pub open spec fn observation_chain<V: Vector, O: Observer<V>, R: RandomSource>(
    observer: &O,
    truth: Seq<V>,
    recorded: Seq<V>,
    before: R,
    after: R,
    deviates: Seq<V>,
    sources: Seq<R>,
) -> bool {
    &&& recorded.len() == truth.len()
    &&& deviates.len() == truth.len()
    &&& sources.len() == truth.len() + 1
    &&& sources[0] == before
    &&& sources[truth.len() as int] == after
    &&& forall|k: int|
        0 <= k < truth.len() ==> {
            &&& is_noise(#[trigger] deviates[k])
            &&& draws_noise(sources[k], deviates[k], sources[k + 1])
            &&& recorded[k].coords() == observer.recorded(truth[k], deviates[k])
        }
}

/// `recorded` is what the observer records of `truth` under the noise that
/// the source draws on its way from `before` to `after`.
pub open spec fn observed<V: Vector, O: Observer<V>, R: RandomSource>(
    observer: &O,
    truth: Seq<V>,
    recorded: Seq<V>,
    before: R,
    after: R,
) -> bool {
    exists|deviates: Seq<V>, sources: Seq<R>|
        #[trigger] observation_chain(observer, truth, recorded, before, after, deviates, sources)
}

/// What the observer records of a trace of true positions. For each sample
/// the source draws the noise of the observer, and nothing else.
pub fn observe_trace<V: Vector, O: Observer<V>, R: RandomSource>(
    truth: &Vec<V>,
    observer: &O,
    source: &mut R,
) -> (recorded: Vec<V>)
    ensures
        observed(observer, truth@, recorded@, *old(source), *final(source)),
        is_observation(observer, truth@, recorded@),
{
    let ghost mut deviates: Seq<V> = Seq::empty();
    let ghost mut sources: Seq<R> = seq![*source];
    let mut recorded: Vec<V> = Vec::new();
    let mut k: usize = 0;
    while k < truth.len()
        invariant
            k <= truth@.len(),
            recorded@.len() == k,
            deviates.len() == k,
            sources.len() == k + 1,
            sources[0] == *old(source),
            sources[k as int] == *source,
            forall|j: int|
                0 <= j < k ==> {
                    &&& is_noise(#[trigger] deviates[j])
                    &&& draws_noise(sources[j], deviates[j], sources[j + 1])
                    &&& recorded@[j].coords() == observer.recorded(truth@[j], deviates[j])
                },
            forall|j: int| 0 <= j < k ==> observes(observer, truth@[j], #[trigger] recorded@[j]),
        decreases truth@.len() - k,
    {
        let deviate = draw_deviate::<V, R>(source);
        let seen = observer.observe(truth[k], deviate);
        assert(observes(observer, truth@[k as int], seen)) by {
            assert(is_noise(deviate) && seen.coords() == observer.recorded(
                truth@[k as int],
                deviate,
            ));
        }
        let ghost before = recorded@;
        let ghost deviates_before = deviates;
        let ghost sources_before = sources;
        recorded.push(seen);
        proof {
            deviates = deviates.push(deviate);
            sources = sources.push(*source);
            assert forall|j: int| 0 <= j < k + 1 implies {
                &&& is_noise(#[trigger] deviates[j])
                &&& draws_noise(sources[j], deviates[j], sources[j + 1])
                &&& recorded@[j].coords() == observer.recorded(truth@[j], deviates[j])
            } by {
                assert(sources[j] == sources_before[j]);
                if j < k {
                    assert(deviates[j] == deviates_before[j]);
                    assert(sources[j + 1] == sources_before[j + 1]);
                    assert(recorded@[j] == before[j]);
                }
            }
            assert forall|j: int| 0 <= j < k + 1 implies observes(
                observer,
                truth@[j],
                #[trigger] recorded@[j],
            ) by {
                if j < k {
                    assert(recorded@[j] == before[j]);
                }
            }
        }
        k = k + 1;
    }
    proof {
        assert(observation_chain(
            observer,
            truth@,
            recorded@,
            *old(source),
            *source,
            deviates,
            sources,
        ));
    }
    recorded
}

/// What a run has produced: for every robot, its true positions and what the
/// observer recorded of them, step by step.
pub struct SimulationResult<V: Vector> {
    pub truth: Vec<Vec<V>>,
    pub recorded: Vec<Vec<V>>,
}

impl<V: Vector> SimulationResult<V> {
    /// The recorded time series, one for each robot.
    pub fn into_data(self) -> (data: Vec<Vec<V>>)
        ensures
            data == self.recorded,
    {
        self.recorded
    }
}

/// A formation of robots with their sensors and controllers, and the reference
/// trajectory that leads them.
pub struct SimpleSimulation<'a, V: Vector, S: Sensor<V>, C: Controller<V>> {
    pub robot_count: usize,
    /// Index of the leader.
    pub leader: usize,
    /// The sensor of each robot.
    pub sensors: Vec<S>,
    /// The controller of each robot.
    pub controllers: Vec<C>,
    pub formation: &'a SimpleFormation<V>,
    /// The reference trajectory, read by step index.
    pub trajectory: &'a DenseTrajectory<V>,
    pub mode: LeaderTrajectoryMode,
}

impl<'a, V: Vector, S: Sensor<V>, C: Controller<V>> SimpleSimulation<'a, V, S, C> {
    /// The leader is one of the robots, and there is one sensor, one
    /// controller and one offset for each robot.
    pub open spec fn consistent(&self) -> bool {
        &&& self.leader < self.robot_count
        &&& self.sensors@.len() == self.robot_count
        &&& self.controllers@.len() == self.robot_count
        &&& self.formation.robot_count == self.robot_count
        &&& self.formation.wf()
    }

    /// Why `run` refuses to simulate, if it does.
    pub open spec fn rejection(&self, duration: int, resolution: int) -> Option<ConfigurationError> {
        if resolution <= 0 {
            Some(ConfigurationError::NonPositiveResolution)
        } else if duration < 0 {
            Some(ConfigurationError::InvalidParameter)
        } else if !self.consistent() {
            Some(ConfigurationError::MismatchedFormation)
        } else if duration / resolution > self.trajectory.samples@.len() {
            Some(ConfigurationError::TrajectoryTooShort)
        } else {
            None
        }
    }

    /// Where `robot` stands before the first step: at its place in the
    /// formation around the first position of the leader.
    pub open spec fn start_coords(&self, robot: int) -> Seq<int> {
        sums(
            leader_coords(self.trajectory.samples@, self.formation.leader_offset, 0),
            differences(
                self.formation.offsets@[robot].coords(),
                self.formation.offsets@[self.leader as int].coords(),
            ),
        )
    }

    /// `trace` holds true positions of `robot` over `steps` steps. The leader
    /// is where the reference says, and nothing is drawn for it. A follower
    /// starts at its place in the formation and runs as its sensor and its
    /// controller make it, under the noise that the source draws on its way
    /// from `before` to `after`, at velocities within the limits of its
    /// controller.
    pub open spec fn is_truth<R: RandomSource>(
        &self,
        robot: int,
        trace: Seq<V>,
        steps: int,
        dt: int,
        before: R,
        after: R,
    ) -> bool {
        &&& trace.len() == steps
        &&& if robot == self.leader {
            after == before && is_leader_trace(
                trace,
                self.trajectory.samples@,
                self.formation.leader_offset,
            )
        } else {
            let limits = self.controllers@[robot].limits();
            &&& follows(
                trace,
                V::from_coords(self.start_coords(robot)),
                self.trajectory.samples@,
                self.formation.leader_offset,
                V::from_coords(self.formation.desired(self.leader as int, robot)),
                &self.sensors@[robot],
                self.controllers@[robot],
                dt,
                before,
                after,
            )
            &&& limits.0 <= limits.1 ==> is_follower_trace(
                trace,
                self.start_coords(robot),
                limits.0,
                limits.1,
                dt,
            )
        }
    }

    /// The source goes from `before` to `after` through the states `marks`,
    /// two legs for each robot, in the order of the robots: on the first leg
    /// it draws the noise of the robot's sensor, on the second the noise of
    /// the observer.
    pub open spec fn run_chain<O: Observer<V>, R: RandomSource>(
        &self,
        truth: Seq<Vec<V>>,
        recorded: Seq<Vec<V>>,
        observer: &O,
        steps: int,
        dt: int,
        before: R,
        after: R,
        marks: Seq<R>,
    ) -> bool {
        &&& truth.len() == self.robot_count
        &&& recorded.len() == self.robot_count
        &&& marks.len() == 2 * self.robot_count + 1
        &&& marks[0] == before
        &&& marks[2 * self.robot_count] == after
        &&& forall|i: int|
            0 <= i < self.robot_count ==> self.is_truth(
                i,
                (#[trigger] truth[i])@,
                steps,
                dt,
                marks[2 * i],
                marks[2 * i + 1],
            )
        &&& forall|i: int|
            0 <= i < self.robot_count ==> observed(
                observer,
                truth[i]@,
                (#[trigger] recorded[i])@,
                marks[2 * i + 1],
                marks[2 * i + 2],
            )
    }

    /// `truth` and `recorded` are what a run of `steps` steps gives, with
    /// the noise that the source draws on its way from `before` to `after`:
    /// one trace of true positions and one of recorded positions for every
    /// robot, each as its robot, the observer and the source make it.
    pub open spec fn ran<O: Observer<V>, R: RandomSource>(
        &self,
        truth: Seq<Vec<V>>,
        recorded: Seq<Vec<V>>,
        observer: &O,
        steps: int,
        dt: int,
        before: R,
        after: R,
    ) -> bool {
        &&& truth.len() == self.robot_count
        &&& recorded.len() == self.robot_count
        &&& exists|marks: Seq<R>| #[trigger]
            self.run_chain(truth, recorded, observer, steps, dt, before, after, marks)
        &&& forall|i: int|
            0 <= i < self.robot_count ==> is_observation(
                observer,
                truth[i]@,
                (#[trigger] recorded[i])@,
            )
    }

    pub fn new(
        robot_count: usize,
        leader: usize,
        sensors: Vec<S>,
        controllers: Vec<C>,
        formation: &'a SimpleFormation<V>,
        trajectory: &'a DenseTrajectory<V>,
        mode: LeaderTrajectoryMode,
    ) -> (s: Self)
        ensures
            s.robot_count == robot_count,
            s.leader == leader,
            s.sensors@ == sensors@,
            s.controllers@ == controllers@,
            s.formation == formation,
            s.trajectory == trajectory,
            s.mode == mode,
    {
        SimpleSimulation { robot_count, leader, sensors, controllers, formation, trajectory, mode }
    }

    /// Simulates `duration / resolution` time steps of length `resolution`.
    /// The result holds, for every robot, one true and one recorded position
    /// for each step. The robots are simulated one after the other; for each
    /// the source draws the noise of its sensor, step by step, and then the
    /// noise of the observer, sample by sample. Nothing is drawn where the
    /// run is refused.
    pub fn run<O: Observer<V>, R: RandomSource>(
        self,
        duration: Seconds,
        resolution: Seconds,
        observer: &O,
        source: &mut R,
    ) -> (r: Result<SimulationResult<V>, ConfigurationError>)
        ensures
            r is Err <==> self.rejection(duration as int, resolution as int) is Some,
            r matches Err(e) ==> self.rejection(duration as int, resolution as int) == Some(e)
                && *final(source) == *old(source),
            r matches Ok(result) ==> self.ran(
                result.truth@,
                result.recorded@,
                observer,
                duration as int / resolution as int,
                resolution as int,
                *old(source),
                *final(source),
            ),
    {
        if resolution <= 0 {
            return Err(ConfigurationError::NonPositiveResolution);
        }
        if duration < 0 {
            return Err(ConfigurationError::InvalidParameter);
        }
        let n = self.robot_count;
        if self.leader >= n || self.sensors.len() != n || self.controllers.len() != n
            || self.formation.robot_count != n || self.formation.offsets.len() != n {
            return Err(ConfigurationError::MismatchedFormation);
        }
        let wanted = duration / resolution;
        if wanted as u128 > self.trajectory.samples.len() as u128 {
            return Err(ConfigurationError::TrajectoryTooShort);
        }
        let steps = wanted as usize;
        let ghost sim = self;
        let leader = self.leader;
        let formation = self.formation;
        let trajectory = self.trajectory;
        let sensors = self.sensors;
        let mut controllers = self.controllers;
        let mut truth: Vec<Vec<V>> = Vec::new();
        let mut recorded: Vec<Vec<V>> = Vec::new();
        let ghost mut marks: Seq<R> = seq![*source];
        let mut i: usize = 0;
        while i < n
            invariant
                i <= n,
                marks.len() == 2 * i + 1,
                marks[0] == *old(source),
                marks[2 * i] == *source,
                forall|j: int|
                    0 <= j < i ==> observed(
                        observer,
                        truth@[j]@,
                        (#[trigger] recorded@[j])@,
                        marks[2 * j + 1],
                        marks[2 * j + 2],
                    ),
                n == sim.robot_count,
                sim.consistent(),
                leader == sim.leader,
                formation == sim.formation,
                trajectory == sim.trajectory,
                sensors@ == sim.sensors@,
                controllers@ == sim.controllers@.skip(i as int),
                steps <= trajectory.samples@.len(),
                steps == duration as int / resolution as int,
                truth@.len() == i,
                recorded@.len() == i,
                forall|j: int|
                    0 <= j < i ==> sim.is_truth(
                        j,
                        (#[trigger] truth@[j])@,
                        steps as int,
                        resolution as int,
                        marks[2 * j],
                        marks[2 * j + 1],
                    ),
                forall|j: int|
                    0 <= j < i ==> is_observation(
                        observer,
                        truth@[j]@,
                        (#[trigger] recorded@[j])@,
                    ),
            decreases n - i,
        {
            let controller = controllers.remove(0);
            proof {
                assert(controller == sim.controllers@[i as int]);
                assert(controllers@ =~= sim.controllers@.skip(i + 1));
            }
            let trace = if i == leader {
                leader_trace(trajectory, formation.leader_offset, steps)
            } else if steps == 0 {
                proof {
                    assert(is_follower_run(
                        Seq::<V>::empty(),
                        V::from_coords(sim.start_coords(i as int)),
                        trajectory.samples@,
                        formation.leader_offset,
                        V::from_coords(formation.desired(leader as int, i as int)),
                        &sensors@[i as int],
                        controller,
                        resolution as int,
                        seq![controller],
                        Seq::<V>::empty(),
                        seq![*source],
                        *source,
                        *source,
                    ));
                }
                Vec::new()
            } else {
                let first = trajectory.samples[0].plus(formation.leader_offset);
                let start = first.plus(formation.offsets[i].minus(formation.offsets[leader]));
                let desired = formation.desired_relative(leader, i);
                proof {
                    V::lemma_coords(start, start);
                    V::lemma_coords(desired, desired);
                }
                follower_trace(
                    trajectory,
                    formation.leader_offset,
                    start,
                    desired,
                    &sensors[i],
                    controller,
                    steps,
                    resolution,
                    source,
                )
            };
            let ghost moved_to = *source;
            let seen = observe_trace(&trace, observer, source);
            let ghost truth_before = truth@;
            let ghost recorded_before = recorded@;
            let ghost marks_before = marks;
            truth.push(trace);
            recorded.push(seen);
            proof {
                marks = marks.push(moved_to).push(*source);
                assert forall|j: int| 0 <= j < i + 1 implies sim.is_truth(
                    j,
                    (#[trigger] truth@[j])@,
                    steps as int,
                    resolution as int,
                    marks[2 * j],
                    marks[2 * j + 1],
                ) by {
                    assert(marks[2 * j] == marks_before[2 * j]);
                    if j < i {
                        assert(truth@[j] == truth_before[j]);
                        assert(marks[2 * j + 1] == marks_before[2 * j + 1]);
                    }
                }
                assert forall|j: int| 0 <= j < i + 1 implies observed(
                    observer,
                    truth@[j]@,
                    (#[trigger] recorded@[j])@,
                    marks[2 * j + 1],
                    marks[2 * j + 2],
                ) by {
                    if j < i {
                        assert(truth@[j] == truth_before[j]);
                        assert(recorded@[j] == recorded_before[j]);
                        assert(marks[2 * j + 1] == marks_before[2 * j + 1]);
                        assert(marks[2 * j + 2] == marks_before[2 * j + 2]);
                    }
                }
                assert forall|j: int| 0 <= j < i + 1 implies is_observation(
                    observer,
                    truth@[j]@,
                    (#[trigger] recorded@[j])@,
                ) by {
                    if j < i {
                        assert(truth@[j] == truth_before[j]);
                        assert(recorded@[j] == recorded_before[j]);
                    }
                }
            }
            i = i + 1;
        }
        let result = SimulationResult { truth, recorded };
        proof {
            assert(sim.run_chain(
                result.truth@,
                result.recorded@,
                observer,
                duration as int / resolution as int,
                resolution as int,
                *old(source),
                *source,
                marks,
            ));
            assert(forall|j: int|
                0 <= j < sim.robot_count ==> is_observation(
                    observer,
                    result.truth@[j]@,
                    (#[trigger] result.recorded@[j])@,
                ));
            assert(sim.ran(
                result.truth@,
                result.recorded@,
                observer,
                duration as int / resolution as int,
                resolution as int,
                *old(source),
                *source,
            ));
        }
        Ok(result)
    }
}

/// A perfect observer records the true positions themselves.
pub proof fn lemma_perfect_observation<V: Vector>(truth: Seq<V>, recorded: Seq<V>)
    requires
        is_observation(&PerfectObserver {  }, truth, recorded),
    ensures
        recorded == truth,
{
    let observer = PerfectObserver {  };
    assert forall|k: int| 0 <= k < truth.len() implies recorded[k] == truth[k] by {
        assert(observes(&observer, truth[k], recorded[k]));
        let deviate = choose|deviate: V|
            is_noise(deviate) && recorded[k].coords() == #[trigger] observer.recorded(
                truth[k],
                deviate,
            );
        V::lemma_coords(recorded[k], truth[k]);
    }
    assert(recorded =~= truth);
}

/// Where the leader has no offset from the reference, its trace is the
/// reference trajectory itself, sample for sample.
pub proof fn lemma_leader_is_reference<V: Vector>(trace: Seq<V>, reference: Seq<V>, leader_offset: V)
    requires
        is_leader_trace(trace, reference, leader_offset),
        leader_offset.coords() == zeros(V::dim()),
        trace.len() <= reference.len(),
    ensures
        trace == reference.take(trace.len() as int),
{
    assert forall|k: int| 0 <= k < trace.len() implies trace[k] == reference[k] by {
        V::lemma_coords(reference[k], trace[k]);
        V::lemma_coords(trace[k], reference[k]);
        assert(leader_coords(reference, leader_offset, k) =~= reference[k].coords());
    }
    assert(trace =~= reference.take(trace.len() as int));
}

} // verus!
