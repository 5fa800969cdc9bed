//! Controllers: from an error to a velocity command.
//!
//! A controller keeps its state from one call of `step` to the next and limits
//! every component of its command to the velocity limits it was built with.
//! Saturation is silent: it is expected behaviour, not a fault.

use crate::base::{
    differences, limited, products, quotients, sums, zeros, Metres2D, MetresPerSecond, Seconds,
    Vector,
};
use crate::fixed::{lemma_product_range, lemma_product_units, SCALE};
use vstd::prelude::*;

verus! {

/// Every component of `v` lies between `lo` and `hi`.
pub open spec fn within(v: Seq<int>, lo: int, hi: int) -> bool {
    forall|i: int| 0 <= i < v.len() ==> lo <= #[trigger] v[i] <= hi
}

/// A vector limited to an ordered pair of limits lies within them, and one
/// that lies within them already is not changed.
pub proof fn lemma_limited_within(v: Seq<int>, lo: int, hi: int)
    requires
        lo <= hi,
    ensures
        within(limited(v, lo, hi), lo, hi),
        within(v, lo, hi) ==> limited(v, lo, hi) == v,
{
    if within(v, lo, hi) {
        assert(limited(v, lo, hi) =~= v);
    }
}

/// What the simulation asks of a controller.
pub trait Controller<V: Vector>: Sized {
    /// The velocity limits: the least and the greatest value of a component.
    spec fn limits(&self) -> (int, int);

    /// The command that `step` hands out for `error` in the present state.
    spec fn command(&self, error: V, dt: int) -> Seq<int>;

    /// `next` is the state in which `step` leaves the controller.
    spec fn steps_to(&self, error: V, dt: int, next: &Self) -> bool;

    /// Turns the error of one time step into a velocity command. Where the
    /// limits are ordered, every component of the command lies within them.
    fn step(&mut self, error: V, dt: Seconds) -> (cmd: V)
        ensures
            cmd.coords() == old(self).command(error, dt as int),
            old(self).steps_to(error, dt as int, final(self)),
            final(self).limits() == old(self).limits(),
            old(self).limits().0 <= old(self).limits().1 ==> within(
                cmd.coords(),
                old(self).limits().0,
                old(self).limits().1,
            ),
    ;
}

/// Parameters of a proportional controller.
#[derive(Clone, Copy, Debug)]
pub struct PControllerParams {
    pub p_gain: i64,
    /// The least and the greatest velocity that is commanded.
    pub vel_limits: (MetresPerSecond, MetresPerSecond),
}

impl Default for PControllerParams {
    /// A gain of minus one and limits of half a metre per second either way.
    fn default() -> (p: PControllerParams)
        ensures
            p.p_gain == -SCALE,
            p.vel_limits == (-500_000i64, 500_000i64),
    {
        PControllerParams { p_gain: -SCALE, vel_limits: (-500_000, 500_000) }
    }
}

/// Proportional controller: the command is the error times the gain, limited.
#[derive(Clone, Copy, Debug)]
pub struct PController {
    pub params: PControllerParams,
}

impl PController {
    pub fn new(params: PControllerParams) -> (c: PController)
        ensures
            c.params == params,
    {
        PController { params }
    }
}

impl<V: Vector> Controller<V> for PController {
    open spec fn limits(&self) -> (int, int) {
        (self.params.vel_limits.0 as int, self.params.vel_limits.1 as int)
    }

    open spec fn command(&self, error: V, dt: int) -> Seq<int> {
        limited(
            products(error.coords(), self.params.p_gain as int),
            self.params.vel_limits.0 as int,
            self.params.vel_limits.1 as int,
        )
    }

    open spec fn steps_to(&self, error: V, dt: int, next: &Self) -> bool {
        *next == *self
    }

    fn step(&mut self, error: V, dt: Seconds) -> (cmd: V) {
        proof {
            if self.params.vel_limits.0 <= self.params.vel_limits.1 {
                lemma_limited_within(
                    products(error.coords(), self.params.p_gain as int),
                    self.params.vel_limits.0 as int,
                    self.params.vel_limits.1 as int,
                );
            }
        }
        error.scaled(self.params.p_gain).limited_to(
            self.params.vel_limits.0,
            self.params.vel_limits.1,
        )
    }
}

/// Parameters of a proportional-integral-derivative controller.
#[derive(Clone, Copy, Debug)]
pub struct PIDControllerParams {
    pub p_gain: i64,
    pub i_gain: i64,
    pub d_gain: i64,
    /// The least and the greatest velocity that is commanded.
    pub vel_limits: (MetresPerSecond, MetresPerSecond),
}

impl Default for PIDControllerParams {
    /// A proportional gain of minus one, no integral or derivative action, and
    /// limits of half a metre per second either way.
    fn default() -> (p: PIDControllerParams)
        ensures
            p.p_gain == -SCALE,
            p.i_gain == 0,
            p.d_gain == 0,
            p.vel_limits == (-500_000i64, 500_000i64),
    {
        PIDControllerParams { p_gain: -SCALE, i_gain: 0, d_gain: 0, vel_limits: (-500_000, 500_000) }
    }
}

/// Proportional-integral-derivative controller that applies the same three
/// gains to every component of the error.
///
/// The integral is the sum of `error * dt` over the steps before the present
/// one. The derivative is the change of the error since the step before,
/// divided by `dt`; it is zero on the first step, and where `dt` is not positive.
#[derive(Clone, Copy, Debug)]
pub struct UniformPid<V: Vector> {
    pub params: PIDControllerParams,
    /// Sum of `error * dt` over the steps so far.
    pub integral: V,
    /// The error of the step before, if there was one.
    pub previous: Option<V>,
}

/// The controller for a robot on a line.
pub type PIDController = UniformPid<i64>;

/// The controller for a robot in the plane.
pub type UniformPIDController2D = UniformPid<Metres2D>;

impl<V: Vector> UniformPid<V> {
    /// No step has been taken: the integral is zero and there is no earlier error.
    pub open spec fn fresh(&self) -> bool {
        self.integral.coords() == zeros(V::dim()) && self.previous is None
    }

    /// The derivative of the error, component by component.
    pub open spec fn derivative(&self, error: V, dt: int) -> Seq<int> {
        match self.previous {
            Some(before) if dt > 0 => quotients(differences(error.coords(), before.coords()), dt),
            _ => zeros(V::dim()),
        }
    }

    /// The command before it is limited: the three terms, summed.
    pub open spec fn unlimited(&self, error: V, dt: int) -> Seq<int> {
        sums(
            sums(
                products(error.coords(), self.params.p_gain as int),
                products(self.integral.coords(), self.params.i_gain as int),
            ),
            products(self.derivative(error, dt), self.params.d_gain as int),
        )
    }

    pub fn new(params: PIDControllerParams) -> (c: UniformPid<V>)
        ensures
            c.params == params,
            c.fresh(),
    {
        UniformPid { params, integral: V::zero(), previous: None }
    }
}

impl<V: Vector> Controller<V> for UniformPid<V> {
    open spec fn limits(&self) -> (int, int) {
        (self.params.vel_limits.0 as int, self.params.vel_limits.1 as int)
    }

    open spec fn command(&self, error: V, dt: int) -> Seq<int> {
        limited(
            self.unlimited(error, dt),
            self.params.vel_limits.0 as int,
            self.params.vel_limits.1 as int,
        )
    }

    open spec fn steps_to(&self, error: V, dt: int, next: &Self) -> bool {
        &&& next.params == self.params
        &&& next.integral.coords() == sums(self.integral.coords(), products(error.coords(), dt))
        &&& next.previous == Some(error)
    }

    fn step(&mut self, error: V, dt: Seconds) -> (cmd: V) {
        let p_term = error.scaled(self.params.p_gain);
        let i_term = self.integral.scaled(self.params.i_gain);
        let rate = match self.previous {
            Some(before) => {
                if dt > 0 {
                    error.minus(before).divided(dt)
                } else {
                    V::zero()
                }
            },
            None => V::zero(),
        };
        let d_term = rate.scaled(self.params.d_gain);
        let total = p_term.plus(i_term).plus(d_term);
        proof {
            if self.params.vel_limits.0 <= self.params.vel_limits.1 {
                lemma_limited_within(
                    total.coords(),
                    self.params.vel_limits.0 as int,
                    self.params.vel_limits.1 as int,
                );
            }
        }
        let cmd = total.limited_to(self.params.vel_limits.0, self.params.vel_limits.1);
        self.integral = self.integral.plus(error.scaled(dt));
        self.previous = Some(error);
        cmd
    }
}

/// On its first step a controller commands the error times the proportional
/// gain, limited to the velocity limits: the integral and the derivative term
/// are both zero. Where that product lies within ordered limits, it is the
/// command exactly.
pub proof fn lemma_first_step_is_proportional<V: Vector>(c: UniformPid<V>, error: V, dt: int)
    requires
        c.fresh(),
    ensures
        c.command(error, dt) == limited(
            products(error.coords(), c.params.p_gain as int),
            c.params.vel_limits.0 as int,
            c.params.vel_limits.1 as int,
        ),
        c.params.vel_limits.0 <= c.params.vel_limits.1 && within(
            products(error.coords(), c.params.p_gain as int),
            c.params.vel_limits.0 as int,
            c.params.vel_limits.1 as int,
        ) ==> c.command(error, dt) == products(error.coords(), c.params.p_gain as int),
{
    V::lemma_coords(error, error);
    V::lemma_coords(c.integral, c.integral);
    let p = products(error.coords(), c.params.p_gain as int);
    let i = products(c.integral.coords(), c.params.i_gain as int);
    let d = products(c.derivative(error, dt), c.params.d_gain as int);
    assert forall|k: int| 0 <= k < V::dim() implies #[trigger] c.unlimited(error, dt)[k] == p[k] by {
        lemma_product_units(c.params.i_gain as int);
        lemma_product_units(c.params.d_gain as int);
        lemma_product_range(error.coords()[k], c.params.p_gain as int);
        assert(i[k] == 0);
        assert(d[k] == 0);
    }
    assert(c.unlimited(error, dt) =~= p);
    if c.params.vel_limits.0 <= c.params.vel_limits.1 {
        lemma_limited_within(p, c.params.vel_limits.0 as int, c.params.vel_limits.1 as int);
    }
}

} // verus!
