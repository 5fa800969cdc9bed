//! Sensor models: from the true relative position of the leader to a noisy
//! measurement of it.
//!
//! A sensor holds no state. Its noise comes in as a deviate that the
//! simulation has drawn, so a reading is a function of the true state, the
//! deviate and the parameters of the sensor.

use crate::base::{Metres, Metres2D, Vector};
use crate::fixed::{
    difference, fx_div, fx_mul, product, quotient, sat_add, sat_sub, sum, SCALE,
};
use crate::random::{draws_deviate, unit_deviate, RandomSource};
use vstd::prelude::*;

verus! {

/// What a sensor reports where the true distance is outside its valid range.
pub const OUT_OF_RANGE: Metres = 0;

/// What the simulation asks of a sensor.
pub trait Sensor<V: Vector>: Sized {
    /// The measurement of the relative position `relative` under the noise `deviate`.
    spec fn reading(&self, relative: V, deviate: V) -> Seq<int>;

    fn sense(&self, relative: V, deviate: V) -> (m: V)
        ensures
            m.coords() == self.reading(relative, deviate),
    ;
}

/// A short-range infrared distance sensor.
///
/// Its response falls with the distance as `gain / distance`. The noise that
/// is added to the response grows with the true distance. The measurement is
/// the distance at which the noisy response would be the exact one.
#[derive(Clone, Copy, Debug, PartialEq, Eq, Structural)]
pub struct SharpIrSensor {
    /// The least distance that the sensor can measure.
    pub min_range: Metres,
    /// The greatest distance that the sensor can measure.
    pub max_range: Metres,
    /// The response at a distance of one metre.
    pub gain: i64,
    /// Standard deviation of the noise on the response, per metre of distance.
    pub noise: i64,
}

impl SharpIrSensor {
    /// The response to an object at `distance`, with noise.
    pub open spec fn response(&self, distance: int, deviate: int) -> int {
        sum(
            quotient(self.gain as int, distance),
            product(product(self.noise as int, distance), deviate),
        )
    }

    /// The distance that the sensor measures, where it measures one: the true
    /// distance is positive and within the valid range, the noisy response is
    /// positive, and the distance that belongs to it is positive and within
    /// the range too.
    pub open spec fn estimate(&self, distance: int, deviate: int) -> Option<int> {
        if distance <= 0 || distance < self.min_range || distance > self.max_range {
            None
        } else if self.response(distance, deviate) <= 0 {
            None
        } else {
            let measured = quotient(self.gain as int, self.response(distance, deviate));
            if measured <= 0 || measured < self.min_range || measured > self.max_range {
                None
            } else {
                Some(measured)
            }
        }
    }

    /// A sensor for distances from a tenth of a metre to eight tenths, with a
    /// gain of a quarter and noise of one per cent.
    pub fn new() -> (s: SharpIrSensor)
        ensures
            s.min_range == 100_000,
            s.max_range == 800_000,
            s.gain == 250_000,
            s.noise == 10_000,
    {
        SharpIrSensor { min_range: 100_000, max_range: 800_000, gain: 250_000, noise: 10_000 }
    }

    /// Measures the distance to an object at `distance`.
    pub fn range(&self, distance: Metres, deviate: i64) -> (r: Option<Metres>)
        ensures
            r is Some <==> self.estimate(distance as int, deviate as int) is Some,
            r matches Some(d) ==> self.estimate(distance as int, deviate as int) == Some(d as int),
    {
        if distance <= 0 || distance < self.min_range || distance > self.max_range {
            return None;
        }
        let response = sat_add(fx_div(self.gain, distance), fx_mul(fx_mul(self.noise, distance), deviate));
        if response <= 0 {
            return None;
        }
        let measured = fx_div(self.gain, response);
        if measured <= 0 || measured < self.min_range || measured > self.max_range {
            None
        } else {
            Some(measured)
        }
    }
}

impl Sensor<i64> for SharpIrSensor {
    /// On a line the sensor reports the measured distance with the sign of
    /// the true relative position, or the out-of-range marker.
    open spec fn reading(&self, relative: i64, deviate: i64) -> Seq<int> {
        let distance = if relative < 0 {
            -relative
        } else {
            relative as int
        };
        match self.estimate(distance, deviate as int) {
            Some(measured) => seq![
                if relative < 0 {
                    -measured
                } else {
                    measured
                },
            ],
            None => seq![OUT_OF_RANGE as int],
        }
    }

    fn sense(&self, relative: i64, deviate: i64) -> (m: i64) {
        if relative == i64::MIN {
            return OUT_OF_RANGE;
        }
        let distance = if relative < 0 {
            -relative
        } else {
            relative
        };
        match self.range(distance, deviate) {
            Some(measured) => if relative < 0 {
                -measured
            } else {
                measured
            },
            None => OUT_OF_RANGE,
        }
    }
}

/// An infrared distance sensor combined with an encoder that reports the
/// bearing of the leader.
///
/// The measurement is the true relative position, stretched to the distance
/// that the infrared sensor measures and turned by the bearing error, which is
/// taken to be small: a vector `(x, y)` turned by the angle `a` is `(x - a y, y + a x)`.
#[derive(Clone, Copy, Debug, PartialEq, Eq, Structural)]
pub struct CombinedIrEncoderSensor {
    pub ir: SharpIrSensor,
    /// Standard deviation of the bearing error, in fixed-point radians.
    pub heading_noise: i64,
}

impl CombinedIrEncoderSensor {
    /// The default infrared sensor with a bearing error of one hundredth of a radian.
    pub fn new() -> (s: CombinedIrEncoderSensor)
        ensures
            s.ir.min_range == 100_000,
            s.ir.max_range == 800_000,
            s.ir.gain == 250_000,
            s.ir.noise == 10_000,
            s.heading_noise == 10_000,
    {
        CombinedIrEncoderSensor { ir: SharpIrSensor::new(), heading_noise: 10_000 }
    }
}

impl Sensor<Metres2D> for CombinedIrEncoderSensor {
    /// The first component of the deviate is the noise of the distance, the
    /// second that of the bearing. Out of range, the reading is the marker in
    /// both components.
    open spec fn reading(&self, relative: Metres2D, deviate: Metres2D) -> Seq<int> {
        let distance = relative.norm();
        match self.ir.estimate(distance, deviate.x as int) {
            Some(measured) => {
                let ratio = quotient(measured, distance);
                let x = product(relative.x as int, ratio);
                let y = product(relative.y as int, ratio);
                let twist = product(self.heading_noise as int, deviate.y as int);
                seq![difference(x, product(y, twist)), sum(y, product(x, twist))]
            },
            None => seq![OUT_OF_RANGE as int, OUT_OF_RANGE as int],
        }
    }

    fn sense(&self, relative: Metres2D, deviate: Metres2D) -> (m: Metres2D) {
        let distance = relative.length();
        match self.ir.range(distance, deviate.x) {
            Some(measured) => {
                let ratio = fx_div(measured, distance);
                let x = fx_mul(relative.x, ratio);
                let y = fx_mul(relative.y, ratio);
                let twist = fx_mul(self.heading_noise, deviate.y);
                Metres2D { x: sat_sub(x, fx_mul(y, twist)), y: sat_add(y, fx_mul(x, twist)) }
            },
            None => Metres2D { x: OUT_OF_RANGE, y: OUT_OF_RANGE },
        }
    }
}

/// Every component of `v` lies within six standard deviations of zero.
pub open spec fn is_noise<V: Vector>(v: V) -> bool {
    forall|i: int| 0 <= i < v.coords().len() ==> -6 * SCALE <= #[trigger] v.coords()[i] < 6 * SCALE
}

/// The source goes from `before` to `after` through the states `states`, and
/// on the way from each state to the next it hands out the draws that make
/// one component of `v`.
pub open spec fn noise_chain<V: Vector, R: RandomSource>(
    before: R,
    after: R,
    v: V,
    states: Seq<R>,
) -> bool {
    &&& v.coords().len() == V::dim()
    &&& states.len() == V::dim() + 1
    &&& states[0] == before
    &&& states[V::dim() as int] == after
    &&& forall|c: int|
        0 <= c < V::dim() ==> draws_deviate(states[c], #[trigger] v.coords()[c], states[c + 1])
}

/// Every component of `v` is a deviate that the source has drawn, one after
/// the other, on its way from `before` to `after`.
pub open spec fn draws_noise<V: Vector, R: RandomSource>(before: R, v: V, after: R) -> bool {
    exists|states: Seq<R>| #[trigger] noise_chain(before, after, v, states)
}

/// Draws one deviate for every component of a vector, the first component
/// first: each lies within six standard deviations of zero.
pub fn draw_deviate<V: Vector, R: RandomSource>(source: &mut R) -> (v: V)
    ensures
        draws_noise(*old(source), v, *final(source)),
        is_noise(v),
{
    let n = V::repr_length();
    let ghost mut states: Seq<R> = seq![*source];
    let mut values: Vec<i64> = Vec::new();
    let mut i: usize = 0;
    while i < n
        invariant
            i <= n,
            n == V::dim(),
            values@.len() == i,
            states.len() == i + 1,
            states[0] == *old(source),
            states[i as int] == *source,
            forall|j: int|
                0 <= j < i ==> -6 * SCALE <= #[trigger] values@[j] < 6 * SCALE && draws_deviate(
                    states[j],
                    values@[j] as int,
                    states[j + 1],
                ),
        decreases n - i,
    {
        let d = unit_deviate(source);
        let ghost earlier = states;
        let ghost drawn = values@;
        values.push(d);
        proof {
            states = states.push(*source);
            assert forall|j: int| 0 <= j < i + 1 implies -6 * SCALE <= #[trigger] values@[j] < 6
                * SCALE && draws_deviate(states[j], values@[j] as int, states[j + 1]) by {
                if j < i {
                    assert(values@[j] == drawn[j]);
                    assert(states[j] == earlier[j]);
                    assert(states[j + 1] == earlier[j + 1]);
                }
            }
        }
        i = i + 1;
    }
    match V::from_repr(&values) {
        Some(v) => {
            proof {
                assert forall|c: int| 0 <= c < v.coords().len() implies -6 * SCALE
                    <= #[trigger] v.coords()[c] < 6 * SCALE by {
                    assert(v.coords()[c] == values@[c]);
                }
                assert forall|c: int| 0 <= c < V::dim() implies draws_deviate(
                    states[c],
                    #[trigger] v.coords()[c],
                    states[c + 1],
                ) by {
                    assert(v.coords()[c] == values@[c]);
                }
                assert(noise_chain(*old(source), *source, v, states));
            }
            v
        },
        None => V::zero(),
    }
}

} // verus!
