//! Sparse and dense trajectories.
//!
//! A sparse trajectory is a list of `(time, position)` samples whose times
//! start at zero and increase strictly. A [`DenseTrajectory`] holds the same
//! path sampled at every multiple of a fixed time step, so that a simulation
//! step finds its reference position by index.

use crate::base::{blends, Seconds, Vector};
use crate::error::ConfigurationError;
use crate::fixed::lemma_interpolated_bounds;
use vstd::arithmetic::div_mod::lemma_fundamental_div_mod;
use vstd::prelude::*;

verus! {

/// The sample times start at zero and every sample is later than the one before it.
pub open spec fn is_sparse<V>(points: Seq<(i64, V)>) -> bool {
    &&& points.len() > 0
    &&& points[0].0 == 0
    &&& forall|i: int| 0 <= i < points.len() - 1 ==> (#[trigger] points[i]).0 < points[i + 1].0
}

/// Time of the last sample.
pub open spec fn last_time<V>(points: Seq<(i64, V)>) -> int {
    points[points.len() - 1].0 as int
}

/// Number of dense samples: the time span divided by the step, rounded up.
pub open spec fn dense_len<V>(points: Seq<(i64, V)>, resolution: int) -> int {
    (last_time(points) + resolution - 1) / resolution
}

/// The dense samples can be stored, and the time of each can be written down.
pub open spec fn fits<V>(points: Seq<(i64, V)>, resolution: int) -> bool {
    &&& dense_len(points, resolution) <= usize::MAX
    &&& dense_len(points, resolution) * resolution <= i64::MAX
}

/// Samples `i` and `i + 1` bracket the time `t`.
pub open spec fn brackets<V>(points: Seq<(i64, V)>, i: int, t: int) -> bool {
    0 <= i < points.len() - 1 && points[i].0 <= t < points[i + 1].0
}

/// Index of the sample that starts the bracket around `t`.
pub open spec fn bracket_index<V>(points: Seq<(i64, V)>, t: int) -> int {
    choose|i: int| brackets(points, i, t)
}

/// The path at time `t`: linear interpolation between the bracketing samples.
pub open spec fn value_at<V: Vector>(points: Seq<(i64, V)>, t: int) -> Seq<int> {
    let i = bracket_index(points, t);
    blends(
        points[i].1.coords(),
        points[i + 1].1.coords(),
        t - points[i].0,
        points[i + 1].0 - points[i].0,
    )
}

/// Why `from_points` refuses its arguments, if it does.
pub open spec fn rejection<V>(points: Seq<(i64, V)>, resolution: int) -> Option<
    ConfigurationError,
> {
    if resolution <= 0 {
        Some(ConfigurationError::NonPositiveResolution)
    } else if !is_sparse(points) {
        Some(ConfigurationError::MalformedTrajectory)
    } else if !fits(points, resolution) {
        Some(ConfigurationError::TooManySamples)
    } else {
        None
    }
}

/// In a sparse trajectory a later sample has a later time.
pub proof fn lemma_sparse_ordered<V>(points: Seq<(i64, V)>, i: int, j: int)
    requires
        is_sparse(points),
        0 <= i <= j < points.len(),
    ensures
        points[i].0 <= points[j].0,
        i < j ==> points[i].0 < points[j].0,
        0 <= points[i].0,
    decreases j,
{
    if i < j {
        lemma_sparse_ordered(points, i, j - 1);
        assert(points[j - 1].0 < points[j - 1 + 1].0);
    }
    if 0 < i {
        lemma_sparse_ordered(points, 0, i - 1);
        assert(points[i - 1].0 < points[i - 1 + 1].0);
    }
}

/// At most one pair of neighbouring samples brackets a given time.
pub proof fn lemma_bracket_unique<V>(points: Seq<(i64, V)>, i: int, t: int)
    requires
        is_sparse(points),
        brackets(points, i, t),
    ensures
        bracket_index(points, t) == i,
{
    let j = bracket_index(points, t);
    assert(brackets(points, j, t));
    if j < i {
        lemma_sparse_ordered(points, j + 1, i);
    } else if i < j {
        lemma_sparse_ordered(points, i + 1, j);
    }
}

/// The last dense sample is taken before the last sparse one.
pub proof fn lemma_dense_span(last: int, resolution: int, k: int)
    requires
        0 <= last,
        0 < resolution,
        0 <= k < (last + resolution - 1) / resolution,
    ensures
        0 <= k * resolution < last,
        last <= ((last + resolution - 1) / resolution) * resolution,
{
    let n = (last + resolution - 1) / resolution;
    lemma_fundamental_div_mod(last + resolution - 1, resolution);
    assert(k * resolution <= (n - 1) * resolution && 0 <= k * resolution) by (nonlinear_arith)
        requires
            0 <= k <= n - 1,
            0 < resolution,
    ;
    assert((n - 1) * resolution == resolution * n - resolution) by (nonlinear_arith);
    assert(n * resolution == resolution * n) by (nonlinear_arith);
}

/// Checks that sample times start at zero and increase strictly.
pub fn is_valid_sparse<V: Vector>(points: &Vec<(Seconds, V)>) -> (ok: bool)
    ensures
        ok == is_sparse(points@),
{
    if points.len() == 0 {
        return false;
    }
    if points[0].0 != 0 {
        return false;
    }
    let mut i: usize = 1;
    while i < points.len()
        invariant
            1 <= i <= points.len(),
            points@[0].0 == 0,
            forall|j: int| 0 <= j < i - 1 ==> (#[trigger] points@[j]).0 < points@[j + 1].0,
        decreases points.len() - i,
    {
        if points[i - 1].0 >= points[i].0 {
            assert(!((#[trigger] points@[i - 1]).0 < points@[i - 1 + 1].0));
            return false;
        }
        i = i + 1;
    }
    true
}

/// Moves from sample `start` to the sample that opens the bracket around `t`.
fn advance_bracket<V: Vector>(points: &Vec<(Seconds, V)>, start: usize, t: i64) -> (i: usize)
    requires
        is_sparse(points@),
        start < points.len(),
        points@[start as int].0 <= t < last_time(points@),
    ensures
        start <= i,
        brackets(points@, i as int, t as int),
{
    let mut i = start;
    while points[i + 1].0 <= t
        invariant
            is_sparse(points@),
            start <= i,
            i + 1 < points.len(),
            points@[i as int].0 <= t < last_time(points@),
        decreases points.len() - i,
    {
        i = i + 1;
    }
    i
}

/// The path at time `t`, which samples `i` and `i + 1` bracket.
fn sample_in_bracket<V: Vector>(points: &Vec<(Seconds, V)>, i: usize, t: i64) -> (s: V)
    requires
        is_sparse(points@),
        brackets(points@, i as int, t as int),
    ensures
        s.coords() == value_at(points@, t as int),
{
    assert(i + 1 < points.len());
    let (t0, v0) = points[i];
    let (t1, v1) = points[i + 1];
    proof {
        lemma_sparse_ordered(points@, 0, i as int);
        lemma_bracket_unique(points@, i as int, t as int);
    }
    v0.interpolate(v1, t - t0, t1 - t0)
}

/// A path sampled at every multiple of `resolution`, from time zero on.
pub struct DenseTrajectory<V: Vector> {
    /// The time step.
    pub resolution: Seconds,
    /// Sample `k` is the position at time `k * resolution`.
    pub samples: Vec<V>,
}

impl<V: Vector> DenseTrajectory<V> {
    /// The time step is positive and the time of every sample can be written down.
    pub open spec fn wf(&self) -> bool {
        &&& self.resolution > 0
        &&& self.samples@.len() <= usize::MAX
        &&& self.samples@.len() * self.resolution <= i64::MAX
    }

    /// `points` describes this trajectory as a sparse one: one sample for each
    /// dense sample, at its time, and one more that closes the last step.
    pub open spec fn described_by(&self, points: Seq<(i64, V)>) -> bool {
        &&& points.len() == self.samples@.len() + 1
        &&& forall|k: int|
            0 <= k < self.samples@.len() ==> #[trigger] points[k] == (
                (k * self.resolution) as i64,
                self.samples@[k],
            )
        &&& points[self.samples@.len() as int].0 == self.samples@.len() * self.resolution
    }

    /// Samples the piecewise linear path through `points` at every multiple of
    /// `resolution` that lies before the last point.
    pub fn from_points(resolution: Seconds, points: Vec<(Seconds, V)>) -> (r: Result<
        DenseTrajectory<V>,
        ConfigurationError,
    >)
        ensures
            r is Err <==> rejection(points@, resolution as int) is Some,
            r matches Err(e) ==> rejection(points@, resolution as int) == Some(e),
            r matches Ok(d) ==> {
                &&& d.wf()
                &&& d.resolution == resolution
                &&& d.samples@.len() == dense_len(points@, resolution as int)
                &&& forall|k: int|
                    0 <= k < d.samples@.len() ==> (#[trigger] d.samples@[k]).coords() == value_at(
                        points@,
                        k * resolution,
                    )
            },
    {
        if resolution <= 0 {
            return Err(ConfigurationError::NonPositiveResolution);
        }
        if !is_valid_sparse(&points) {
            return Err(ConfigurationError::MalformedTrajectory);
        }
        let last: i64 = points[points.len() - 1].0;
        proof {
            lemma_sparse_ordered(points@, 0, points.len() - 1);
        }
        let count: i128 = (last as i128 + resolution as i128 - 1) / (resolution as i128);
        assert(0 <= count <= last) by (nonlinear_arith)
            requires
                count == (last + resolution - 1) / (resolution as int),
                0 <= last,
                0 < resolution,
        ;
        if count > usize::MAX as i128 {
            return Err(ConfigurationError::TooManySamples);
        }
        assert(0 <= count * resolution <= 0x7fff_ffff_ffff_ffff * 0x7fff_ffff_ffff_ffff)
            by (nonlinear_arith)
            requires
                0 <= count <= 0x7fff_ffff_ffff_ffff,
                0 < resolution <= 0x7fff_ffff_ffff_ffff,
        ;
        if count * (resolution as i128) > i64::MAX as i128 {
            return Err(ConfigurationError::TooManySamples);
        }
        let n: usize = count as usize;
        let mut samples: Vec<V> = Vec::new();
        let mut i: usize = 0;
        let mut k: usize = 0;
        let mut t: i64 = 0;
        assert(0 * resolution == 0);
        while k < n
            invariant
                k <= n,
                n == dense_len(points@, resolution as int),
                n * resolution <= i64::MAX,
                is_sparse(points@),
                0 < resolution,
                t == k * resolution,
                samples@.len() == k,
                i < points.len(),
                points@[i as int].0 <= t,
                forall|j: int|
                    0 <= j < k ==> (#[trigger] samples@[j]).coords() == value_at(
                        points@,
                        j * resolution,
                    ),
            decreases n - k,
        {
            proof {
                lemma_sparse_ordered(points@, 0, points.len() - 1);
                lemma_dense_span(last_time(points@), resolution as int, k as int);
                lemma_sparse_ordered(points@, i as int, points.len() - 1);
            }
            i = advance_bracket(&points, i, t);
            let s = sample_in_bracket(&points, i, t);
            samples.push(s);
            proof {
                assert((k + 1) * resolution == k * resolution + resolution) by (nonlinear_arith);
                assert((k + 1) * resolution <= n * resolution) by (nonlinear_arith)
                    requires
                        k + 1 <= n,
                        0 < resolution,
                ;
            }
            t = t + resolution;
            k = k + 1;
        }
        Ok(DenseTrajectory { resolution, samples })
    }

    /// Number of samples.
    pub fn len(&self) -> (n: usize)
        ensures
            n == self.samples@.len(),
    {
        self.samples.len()
    }

    /// The position at time `step * resolution`, if the trajectory reaches that far.
    pub fn sample_at(&self, step: usize) -> (r: Option<V>)
        ensures
            r == if step < self.samples@.len() {
                Some(self.samples@[step as int])
            } else {
                None
            },
    {
        if step < self.samples.len() {
            Some(self.samples[step])
        } else {
            None
        }
    }

    /// This trajectory as a sparse one: a sample for each dense sample, and a
    /// closing sample one time step after the last that repeats its position.
    pub fn to_points(&self) -> (points: Vec<(Seconds, V)>)
        requires
            self.wf(),
        ensures
            self.described_by(points@),
    {
        let n = self.samples.len();
        let mut points: Vec<(Seconds, V)> = Vec::new();
        let mut k: usize = 0;
        while k < n
            invariant
                k <= n,
                n == self.samples@.len(),
                self.wf(),
                points@.len() == k,
                forall|j: int|
                    0 <= j < k ==> #[trigger] points@[j] == (
                        (j * self.resolution) as i64,
                        self.samples@[j],
                    ),
            decreases n - k,
        {
            assert(0 <= k * self.resolution <= n * self.resolution && k <= n * self.resolution)
                by (nonlinear_arith)
                requires
                    0 <= k <= n,
                    0 < self.resolution,
            ;
            points.push(((k as i64) * self.resolution, self.samples[k]));
            k = k + 1;
        }
        let closing = if n > 0 {
            self.samples[n - 1]
        } else {
            V::zero()
        };
        assert(0 <= n <= n * self.resolution) by (nonlinear_arith)
            requires
                0 <= n,
                0 < self.resolution,
        ;
        points.push(((n as i64) * self.resolution, closing));
        points
    }

    /// Samples this trajectory again at its own time step, which reproduces it.
    pub fn resampled(&self) -> (r: Result<DenseTrajectory<V>, ConfigurationError>)
        requires
            self.wf(),
        ensures
            r matches Ok(d) && d.resolution == self.resolution && d.samples@ == self.samples@,
    {
        let points = self.to_points();
        proof {
            lemma_resampling_reproduces(*self, points@);
        }
        let r = DenseTrajectory::from_points(self.resolution, points);
        proof {
            let d = r->Ok_0;
            assert forall|k: int| 0 <= k < d.samples@.len() implies d.samples@[k]
                == self.samples@[k] by {
                V::lemma_coords(d.samples@[k], self.samples@[k]);
            }
            assert(d.samples@ =~= self.samples@);
        }
        r
    }
}

/// Sampling a dense trajectory again at its own time step reproduces it: the
/// sparse description of a dense trajectory is accepted, gives as many samples
/// as the trajectory has, and each is the sample that was there.
pub proof fn lemma_resampling_reproduces<V: Vector>(d: DenseTrajectory<V>, points: Seq<(i64, V)>)
    requires
        d.wf(),
        d.described_by(points),
    ensures
        rejection(points, d.resolution as int) is None,
        dense_len(points, d.resolution as int) == d.samples@.len(),
        forall|k: int|
            0 <= k < d.samples@.len() ==> value_at(points, k * d.resolution)
                == (#[trigger] d.samples@[k]).coords(),
{
    let n = d.samples@.len() as int;
    let res = d.resolution as int;
    assert forall|k: int| 0 <= k <= n implies (#[trigger] points[k]).0 == k * res by {
        assert(0 <= k * res <= n * res) by (nonlinear_arith)
            requires
                0 <= k <= n,
                0 < res,
        ;
        if k < n {
            assert(points[k] == ((k * res) as i64, d.samples@[k]));
        }
    }
    assert(points[0].0 == 0);
    assert forall|i: int| 0 <= i < points.len() - 1 implies (#[trigger] points[i]).0 < points[i
        + 1].0 by {
        assert(points[i].0 == i * res);
        assert(points[i + 1].0 == (i + 1) * res);
        assert((i + 1) * res == i * res + res) by (nonlinear_arith);
    }
    assert(is_sparse(points));
    assert(last_time(points) == n * res);
    assert((n * res + res - 1) / res == n) by {
        lemma_fundamental_div_mod(n * res + res - 1, res);
        let q = (n * res + res - 1) / res;
        let r = (n * res + res - 1) % res;
        assert(q == n) by (nonlinear_arith)
            requires
                n * res + res - 1 == res * q + r,
                0 <= r < res,
                0 < res,
        ;
    }
    assert(dense_len(points, res) == n);
    assert(fits(points, res));
    assert forall|k: int| 0 <= k < n implies value_at(points, k * res) == (
    #[trigger] d.samples@[k]).coords() by {
        assert(points[k].0 == k * res);
        assert(points[k + 1].0 == (k + 1) * res);
        assert((k + 1) * res == k * res + res) by (nonlinear_arith);
        assert(brackets(points, k, k * res));
        lemma_bracket_unique(points, k, k * res);
        assert(points[k] == ((k * res) as i64, d.samples@[k]));
        let a = d.samples@[k].coords();
        let b = points[k + 1].1.coords();
        V::lemma_coords(d.samples@[k], points[k + 1].1);
        V::lemma_coords(points[k + 1].1, d.samples@[k]);
        assert forall|c: int| 0 <= c < a.len() implies blends(a, b, 0, res)[c] == a[c] by {
            lemma_interpolated_bounds(a[c], b[c], 0, res);
        }
        assert(blends(a, b, 0, res) =~= a);
    }
}

} // verus!
