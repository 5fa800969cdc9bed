//! Vectors and poses.
//!
//! Every geometric algorithm of the crate is written once, against [`Vector`],
//! and runs on a scalar (`i64`) as well as on a planar vector ([`Metres2D`]).
//! The mathematical model of a vector is the sequence of its components.

use crate::fixed::{
    absolute, clamp, clamped, difference, floor_root, fx_div, fx_mul, hypot, interpolated,
    lemma_floor_root_exists, lemma_scaled_planar_length, lemma_scaled_scalar_length, lerp,
    magnitude, product, quotient, sat_add, sat_sub, saturated, sum, SCALE,
};
use vstd::prelude::*;

verus! {

pub type Seconds = i64;

pub type Metres = i64;

pub type MetresPerSecond = i64;

pub type Radians = i64;

pub type RadiansPerSecond = i64;

pub type Metres2DPerSecond = Metres2D;

/// The vector of `n` components that are all zero.
pub open spec fn zeros(n: nat) -> Seq<int> {
    Seq::new(n, |i: int| 0int)
}

/// Component-wise saturating sum.
pub open spec fn sums(a: Seq<int>, b: Seq<int>) -> Seq<int> {
    Seq::new(a.len(), |i: int| sum(a[i], b[i]))
}

/// Component-wise saturating difference.
pub open spec fn differences(a: Seq<int>, b: Seq<int>) -> Seq<int> {
    Seq::new(a.len(), |i: int| difference(a[i], b[i]))
}

/// Every component multiplied by the fixed-point factor `k`.
pub open spec fn products(a: Seq<int>, k: int) -> Seq<int> {
    Seq::new(a.len(), |i: int| product(a[i], k))
}

/// Every component divided by the fixed-point divisor `k`.
pub open spec fn quotients(a: Seq<int>, k: int) -> Seq<int> {
    Seq::new(a.len(), |i: int| quotient(a[i], k))
}

/// Every component limited to the interval from `lo` to `hi`.
pub open spec fn limited(a: Seq<int>, lo: int, hi: int) -> Seq<int> {
    Seq::new(a.len(), |i: int| clamped(a[i], lo, hi))
}

/// Component-wise linear interpolation, `num / den` of the way from `a` to `b`.
pub open spec fn blends(a: Seq<int>, b: Seq<int>, num: int, den: int) -> Seq<int> {
    Seq::new(a.len(), |i: int| interpolated(a[i], b[i], num, den))
}

/// Lexicographic order: at the first component where the two differ, `a` is smaller.
pub open spec fn lex_less(a: Seq<int>, b: Seq<int>) -> bool {
    exists|i: int|
        0 <= i < a.len() && #[trigger] a[i] < b[i] && forall|j: int|
            0 <= j < i ==> #[trigger] a[j] == b[j]
}

/// What every geometric algorithm needs of a position, an offset or a velocity.
pub trait Vector: Sized + Copy {
    /// Number of components.
    spec fn dim() -> nat;

    /// The components, in the order of the numeric encoding.
    spec fn coords(self) -> Seq<int>;

    /// The scalar magnitude.
    spec fn norm(self) -> int;

    /// The vector with the given components.
    spec fn from_coords(c: Seq<int>) -> Self;

    /// A vector has `dim()` components, each an `i64`, and is determined by them.
    proof fn lemma_coords(a: Self, b: Self)
        ensures
            a.coords().len() == Self::dim(),
            forall|i: int|
                0 <= i < Self::dim() ==> i64::MIN <= #[trigger] a.coords()[i] <= i64::MAX,
            a.coords() == b.coords() ==> a == b,
            Self::from_coords(a.coords()) == a,
    ;

    fn zero() -> (z: Self)
        ensures
            z.coords() == zeros(Self::dim()),
    ;

    fn is_zero(&self) -> (b: bool)
        ensures
            b == (self.coords() == zeros(Self::dim())),
    ;

    fn plus(self, rhs: Self) -> (r: Self)
        ensures
            r.coords() == sums(self.coords(), rhs.coords()),
    ;

    fn minus(self, rhs: Self) -> (r: Self)
        ensures
            r.coords() == differences(self.coords(), rhs.coords()),
    ;

    fn scaled(self, k: i64) -> (r: Self)
        ensures
            r.coords() == products(self.coords(), k as int),
    ;

    fn divided(self, k: i64) -> (r: Self)
        ensures
            r.coords() == quotients(self.coords(), k as int),
    ;

    fn limited_to(self, lo: i64, hi: i64) -> (r: Self)
        ensures
            r.coords() == limited(self.coords(), lo as int, hi as int),
    ;

    fn interpolate(self, to: Self, num: i64, den: i64) -> (r: Self)
        requires
            0 <= num <= den,
            0 < den,
        ensures
            r.coords() == blends(self.coords(), to.coords(), num as int, den as int),
    ;

    fn same(&self, other: &Self) -> (b: bool)
        ensures
            b == (*self == *other),
    ;

    fn precedes(&self, other: &Self) -> (b: bool)
        ensures
            b == lex_less(self.coords(), other.coords()),
    ;

    fn length(&self) -> (l: i64)
        ensures
            l == self.norm(),
    ;

    fn repr_length() -> (n: usize)
        ensures
            n == Self::dim(),
    ;

    fn repr(&self) -> (v: Vec<i64>)
        ensures
            v@.len() == Self::dim(),
            forall|i: int| 0 <= i < v@.len() ==> v@[i] == self.coords()[i],
    ;

    /// The vector that `values` encodes, if they are as many as a vector has components.
    fn from_repr(values: &Vec<i64>) -> (r: Option<Self>)
        ensures
            r is Some <==> values@.len() == Self::dim(),
            r matches Some(v) ==> v.coords().len() == values@.len() && forall|i: int|
                0 <= i < values@.len() ==> v.coords()[i] == values@[i],
    ;
}

impl Vector for i64 {
    open spec fn dim() -> nat {
        1
    }

    open spec fn coords(self) -> Seq<int> {
        seq![self as int]
    }

    /// The absolute value, saturated: the magnitude of the least `i64` is
    /// the greatest one.
    open spec fn norm(self) -> int {
        if self < 0 {
            saturated(-(self as int))
        } else {
            self as int
        }
    }

    open spec fn from_coords(c: Seq<int>) -> Self {
        c[0] as i64
    }

    proof fn lemma_coords(a: Self, b: Self) {
        if a.coords() == b.coords() {
            assert(a.coords()[0] == b.coords()[0]);
        }
    }

    fn zero() -> (z: Self) {
        0
    }

    fn is_zero(&self) -> (b: bool) {
        proof {
            if self.coords() == zeros(1) {
                assert(self.coords()[0] == zeros(1)[0]);
            }
            if *self == 0 {
                assert(self.coords() =~= zeros(1));
            }
        }
        *self == 0
    }

    fn plus(self, rhs: Self) -> (r: Self) {
        sat_add(self, rhs)
    }

    fn minus(self, rhs: Self) -> (r: Self) {
        sat_sub(self, rhs)
    }

    fn scaled(self, k: i64) -> (r: Self) {
        fx_mul(self, k)
    }

    fn divided(self, k: i64) -> (r: Self) {
        fx_div(self, k)
    }

    fn limited_to(self, lo: i64, hi: i64) -> (r: Self) {
        clamp(self, lo, hi)
    }

    fn interpolate(self, to: Self, num: i64, den: i64) -> (r: Self) {
        lerp(self, to, num, den)
    }

    fn same(&self, other: &Self) -> (b: bool) {
        *self == *other
    }

    fn precedes(&self, other: &Self) -> (b: bool) {
        proof {
            if *self < *other {
                assert(self.coords()[0] < other.coords()[0]);
            }
        }
        *self < *other
    }

    fn length(&self) -> (l: i64) {
        if *self == i64::MIN {
            i64::MAX
        } else if *self < 0 {
            -*self
        } else {
            *self
        }
    }

    fn repr_length() -> (n: usize) {
        1
    }

    fn repr(&self) -> (v: Vec<i64>) {
        let mut v: Vec<i64> = Vec::new();
        v.push(*self);
        v
    }

    fn from_repr(values: &Vec<i64>) -> (r: Option<Self>) {
        if values.len() == 1 {
            Some(values[0])
        } else {
            None
        }
    }
}

/// Scaling a scalar by `s` scales its length by `|s|`, up to rounding: the
/// length of the scaled scalar is the product of the length and `|s|`, rounded
/// down, or one step more. This holds wherever nothing saturates.
pub proof fn lemma_scalar_scaling(x: i64, s: i64, scaled: i64)
    requires
        scaled.coords() == products(x.coords(), s as int),
        i64::MIN < x,
        i64::MIN < (x * s) / (SCALE as int) <= i64::MAX,
    ensures
        (x.norm() * absolute(s as int)) / (SCALE as int) <= scaled.norm() <= (x.norm() * absolute(
            s as int,
        )) / (SCALE as int) + 1,
{
    reveal(product);
    lemma_scaled_scalar_length(x as int, s as int);
    assert(scaled.coords()[0] == product(x as int, s as int));
}

/// Scaling a planar vector by `s` scales its length by `|s|`, up to
/// rounding: the length of the scaled vector, times the scale, lies above
/// `|s|` times the length less three times the scale, and below `|s|` times
/// one more than the length and twice the scale. This holds wherever nothing
/// saturates.
pub proof fn lemma_planar_scaling(v: Metres2D, s: i64, scaled: Metres2D)
    requires
        scaled.coords() == products(v.coords(), s as int),
        i64::MIN <= (v.x * s) / (SCALE as int) <= i64::MAX,
        i64::MIN <= (v.y * s) / (SCALE as int) <= i64::MAX,
        floor_root(v.x * v.x + v.y * v.y) <= i64::MAX,
        floor_root(scaled.x * scaled.x + scaled.y * scaled.y) <= i64::MAX,
    ensures
        absolute(s as int) * v.norm() - 3 * SCALE < scaled.norm() * SCALE < absolute(s as int) * (
        v.norm() + 1) + 2 * SCALE,
{
    lemma_scaled_planar_length(v.x as int, v.y as int, s as int);
    assert(scaled.coords()[0] == product(v.x as int, s as int));
    assert(scaled.coords()[1] == product(v.y as int, s as int));
    assert(v.x * v.x >= 0 && v.y * v.y >= 0 && scaled.x * scaled.x >= 0 && scaled.y * scaled.y
        >= 0) by (nonlinear_arith);
    lemma_floor_root_exists(v.x * v.x + v.y * v.y);
    lemma_floor_root_exists(scaled.x * scaled.x + scaled.y * scaled.y);
}

/// A planar vector, in fixed-point metres.
#[derive(Clone, Copy, Debug, PartialEq, Eq, Structural)]
pub struct Metres2D {
    pub x: i64,
    pub y: i64,
}

impl Metres2D {
    pub fn new(x: i64, y: i64) -> (r: Metres2D)
        ensures
            r.x == x,
            r.y == y,
    {
        Metres2D { x, y }
    }
}

impl Default for Metres2D {
    fn default() -> (r: Metres2D)
        ensures
            r.x == 0,
            r.y == 0,
    {
        Metres2D { x: 0, y: 0 }
    }
}

impl Vector for Metres2D {
    open spec fn dim() -> nat {
        2
    }

    open spec fn coords(self) -> Seq<int> {
        seq![self.x as int, self.y as int]
    }

    open spec fn norm(self) -> int {
        magnitude(self.x as int, self.y as int)
    }

    open spec fn from_coords(c: Seq<int>) -> Self {
        Metres2D { x: c[0] as i64, y: c[1] as i64 }
    }

    proof fn lemma_coords(a: Self, b: Self) {
        if a.coords() == b.coords() {
            assert(a.coords()[0] == b.coords()[0]);
            assert(a.coords()[1] == b.coords()[1]);
        }
    }

    fn zero() -> (z: Self) {
        Metres2D { x: 0, y: 0 }
    }

    fn is_zero(&self) -> (b: bool) {
        proof {
            if self.coords() == zeros(2) {
                assert(self.coords()[0] == zeros(2)[0]);
                assert(self.coords()[1] == zeros(2)[1]);
            }
            if self.x == 0 && self.y == 0 {
                assert(self.coords() =~= zeros(2));
            }
        }
        self.x == 0 && self.y == 0
    }

    fn plus(self, rhs: Self) -> (r: Self) {
        Metres2D { x: sat_add(self.x, rhs.x), y: sat_add(self.y, rhs.y) }
    }

    fn minus(self, rhs: Self) -> (r: Self) {
        Metres2D { x: sat_sub(self.x, rhs.x), y: sat_sub(self.y, rhs.y) }
    }

    fn scaled(self, k: i64) -> (r: Self) {
        Metres2D { x: fx_mul(self.x, k), y: fx_mul(self.y, k) }
    }

    fn divided(self, k: i64) -> (r: Self) {
        Metres2D { x: fx_div(self.x, k), y: fx_div(self.y, k) }
    }

    fn limited_to(self, lo: i64, hi: i64) -> (r: Self) {
        Metres2D { x: clamp(self.x, lo, hi), y: clamp(self.y, lo, hi) }
    }

    fn interpolate(self, to: Self, num: i64, den: i64) -> (r: Self) {
        Metres2D { x: lerp(self.x, to.x, num, den), y: lerp(self.y, to.y, num, den) }
    }

    fn same(&self, other: &Self) -> (b: bool) {
        self.x == other.x && self.y == other.y
    }

    fn precedes(&self, other: &Self) -> (b: bool) {
        let b = self.x < other.x || (self.x == other.x && self.y < other.y);
        proof {
            let p = self.coords();
            let q = other.coords();
            if self.x < other.x {
                assert(p[0] < q[0]);
            } else if self.x == other.x && self.y < other.y {
                assert(p[1] < q[1]);
                assert(forall|j: int| 0 <= j < 1 ==> #[trigger] p[j] == q[j]);
            }
            if lex_less(p, q) {
                let i = choose|i: int|
                    0 <= i < p.len() && #[trigger] p[i] < q[i] && forall|j: int|
                        0 <= j < i ==> #[trigger] p[j] == q[j];
                if i == 1 {
                    assert(p[0] == q[0]);
                }
            }
        }
        b
    }

    fn length(&self) -> (l: i64) {
        hypot(self.x, self.y)
    }

    fn repr_length() -> (n: usize) {
        2
    }

    fn repr(&self) -> (v: Vec<i64>) {
        let mut v: Vec<i64> = Vec::new();
        v.push(self.x);
        v.push(self.y);
        v
    }

    fn from_repr(values: &Vec<i64>) -> (r: Option<Self>) {
        if values.len() == 2 {
            Some(Metres2D { x: values[0], y: values[1] })
        } else {
            None
        }
    }
}

/// A planar position with a heading.
#[derive(Clone, Copy, Debug, PartialEq, Eq, Structural)]
pub struct OrientedPosition2D {
    pub position: Metres2D,
    /// Anticlockwise rotation, in fixed-point radians.
    pub rotation: Radians,
}

impl OrientedPosition2D {
    pub fn new(x: i64, y: i64, theta: i64) -> (r: OrientedPosition2D)
        ensures
            r.position.x == x,
            r.position.y == y,
            r.rotation == theta,
    {
        OrientedPosition2D { position: Metres2D::new(x, y), rotation: theta }
    }
}

impl Default for OrientedPosition2D {
    fn default() -> (r: OrientedPosition2D)
        ensures
            r.position.x == 0,
            r.position.y == 0,
            r.rotation == 0,
    {
        OrientedPosition2D { position: Metres2D { x: 0, y: 0 }, rotation: 0 }
    }
}

} // verus!
