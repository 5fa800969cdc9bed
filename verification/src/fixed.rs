//! Fixed-point arithmetic.
//!
//! Every physical quantity of this crate (metres, seconds, metres per second,
//! radians) is an `i64` count of millionths of its unit. Sums, differences,
//! products and quotients saturate at the ends of the `i64` range instead of
//! overflowing, and products and quotients round towards negative infinity.
//! No operation fails: a quotient by zero saturates as well.

use vstd::arithmetic::div_mod::{
    lemma_div_is_ordered, lemma_div_multiples_vanish, lemma_fundamental_div_mod,
    lemma_fundamental_div_mod_converse, lemma_mod_bound,
};
use vstd::prelude::*;

verus! {

/// Number of fixed-point steps in one whole unit.
pub const SCALE: i64 = 1_000_000;

/// The value of the `i64` range that is nearest to `x`.
pub open spec fn saturated(x: int) -> int {
    if x < i64::MIN as int {
        i64::MIN as int
    } else if x > i64::MAX as int {
        i64::MAX as int
    } else {
        x
    }
}

/// Saturating sum.
pub open spec fn sum(a: int, b: int) -> int {
    saturated(a + b)
}

/// Saturating difference.
pub open spec fn difference(a: int, b: int) -> int {
    saturated(a - b)
}

/// Saturating fixed-point product, rounded down.
#[verifier::opaque]
pub open spec fn product(a: int, b: int) -> int {
    saturated((a * b) / (SCALE as int))
}

/// The greatest integer that is not above the exact ratio `n / d`, for `d != 0`.
pub open spec fn floor_ratio(n: int, d: int) -> int {
    if d > 0 {
        n / d
    } else {
        (-n) / (-d)
    }
}

/// Saturating fixed-point quotient, rounded down. A quotient by zero is the
/// end of the range on the side of the dividend, and zero for zero by zero.
#[verifier::opaque]
pub open spec fn quotient(a: int, b: int) -> int {
    if b != 0 {
        saturated(floor_ratio(a * (SCALE as int), b))
    } else if a > 0 {
        i64::MAX as int
    } else if a < 0 {
        i64::MIN as int
    } else {
        0
    }
}

/// `x` limited to the interval from `lo` to `hi`.
pub open spec fn clamped(x: int, lo: int, hi: int) -> int {
    if x < lo {
        lo
    } else if x > hi {
        hi
    } else {
        x
    }
}

/// The point `num / den` of the way from `a` to `b`, rounded down.
#[verifier::opaque]
pub open spec fn interpolated(a: int, b: int, num: int, den: int) -> int {
    a + ((b - a) * num) / den
}

/// `r` is the integer square root of `n`.
pub open spec fn is_floor_root(r: int, n: int) -> bool {
    0 <= r && r * r <= n < (r + 1) * (r + 1)
}

/// The integer square root of `n`, for `n >= 0`.
pub open spec fn floor_root(n: int) -> int {
    choose|r: int| is_floor_root(r, n)
}

/// Magnitude of the vector `(x, y)`: the integer square root of `x * x + y * y`, saturated.
pub open spec fn magnitude(x: int, y: int) -> int {
    saturated(floor_root(x * x + y * y))
}

/// A number has at most one integer square root.
pub proof fn lemma_floor_root_unique(r: int, s: int, n: int)
    requires
        is_floor_root(r, n),
        is_floor_root(s, n),
    ensures
        r == s,
{
    if r < s {
        assert((r + 1) * (r + 1) <= s * s) by (nonlinear_arith)
            requires
                0 <= r,
                r + 1 <= s,
        ;
    } else if s < r {
        assert((s + 1) * (s + 1) <= r * r) by (nonlinear_arith)
            requires
                0 <= s,
                s + 1 <= r,
        ;
    }
}

/// An interpolated value lies between its two ends, and the starting end is
/// reproduced exactly.
pub proof fn lemma_interpolated_bounds(a: int, b: int, num: int, den: int)
    requires
        0 <= num <= den,
        0 < den,
    ensures
        a <= b ==> a <= interpolated(a, b, num, den) <= b,
        b <= a ==> b <= interpolated(a, b, num, den) <= a,
        interpolated(a, b, 0, den) == a,
        interpolated(a, b, den, den) == b,
{
    reveal(interpolated);
    let delta = b - a;
    lemma_div_multiples_vanish(delta, den);
    assert((delta * den) / den == delta) by {
        assert(delta * den == den * delta) by (nonlinear_arith);
    }
    assert(delta * 0 == 0);
    assert(0int / den == 0) by {
        lemma_div_multiples_vanish(0, den);
        assert(den * 0 == 0);
    }
    if delta >= 0 {
        assert(0 <= delta * num <= delta * den) by (nonlinear_arith)
            requires
                0 <= delta,
                0 <= num <= den,
        ;
        lemma_div_is_ordered(0, delta * num, den);
        lemma_div_is_ordered(delta * num, delta * den, den);
    } else {
        assert(delta * den <= delta * num <= 0) by (nonlinear_arith)
            requires
                delta < 0,
                0 <= num <= den,
        ;
        lemma_div_is_ordered(delta * den, delta * num, den);
        lemma_div_is_ordered(delta * num, 0, den);
    }
}

/// The absolute value.
pub open spec fn absolute(x: int) -> int {
    if x < 0 {
        -x
    } else {
        x
    }
}

/// Every number that is not negative has an integer square root.
pub proof fn lemma_floor_root_exists(n: int)
    requires
        0 <= n,
    ensures
        is_floor_root(floor_root(n), n),
    decreases n,
{
    if n == 0 {
        assert(is_floor_root(0, 0));
    } else {
        lemma_floor_root_exists(n - 1);
        let r = floor_root(n - 1);
        if (r + 1) * (r + 1) <= n {
            assert((r + 2) * (r + 2) > n) by (nonlinear_arith)
                requires
                    n - 1 < (r + 1) * (r + 1),
                    0 <= r,
            ;
            assert(is_floor_root(r + 1, n));
        } else {
            assert(is_floor_root(r, n));
        }
    }
}

/// The magnitude of a product that is rounded down lies within one step of
/// the product of the magnitudes: with `p` the quotient of `x * s` by the
/// scale, `|p|` times the scale differs from `|x| * |s|` by less than the scale.
pub proof fn lemma_product_magnitude(x: int, s: int)
    ensures
        absolute(x) * absolute(s) - SCALE < absolute((x * s) / (SCALE as int)) * SCALE,
        absolute((x * s) / (SCALE as int)) * SCALE < absolute(x) * absolute(s) + SCALE,
{
    let d = SCALE as int;
    let p = (x * s) / d;
    let r = (x * s) % d;
    lemma_fundamental_div_mod(x * s, d);
    lemma_mod_bound(x * s, d);
    let ax = absolute(x);
    let asc = absolute(s);
    assert(ax * asc == x * s || ax * asc == -(x * s)) by (nonlinear_arith)
        requires
            ax == x || ax == -x,
            asc == s || asc == -s,
    ;
    assert(ax * asc >= 0) by (nonlinear_arith)
        requires
            ax >= 0,
            asc >= 0,
    ;
    assert(ax * asc - d < absolute(p) * d < ax * asc + d) by (nonlinear_arith)
        requires
            x * s == d * p + r,
            0 <= r < d,
            ax * asc == x * s || ax * asc == -(x * s),
            ax * asc >= 0,
            absolute(p) == p || absolute(p) == -p,
            absolute(p) >= 0,
    ;
}

/// Scaling a scalar by `s` scales its length by `|s|`, up to rounding: the
/// length of the scaled scalar is the product of the length and `|s|`, rounded
/// down, or one step more. This holds wherever the product does not saturate.
pub proof fn lemma_scaled_scalar_length(x: int, s: int)
    requires
        i64::MIN <= (x * s) / (SCALE as int) <= i64::MAX,
    ensures
        (absolute(x) * absolute(s)) / (SCALE as int) <= absolute(product(x, s)) <= (absolute(x)
            * absolute(s)) / (SCALE as int) + 1,
{
    reveal(product);
    let d = SCALE as int;
    let p = (x * s) / d;
    let u = absolute(x) * absolute(s);
    let e = u / d;
    let r = u % d;
    lemma_product_magnitude(x, s);
    lemma_fundamental_div_mod(u, d);
    lemma_mod_bound(u, d);
    assert(product(x, s) == p);
    assert(e <= absolute(p) <= e + 1) by (nonlinear_arith)
        requires
            u - d < absolute(p) * d < u + d,
            u == d * e + r,
            0 <= r < d,
    ;
}

/// Two numbers between zero and `r` whose squares add up to no more than the
/// square of `r`, each raised by `d`: their squares add up to no more than
/// the square of `r` raised by twice `d`.
proof fn lemma_shifted_squares(u: int, w: int, d: int, r: int)
    requires
        0 <= u <= r,
        0 <= w <= r,
        u * u + w * w <= r * r,
        0 <= d,
    ensures
        (u + d) * (u + d) + (w + d) * (w + d) <= (r + 2 * d) * (r + 2 * d),
{
    let du = d * u;
    let dw = d * w;
    let dr = d * r;
    let dd = d * d;
    assert(du <= dr && dw <= dr && 0 <= dd) by (nonlinear_arith)
        requires
            du == d * u,
            dw == d * w,
            dr == d * r,
            dd == d * d,
            0 <= u <= r,
            0 <= w <= r,
            0 <= d,
    ;
    assert((u + d) * (u + d) == u * u + 2 * du + dd) by (nonlinear_arith)
        requires
            du == d * u,
            dd == d * d,
    ;
    assert((w + d) * (w + d) == w * w + 2 * dw + dd) by (nonlinear_arith)
        requires
            dw == d * w,
            dd == d * d,
    ;
    assert((r + 2 * d) * (r + 2 * d) == r * r + 4 * dr + 4 * dd) by (nonlinear_arith)
        requires
            dr == d * r,
            dd == d * d,
    ;
}

/// Of two numbers that are not negative, the one with the smaller square is
/// the smaller.
proof fn lemma_smaller_square(a: int, b: int)
    requires
        0 <= a,
        0 <= b,
        a * a < b * b,
    ensures
        a < b,
{
    if a >= b {
        assert(a * a >= b * b) by (nonlinear_arith)
            requires
                a >= b,
                b >= 0,
        ;
    }
}

/// Scaling a planar vector by `s` scales its length by `|s|`, up to
/// rounding. With `n` the length of `(x, y)` and `m` the length of the scaled
/// vector, both rounded down, `m` times the scale lies above `|s| * n` less
/// three times the scale, and below `|s| * (n + 1)` and twice the scale.
/// This holds wherever neither the products nor the lengths saturate.
pub proof fn lemma_scaled_planar_length(x: int, y: int, s: int)
    requires
        i64::MIN <= (x * s) / (SCALE as int) <= i64::MAX,
        i64::MIN <= (y * s) / (SCALE as int) <= i64::MAX,
    ensures
        ({
            let n = floor_root(x * x + y * y);
            let m = floor_root(product(x, s) * product(x, s) + product(y, s) * product(y, s));
            absolute(s) * n - 3 * SCALE < m * SCALE < absolute(s) * (n + 1) + 2 * SCALE
        }),
{
    reveal(product);
    let d = SCALE as int;
    let a = (x * s) / d;
    let b = (y * s) / d;
    assert(product(x, s) == a && product(y, s) == b);
    assert(x * x >= 0 && y * y >= 0 && a * a >= 0 && b * b >= 0) by (nonlinear_arith);
    let n = floor_root(x * x + y * y);
    let m = floor_root(a * a + b * b);
    lemma_floor_root_exists(x * x + y * y);
    lemma_floor_root_exists(a * a + b * b);
    let sg = absolute(s);
    let ax = absolute(x);
    let ay = absolute(y);
    let ua = absolute(a) * d;
    let ub = absolute(b) * d;
    let u = ax * sg;
    let w = ay * sg;
    lemma_product_magnitude(x, s);
    lemma_product_magnitude(y, s);
    // the components are no longer than the vectors
    assert(ax <= n && ay <= n) by (nonlinear_arith)
        requires
            x * x + y * y < (n + 1) * (n + 1),
            0 <= n,
            ax == x || ax == -x,
            ay == y || ay == -y,
            ax >= 0,
            ay >= 0,
    ;
    assert(absolute(a) <= m && absolute(b) <= m) by (nonlinear_arith)
        requires
            a * a + b * b < (m + 1) * (m + 1),
            0 <= m,
            absolute(a) == a || absolute(a) == -a,
            absolute(b) == b || absolute(b) == -b,
            absolute(a) >= 0,
            absolute(b) >= 0,
    ;
    assert(u >= 0 && w >= 0 && u <= sg * n && w <= sg * n) by (nonlinear_arith)
        requires
            u == ax * sg,
            w == ay * sg,
            0 <= ax <= n,
            0 <= ay <= n,
            0 <= sg,
    ;
    // squares of the scaled components and of the components, scaled
    let big = u * u + w * w;
    assert(big == sg * sg * (x * x + y * y)) by (nonlinear_arith)
        requires
            big == u * u + w * w,
            u == ax * sg,
            w == ay * sg,
            ax == x || ax == -x,
            ay == y || ay == -y,
    ;
    let small = ua * ua + ub * ub;
    assert(small == d * d * (a * a + b * b)) by (nonlinear_arith)
        requires
            small == ua * ua + ub * ub,
            ua == absolute(a) * d,
            ub == absolute(b) * d,
            absolute(a) == a || absolute(a) == -a,
            absolute(b) == b || absolute(b) == -b,
    ;
    assert(ua >= 0 && ub >= 0 && ua <= m * d && ub <= m * d) by (nonlinear_arith)
        requires
            ua == absolute(a) * d,
            ub == absolute(b) * d,
            0 <= absolute(a) <= m,
            0 <= absolute(b) <= m,
            d > 0,
    ;
    // from above
    let reach = sg * (n + 1);
    assert(u <= reach && w <= reach && 0 <= reach) by (nonlinear_arith)
        requires
            reach == sg * (n + 1),
            0 <= u <= sg * n,
            0 <= w <= sg * n,
            0 <= sg,
            0 <= n,
    ;
    assert(big <= reach * reach) by (nonlinear_arith)
        requires
            big == sg * sg * (x * x + y * y),
            x * x + y * y <= (n + 1) * (n + 1),
            reach == sg * (n + 1),
    ;
    lemma_shifted_squares(u, w, d, reach);
    let top = reach + 2 * d;
    assert(small < (u + d) * (u + d) + (w + d) * (w + d)) by (nonlinear_arith)
        requires
            small == ua * ua + ub * ub,
            0 <= ua < u + d,
            0 <= ub < w + d,
    ;
    let scaled_length = m * d;
    assert(scaled_length * scaled_length <= small && 0 <= scaled_length) by (nonlinear_arith)
        requires
            scaled_length == m * d,
            small == d * d * (a * a + b * b),
            m * m <= a * a + b * b,
            d > 0,
            0 <= m,
    ;
    lemma_smaller_square(scaled_length, top);
    // from below
    let span = (m + 1) * d;
    assert(ua <= span && ub <= span && 0 <= span) by (nonlinear_arith)
        requires
            span == (m + 1) * d,
            0 <= ua <= m * d,
            0 <= ub <= m * d,
            0 <= m,
            d > 0,
    ;
    assert(small <= span * span) by (nonlinear_arith)
        requires
            small == d * d * (a * a + b * b),
            a * a + b * b <= (m + 1) * (m + 1),
            span == (m + 1) * d,
    ;
    lemma_shifted_squares(ua, ub, d, span);
    let low = span + 2 * d;
    assert(big < (ua + d) * (ua + d) + (ub + d) * (ub + d)) by (nonlinear_arith)
        requires
            big == u * u + w * w,
            0 <= u < ua + d,
            0 <= w < ub + d,
    ;
    let length_scaled = sg * n;
    assert(length_scaled * length_scaled <= big && 0 <= length_scaled) by (nonlinear_arith)
        requires
            length_scaled == sg * n,
            big == sg * sg * (x * x + y * y),
            n * n <= x * x + y * y,
            0 <= sg,
            0 <= n,
    ;
    lemma_smaller_square(length_scaled, low);
    assert(low == (m + 3) * d) by (nonlinear_arith)
        requires
            low == (m + 1) * d + 2 * d,
    ;
}

/// A product is a value of the `i64` range.
pub proof fn lemma_product_range(a: int, b: int)
    ensures
        i64::MIN <= product(a, b) <= i64::MAX,
{
    reveal(product);
}

/// Multiplying by one changes nothing, and multiplying by zero gives zero.
pub proof fn lemma_product_units(a: int)
    requires
        i64::MIN <= a <= i64::MAX,
    ensures
        product(a, SCALE as int) == a,
        product(SCALE as int, a) == a,
        product(a, 0) == 0,
        product(0, a) == 0,
{
    reveal(product);
    lemma_div_multiples_vanish(a, SCALE as int);
    assert(a * SCALE == SCALE * a) by (nonlinear_arith);
    assert(a * 0 == 0 && 0 * a == 0) by (nonlinear_arith);
    assert(0int / (SCALE as int) == 0);
}

fn saturate(x: i128) -> (r: i64)
    ensures
        r == saturated(x as int),
{
    if x < i64::MIN as i128 {
        i64::MIN
    } else if x > i64::MAX as i128 {
        i64::MAX
    } else {
        x as i64
    }
}

/// The time of step `count` at a time step of `step`: their product, saturated.
pub fn step_time(count: usize, step: i64) -> (t: i64)
    ensures
        t == saturated(count * step),
{
    assert(-0xffff_ffff_ffff_ffff * 0x8000_0000_0000_0000 <= count * step <= 0xffff_ffff_ffff_ffff
        * 0x8000_0000_0000_0000) by (nonlinear_arith)
        requires
            0 <= count <= 0xffff_ffff_ffff_ffff,
            -0x8000_0000_0000_0000 <= step <= 0x8000_0000_0000_0000,
    ;
    saturate((count as i128) * (step as i128))
}

fn floor_div(n: i128, d: i128) -> (q: i128)
    requires
        d > 0,
    ensures
        q == (n as int) / (d as int),
{
    let t = n / d;
    let m = n % d;
    proof {
        let ni = n as int;
        let di = d as int;
        if ni >= 0 {
            assert(t == ni / di);
        } else {
            let pos = -ni;
            lemma_fundamental_div_mod(pos, di);
            let k = pos / di;
            let s = pos % di;
            assert(pos == di * k + s);
            assert(t == -k);
            assert(m == -s);
            if s == 0 {
                assert(ni == (-k) * di + 0) by (nonlinear_arith)
                    requires
                        -ni == di * k,
                ;
                lemma_fundamental_div_mod_converse(ni, di, -k, 0);
            } else {
                assert(0 <= k && k * 2 <= pos) by (nonlinear_arith)
                    requires
                        pos == di * k + s,
                        0 < s < di,
                        pos > 0,
                ;
                assert(ni == (-k - 1) * di + (di - s)) by (nonlinear_arith)
                    requires
                        -ni == di * k + s,
                ;
                lemma_fundamental_div_mod_converse(ni, di, -k - 1, di - s);
            }
        }
    }
    if m < 0 {
        t - 1
    } else {
        t
    }
}

/// Adds two quantities, saturating at the ends of the range.
pub fn sat_add(a: i64, b: i64) -> (r: i64)
    ensures
        r == sum(a as int, b as int),
{
    saturate(a as i128 + b as i128)
}

/// Subtracts `b` from `a`, saturating at the ends of the range.
pub fn sat_sub(a: i64, b: i64) -> (r: i64)
    ensures
        r == difference(a as int, b as int),
{
    saturate(a as i128 - b as i128)
}

/// Multiplies two fixed-point quantities.
pub fn fx_mul(a: i64, b: i64) -> (r: i64)
    ensures
        r == product(a as int, b as int),
{
    assert(-0x4000_0000_0000_0000_0000_0000_0000_0000 <= a * b
        <= 0x4000_0000_0000_0000_0000_0000_0000_0000) by (nonlinear_arith)
        requires
            -0x8000_0000_0000_0000 <= a <= 0x8000_0000_0000_0000,
            -0x8000_0000_0000_0000 <= b <= 0x8000_0000_0000_0000,
    ;
    let p: i128 = (a as i128) * (b as i128);
    reveal(product);
    saturate(floor_div(p, SCALE as i128))
}

/// Divides one fixed-point quantity by another.
pub fn fx_div(a: i64, b: i64) -> (r: i64)
    ensures
        r == quotient(a as int, b as int),
{
    assert(-0x8000_0000_0000_0000 * 1_000_000 <= a * SCALE <= 0x8000_0000_0000_0000 * 1_000_000)
        by (nonlinear_arith)
        requires
            -0x8000_0000_0000_0000 <= a <= 0x8000_0000_0000_0000,
            SCALE == 1_000_000,
    ;
    let n: i128 = (a as i128) * (SCALE as i128);
    reveal(quotient);
    if b > 0 {
        saturate(floor_div(n, b as i128))
    } else if b < 0 {
        saturate(floor_div(-n, -(b as i128)))
    } else if a > 0 {
        i64::MAX
    } else if a < 0 {
        i64::MIN
    } else {
        0
    }
}

/// Limits `x` to the interval from `lo` to `hi`.
pub fn clamp(x: i64, lo: i64, hi: i64) -> (r: i64)
    ensures
        r == clamped(x as int, lo as int, hi as int),
{
    if x < lo {
        lo
    } else if x > hi {
        hi
    } else {
        x
    }
}

/// Interpolates linearly between `a` and `b`; the result is exact up to
/// rounding down and never leaves the interval between the two.
pub fn lerp(a: i64, b: i64, num: i64, den: i64) -> (r: i64)
    requires
        0 <= num <= den,
        0 < den,
    ensures
        r == interpolated(a as int, b as int, num as int, den as int),
{
    let delta: i128 = b as i128 - a as i128;
    assert(-0x8000_0000_0000_0000_0000_0000_0000_0000 <= delta * num
        <= 0x8000_0000_0000_0000_0000_0000_0000_0000 - 1) by (nonlinear_arith)
        requires
            -0xffff_ffff_ffff_ffff <= delta <= 0xffff_ffff_ffff_ffff,
            0 <= num <= 0x7fff_ffff_ffff_ffff,
    ;
    let step = floor_div(delta * (num as i128), den as i128);
    proof {
        reveal(interpolated);
        lemma_interpolated_bounds(a as int, b as int, num as int, den as int);
    }
    (a as i128 + step) as i64
}

/// Integer square root.
pub fn isqrt(x: u128) -> (r: u64)
    ensures
        r == floor_root(x as int),
{
    let mut lo: u128 = 0;
    let mut hi: u128 = 0x1_0000_0000_0000_0000;
    assert(0x1_0000_0000_0000_0000int * 0x1_0000_0000_0000_0000int
        == 0x1_0000_0000_0000_0000_0000_0000_0000_0000int) by (nonlinear_arith);
    while hi - lo > 1
        invariant
            lo < hi <= 0x1_0000_0000_0000_0000,
            lo * lo <= x < hi * hi,
        decreases hi - lo,
    {
        let mid: u128 = lo + (hi - lo) / 2;
        assert(mid * mid <= 0xffff_ffff_ffff_ffff * 0xffff_ffff_ffff_ffff) by (nonlinear_arith)
            requires
                0 <= mid <= 0xffff_ffff_ffff_ffff,
        ;
        assert(0xffff_ffff_ffff_ffffint * 0xffff_ffff_ffff_ffffint
            < 0x1_0000_0000_0000_0000_0000_0000_0000_0000int) by (nonlinear_arith);
        if mid * mid <= x {
            lo = mid;
        } else {
            hi = mid;
        }
    }
    proof {
        assert(hi == lo + 1);
        assert(is_floor_root(lo as int, x as int));
        lemma_floor_root_unique(lo as int, floor_root(x as int), x as int);
    }
    lo as u64
}

/// Magnitude of the vector `(x, y)`.
pub fn hypot(x: i64, y: i64) -> (r: i64)
    ensures
        r == magnitude(x as int, y as int),
{
    assert(0 <= x * x <= 0x4000_0000_0000_0000_0000_0000_0000_0000) by (nonlinear_arith)
        requires
            -0x8000_0000_0000_0000 <= x <= 0x8000_0000_0000_0000,
    ;
    assert(0 <= y * y <= 0x4000_0000_0000_0000_0000_0000_0000_0000) by (nonlinear_arith)
        requires
            -0x8000_0000_0000_0000 <= y <= 0x8000_0000_0000_0000,
    ;
    let xx: i128 = (x as i128) * (x as i128);
    let yy: i128 = (y as i128) * (y as i128);
    let n: u128 = xx as u128 + yy as u128;
    let root = isqrt(n);
    if root > i64::MAX as u64 {
        i64::MAX
    } else {
        root as i64
    }
}

} // verus!
