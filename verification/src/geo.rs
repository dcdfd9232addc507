//! Geographic points and the great-circle within-distance predicate.
//!
//! A point is a WGS84 longitude/latitude pair held in nanodegrees, so that
//! coordinates are plain integers: equality of points is exact and the
//! proximity test is computed in fixed-point arithmetic.
//!
//! The proximity test is spherical, not planar: it compares the haversine of
//! the central angle between the two points against the haversine of the
//! angle subtended by the requested distance on a mean-radius sphere. The
//! haversine is monotone in the central angle over a half turn, so
//! `haversine(angle) <= haversine(distance / radius)` holds exactly when the
//! great-circle distance is within the requested distance. Sines and cosines
//! are evaluated as truncated Taylor polynomials over integers scaled by
//! `SCALE`; those polynomials are the model of the trigonometry here.

use vstd::arithmetic::div_mod::{
    lemma_div_is_ordered, lemma_div_multiples_vanish, lemma_div_pos_is_pos,
};
use vstd::arithmetic::mul::{lemma_mul_nonnegative, lemma_mul_upper_bound};
use vstd::prelude::*;

verus! {

/// Nanodegrees per whole degree.
pub const NANO: i64 = 1_000_000_000;

/// Fixed-point scale for angles in radians and for haversine values.
pub const SCALE: u64 = 1_000_000_000_000;

/// Pi at `SCALE`, rounded to the nearest integer.
pub const PI_FIXED: u64 = 3_141_592_653_590;

/// Pi over two at `SCALE`: exactly `PI_FIXED / 2`.
pub const HALF_PI_FIXED: u64 = 1_570_796_326_795;

/// Nanodegrees in a half turn.
pub const DEG180_ND: u64 = 180_000_000_000;

/// Twice the mean Earth radius, in meters.
pub const EARTH_DIAMETER_M: u64 = 12_742_000;

/// Upper bound of `x * x / SCALE` for `0 <= x <= HALF_PI_FIXED`.
pub const X2_MAX: u64 = 2_467_401_100_272;

/// A geographic point: longitude and latitude in nanodegrees (WGS84).
#[derive(Clone, Copy, PartialEq, Eq, Structural, Debug)]
pub struct GeoPoint {
    pub lon_nd: i64,
    pub lat_nd: i64,
}

/// A point whose coordinates lie in the WGS84 longitude/latitude ranges.
pub open spec fn point_in_bounds(p: GeoPoint) -> bool {
    -180_000_000_000 <= p.lon_nd <= 180_000_000_000 && -90_000_000_000 <= p.lat_nd
        <= 90_000_000_000
}

impl GeoPoint {
    /// Builds a point from nanodegree coordinates.
    pub fn new(lon_nd: i64, lat_nd: i64) -> (p: GeoPoint)
        ensures
            p.lon_nd == lon_nd,
            p.lat_nd == lat_nd,
    {
        GeoPoint { lon_nd, lat_nd }
    }

    /// Whether the coordinates lie in the WGS84 ranges.
    pub fn in_bounds(&self) -> (r: bool)
        ensures
            r == point_in_bounds(*self),
    {
        -180_000_000_000 <= self.lon_nd && self.lon_nd <= 180_000_000_000
            && -90_000_000_000 <= self.lat_nd && self.lat_nd <= 90_000_000_000
    }
}

/// The absolute difference of two integers.
pub open spec fn abs_diff(a: int, b: int) -> int {
    if a >= b {
        a - b
    } else {
        b - a
    }
}

/// An angle given in nanodegrees, at `SCALE` in radians (truncated).
pub open spec fn rad_fixed(nd: int) -> int {
    nd * (PI_FIXED as int) / (DEG180_ND as int)
}

/// Sine of `x` (radians at `SCALE`), at `SCALE`: the degree-nine Taylor
/// polynomial in Horner form, each step truncated to the scale. Intended
/// for `0 <= x <= HALF_PI_FIXED`.
pub open spec fn sin_fixed(x: int) -> int {
    let s = SCALE as int;
    let x2 = x * x / s;
    let e7 = s - x2 / 72;
    let e5 = s - x2 * e7 / s / 42;
    let e3 = s - x2 * e5 / s / 20;
    let e1 = s - x2 * e3 / s / 6;
    x * e1 / s
}

/// Cosine of `x` (radians at `SCALE`), at `SCALE`: the degree-ten Taylor
/// polynomial in Horner form, truncated at each step and clamped at zero.
/// Intended for `0 <= x <= HALF_PI_FIXED`.
pub open spec fn cos_fixed(x: int) -> int {
    let s = SCALE as int;
    let x2 = x * x / s;
    let g10 = s - x2 / 90;
    let g8 = s - x2 * g10 / s / 56;
    let g6 = s - x2 * g8 / s / 30;
    let g4 = s - x2 * g6 / s / 12;
    let h = x2 * g4 / s / 2;
    if h >= s {
        0
    } else {
        s - h
    }
}

/// Folds an angle in `[0, PI_FIXED]` into `[0, HALF_PI_FIXED]`, using that
/// the sine is symmetric about a quarter turn.
pub open spec fn fold_quarter(x: int) -> int {
    if x > HALF_PI_FIXED as int {
        (PI_FIXED as int) - x
    } else {
        x
    }
}

/// The haversine of the central angle between `a` and `b`, at `SCALE`:
/// `sin^2(dlat/2) + cos(lat_a) * cos(lat_b) * sin^2(dlon/2)`.
pub open spec fn hav_fixed(a: GeoPoint, b: GeoPoint) -> int {
    let s = SCALE as int;
    let slat = sin_fixed(rad_fixed(abs_diff(a.lat_nd as int, b.lat_nd as int) / 2));
    let slon = sin_fixed(fold_quarter(rad_fixed(abs_diff(a.lon_nd as int, b.lon_nd as int) / 2)));
    let ca = cos_fixed(rad_fixed(abs_diff(a.lat_nd as int, 0)));
    let cb = cos_fixed(rad_fixed(abs_diff(b.lat_nd as int, 0)));
    slat * slat / s + (ca * cb / s) * (slon * slon / s) / s
}

/// The haversine of the angle that `distance_m` meters subtend on the
/// sphere. Negative distances fall below every haversine value; distances
/// of half a turn or more exceed every haversine value.
pub open spec fn range_threshold_fixed(distance_m: int) -> int {
    if distance_m < 0 {
        -1
    } else {
        let a = distance_m * (SCALE as int) / (EARTH_DIAMETER_M as int);
        if a > HALF_PI_FIXED as int {
            6 * (SCALE as int)
        } else {
            sin_fixed(a) * sin_fixed(a) / (SCALE as int)
        }
    }
}

/// Whether `p` lies within `distance_m` meters of `center` on the sphere;
/// the boundary at exactly `distance_m` is inside.
pub open spec fn within_range(center: GeoPoint, p: GeoPoint, distance_m: int) -> bool {
    hav_fixed(center, p) <= range_threshold_fixed(distance_m)
}

/// Bounds for one Horner step: multiplying a value at most `X2_MAX` by a
/// value at most `SCALE`, then scaling down and dividing by `c`.
proof fn lemma_scaled_step(x2: int, e: int, c: int)
    requires
        0 <= x2 <= X2_MAX as int,
        0 <= e <= SCALE as int,
        1 <= c,
    ensures
        0 <= x2 * e <= (X2_MAX as int) * (SCALE as int),
        0 <= x2 * e / (SCALE as int) <= X2_MAX as int,
        0 <= x2 * e / (SCALE as int) / c <= (X2_MAX as int) / c,
{
    let s = SCALE as int;
    lemma_mul_nonnegative(x2, e);
    lemma_mul_upper_bound(x2, X2_MAX as int, e, s);
    lemma_div_pos_is_pos(x2 * e, s);
    lemma_div_is_ordered(x2 * e, (X2_MAX as int) * s, s);
    lemma_div_multiples_vanish(X2_MAX as int, s);
    assert(s * (X2_MAX as int) == (X2_MAX as int) * s) by (nonlinear_arith);
    lemma_div_pos_is_pos(x2 * e / s, c);
    lemma_div_is_ordered(x2 * e / s, X2_MAX as int, c);
}

/// Bounds for a product of two bounded values scaled down by `SCALE`.
proof fn lemma_scaled_product(a: int, b: int, ab: int, bb: int)
    requires
        0 <= a <= ab,
        0 <= b <= bb,
    ensures
        0 <= a * b <= ab * bb,
        0 <= a * b / (SCALE as int),
{
    lemma_mul_nonnegative(a, b);
    lemma_mul_upper_bound(a, ab, b, bb);
    lemma_div_pos_is_pos(a * b, SCALE as int);
}

/// Sine at `SCALE` over `[0, HALF_PI_FIXED]`.
fn sin_exec(x: u64) -> (r: u64)
    requires
        x <= HALF_PI_FIXED,
    ensures
        r == sin_fixed(x as int),
        r <= x,
{
    let s: u128 = SCALE as u128;
    let xw: u128 = x as u128;
    proof {
        lemma_mul_nonnegative(x as int, x as int);
        lemma_mul_upper_bound(x as int, HALF_PI_FIXED as int, x as int, HALF_PI_FIXED as int);
        lemma_div_pos_is_pos((x as int) * (x as int), SCALE as int);
        lemma_div_is_ordered(
            (x as int) * (x as int),
            (HALF_PI_FIXED as int) * (HALF_PI_FIXED as int),
            SCALE as int,
        );
    }
    let x2: u128 = xw * xw / s;
    assert(x2 <= X2_MAX);
    let e7: u128 = s - x2 / 72;
    proof {
        lemma_scaled_step(x2 as int, e7 as int, 42);
    }
    let e5: u128 = s - x2 * e7 / s / 42;
    proof {
        lemma_scaled_step(x2 as int, e5 as int, 20);
    }
    let e3: u128 = s - x2 * e5 / s / 20;
    proof {
        lemma_scaled_step(x2 as int, e3 as int, 6);
    }
    let e1: u128 = s - x2 * e3 / s / 6;
    proof {
        lemma_mul_nonnegative(x as int, e1 as int);
        lemma_mul_upper_bound(x as int, HALF_PI_FIXED as int, e1 as int, SCALE as int);
        lemma_div_pos_is_pos((x as int) * (e1 as int), SCALE as int);
        lemma_mul_upper_bound(x as int, x as int, e1 as int, SCALE as int);
        lemma_div_is_ordered((x as int) * (e1 as int), (x as int) * (SCALE as int), SCALE as int);
        lemma_div_multiples_vanish(x as int, SCALE as int);
        assert((SCALE as int) * (x as int) == (x as int) * (SCALE as int)) by (nonlinear_arith);
    }
    let r: u128 = xw * e1 / s;
    r as u64
}

/// Cosine at `SCALE` over `[0, HALF_PI_FIXED]`.
fn cos_exec(x: u64) -> (r: u64)
    requires
        x <= HALF_PI_FIXED,
    ensures
        r == cos_fixed(x as int),
        r <= SCALE,
{
    let s: u128 = SCALE as u128;
    let xw: u128 = x as u128;
    proof {
        lemma_mul_nonnegative(x as int, x as int);
        lemma_mul_upper_bound(x as int, HALF_PI_FIXED as int, x as int, HALF_PI_FIXED as int);
        lemma_div_pos_is_pos((x as int) * (x as int), SCALE as int);
        lemma_div_is_ordered(
            (x as int) * (x as int),
            (HALF_PI_FIXED as int) * (HALF_PI_FIXED as int),
            SCALE as int,
        );
    }
    let x2: u128 = xw * xw / s;
    assert(x2 <= X2_MAX);
    let g10: u128 = s - x2 / 90;
    proof {
        lemma_scaled_step(x2 as int, g10 as int, 56);
    }
    let g8: u128 = s - x2 * g10 / s / 56;
    proof {
        lemma_scaled_step(x2 as int, g8 as int, 30);
    }
    let g6: u128 = s - x2 * g8 / s / 30;
    proof {
        lemma_scaled_step(x2 as int, g6 as int, 12);
    }
    let g4: u128 = s - x2 * g6 / s / 12;
    proof {
        lemma_scaled_step(x2 as int, g4 as int, 2);
    }
    let h: u128 = x2 * g4 / s / 2;
    if h >= s {
        0
    } else {
        (s - h) as u64
    }
}

/// An angle in nanodegrees, converted to radians at `SCALE`.
fn rad_exec(nd: u64) -> (r: u64)
    requires
        nd <= 180_000_000_000,
    ensures
        r == rad_fixed(nd as int),
        r <= PI_FIXED,
{
    proof {
        lemma_mul_nonnegative(nd as int, PI_FIXED as int);
        lemma_mul_upper_bound(nd as int, DEG180_ND as int, PI_FIXED as int, PI_FIXED as int);
        lemma_div_pos_is_pos((nd as int) * (PI_FIXED as int), DEG180_ND as int);
        lemma_mul_upper_bound(nd as int, nd as int, PI_FIXED as int, PI_FIXED as int);
        lemma_div_is_ordered(
            (nd as int) * (PI_FIXED as int),
            (DEG180_ND as int) * (PI_FIXED as int),
            DEG180_ND as int,
        );
        lemma_div_multiples_vanish(PI_FIXED as int, DEG180_ND as int);
    }
    let r: u128 = (nd as u128) * (PI_FIXED as u128) / (DEG180_ND as u128);
    r as u64
}

/// The absolute difference of two in-bounds nanodegree coordinates.
fn abs_diff_exec(a: i64, b: i64) -> (r: u64)
    requires
        -180_000_000_000 <= a <= 180_000_000_000,
        -180_000_000_000 <= b <= 180_000_000_000,
    ensures
        r == abs_diff(a as int, b as int),
        r <= 360_000_000_000,
{
    if a >= b {
        (a - b) as u64
    } else {
        (b - a) as u64
    }
}

/// The haversine of the central angle between two in-bounds points.
fn hav_exec(a: GeoPoint, b: GeoPoint) -> (r: u64)
    requires
        point_in_bounds(a),
        point_in_bounds(b),
    ensures
        r == hav_fixed(a, b),
        r <= 6 * SCALE,
{
    let s: u128 = SCALE as u128;
    let dlat: u64 = abs_diff_exec(a.lat_nd, b.lat_nd);
    let dlon: u64 = abs_diff_exec(a.lon_nd, b.lon_nd);
    let slat: u64 = sin_exec(rad_exec(dlat / 2));
    let lon_half: u64 = rad_exec(dlon / 2);
    let lon_folded: u64 = if lon_half > HALF_PI_FIXED {
        PI_FIXED - lon_half
    } else {
        lon_half
    };
    let slon: u64 = sin_exec(lon_folded);
    let ca: u64 = cos_exec(rad_exec(abs_diff_exec(a.lat_nd, 0)));
    let cb: u64 = cos_exec(rad_exec(abs_diff_exec(b.lat_nd, 0)));
    proof {
        lemma_scaled_product(slat as int, slat as int, HALF_PI_FIXED as int, HALF_PI_FIXED as int);
        lemma_div_is_ordered(
            (slat as int) * (slat as int),
            (HALF_PI_FIXED as int) * (HALF_PI_FIXED as int),
            SCALE as int,
        );
        lemma_scaled_product(slon as int, slon as int, HALF_PI_FIXED as int, HALF_PI_FIXED as int);
        lemma_div_is_ordered(
            (slon as int) * (slon as int),
            (HALF_PI_FIXED as int) * (HALF_PI_FIXED as int),
            SCALE as int,
        );
        lemma_scaled_product(ca as int, cb as int, SCALE as int, SCALE as int);
        lemma_div_is_ordered((ca as int) * (cb as int), (SCALE as int) * (SCALE as int), SCALE as int);
        lemma_div_multiples_vanish(SCALE as int, SCALE as int);
    }
    let hp: u128 = (slat as u128) * (slat as u128) / s;
    let cc: u128 = (ca as u128) * (cb as u128) / s;
    let sl2: u128 = (slon as u128) * (slon as u128) / s;
    proof {
        lemma_scaled_product(cc as int, sl2 as int, SCALE as int, X2_MAX as int);
        lemma_div_is_ordered((cc as int) * (sl2 as int), (SCALE as int) * (X2_MAX as int), SCALE as int);
        lemma_div_multiples_vanish(X2_MAX as int, SCALE as int);
    }
    let t: u128 = cc * sl2 / s;
    (hp + t) as u64
}

/// The haversine threshold for a distance in meters.
fn range_threshold_exec(distance_m: i32) -> (r: i128)
    ensures
        r == range_threshold_fixed(distance_m as int),
{
    if distance_m < 0 {
        -1
    } else {
        let d: u128 = distance_m as u128;
        proof {
            lemma_mul_nonnegative(distance_m as int, SCALE as int);
            lemma_div_pos_is_pos((distance_m as int) * (SCALE as int), EARTH_DIAMETER_M as int);
        }
        let a: u128 = d * (SCALE as u128) / (EARTH_DIAMETER_M as u128);
        if a > HALF_PI_FIXED as u128 {
            6 * (SCALE as i128)
        } else {
            let sa: u64 = sin_exec(a as u64);
            proof {
                lemma_scaled_product(sa as int, sa as int, HALF_PI_FIXED as int, HALF_PI_FIXED as int);
                lemma_div_is_ordered(
                    (sa as int) * (sa as int),
                    (HALF_PI_FIXED as int) * (HALF_PI_FIXED as int),
                    SCALE as int,
                );
            }
            let sq: u128 = (sa as u128) * (sa as u128) / (SCALE as u128);
            sq as i128
        }
    }
}

/// Whether `p` lies within `distance_m` meters of `center`; the boundary is
/// inside.
pub fn within_range_exec(center: GeoPoint, p: GeoPoint, distance_m: i32) -> (r: bool)
    requires
        point_in_bounds(center),
        point_in_bounds(p),
    ensures
        r == within_range(center, p, distance_m as int),
{
    let h: u64 = hav_exec(center, p);
    let t: i128 = range_threshold_exec(distance_m);
    (h as i128) <= t
}

/// Every point lies within any nonnegative distance of itself: the
/// haversine of the zero angle is zero and no threshold for a nonnegative
/// distance falls below zero.
pub proof fn lemma_point_within_itself(p: GeoPoint, distance_m: int)
    requires
        distance_m >= 0,
    ensures
        within_range(p, p, distance_m),
{
    let s = SCALE as int;
    assert(abs_diff(p.lat_nd as int, p.lat_nd as int) == 0);
    assert(abs_diff(p.lon_nd as int, p.lon_nd as int) == 0);
    assert(rad_fixed(0) == 0);
    assert(sin_fixed(0) == 0);
    let z: int = 0;
    let c = cos_fixed(rad_fixed(abs_diff(p.lat_nd as int, 0)));
    assert(hav_fixed(p, p) == z * z / s + (c * c / s) * (z * z / s) / s);
    assert(z * z / s == 0);
    assert((c * c / s) * z / s == 0);
    assert(hav_fixed(p, p) == 0);
    let a = distance_m * s / (EARTH_DIAMETER_M as int);
    lemma_mul_nonnegative(distance_m, s);
    lemma_div_pos_is_pos(distance_m * s, EARTH_DIAMETER_M as int);
    if a > HALF_PI_FIXED as int {
        assert(range_threshold_fixed(distance_m) == 6 * s);
    } else {
        let sa = sin_fixed(a);
        assert(sa * sa >= 0) by (nonlinear_arith);
        lemma_div_pos_is_pos(sa * sa, s);
    }
    assert(range_threshold_fixed(distance_m) >= 0);
}

/// The within-distance predicate is symmetric in its two points.
pub proof fn lemma_within_range_symmetric(a: GeoPoint, b: GeoPoint, distance_m: int)
    ensures
        within_range(a, b, distance_m) == within_range(b, a, distance_m),
{
    let s = SCALE as int;
    assert(abs_diff(a.lat_nd as int, b.lat_nd as int) == abs_diff(b.lat_nd as int, a.lat_nd as int));
    assert(abs_diff(a.lon_nd as int, b.lon_nd as int) == abs_diff(b.lon_nd as int, a.lon_nd as int));
    let ca = cos_fixed(rad_fixed(abs_diff(a.lat_nd as int, 0)));
    let cb = cos_fixed(rad_fixed(abs_diff(b.lat_nd as int, 0)));
    assert(ca * cb == cb * ca) by (nonlinear_arith);
    assert(hav_fixed(a, b) == hav_fixed(b, a));
}

} // verus!
