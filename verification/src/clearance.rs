//! Exact clearance arithmetic for the design-rule checks.
//!
//! Distances are compared through their squares as exact rationals, so a
//! "closer than 99.9 % of the required clearance" decision is never subject to
//! rounding. Coordinates must lie within ±[`MAX_DRC_NM`] (about one metre).
use vstd::prelude::*;
use crate::geometry::Point;
use crate::helpers::{is_isqrt, isqrt, lemma_isqrt_unique};

verus! {

/// Largest coordinate magnitude, in nanometres, the exact clearance
/// arithmetic accepts (2^30 nm ≈ 1.07 m).
pub const MAX_DRC_NM: i64 = 1_073_741_824;

/// Both coordinates lie within ±[`MAX_DRC_NM`].
pub open spec fn drc_point(p: Point) -> bool {
    -MAX_DRC_NM <= p.x <= MAX_DRC_NM && -MAX_DRC_NM <= p.y <= MAX_DRC_NM
}

/// Orientation of `p` relative to the directed line `o → a`: twice the
/// signed triangle area.
pub open spec fn orient(o: Point, a: Point, p: Point) -> int {
    (a.x - o.x) * (p.y - o.y) - (a.y - o.y) * (p.x - o.x)
}

/// Squared length of `p - q`.
pub open spec fn dist2(p: Point, q: Point) -> int {
    (p.x - q.x) * (p.x - q.x) + (p.y - q.y) * (p.y - q.y)
}

/// Squared distance from `p` to the segment `a–b`, as an exact fraction
/// `(numerator, denominator)` with a positive denominator: the distance to
/// the nearest endpoint when the perpendicular foot falls outside the
/// segment (or the segment is a point), otherwise to the foot.
pub open spec fn point_segment_dist2(p: Point, a: Point, b: Point) -> (int, int) {
    let abx = b.x - a.x;
    let aby = b.y - a.y;
    let denom = abx * abx + aby * aby;
    let dot = (p.x - a.x) * abx + (p.y - a.y) * aby;
    if denom == 0 || dot <= 0 {
        (dist2(p, a), 1)
    } else if dot >= denom {
        (dist2(p, b), 1)
    } else {
        (orient(a, b, p) * orient(a, b, p), denom)
    }
}

/// A distance whose square is `d.0 / d.1` is below 99.9 % of half of
/// `limit2` (`limit2` is twice the required clearance).
pub open spec fn below_clearance(d: (int, int), limit2: int) -> bool {
    limit2 > 0 && 4_000_000 * d.0 < 998_001 * limit2 * limit2 * d.1
}

/// Floor of the square root of `v`.
pub open spec fn floor_sqrt(v: int) -> int {
    choose|r: int| is_isqrt(v, r)
}

/// A distance given by its squared fraction, floored to the nanometre.
pub open spec fn floor_distance(d: (int, int)) -> int {
    floor_sqrt(d.0 / d.1)
}

proof fn lemma_dist2_bound(p: Point, q: Point)
    requires
        drc_point(p),
        drc_point(q),
    ensures
        0 <= dist2(p, q) <= 0x8000_0000_0000_0000,
{
    let dx = p.x - q.x;
    let dy = p.y - q.y;
    assert(0 <= dx * dx <= 0x4000_0000_0000_0000) by (nonlinear_arith)
        requires -0x8000_0000 <= dx <= 0x8000_0000;
    assert(0 <= dy * dy <= 0x4000_0000_0000_0000) by (nonlinear_arith)
        requires -0x8000_0000 <= dy <= 0x8000_0000;
}

/// `(a·q − b·p)² + (p·a + q·b)² = (p² + q²)(a² + b²)`.
proof fn lemma_lagrange(a: int, b: int, p: int, q: int)
    ensures
        (a * q - b * p) * (a * q - b * p) + (p * a + q * b) * (p * a + q * b) == (p * p + q * q) * (a * a
            + b * b),
{
    assert((a * q - b * p) * (a * q - b * p) == (a * q) * (a * q) - 2 * ((a * q) * (b * p)) + (b * p) * (b * p))
        by (nonlinear_arith);
    assert((p * a + q * b) * (p * a + q * b) == (p * a) * (p * a) + 2 * ((p * a) * (q * b)) + (q * b) * (q * b))
        by (nonlinear_arith);
    assert((p * p + q * q) * (a * a + b * b) == (p * p) * (a * a) + (p * p) * (b * b) + (q * q) * (a * a) + (q * q) * (b * b)) by (nonlinear_arith);
    assert((a * q) * (b * p) == (p * a) * (q * b)) by (nonlinear_arith);
    assert((a * q) * (a * q) == (q * q) * (a * a)) by (nonlinear_arith);
    assert((b * p) * (b * p) == (p * p) * (b * b)) by (nonlinear_arith);
    assert((p * a) * (p * a) == (p * p) * (a * a)) by (nonlinear_arith);
    assert((q * b) * (q * b) == (q * q) * (b * b)) by (nonlinear_arith);
}

/// Exact squared distance between two points.
pub fn squared_distance(p: Point, q: Point) -> (r: u128)
    requires
        drc_point(p),
        drc_point(q),
    ensures
        r as int == dist2(p, q),
        r <= 0x8000_0000_0000_0000,
{
    let dx: i128 = p.x as i128 - q.x as i128;
    let dy: i128 = p.y as i128 - q.y as i128;
    assert(0 <= dx * dx <= 0x4000_0000_0000_0000) by (nonlinear_arith)
        requires -0x8000_0000 <= dx <= 0x8000_0000;
    assert(0 <= dy * dy <= 0x4000_0000_0000_0000) by (nonlinear_arith)
        requires -0x8000_0000 <= dy <= 0x8000_0000;
    (dx * dx + dy * dy) as u128
}

/// Exact squared distance from `p` to the segment `a–b`.
pub fn point_segment_distance2(p: Point, a: Point, b: Point) -> (d: (u128, u128))
    requires
        drc_point(p),
        drc_point(a),
        drc_point(b),
    ensures
        d.0 as int == point_segment_dist2(p, a, b).0,
        d.1 as int == point_segment_dist2(p, a, b).1,
        1 <= d.1 <= 0x8000_0000_0000_0000,
        d.0 <= 0x4000_0000_0000_0000_0000_0000_0000_0000,
        d.0 / d.1 <= 0x8000_0000_0000_0000,
{
    let abx: i128 = b.x as i128 - a.x as i128;
    let aby: i128 = b.y as i128 - a.y as i128;
    let pax: i128 = p.x as i128 - a.x as i128;
    let pay: i128 = p.y as i128 - a.y as i128;
    proof {
        lemma_dist2_bound(b, a);
        lemma_dist2_bound(p, a);
        lemma_dist2_bound(p, b);
        assert(-0x4000_0000_0000_0000 <= pax * abx <= 0x4000_0000_0000_0000) by (nonlinear_arith)
            requires -0x8000_0000 <= pax <= 0x8000_0000, -0x8000_0000 <= abx <= 0x8000_0000;
        assert(-0x4000_0000_0000_0000 <= pay * aby <= 0x4000_0000_0000_0000) by (nonlinear_arith)
            requires -0x8000_0000 <= pay <= 0x8000_0000, -0x8000_0000 <= aby <= 0x8000_0000;
        assert(-0x4000_0000_0000_0000 <= abx * pay <= 0x4000_0000_0000_0000) by (nonlinear_arith)
            requires -0x8000_0000 <= pay <= 0x8000_0000, -0x8000_0000 <= abx <= 0x8000_0000;
        assert(-0x4000_0000_0000_0000 <= aby * pax <= 0x4000_0000_0000_0000) by (nonlinear_arith)
            requires -0x8000_0000 <= pax <= 0x8000_0000, -0x8000_0000 <= aby <= 0x8000_0000;
    }
    assert(0 <= abx * abx <= 0x4000_0000_0000_0000) by (nonlinear_arith)
        requires -0x8000_0000 <= abx <= 0x8000_0000;
    assert(0 <= aby * aby <= 0x4000_0000_0000_0000) by (nonlinear_arith)
        requires -0x8000_0000 <= aby <= 0x8000_0000;
    let denom: i128 = abx * abx + aby * aby;
    let dot: i128 = pax * abx + pay * aby;
    if denom == 0 || dot <= 0 {
        (squared_distance(p, a), 1)
    } else if dot >= denom {
        (squared_distance(p, b), 1)
    } else {
        let c: i128 = abx * pay - aby * pax;
        assert(0 <= c * c <= 0x4000_0000_0000_0000_0000_0000_0000_0000) by (nonlinear_arith)
            requires -0x8000_0000_0000_0000 <= c <= 0x8000_0000_0000_0000;
        proof {
            assert(orient(a, b, p) == c);
            lemma_lagrange(abx as int, aby as int, pax as int, pay as int);
            assert(dist2(p, a) == pax * pax + pay * pay);
            assert(dot * dot >= 0) by (nonlinear_arith);
            assert((c * c) as int / (denom as int) <= 0x8000_0000_0000_0000) by (nonlinear_arith)
                requires
                    c * c <= dist2(p, a) * denom,
                    dist2(p, a) <= 0x8000_0000_0000_0000,
                    denom >= 1;
        }
        ((c * c) as u128, denom as u128)
    }
}

proof fn lemma_below_clearance(n: int, den: int, q: int, r: int, lim2: int, l: int)
    requires
        den >= 1,
        n == q * den + r,
        0 <= r < den,
        l == 998_001 * lim2 * lim2 - 4_000_000 * q,
    ensures
        (4_000_000 * n < 998_001 * lim2 * lim2 * den) == (4_000_000 * r < l * den),
        l <= 0 ==> !(4_000_000 * r < l * den),
        l > 4_000_000 ==> 4_000_000 * r < l * den,
{
    assert(998_001 * lim2 * lim2 * den == (l + 4_000_000 * q) * den) by (nonlinear_arith)
        requires l == 998_001 * lim2 * lim2 - 4_000_000 * q;
    assert((l + 4_000_000 * q) * den == l * den + 4_000_000 * (q * den)) by (nonlinear_arith);
    assert(4_000_000 * n == 4_000_000 * (q * den) + 4_000_000 * r) by (nonlinear_arith)
        requires n == q * den + r;
    if l <= 0 {
        assert(l * den <= 0) by (nonlinear_arith)
            requires l <= 0, den >= 1;
    }
    if l > 4_000_000 {
        assert(4_000_000 * r < 4_000_000 * den) by (nonlinear_arith)
            requires r < den;
        assert(4_000_000 * den <= l * den) by (nonlinear_arith)
            requires l > 4_000_000, den >= 1;
    }
}

/// Whether a distance whose square is `d.0 / d.1` is below 99.9 % of half
/// of `limit2`.
pub fn is_below_clearance(d: (u128, u128), limit2: i64) -> (r: bool)
    requires
        1 <= d.1 <= 0x8000_0000_0000_0000,
        d.0 / d.1 <= 0x8000_0000_0000_0000,
        -8_000_000_000_000 <= limit2 <= 8_000_000_000_000,
    ensures
        r == below_clearance((d.0 as int, d.1 as int), limit2 as int),
{
    if limit2 <= 0 {
        return false;
    }
    let q: u128 = d.0 / d.1;
    let rem: u128 = d.0 % d.1;
    let lim: i128 = limit2 as i128;
    assert(0 < lim * lim <= 64_000_000_000_000_000_000_000_000) by (nonlinear_arith)
        requires 0 < lim <= 8_000_000_000_000;
    let l: i128 = 998_001 * (lim * lim) - 4_000_000 * (q as i128);
    proof {
        assert(998_001 * (lim * lim) == 998_001 * lim * lim) by (nonlinear_arith);
        assert(d.0 == q * d.1 + rem) by (nonlinear_arith)
            requires q == d.0 / d.1, rem == d.0 % d.1, d.1 >= 1;
        lemma_below_clearance(d.0 as int, d.1 as int, q as int, rem as int, limit2 as int, l as int);
    }
    if l <= 0 {
        false
    } else if l > 4_000_000 {
        true
    } else {
        assert(4_000_000 * rem <= 4_000_000 * 0x8000_0000_0000_0000) by (nonlinear_arith)
            requires rem < d.1, d.1 <= 0x8000_0000_0000_0000;
        assert(l * (d.1 as i128) <= 4_000_000 * 0x8000_0000_0000_0000) by (nonlinear_arith)
            requires 0 < l <= 4_000_000, 1 <= d.1 <= 0x8000_0000_0000_0000;
        4_000_000 * (rem as i128) < l * (d.1 as i128)
    }
}

/// The distance whose square is `d.0 / d.1`, floored to the nanometre.
pub fn distance_floor(d: (u128, u128)) -> (r: i64)
    requires
        1 <= d.1,
        d.0 / d.1 <= 0x8000_0000_0000_0000,
    ensures
        r == floor_distance((d.0 as int, d.1 as int)),
        r >= 0,
{
    let v = d.0 / d.1;
    let r = isqrt(v);
    proof {
        let c = choose|c: int| is_isqrt(v as int, c);
        assert(is_isqrt(v as int, r as int));
        lemma_isqrt_unique(v as int, r as int, c);
        assert(r <= 0x1_0000_0000) by (nonlinear_arith)
            requires r as int * r as int <= v, v <= 0x8000_0000_0000_0000;
    }
    r as i64
}

} // verus!
