//! Integer geometry helpers behind the DXF ARC entity: the circle through
//! three points, integer square roots, and angle normalisation.
use vstd::prelude::*;
use crate::text::{div_round, round_half_even_u128};

verus! {

/// One full turn in micro-degrees.
pub const FULL_TURN_UDEG: i64 = 360_000_000;

/// An angle in micro-degrees normalised to `[0, 360°)`.
pub open spec fn normalised_angle(a: int) -> int {
    a % (FULL_TURN_UDEG as int)
}

/// Normalise an angle in micro-degrees to `[0, 360°)`.
pub fn normalise_angle_udeg(a: i64) -> (r: i64)
    ensures
        r == normalised_angle(a as int),
        0 <= r < FULL_TURN_UDEG,
{
    let mut r = a % FULL_TURN_UDEG;
    if r < 0 {
        r = r + FULL_TURN_UDEG;
    }
    r
}

/// `r` is the integer square root of `v`.
pub open spec fn is_isqrt(v: int, r: int) -> bool {
    r >= 0 && r * r <= v < (r + 1) * (r + 1)
}

proof fn lemma_square_mono(a: int, b: int)
    requires
        0 <= a <= b,
    ensures
        a * a <= b * b,
{
    assert(a * a <= b * b) by (nonlinear_arith)
        requires 0 <= a <= b;
}

/// Integer square root of `v` (`v < 2^124`).
pub fn isqrt(v: u128) -> (r: u64)
    requires
        v < 0x1000_0000_0000_0000_0000_0000_0000_0000u128,
    ensures
        is_isqrt(v as int, r as int),
{
    let mut lo: u128 = 0;
    let mut hi: u128 = 0x4000_0000_0000_0000u128;
    assert(hi * hi == 0x1000_0000_0000_0000_0000_0000_0000_0000u128) by (nonlinear_arith)
        requires hi == 0x4000_0000_0000_0000u128;
    while hi - lo > 1
        invariant
            lo < hi <= 0x4000_0000_0000_0000u128,
            lo * lo <= v,
            v < hi * hi,
        decreases hi - lo,
    {
        let mid = lo + (hi - lo) / 2;
        assert(mid * mid <= 0x1000_0000_0000_0000_0000_0000_0000_0000u128) by {
            lemma_square_mono(mid as int, 0x4000_0000_0000_0000int);
        }
        if mid * mid <= v {
            lo = mid;
        } else {
            hi = mid;
        }
    }
    assert(hi == lo + 1);
    lo as u64
}

/// `v / d` rounded half away from zero, for any non-zero `d`.
pub open spec fn round_quot(n: int, d: int) -> int {
    if d < 0 {
        div_round(-n, -d)
    } else {
        div_round(n, d)
    }
}

/// Twice the signed area of the triangle `p1 p2 p3`; zero when collinear.
pub open spec fn twice_area(p1: (i64, i64), p2: (i64, i64), p3: (i64, i64)) -> int {
    2 * (p1.0 * (p2.1 - p3.1) + p2.0 * (p3.1 - p1.1) + p3.0 * (p1.1 - p2.1))
}

pub open spec fn sq(p: (i64, i64)) -> int {
    p.0 * p.0 + p.1 * p.1
}

/// Numerator of the circumcentre's x coordinate (over `twice_area`).
pub open spec fn centre_x_num(p1: (i64, i64), p2: (i64, i64), p3: (i64, i64)) -> int {
    sq(p1) * (p2.1 - p3.1) + sq(p2) * (p3.1 - p1.1) + sq(p3) * (p1.1 - p2.1)
}

/// Numerator of the circumcentre's y coordinate (over `twice_area`).
pub open spec fn centre_y_num(p1: (i64, i64), p2: (i64, i64), p3: (i64, i64)) -> int {
    sq(p1) * (p3.0 - p2.0) + sq(p2) * (p1.0 - p3.0) + sq(p3) * (p2.0 - p1.0)
}

/// `r` is the square root of `v` rounded to the nearest integer:
/// `(2r - 1)² <= 4v < (2r + 1)²` (for `r = 0`, just `4v < 1`).
pub open spec fn is_round_sqrt(v: int, r: int) -> bool {
    &&& r >= 0
    &&& (r == 0 || (2 * r - 1) * (2 * r - 1) <= 4 * v)
    &&& 4 * v < (2 * r + 1) * (2 * r + 1)
}

/// The circle through three points, to the nanometre: `None` exactly when
/// the points are collinear; otherwise the centre rounded to the nearest
/// nanometre and the distance from the first point to that centre,
/// rounded to the nearest nanometre.
pub open spec fn spec_circle(p1: (i64, i64), p2: (i64, i64), p3: (i64, i64)) -> Option<((int, int), int)> {
    let d = twice_area(p1, p2, p3);
    let cx = round_quot(centre_x_num(p1, p2, p3), d);
    let cy = round_quot(centre_y_num(p1, p2, p3), d);
    if d == 0 {
        None
    } else {
        let r2 = (p1.0 - cx) * (p1.0 - cx) + (p1.1 - cy) * (p1.1 - cy);
        Some(((cx, cy), choose|r: int| is_round_sqrt(r2, r)))
    }
}

pub open spec fn coord_ok(p: (i64, i64)) -> bool {
    -1_000_000_000_000 <= p.0 <= 1_000_000_000_000 && -1_000_000_000_000 <= p.1 <= 1_000_000_000_000
}

/// The integer square root of a value is unique.
pub proof fn lemma_isqrt_unique(v: int, r: int, s: int)
    requires
        is_isqrt(v, r),
        is_isqrt(v, s),
    ensures
        r == s,
{
    if r < s {
        lemma_square_mono(r + 1, s);
    } else if s < r {
        lemma_square_mono(s + 1, r);
    }
}

/// The rounded square root of a value is unique.
pub proof fn lemma_round_sqrt_unique(v: int, r: int, s: int)
    requires
        is_round_sqrt(v, r),
        is_round_sqrt(v, s),
    ensures
        r == s,
{
    if r < s {
        lemma_square_mono(2 * r + 1, 2 * s - 1);
    } else if s < r {
        lemma_square_mono(2 * s + 1, 2 * r - 1);
    }
}

/// The value of a two-limb unsigned number `(high, low)`.
pub open spec fn wide(w: (u128, u128)) -> int {
    w.0 * 0x1_0000_0000_0000_0000_0000_0000_0000_0000int + w.1
}

/// `a * b` as two limbs, for factors below `2^126`.
fn mul_wide(a: u128, b: u128) -> (w: (u128, u128))
    requires
        a < 0x4000_0000_0000_0000_0000_0000_0000_0000u128,
        b < 0x4000_0000_0000_0000_0000_0000_0000_0000u128,
    ensures
        wide(w) == a * b,
        w.0 < 0x1000_0000_0000_0000_0000_0000_0000_0000u128,
{
    let p64: u128 = 0x1_0000_0000_0000_0000u128;
    let a1 = a / p64;
    let a0 = a % p64;
    let b1 = b / p64;
    let b0 = b % p64;
    assert(a1 < 0x4000_0000_0000_0000u128 && b1 < 0x4000_0000_0000_0000u128);
    assert(a0 * b0 <= (p64 - 1) * (p64 - 1)) by (nonlinear_arith)
        requires a0 < p64, b0 < p64;
    assert(a0 * b1 <= (p64 - 1) * 0x4000_0000_0000_0000u128 && a1 * b0 <= (p64 - 1) * 0x4000_0000_0000_0000u128
        && a1 * b1 <= 0x4000_0000_0000_0000u128 * 0x4000_0000_0000_0000u128) by (nonlinear_arith)
        requires a0 < p64, b0 < p64, a1 < 0x4000_0000_0000_0000u128, b1 < 0x4000_0000_0000_0000u128;
    let p00 = a0 * b0;
    let p01 = a0 * b1;
    let p10 = a1 * b0;
    let p11 = a1 * b1;
    let mid = p01 + p10;
    let mid_lo = mid % p64;
    let mid_hi = mid / p64;
    let add = mid_lo * p64;
    let room = u128::MAX - add;
    let (lo, carry) = if p00 > room {
        (p00 - room - 1, 1u128)
    } else {
        (p00 + add, 0u128)
    };
    let hi = p11 + mid_hi + carry;
    proof {
        let big: int = 0x1_0000_0000_0000_0000_0000_0000_0000_0000int;
        assert(a == a1 * p64 + a0 && b == b1 * p64 + b0);
        assert(a * b == p11 * big + mid * p64 + p00) by (nonlinear_arith)
            requires a == a1 * p64 + a0, b == b1 * p64 + b0, p00 == a0 * b0, p01 == a0 * b1, p10 == a1 * b0,
                p11 == a1 * b1, mid == p01 + p10, p64 == 0x1_0000_0000_0000_0000int, big == p64 * p64;
        assert(mid == mid_hi * p64 + mid_lo);
        assert(mid * p64 == mid_hi * big + add) by (nonlinear_arith)
            requires mid == mid_hi * p64 + mid_lo, add == mid_lo * p64, big == p64 * p64;
        assert(add + p00 == carry * big + lo);
        assert(a * b < 0x1000_0000_0000_0000_0000_0000_0000_0000int * big) by (nonlinear_arith)
            requires 0 <= a < 0x4000_0000_0000_0000_0000_0000_0000_0000int,
                0 <= b < 0x4000_0000_0000_0000_0000_0000_0000_0000int,
                big == 0x1_0000_0000_0000_0000_0000_0000_0000_0000int;
        assert(hi * big <= a * b) by (nonlinear_arith)
            requires a * b == hi * big + lo, lo >= 0;
        assert(hi < 0x1000_0000_0000_0000_0000_0000_0000_0000int) by (nonlinear_arith)
            requires hi * big <= a * b, a * b < 0x1000_0000_0000_0000_0000_0000_0000_0000int * big, big > 0;
    }
    (hi, lo)
}

/// `a + b` as two limbs, for high limbs below `2^126`.
fn add_wide(a: (u128, u128), b: (u128, u128)) -> (w: (u128, u128))
    requires
        a.0 < 0x4000_0000_0000_0000_0000_0000_0000_0000u128,
        b.0 < 0x4000_0000_0000_0000_0000_0000_0000_0000u128,
    ensures
        wide(w) == wide(a) + wide(b),
        w.0 <= a.0 + b.0 + 1,
{
    let room = u128::MAX - b.1;
    if a.1 > room {
        (a.0 + b.0 + 1, a.1 - room - 1)
    } else {
        (a.0 + b.0, a.1 + b.1)
    }
}

/// `wide(a) <= wide(b)`, compared limb by limb.
fn le_wide(a: (u128, u128), b: (u128, u128)) -> (r: bool)
    ensures
        r == (wide(a) <= wide(b)),
{
    a.0 < b.0 || (a.0 == b.0 && a.1 <= b.1)
}

/// Integer square root of a two-limb number below `2^252`.
fn isqrt_wide(v: (u128, u128)) -> (r: u128)
    requires
        v.0 < 0x1000_0000_0000_0000_0000_0000_0000_0000u128,
    ensures
        is_isqrt(wide(v), r as int),
        r < 0x4000_0000_0000_0000_0000_0000_0000_0000u128,
{
    let mut lo: u128 = 0;
    let mut hi: u128 = 0x4000_0000_0000_0000_0000_0000_0000_0000u128;
    assert(wide(v) < hi * hi) by (nonlinear_arith)
        requires v.0 < 0x1000_0000_0000_0000_0000_0000_0000_0000int, v.1 < 0x1_0000_0000_0000_0000_0000_0000_0000_0000int,
            wide(v) == v.0 * 0x1_0000_0000_0000_0000_0000_0000_0000_0000int + v.1,
            hi == 0x4000_0000_0000_0000_0000_0000_0000_0000int;
    while hi - lo > 1
        invariant
            lo < hi <= 0x4000_0000_0000_0000_0000_0000_0000_0000u128,
            lo * lo <= wide(v),
            wide(v) < hi * hi,
        decreases hi - lo,
    {
        let mid = lo + (hi - lo) / 2;
        let m2 = mul_wide(mid, mid);
        if le_wide(m2, v) {
            lo = mid;
        } else {
            hi = mid;
        }
    }
    assert(hi == lo + 1);
    lo
}

/// The magnitude of a signed value above `i128::MIN`.
fn magnitude(x: i128) -> (m: u128)
    requires
        x > i128::MIN,
    ensures
        m == (if x < 0 { -x } else { x as int }),
{
    if x < 0 {
        (-x) as u128
    } else {
        x as u128
    }
}

proof fn lemma_mul_bound(a: int, b: int)
    requires
        0 <= a <= 2_000_000_000_000_000_000_000_000,
        -2_000_000_000_000 <= b <= 2_000_000_000_000,
    ensures
        -4_000_000_000_000_000_000_000_000_000_000_000_000 <= a * b <= 4_000_000_000_000_000_000_000_000_000_000_000_000,
{
    let ba: int = 2_000_000_000_000_000_000_000_000;
    let bb: int = 2_000_000_000_000;
    vstd::arithmetic::mul::lemma_mul_inequality(a, ba, bb);
    vstd::arithmetic::mul::lemma_mul_inequality(b, bb, a);
    vstd::arithmetic::mul::lemma_mul_inequality(-bb, b, a);
    assert(a * b == b * a) by (nonlinear_arith);
    assert(a * bb == bb * a) by (nonlinear_arith);
    assert((-bb) * a == -(bb * a)) by (nonlinear_arith);
    assert(ba * bb == 4_000_000_000_000_000_000_000_000_000_000_000_000) by (nonlinear_arith)
        requires ba == 2_000_000_000_000_000_000_000_000int, bb == 2_000_000_000_000int;
}

fn round_quot_i128(n: i128, d: i128) -> (q: i128)
    requires
        d != 0,
        -100_000_000_000_000_000_000_000_000_000_000_000_000 <= n <= 100_000_000_000_000_000_000_000_000_000_000_000_000,
        -100_000_000_000_000_000_000_000_000_000_000_000_000 <= d <= 100_000_000_000_000_000_000_000_000_000_000_000_000,
    ensures
        q == round_quot(n as int, d as int),
        -n <= q <= n || n <= q <= -n,
{
    let (nn, dd) = if d < 0 { (-n, -d) } else { (n, d) };
    let a: u128 = if nn < 0 { (-nn) as u128 } else { nn as u128 };
    let q = round_half_even_u128(a, dd as u128);
    if nn < 0 {
        -(q as i128)
    } else {
        q as i128
    }
}

/// Centre coordinates within ±2^126 nm and a radius below 2^126 nm.
pub open spec fn circle_in_range(res: Option<((i128, i128), u128)>) -> bool {
    match res {
        Some(((x, y), r)) => {
            &&& -0x4000_0000_0000_0000_0000_0000_0000_0000 <= x <= 0x4000_0000_0000_0000_0000_0000_0000_0000
            &&& -0x4000_0000_0000_0000_0000_0000_0000_0000 <= y <= 0x4000_0000_0000_0000_0000_0000_0000_0000
            &&& r < 0x4000_0000_0000_0000_0000_0000_0000_0000u128
        },
        None => true,
    }
}

/// The circumcentre numerators and their common denominator:
/// `(centre_x_num, centre_y_num, twice_area)`.
fn centre_parts(p1: (i64, i64), p2: (i64, i64), p3: (i64, i64)) -> (res: (i128, i128, i128))
    requires
        coord_ok(p1),
        coord_ok(p2),
        coord_ok(p3),
    ensures
        res.0 == centre_x_num(p1, p2, p3),
        res.1 == centre_y_num(p1, p2, p3),
        res.2 == twice_area(p1, p2, p3),
        -12_000_000_000_000_000_000_000_000_000_000_000_000 <= res.0 <= 12_000_000_000_000_000_000_000_000_000_000_000_000,
        -12_000_000_000_000_000_000_000_000_000_000_000_000 <= res.1 <= 12_000_000_000_000_000_000_000_000_000_000_000_000,
        -12_000_000_000_000_000_000_000_000 <= res.2 <= 12_000_000_000_000_000_000_000_000,
{
    let (x1, y1) = (p1.0 as i128, p1.1 as i128);
    let (x2, y2) = (p2.0 as i128, p2.1 as i128);
    let (x3, y3) = (p3.0 as i128, p3.1 as i128);
    let b: i128 = 1_000_000_000_000;
    assert(x1 * (y2 - y3) <= b * (2 * b) && x1 * (y2 - y3) >= -(b * (2 * b))) by (nonlinear_arith)
        requires -b <= x1 <= b, -2 * b <= y2 - y3 <= 2 * b, b == 1_000_000_000_000i128;
    assert(x2 * (y3 - y1) <= b * (2 * b) && x2 * (y3 - y1) >= -(b * (2 * b))) by (nonlinear_arith)
        requires -b <= x2 <= b, -2 * b <= y3 - y1 <= 2 * b, b == 1_000_000_000_000i128;
    assert(x3 * (y1 - y2) <= b * (2 * b) && x3 * (y1 - y2) >= -(b * (2 * b))) by (nonlinear_arith)
        requires -b <= x3 <= b, -2 * b <= y1 - y2 <= 2 * b, b == 1_000_000_000_000i128;
    let d: i128 = 2 * (x1 * (y2 - y3) + x2 * (y3 - y1) + x3 * (y1 - y2));
    assert(x1 * x1 <= b * b && y1 * y1 <= b * b && x2 * x2 <= b * b && y2 * y2 <= b * b
        && x3 * x3 <= b * b && y3 * y3 <= b * b && x1 * x1 >= 0 && y1 * y1 >= 0 && x2 * x2 >= 0
        && y2 * y2 >= 0 && x3 * x3 >= 0 && y3 * y3 >= 0) by (nonlinear_arith)
        requires -b <= x1 <= b, -b <= y1 <= b, -b <= x2 <= b, -b <= y2 <= b, -b <= x3 <= b,
            -b <= y3 <= b, b == 1_000_000_000_000i128;
    let s1: i128 = x1 * x1 + y1 * y1;
    let s2: i128 = x2 * x2 + y2 * y2;
    let s3: i128 = x3 * x3 + y3 * y3;
    assert(b * b == 1_000_000_000_000_000_000_000_000i128) by (nonlinear_arith)
        requires b == 1_000_000_000_000i128;
    proof { lemma_mul_bound(s1 as int, (y2 - y3) as int); }
    proof { lemma_mul_bound(s2 as int, (y3 - y1) as int); }
    proof { lemma_mul_bound(s3 as int, (y1 - y2) as int); }
    proof { lemma_mul_bound(s1 as int, (x3 - x2) as int); }
    proof { lemma_mul_bound(s2 as int, (x1 - x3) as int); }
    proof { lemma_mul_bound(s3 as int, (x2 - x1) as int); }
    let nx: i128 = s1 * (y2 - y3) + s2 * (y3 - y1) + s3 * (y1 - y2);
    let ny: i128 = s1 * (x3 - x2) + s2 * (x1 - x3) + s3 * (x2 - x1);
    assert(-12_000_000_000_000_000_000_000_000_000_000_000_000i128 <= nx <= 12_000_000_000_000_000_000_000_000_000_000_000_000i128);
    assert(-12_000_000_000_000_000_000_000_000_000_000_000_000i128 <= ny <= 12_000_000_000_000_000_000_000_000_000_000_000_000i128);
    (nx, ny, d)
}

/// Three-point circle (start, mid, end) → (centre, radius), in nanometres:
/// `None` exactly for collinear points.
pub fn circle_from_three_points(p1: (i64, i64), p2: (i64, i64), p3: (i64, i64)) -> (res: Option<((i128, i128), u128)>)
    requires
        coord_ok(p1),
        coord_ok(p2),
        coord_ok(p3),
    ensures
        match spec_circle(p1, p2, p3) {
            None => res is None,
            Some(((cx, cy), r)) => res matches Some(((x, y), rr)) && x == cx && y == cy && rr == r,
        },
        circle_in_range(res),
{
    let (x1, y1) = (p1.0 as i128, p1.1 as i128);
    let (nx, ny, d) = centre_parts(p1, p2, p3);
    if d == 0 {
        return None;
    }
    let cx = round_quot_i128(nx, d);
    let cy = round_quot_i128(ny, d);
    let dx: i128 = x1 - cx;
    let dy: i128 = y1 - cy;
    // Twice the offsets stay below 2^126, so their squares fit two limbs.
    let bound: i128 = 25_000_000_000_000_000_000_000_000_000_000_000_000;
    assert(-bound <= 2 * dx <= bound && -bound <= 2 * dy <= bound);
    let ax = magnitude(2 * dx);
    let ay = magnitude(2 * dy);
    let sx = mul_wide(ax, ax);
    let sy = mul_wide(ay, ay);
    let w = add_wide(sx, sy);
    proof {
        let big: int = 0x1_0000_0000_0000_0000_0000_0000_0000_0000int;
        assert(ax * ax <= bound * bound && ay * ay <= bound * bound) by (nonlinear_arith)
            requires 0 <= ax <= bound, 0 <= ay <= bound;
        assert(2 * (bound * bound) < 0x1000_0000_0000_0000_0000_0000_0000_0000int * big) by (nonlinear_arith)
            requires bound == 25_000_000_000_000_000_000_000_000_000_000_000_000int,
                big == 0x1_0000_0000_0000_0000_0000_0000_0000_0000int;
        assert(w.0 < 0x1000_0000_0000_0000_0000_0000_0000_0000int) by (nonlinear_arith)
            requires w.0 * big + w.1 < 0x1000_0000_0000_0000_0000_0000_0000_0000int * big, w.1 >= 0, big > 0;
    }
    let s = isqrt_wide(w);
    let r: u128 = (s + 1) / 2;
    proof {
        let r2 = (x1 - cx) * (x1 - cx) + (y1 - cy) * (y1 - cy);
        assert(ax * ax == (2 * dx) * (2 * dx)) by (nonlinear_arith)
            requires ax == 2 * dx || ax == -(2 * dx);
        assert(ay * ay == (2 * dy) * (2 * dy)) by (nonlinear_arith)
            requires ay == 2 * dy || ay == -(2 * dy);
        assert(wide(w) == 4 * r2) by (nonlinear_arith)
            requires wide(w) == ax * ax + ay * ay, ax * ax == (2 * dx) * (2 * dx), ay * ay == (2 * dy) * (2 * dy),
                dx == x1 - cx, dy == y1 - cy, r2 == (x1 - cx) * (x1 - cx) + (y1 - cy) * (y1 - cy);
        if r > 0 {
            assert(2 * r - 1 <= s);
            lemma_square_mono(2 * r - 1, s as int);
        }
        assert(s + 1 <= 2 * r + 1);
        lemma_square_mono(s + 1, 2 * r + 1);
        assert(is_round_sqrt(r2, r as int));
        let rr = choose|r: int| is_round_sqrt(r2, r);
        lemma_round_sqrt_unique(r2, r as int, rr);
    }
    assert(-12_000_000_000_000_000_000_000_000_000_000_000_000i128 <= cx <= 12_000_000_000_000_000_000_000_000_000_000_000_000i128);
    assert(-12_000_000_000_000_000_000_000_000_000_000_000_000i128 <= cy <= 12_000_000_000_000_000_000_000_000_000_000_000_000i128);
    assert(r < 0x4000_0000_0000_0000_0000_0000_0000_0000u128);
    Some(((cx, cy), r))
}


/// The x coordinate of the circumcentre of three non-collinear points,
/// moved left by `off2 / 2` and then rounded to the nearest nanometre:
/// `(centre_x_num / twice_area) - off2 / 2` with a single rounding.
pub open spec fn shifted_centre_x(p1: (i64, i64), p2: (i64, i64), p3: (i64, i64), off2: int) -> int {
    let d = twice_area(p1, p2, p3);
    round_quot(2 * centre_x_num(p1, p2, p3) - off2 * d, 2 * d)
}

/// The circumcentre's x coordinate moved left by half of `off2`, rounded
/// once to the nearest nanometre.
pub fn shifted_circle_centre_x(p1: (i64, i64), p2: (i64, i64), p3: (i64, i64), off2: i64) -> (x: i128)
    requires
        coord_ok(p1),
        coord_ok(p2),
        coord_ok(p3),
        twice_area(p1, p2, p3) != 0,
        -2_000_000_000_000 <= off2 <= 2_000_000_000_000,
    ensures
        x == shifted_centre_x(p1, p2, p3, off2 as int),
        -100_000_000_000_000_000_000_000_000_000_000_000_000 <= x <= 100_000_000_000_000_000_000_000_000_000_000_000_000,
{
    let (nx, _ny, d) = centre_parts(p1, p2, p3);
    let o = off2 as i128;
    assert(-24_000_000_000_000_000_000_000_000_000_000_000_000 <= o * d <= 24_000_000_000_000_000_000_000_000_000_000_000_000)
        by (nonlinear_arith)
        requires
            -2_000_000_000_000 <= o <= 2_000_000_000_000,
            -12_000_000_000_000_000_000_000_000 <= d <= 12_000_000_000_000_000_000_000_000,
    ;
    round_quot_i128(2 * nx - o * d, 2 * d)
}

} // verus!
