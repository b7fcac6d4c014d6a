//! Exact integer geometry: squared distances, floor square roots and clearance tests.
use vstd::prelude::*;

use crate::{Circle, Point};

verus! {

/// Squared Euclidean distance between two points.
pub open spec fn dist_sq(a: Point, b: Point) -> int {
    (a.x - b.x) * (a.x - b.x) + (a.y - b.y) * (a.y - b.y)
}

/// `r` is the integer part of the square root of `n`.
pub open spec fn is_floor_sqrt(n: int, r: int) -> bool {
    0 <= r && r * r <= n && n < (r + 1) * (r + 1)
}

/// The integer part of the square root of a non-negative `n`.
pub open spec fn floor_sqrt(n: int) -> int {
    choose|r: int| is_floor_sqrt(n, r)
}

/// The integer part of the Euclidean distance between two points.
pub open spec fn distance_spec(a: Point, b: Point) -> int {
    floor_sqrt(dist_sq(a, b))
}

/// The integer part of a square root is unique.
pub proof fn lemma_floor_sqrt_unique(n: int, r1: int, r2: int)
    requires
        is_floor_sqrt(n, r1),
        is_floor_sqrt(n, r2),
    ensures
        r1 == r2,
{
    if r1 < r2 {
        assert((r1 + 1) * (r1 + 1) <= r2 * r2) by (nonlinear_arith)
            requires
                0 <= r1,
                r1 + 1 <= r2,
        ;
    } else if r2 < r1 {
        assert((r2 + 1) * (r2 + 1) <= r1 * r1) by (nonlinear_arith)
            requires
                0 <= r2,
                r2 + 1 <= r1,
        ;
    }
}

/// Any integer part of the square root of `n` is `floor_sqrt(n)`.
pub proof fn lemma_floor_sqrt_of(n: int, r: int)
    requires
        is_floor_sqrt(n, r),
    ensures
        floor_sqrt(n) == r,
{
    lemma_floor_sqrt_unique(n, r, floor_sqrt(n));
}

/// Integer square root: the largest `r` with `r * r <= n`.
pub fn isqrt(n: u128) -> (r: u128)
    ensures
        is_floor_sqrt(n as int, r as int),
        r as int == floor_sqrt(n as int),
{
    let mut lo: u128 = 0;
    let mut hi: u128 = 0x1_0000_0000_0000_0000;
    assert(n < hi * hi) by (nonlinear_arith)
        requires
            n < 0x1_0000_0000_0000_0000_0000_0000_0000_0000int,
            hi == 0x1_0000_0000_0000_0000int,
    ;
    while hi - lo > 1
        invariant
            lo < hi <= 0x1_0000_0000_0000_0000,
            lo * lo <= n,
            n < hi * hi,
        decreases hi - lo,
    {
        let mid: u128 = lo + (hi - lo) / 2;
        assert(mid * mid < 0x1_0000_0000_0000_0000 * 0x1_0000_0000_0000_0000) by (nonlinear_arith)
            requires
                mid < 0x1_0000_0000_0000_0000,
        ;
        if mid * mid <= n {
            lo = mid;
        } else {
            hi = mid;
        }
    }
    proof {
        assert(hi == lo + 1);
        lemma_floor_sqrt_of(n as int, lo as int);
    }
    lo
}


/// Squared distance between two points, exactly.
pub fn squared_distance(a: Point, b: Point) -> (r: u128)
    ensures
        r as int == dist_sq(a, b),
        r <= 0x2_0000_0000_0000_0000,
{
    let dx: i128 = a.x as i128 - b.x as i128;
    let dy: i128 = a.y as i128 - b.y as i128;
    assert(dx * dx <= 0x1_0000_0000_0000_0000 && dy * dy <= 0x1_0000_0000_0000_0000) by (nonlinear_arith)
        requires
            -0x1_0000_0000 <= dx <= 0x1_0000_0000,
            -0x1_0000_0000 <= dy <= 0x1_0000_0000,
    ;
    assert(dx * dx >= 0 && dy * dy >= 0) by (nonlinear_arith);
    (dx * dx + dy * dy) as u128
}

/// The Euclidean distance between two points, rounded down.
pub fn distance(a: Point, b: Point) -> (r: i64)
    ensures
        r as int == distance_spec(a, b),
        is_floor_sqrt(dist_sq(a, b), r as int),
{
    let s = isqrt(squared_distance(a, b));
    assert(s < 0x1_0000_0000_0000_0000) by (nonlinear_arith)
        requires
            s * s <= 0x2_0000_0000_0000_0000,
    ;
    assert(s <= 0x3_0000_0000) by (nonlinear_arith)
        requires
            s * s <= 0x2_0000_0000_0000_0000,
            s >= 0,
    ;
    s as i64
}

/// `p` lies strictly inside the disk of `c` (touching the boundary is allowed).
pub open spec fn strictly_inside_spec(p: Point, c: Circle) -> bool {
    dist_sq(p, c.center) < c.radius * c.radius
}

/// Tells whether `p` lies strictly inside the disk bounded by `c`.
pub fn strictly_inside(p: Point, c: &Circle) -> (r: bool)
    ensures
        r == strictly_inside_spec(p, *c),
{
    let r: u128 = c.radius as u128;
    assert(0 <= r * r < 0x1_0000_0000_0000_0000) by (nonlinear_arith)
        requires
            0 <= r < 0x1_0000_0000,
    ;
    let r2: u128 = r * r;
    squared_distance(p, c.center) < r2
}

/// Dot product of `b - a` and `c - a`.
pub open spec fn dot_from(a: Point, b: Point, c: Point) -> int {
    (b.x - a.x) * (c.x - a.x) + (b.y - a.y) * (c.y - a.y)
}

/// Cross product of `b - a` and `c - a`.
pub open spec fn cross_from(a: Point, b: Point, c: Point) -> int {
    (b.x - a.x) * (c.y - a.y) - (b.y - a.y) * (c.x - a.x)
}

/// The closed segment from `p1` to `p2` keeps at least `o.radius` away from `o.center`.
/// The closest point of the segment to the center is an endpoint when the projection of the
/// center falls outside the segment, and otherwise lies at the perpendicular distance
/// `|cross| / |p2 - p1|` from it.
pub open spec fn segment_clears_spec(p1: Point, p2: Point, o: Circle) -> bool {
    let len_sq = dist_sq(p1, p2);
    let t = dot_from(p1, p2, o.center);
    let r2 = o.radius * o.radius;
    if len_sq == 0 || t <= 0 {
        dist_sq(p1, o.center) >= r2
    } else if t >= len_sq {
        dist_sq(p2, o.center) >= r2
    } else {
        cross_from(p1, p2, o.center) * cross_from(p1, p2, o.center) >= r2 * len_sq
    }
}

/// Bounds `a * a` by the squares of `q * r` and `(q + 1) * r`, for `a = q * r + m`.
proof fn lemma_square_bounds(a: int, q: int, r: int, m: int)
    requires
        r > 0,
        0 <= m < r,
        a == q * r + m,
        q >= 0,
    ensures
        q * q * (r * r) <= a * a,
        a * a < (q + 1) * (q + 1) * (r * r),
        a * a == q * q * (r * r) + 2 * q * r * m + m * m,
{
    assert(a * a == q * q * (r * r) + 2 * q * r * m + m * m) by (nonlinear_arith)
        requires
            a == q * r + m,
    ;
    assert(2 * q * r * m + m * m >= 0) by (nonlinear_arith)
        requires
            q >= 0,
            r > 0,
            m >= 0,
    ;
    assert(2 * q * r * m + m * m < (2 * q + 1) * (r * r)) by (nonlinear_arith)
        requires
            q >= 0,
            r > 0,
            0 <= m < r,
    ;
    assert((q + 1) * (q + 1) * (r * r) == q * q * (r * r) + (2 * q + 1) * (r * r)) by (nonlinear_arith);
}

/// Decides `a * a >= r * r * d` without forming numbers wider than 128 bits.
fn square_at_least(a: u128, r: u128, d: u128) -> (b: bool)
    requires
        a < 0x4_0000_0000_0000_0000,
        r < 0x1_0000_0000,
        d < 0x4_0000_0000_0000_0000,
    ensures
        b == (a * a >= r * r * d),
{
    if r == 0 {
        assert(r * r * d == 0) by (nonlinear_arith)
            requires
                r == 0,
        ;
        assert(a * a >= 0) by (nonlinear_arith);
        return true;
    }
    let q: u128 = a / r;
    let m: u128 = a % r;
    proof {
        vstd::arithmetic::div_mod::lemma_fundamental_div_mod(a as int, r as int);
        assert(a == q * r + m) by (nonlinear_arith)
            requires
                a == r * q + m,
        ;
        lemma_square_bounds(a as int, q as int, r as int, m as int);
        assert(r * r >= 1) by (nonlinear_arith)
            requires
                r >= 1,
        ;
        assert(q <= a) by (nonlinear_arith)
            requires
                q * r + m == a,
                r >= 1,
                m >= 0,
                q >= 0,
        ;
    }
    if q >= 0x4_0000_0000 {
        proof {
            assert(q * q >= 0x4_0000_0000 * 0x4_0000_0000) by (nonlinear_arith)
                requires
                    q >= 0x4_0000_0000,
            ;
            assert(q * q * (r * r) >= d * (r * r)) by (nonlinear_arith)
                requires
                    q * q >= d,
                    r * r >= 1,
            ;
            assert(r * r * d == d * (r * r)) by (nonlinear_arith);
        }
        return true;
    }
    assert(q * q < 0x10_0000_0000_0000_0000) by (nonlinear_arith)
        requires
            q < 0x4_0000_0000,
    ;
    if q * q >= d {
        proof {
            assert(q * q * (r * r) >= d * (r * r)) by (nonlinear_arith)
                requires
                    q * q >= d,
                    r * r >= 1,
            ;
            assert(r * r * d == d * (r * r)) by (nonlinear_arith);
        }
        return true;
    }
    assert((q + 1) * (q + 1) == q * q + 2 * q + 1) by (nonlinear_arith);
    if (q + 1) * (q + 1) <= d {
        proof {
            assert((q + 1) * (q + 1) * (r * r) <= d * (r * r)) by (nonlinear_arith)
                requires
                    (q + 1) * (q + 1) <= d,
                    r * r >= 1,
            ;
            assert(r * r * d == d * (r * r)) by (nonlinear_arith);
        }
        return false;
    }
    let gap: u128 = d - q * q;
    proof {
        assert(gap <= 2 * q);
        assert(r * r * gap <= r * r * (2 * 0x4_0000_0000)) by (nonlinear_arith)
            requires
                gap <= 2 * q,
                q < 0x4_0000_0000,
                r * r >= 1,
        ;
        assert(r * r < 0x1_0000_0000_0000_0000) by (nonlinear_arith)
            requires
                r < 0x1_0000_0000,
                r >= 0,
        ;
        assert(r * r * (2 * 0x4_0000_0000) < 0x1_0000_0000_0000_0000 * 0x8_0000_0000) by (nonlinear_arith)
            requires
                r * r < 0x1_0000_0000_0000_0000,
        ;
        assert(q * r <= a) by (nonlinear_arith)
            requires
                q * r + m == a,
                m >= 0,
        ;
        assert(2 * (q * r) * m <= 2 * 0x4_0000_0000_0000_0000 * 0x1_0000_0000) by (nonlinear_arith)
            requires
                q * r <= a,
                a < 0x4_0000_0000_0000_0000,
                0 <= m < r,
                r < 0x1_0000_0000,
                q * r >= 0,
        ;
        assert(m * m < 0x1_0000_0000_0000_0000) by (nonlinear_arith)
            requires
                0 <= m < 0x1_0000_0000,
        ;
        assert(2 * q * r * m == 2 * (q * r) * m) by (nonlinear_arith);
        assert(r * r * d == r * r * (q * q) + r * r * gap) by (nonlinear_arith)
            requires
                d == q * q + gap,
        ;
        assert(q * q * (r * r) == r * r * (q * q)) by (nonlinear_arith);
    }
    2 * (q * r) * m + m * m >= r * r * gap
}

/// Tells whether the closed segment from `p1` to `p2` stays clear of the disk of `o`;
/// touching the boundary counts as clearing it.
pub fn segment_clears_obstacle(p1: Point, p2: Point, o: &Circle) -> (b: bool)
    ensures
        b == segment_clears_spec(p1, p2, *o),
{
    let r: u128 = o.radius as u128;
    let len_sq: u128 = squared_distance(p1, p2);
    let dx: i128 = p2.x as i128 - p1.x as i128;
    let dy: i128 = p2.y as i128 - p1.y as i128;
    let wx: i128 = o.center.x as i128 - p1.x as i128;
    let wy: i128 = o.center.y as i128 - p1.y as i128;
    proof {
        assert(-0x1_0000_0000_0000_0000 <= dx * wx <= 0x1_0000_0000_0000_0000) by (nonlinear_arith)
            requires
                -0x1_0000_0000 <= dx <= 0x1_0000_0000,
                -0x1_0000_0000 <= wx <= 0x1_0000_0000,
        ;
        assert(-0x1_0000_0000_0000_0000 <= dy * wy <= 0x1_0000_0000_0000_0000) by (nonlinear_arith)
            requires
                -0x1_0000_0000 <= dy <= 0x1_0000_0000,
                -0x1_0000_0000 <= wy <= 0x1_0000_0000,
        ;
        assert(-0x1_0000_0000_0000_0000 <= dx * wy <= 0x1_0000_0000_0000_0000) by (nonlinear_arith)
            requires
                -0x1_0000_0000 <= dx <= 0x1_0000_0000,
                -0x1_0000_0000 <= wy <= 0x1_0000_0000,
        ;
        assert(-0x1_0000_0000_0000_0000 <= dy * wx <= 0x1_0000_0000_0000_0000) by (nonlinear_arith)
            requires
                -0x1_0000_0000 <= dy <= 0x1_0000_0000,
                -0x1_0000_0000 <= wx <= 0x1_0000_0000,
        ;
        assert(r * r >= 0) by (nonlinear_arith);
        assert(r * r < 0x1_0000_0000_0000_0000) by (nonlinear_arith)
            requires
                0 <= r < 0x1_0000_0000,
        ;
    }
    let r2: u128 = r * r;
    let t: i128 = dx * wx + dy * wy;
    if len_sq == 0 || t <= 0 {
        squared_distance(p1, o.center) >= r2
    } else if t >= len_sq as i128 {
        squared_distance(p2, o.center) >= r2
    } else {
        let cross: i128 = dx * wy - dy * wx;
        let a: u128 = if cross >= 0 { cross as u128 } else { (-cross) as u128 };
        assert(a < 0x4_0000_0000_0000_0000);
        assert(a * a == cross * cross) by (nonlinear_arith)
            requires
                a == cross || a == -cross,
        ;
        square_at_least(a, r, len_sq)
    }
}

/// Rounds `n / d` down, for a positive `d`.
fn floor_div(n: i128, d: i128) -> (q: i128)
    requires
        d > 0,
        -0x100_0000_0000_0000_0000_0000_0000_0000 < n < 0x100_0000_0000_0000_0000_0000_0000_0000,
    ensures
        q == n / d,
{
    if n >= 0 {
        ((n as u128) / (d as u128)) as i128
    } else {
        let m: u128 = (-n) as u128;
        let qq: u128 = m / (d as u128);
        let rr: u128 = m % (d as u128);
        proof {
            vstd::arithmetic::div_mod::lemma_fundamental_div_mod(m as int, d as int);
            assert(qq <= m) by (nonlinear_arith)
                requires
                    m == d * qq + rr,
                    d >= 1,
                    rr >= 0,
                    qq >= 0,
            ;
        }
        if rr == 0 {
            proof {
                assert(n == (-(qq as int)) * d + 0) by (nonlinear_arith)
                    requires
                        m == d * qq + rr,
                        rr == 0,
                        n == -m,
                ;
                vstd::arithmetic::div_mod::lemma_fundamental_div_mod_converse(
                    n as int,
                    d as int,
                    -(qq as int),
                    0,
                );
            }
            -(qq as i128)
        } else {
            proof {
                assert(n == (-(qq as int) - 1) * d + (d - rr)) by (nonlinear_arith)
                    requires
                        m == d * qq + rr,
                        n == -m,
                ;
                vstd::arithmetic::div_mod::lemma_fundamental_div_mod_converse(
                    n as int,
                    d as int,
                    -(qq as int) - 1,
                    d - rr,
                );
            }
            -(qq as i128) - 1
        }
    }
}

/// Fits in an `i32`.
pub open spec fn fits_i32(v: int) -> bool {
    i32::MIN <= v <= i32::MAX
}

/// The length of the common tangent line that leaves a circle of center `c1` and signed
/// radius `rho1` and reaches a circle of center `c2` and signed radius `rho2`, rounded down.
/// A positive signed radius means the circle is passed counter-clockwise (its center lies to
/// the left of the direction of travel), a negative one clockwise, zero means a point.
pub open spec fn tangent_length_spec(c1: Point, rho1: int, c2: Point, rho2: int) -> int {
    floor_sqrt(dist_sq(c1, c2) - (rho2 - rho1) * (rho2 - rho1))
}

/// The tangent line from a circle of center `c1` and signed radius `rho1` to one of center
/// `c2` and signed radius `rho2`, as its two touching points, each coordinate rounded down.
/// With `v = c2 - c1`, `a = rho2 - rho1` and `h` the tangent length, the unit normal on the
/// left of the direction of travel is `(a * v + h * perp(v)) / |v|^2`, and each touching point
/// is its circle's center moved against that normal by the signed radius; `h` is taken at 256
/// times the scale. There is none when the centers coincide, when one circle swallows the
/// other, or when a point leaves `i32`.
pub open spec fn tangent_spec(c1: Point, rho1: int, c2: Point, rho2: int) -> Option<(Point, Point)> {
    let vx = c2.x - c1.x;
    let vy = c2.y - c1.y;
    let dd = dist_sq(c1, c2);
    let a = rho2 - rho1;
    if dd == 0 || dd < a * a {
        None
    } else {
        let h = floor_sqrt((dd - a * a) * 65536);
        let nx = a * vx * 256 - h * vy;
        let ny = a * vy * 256 + h * vx;
        let x1 = c1.x - (rho1 * nx) / (dd * 256);
        let y1 = c1.y - (rho1 * ny) / (dd * 256);
        let x2 = c2.x - (rho2 * nx) / (dd * 256);
        let y2 = c2.y - (rho2 * ny) / (dd * 256);
        if fits_i32(x1) && fits_i32(y1) && fits_i32(x2) && fits_i32(y2) {
            Some((Point { x: x1 as i32, y: y1 as i32 }, Point { x: x2 as i32, y: y2 as i32 }))
        } else {
            None
        }
    }
}

/// Dividing by a positive integer never grows a magnitude.
proof fn lemma_div_magnitude(x: int, d: int)
    requires
        d >= 1,
    ensures
        -(if x >= 0 { x } else { -x }) <= x / d <= (if x >= 0 { x } else { -x }),
{
    vstd::arithmetic::div_mod::lemma_fundamental_div_mod(x, d);
    let q = x / d;
    let r = x % d;
    assert(-(if x >= 0 { x } else { -x }) <= q <= (if x >= 0 { x } else { -x })) by (nonlinear_arith)
        requires
            x == d * q + r,
            0 <= r < d,
            d >= 1,
    ;
}

/// One coordinate of a touching point: `c - floor(rho * n / dd)`, if it fits in an `i32`.
fn touch_coord(c: i32, rho: i128, n: i128, dd: i128) -> (r: Option<i32>)
    requires
        dd > 0,
        -0x1_0000_0000 <= rho <= 0x1_0000_0000,
        -0x800_0000_0000_0000_0000 <= n <= 0x800_0000_0000_0000_0000,
    ensures
        r == (if fits_i32(c - (rho * n) as int / dd as int) {
            Some((c - (rho * n) as int / dd as int) as i32)
        } else {
            None
        }),
{
    assert(-0x800_0000_0000_0000_0000_0000_0000 <= rho * n <= 0x800_0000_0000_0000_0000_0000_0000) by (nonlinear_arith)
        requires
            -0x1_0000_0000 <= rho <= 0x1_0000_0000,
            -0x800_0000_0000_0000_0000 <= n <= 0x800_0000_0000_0000_0000,
    ;
    let q = floor_div(rho * n, dd);
    proof {
        lemma_div_magnitude((rho * n) as int, dd as int);
    }
    let v: i128 = c as i128 - q;
    if v >= i32::MIN as i128 && v <= i32::MAX as i128 {
        Some(v as i32)
    } else {
        None
    }
}

/// Computes `tangent_spec` together with the tangent length.
pub fn tangent(c1: Point, rho1: i64, c2: Point, rho2: i64) -> (r: Option<(Point, Point, i64)>)
    requires
        -0x1_0000_0000 < rho1 < 0x1_0000_0000,
        -0x1_0000_0000 < rho2 < 0x1_0000_0000,
    ensures
        match tangent_spec(c1, rho1 as int, c2, rho2 as int) {
            Some((t1, t2)) => r == Some((t1, t2, tangent_length_spec(c1, rho1 as int, c2, rho2 as int) as i64))
                && 0 <= tangent_length_spec(c1, rho1 as int, c2, rho2 as int) < 0x2_0000_0000,
            None => r is None,
        },
{
    let vx: i128 = c2.x as i128 - c1.x as i128;
    let vy: i128 = c2.y as i128 - c1.y as i128;
    let dd: u128 = squared_distance(c1, c2);
    let a: i128 = rho2 as i128 - rho1 as i128;
    assert(0 <= a * a <= 0x4_0000_0000_0000_0000) by (nonlinear_arith)
        requires
            -0x2_0000_0000 <= a <= 0x2_0000_0000,
    ;
    if dd == 0 || (dd as i128) < a * a {
        return None;
    }
    let h_u: u128 = isqrt((dd as i128 - a * a) as u128);
    assert(h_u < 0x2_0000_0000) by (nonlinear_arith)
        requires
            h_u * h_u <= dd,
            dd <= 0x2_0000_0000_0000_0000,
            h_u >= 0,
    ;
    let len: i64 = h_u as i64;
    assert(len as int == tangent_length_spec(c1, rho1 as int, c2, rho2 as int));
    let g: u128 = (dd as i128 - a * a) as u128;
    let hs_u: u128 = isqrt(g * 65536);
    assert(hs_u < 0x200_0000_0000) by (nonlinear_arith)
        requires
            hs_u * hs_u <= g * 65536,
            g <= 0x2_0000_0000_0000_0000,
            hs_u >= 0,
    ;
    let h: i128 = hs_u as i128;
    proof {
        assert(-0x200_0000_0000_0000_0000 <= a * vx * 256 <= 0x200_0000_0000_0000_0000) by (nonlinear_arith)
            requires
                -0x2_0000_0000 <= a <= 0x2_0000_0000,
                -0x1_0000_0000 <= vx <= 0x1_0000_0000,
        ;
        assert(-0x200_0000_0000_0000_0000 <= a * vy * 256 <= 0x200_0000_0000_0000_0000) by (nonlinear_arith)
            requires
                -0x2_0000_0000 <= a <= 0x2_0000_0000,
                -0x1_0000_0000 <= vy <= 0x1_0000_0000,
        ;
        assert(-0x200_0000_0000_0000_0000 <= h * vx <= 0x200_0000_0000_0000_0000) by (nonlinear_arith)
            requires
                0 <= h <= 0x200_0000_0000,
                -0x1_0000_0000 <= vx <= 0x1_0000_0000,
        ;
        assert(-0x200_0000_0000_0000_0000 <= h * vy <= 0x200_0000_0000_0000_0000) by (nonlinear_arith)
            requires
                0 <= h <= 0x200_0000_0000,
                -0x1_0000_0000 <= vy <= 0x1_0000_0000,
        ;
    }
    let nx: i128 = a * vx * 256 - h * vy;
    let ny: i128 = a * vy * 256 + h * vx;
    let ddi: i128 = dd as i128 * 256;
    assert(h as int == floor_sqrt((dist_sq(c1, c2) - (rho2 - rho1) * (rho2 - rho1)) * 65536));
    let x1 = touch_coord(c1.x, rho1 as i128, nx, ddi);
    let y1 = touch_coord(c1.y, rho1 as i128, ny, ddi);
    let x2 = touch_coord(c2.x, rho2 as i128, nx, ddi);
    let y2 = touch_coord(c2.y, rho2 as i128, ny, ddi);
    match (x1, y1, x2, y2) {
        (Some(x1), Some(y1), Some(x2), Some(y2)) => Some(
            (Point { x: x1, y: y1 }, Point { x: x2, y: y2 }, len),
        ),
        _ => None,
    }
}

/// Every point of circle `c` keeps at least `o.radius` away from `o.center`: the two disks
/// lie apart, or the disk of `o` lies inside the one of `c`. Any arc of `c` then clears `o`.
pub open spec fn circle_clears_spec(c: Circle, o: Circle) -> bool {
    let d2 = dist_sq(c.center, o.center);
    ||| d2 >= (c.radius + o.radius) * (c.radius + o.radius)
    ||| (o.radius <= c.radius && d2 <= (c.radius - o.radius) * (c.radius - o.radius))
}

/// Tells whether every point of circle `c` keeps clear of the disk of `o`.
pub fn circle_clears_obstacle(c: &Circle, o: &Circle) -> (b: bool)
    ensures
        b == circle_clears_spec(*c, *o),
{
    let d2 = squared_distance(c.center, o.center);
    let sum: u128 = c.radius as u128 + o.radius as u128;
    assert(sum * sum < 0x4_0000_0000_0000_0000) by (nonlinear_arith)
        requires
            0 <= sum < 0x2_0000_0000,
    ;
    if d2 >= sum * sum {
        return true;
    }
    if o.radius <= c.radius {
        let gap: u128 = (c.radius - o.radius) as u128;
        assert(gap * gap < 0x1_0000_0000_0000_0000) by (nonlinear_arith)
            requires
                0 <= gap < 0x1_0000_0000,
        ;
        d2 <= gap * gap
    } else {
        false
    }
}

/// Cross product of `a - c` and `b - c`.
pub open spec fn cross_at(c: Point, a: Point, b: Point) -> int {
    (a.x - c.x) * (b.y - c.y) - (a.y - c.y) * (b.x - c.x)
}

/// Dot product of `a - c` and `b - c`.
pub open spec fn dot_at(c: Point, a: Point, b: Point) -> int {
    (a.x - c.x) * (b.x - c.x) + (a.y - c.y) * (b.y - c.y)
}

/// The direction from the center of `c` towards `p` lies on the arc of `c` that runs from the
/// direction of `a` to the direction of `b`, counter-clockwise when `ccw`, else clockwise.
pub open spec fn on_arc_spec(c: Point, ccw: bool, a: Point, b: Point, p: Point) -> bool {
    let ab = if ccw { cross_at(c, a, b) } else { -cross_at(c, a, b) };
    let ap = if ccw { cross_at(c, a, p) } else { -cross_at(c, a, p) };
    let pb = if ccw { cross_at(c, p, b) } else { -cross_at(c, p, b) };
    if ab > 0 || (ab == 0 && dot_at(c, a, b) > 0) {
        ap >= 0 && pb >= 0
    } else {
        !(ap < 0 && pb < 0)
    }
}

/// The arc of circle `c` from `a` to `b`, in the given direction, keeps clear of the disk of
/// `o`. Along a circle the distance to `o.center` grows steadily on both sides of the point
/// facing `o.center`, so the arc clears `o` exactly when both its ends do and, if that point
/// lies on the arc, the whole circle does.
pub open spec fn arc_clears_spec(c: Circle, ccw: bool, a: Point, b: Point, o: Circle) -> bool {
    &&& dist_sq(a, o.center) >= o.radius * o.radius
    &&& dist_sq(b, o.center) >= o.radius * o.radius
    &&& (on_arc_spec(c.center, ccw, a, b, o.center) ==> circle_clears_spec(c, o))
}

/// Tells whether the arc of `c` from `a` to `b`, in the given direction, clears the disk of `o`.
pub fn arc_clears_obstacle(c: &Circle, ccw: bool, a: Point, b: Point, o: &Circle) -> (r: bool)
    ensures
        r == arc_clears_spec(*c, ccw, a, b, *o),
{
    let ro: u128 = o.radius as u128;
    assert(0 <= ro * ro < 0x1_0000_0000_0000_0000) by (nonlinear_arith)
        requires
            0 <= ro < 0x1_0000_0000,
    ;
    let r2: u128 = ro * ro;
    if squared_distance(a, o.center) < r2 || squared_distance(b, o.center) < r2 {
        return false;
    }
    if on_arc(c.center, ccw, a, b, o.center) {
        circle_clears_obstacle(c, o)
    } else {
        true
    }
}

/// Computes `cross_at` and `dot_at`.
fn cross_dot(c: Point, a: Point, b: Point) -> (r: (i128, i128))
    ensures
        r.0 == cross_at(c, a, b),
        r.1 == dot_at(c, a, b),
        -0x4_0000_0000_0000_0000 <= r.0 <= 0x4_0000_0000_0000_0000,
{
    let ax: i128 = a.x as i128 - c.x as i128;
    let ay: i128 = a.y as i128 - c.y as i128;
    let bx: i128 = b.x as i128 - c.x as i128;
    let by: i128 = b.y as i128 - c.y as i128;
    assert(-0x2_0000_0000_0000_0000 <= ax * by <= 0x2_0000_0000_0000_0000) by (nonlinear_arith)
        requires
            -0x1_0000_0000 <= ax <= 0x1_0000_0000,
            -0x1_0000_0000 <= by <= 0x1_0000_0000,
    ;
    assert(-0x2_0000_0000_0000_0000 <= ay * bx <= 0x2_0000_0000_0000_0000) by (nonlinear_arith)
        requires
            -0x1_0000_0000 <= ay <= 0x1_0000_0000,
            -0x1_0000_0000 <= bx <= 0x1_0000_0000,
    ;
    assert(-0x2_0000_0000_0000_0000 <= ax * bx <= 0x2_0000_0000_0000_0000) by (nonlinear_arith)
        requires
            -0x1_0000_0000 <= ax <= 0x1_0000_0000,
            -0x1_0000_0000 <= bx <= 0x1_0000_0000,
    ;
    assert(-0x2_0000_0000_0000_0000 <= ay * by <= 0x2_0000_0000_0000_0000) by (nonlinear_arith)
        requires
            -0x1_0000_0000 <= ay <= 0x1_0000_0000,
            -0x1_0000_0000 <= by <= 0x1_0000_0000,
    ;
    (ax * by - ay * bx, ax * bx + ay * by)
}

/// Computes `on_arc_spec`.
fn on_arc(c: Point, ccw: bool, a: Point, b: Point, p: Point) -> (r: bool)
    ensures
        r == on_arc_spec(c, ccw, a, b, p),
{
    let (ab0, dab) = cross_dot(c, a, b);
    let (ap0, _) = cross_dot(c, a, p);
    let (pb0, _) = cross_dot(c, p, b);
    let ab: i128 = if ccw { ab0 } else { -ab0 };
    let ap: i128 = if ccw { ap0 } else { -ap0 };
    let pb: i128 = if ccw { pb0 } else { -pb0 };
    if ab > 0 || (ab == 0 && dab > 0) {
        ap >= 0 && pb >= 0
    } else {
        !(ap < 0 && pb < 0)
    }
}

/// The squared chord of half an arc of radius `r` whose chord has squared length `k2`:
/// `r * k2 / (2 * r + sqrt(4 * r^2 - k2))`, rounded down.
pub open spec fn half_chord_sq(r: int, k2: int) -> int {
    let e = if 4 * (r * r) > k2 { floor_sqrt(4 * (r * r) - k2) } else { 0 };
    if r > 0 { (r * k2) / (2 * r + e) } else { 0 }
}

/// The squared chord after halving an arc `n` times.
pub open spec fn halved(r: int, k2: int, n: nat) -> int
    decreases n,
{
    if n == 0 {
        k2
    } else {
        half_chord_sq(r, halved(r, k2, (n - 1) as nat))
    }
}

/// Rounded-down length of an arc of radius `r`, no longer than a half circle, whose chord has
/// squared length `k2`. The arc is split into sixteen equal parts and each is measured by
/// Huygens' rule `(8 * h - k) / 3` from its chord `k` and the chord `h` of its half; all chords
/// are taken at 256 times the scale. The rule errs by under one part in a million.
pub open spec fn minor_arc_spec(r: int, k2: int) -> int {
    if r <= 0 {
        0
    } else {
        let c = halved(r * 256, k2 * 65536, 4);
        let sc = floor_sqrt(c);
        let sh = floor_sqrt(half_chord_sq(r * 256, c));
        if 8 * sh > sc { (16 * (8 * sh - sc)) / 768 } else { 0 }
    }
}

/// The approximate length of the arc of circle `c` from `a` to `b`, counter-clockwise when
/// `ccw`, else clockwise. An arc past a half circle is measured as two half circles less the
/// arc that completes it.
pub open spec fn arc_length_spec(c: Circle, ccw: bool, a: Point, b: Point) -> int {
    let r = c.radius as int;
    let minor = minor_arc_spec(r, dist_sq(a, b));
    let x = if ccw { cross_at(c.center, a, b) } else { -cross_at(c.center, a, b) };
    if x >= 0 && !(cross_at(c.center, a, b) == 0 && dot_at(c.center, a, b) < 0) {
        minor
    } else if 2 * minor_arc_spec(r, 4 * (r * r)) > minor {
        2 * minor_arc_spec(r, 4 * (r * r)) - minor
    } else {
        0
    }
}

/// Computes `half_chord_sq`.
fn half_chord(r: u128, k2: u128) -> (h2: u128)
    requires
        0 < r <= 0x100_0000_0000,
        k2 <= 0x4_0000_0000_0000_0000_0000,
    ensures
        h2 as int == half_chord_sq(r as int, k2 as int),
        h2 <= k2,
{
    assert(0 < r * r <= 0x1_0000_0000_0000_0000_0000) by (nonlinear_arith)
        requires
            0 < r <= 0x100_0000_0000,
    ;
    let rr: u128 = r * r;
    let e: u128 = if 4 * rr > k2 { isqrt(4 * rr - k2) } else { 0 };
    assert(e <= 0x400_0000_0000) by (nonlinear_arith)
        requires
            e * e <= 4 * rr || e == 0,
            rr <= 0x1_0000_0000_0000_0000_0000,
            e >= 0,
    ;
    assert(r * k2 <= 0x100_0000_0000 * 0x4_0000_0000_0000_0000_0000) by (nonlinear_arith)
        requires
            0 < r <= 0x100_0000_0000,
            0 <= k2 <= 0x4_0000_0000_0000_0000_0000,
    ;
    let d: u128 = 2 * r + e;
    let q: u128 = (r * k2) / d;
    proof {
        vstd::arithmetic::div_mod::lemma_fundamental_div_mod((r * k2) as int, d as int);
        assert(q <= k2) by (nonlinear_arith)
            requires
                r * k2 == d * q + (r * k2) % (d as int),
                (r * k2) % (d as int) >= 0,
                d >= r,
                r > 0,
                q >= 0,
                k2 >= 0,
        ;
    }
    q
}

/// Computes `halved`.
fn halve(r: u128, k2: u128, n: u32) -> (h2: u128)
    requires
        0 < r <= 0x100_0000_0000,
        k2 <= 0x4_0000_0000_0000_0000_0000,
    ensures
        h2 as int == halved(r as int, k2 as int, n as nat),
        h2 <= k2,
{
    let mut cur: u128 = k2;
    let mut i: u32 = 0;
    while i < n
        invariant
            0 <= i <= n,
            0 < r <= 0x100_0000_0000,
            k2 <= 0x4_0000_0000_0000_0000_0000,
            cur <= k2,
            cur as int == halved(r as int, k2 as int, i as nat),
        decreases n - i,
    {
        cur = half_chord(r, cur);
        i = i + 1;
    }
    cur
}

/// Computes `minor_arc_spec`.
fn minor_arc(r: u128, k2: u128) -> (len: u128)
    requires
        r < 0x1_0000_0000,
        k2 <= 0x4_0000_0000_0000_0000,
    ensures
        len as int == minor_arc_spec(r as int, k2 as int),
        len < 0x80_0000_0000,
{
    if r == 0 {
        return 0;
    }
    let rs: u128 = r * 256;
    let x: u128 = k2 * 65536;
    let c = halve(rs, x, 4);
    let h = half_chord(rs, c);
    let sc = isqrt(c);
    let sh = isqrt(h);
    assert(sh <= 0x200_0000_0000 && sc <= 0x200_0000_0000) by (nonlinear_arith)
        requires
            sh * sh <= h,
            sc * sc <= c,
            h <= c,
            c <= 0x4_0000_0000_0000_0000_0000,
            sh >= 0,
            sc >= 0,
    ;
    if 8 * sh > sc {
        let len = (16 * (8 * sh - sc)) / 768;
        proof {
            vstd::arithmetic::div_mod::lemma_fundamental_div_mod((16 * (8 * sh - sc)) as int, 768);
        }
        len
    } else {
        0
    }
}

/// Computes `arc_length_spec`.
pub fn arc_length(c: &Circle, ccw: bool, a: Point, b: Point) -> (len: i64)
    ensures
        len as int == arc_length_spec(*c, ccw, a, b),
        0 <= len < 0x100_0000_0000,
{
    let (x, d) = cross_dot(c.center, a, b);
    let minor = minor_arc(c.radius as u128, squared_distance(a, b));
    let sx: i128 = if ccw { x } else { -x };
    if sx >= 0 && !(x == 0 && d < 0) {
        minor as i64
    } else {
        let r: u128 = c.radius as u128;
        assert(r * r < 0x1_0000_0000_0000_0000) by (nonlinear_arith)
            requires
                0 <= r < 0x1_0000_0000,
        ;
        let whole: u128 = 2 * minor_arc(r, 4 * (r * r));
        if whole > minor {
            (whole - minor) as i64
        } else {
            0
        }
    }
}

/// `p` lies within two units of the circle of center `c` and radius `r` (of `c` itself when
/// `r` is zero): the tolerance allowed to rounded touching points.
pub open spec fn near_circle_spec(p: Point, c: Point, r: int) -> bool {
    let d2 = dist_sq(p, c);
    d2 <= (r + 2) * (r + 2) && (r <= 2 || (r - 2) * (r - 2) <= d2)
}

/// Tells whether `p` lies within two units of the circle of center `c` and radius `r`.
pub fn near_circle(p: Point, c: Point, r: u32) -> (b: bool)
    ensures
        b == near_circle_spec(p, c, r as int),
{
    let d2 = squared_distance(p, c);
    let hi: u128 = r as u128 + 2;
    assert(0 <= hi * hi < 0x2_0000_0000_0000_0000) by (nonlinear_arith)
        requires
            0 <= hi <= 0x1_0000_0001,
    ;
    if d2 > hi * hi {
        return false;
    }
    if r <= 2 {
        return true;
    }
    let lo: u128 = r as u128 - 2;
    assert(0 <= lo * lo < 0x1_0000_0000_0000_0000) by (nonlinear_arith)
        requires
            0 <= lo < 0x1_0000_0000,
    ;
    lo * lo <= d2
}

} // verus!
