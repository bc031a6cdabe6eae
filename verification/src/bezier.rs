use vstd::prelude::*;
use crate::canvas::Canvas;
use crate::color::Rgba;
use crate::bres::on_line;
use crate::poly::round_div;

verus! {

/// The integer square root: the largest r with r * r <= n.
pub open spec fn isqrt_spec(n: int) -> int
    decreases (if n >= 0 { n } else { 0 }),
{
    if n <= 0 {
        0
    } else {
        let p = isqrt_spec(n - 1);
        if (p + 1) * (p + 1) <= n {
            p + 1
        } else {
            p
        }
    }
}

proof fn lemma_isqrt_spec_bounds(n: int)
    requires
        n >= 0,
    ensures
        0 <= isqrt_spec(n),
        isqrt_spec(n) * isqrt_spec(n) <= n,
        n < (isqrt_spec(n) + 1) * (isqrt_spec(n) + 1),
    decreases n,
{
    if n == 0 {
        assert(isqrt_spec(0) == 0);
    } else {
        lemma_isqrt_spec_bounds(n - 1);
        let p = isqrt_spec(n - 1);
        if (p + 1) * (p + 1) <= n {
            assert(n < ((p + 1) + 1) * ((p + 1) + 1)) by (nonlinear_arith)
                requires
                    n - 1 < (p + 1) * (p + 1),
                    p >= 0,
            ;
        }
    }
}

proof fn lemma_isqrt_unique(n: int, r: int)
    requires
        n >= 0,
        r >= 0,
        r * r <= n,
        n < (r + 1) * (r + 1),
    ensures
        r == isqrt_spec(n),
{
    lemma_isqrt_spec_bounds(n);
    let s = isqrt_spec(n);
    assert(r == s) by (nonlinear_arith)
        requires
            r >= 0,
            s >= 0,
            r * r <= n,
            n < (r + 1) * (r + 1),
            s * s <= n,
            n < (s + 1) * (s + 1),
    ;
}

/// The largest r with r * r <= v, found by binary search.
fn isqrt_u64(v: u64) -> (r: u64)
    requires
        v <= 0x20_0000_0000_0000,
    ensures
        r as int == isqrt_spec(v as int),
        r <= 100_000_000,
{
    let mut lo: u64 = 0;
    let mut hi: u64 = 100_000_000;
    while lo < hi
        invariant
            v <= 0x20_0000_0000_0000,
            lo <= hi <= 100_000_000,
            lo * lo <= v,
            v < (hi + 1) * (hi + 1),
        decreases hi - lo,
    {
        let mid = (lo + hi + 1) / 2;
        proof {
            assert(mid * mid <= 0x2386F26FC10000) by (nonlinear_arith)
                requires
                    mid <= 100_000_000,
            ;
        }
        if mid * mid <= v {
            lo = mid;
        } else {
            hi = mid - 1;
        }
    }
    proof {
        lemma_isqrt_unique(v as int, lo as int);
    }
    lo
}

/// The squared-distance root rounded to the nearest integer: the floor
/// root, bumped by one when the true root's fraction reaches one half.
pub open spec fn round_sqrt(v: int) -> int {
    let s = isqrt_spec(v);
    if v >= s * s + s + 1 {
        s + 1
    } else {
        s
    }
}

/// The distance between two points, rounded to the nearest integer.
pub open spec fn idist(a: (int, int), b: (int, int)) -> int {
    round_sqrt((b.0 - a.0) * (b.0 - a.0) + (b.1 - a.1) * (b.1 - a.1))
}

/// The control-polygon length bound of the curve.
pub open spec fn bez_len(p0: (int, int), p1: (int, int), p2: (int, int), p3: (int, int)) -> int {
    idist(p0, p1) + idist(p1, p2) + idist(p2, p3)
}

/// How many line segments sample the curve: an eighth of the root of
/// the squared length bound plus 800, rounded to the nearest integer,
/// which biases short curves toward fewer segments. Adding 4 to the
/// floor root before dividing rounds the eighth to nearest: the root's
/// own fraction is under one and cannot move the result across a half.
pub open spec fn bez_segments(
    p0: (int, int),
    p1: (int, int),
    p2: (int, int),
    p3: (int, int),
) -> int {
    let len = bez_len(p0, p1, p2, p3);
    (isqrt_spec(len * len + 800) + 4) / 8
}

/// The Bernstein numerator of one coordinate at parameter i/n.
pub open spec fn bez_num(c0: int, c1: int, c2: int, c3: int, n: int, i: int) -> int {
    c0 * ((n - i) * (n - i) * (n - i)) + 3 * c1 * ((n - i) * (n - i)) * i + 3 * c2 * (n - i) * (i
        * i) + c3 * (i * i * i)
}

/// The sampled curve point at parameter i/n, each coordinate rounded
/// to the nearest pixel.
pub open spec fn bez_pt(
    p0: (int, int),
    p1: (int, int),
    p2: (int, int),
    p3: (int, int),
    n: int,
    i: int,
) -> (int, int) {
    (
        round_div(bez_num(p0.0, p1.0, p2.0, p3.0, n, i), n * n * n),
        round_div(bez_num(p0.1, p1.1, p2.1, p3.1, n, i), n * n * n),
    )
}

/// The pixel set of the sampled curve: the lines connecting each pair
/// of consecutive sample points.
pub open spec fn on_bezier(
    p0: (int, int),
    p1: (int, int),
    p2: (int, int),
    p3: (int, int),
    x: int,
    y: int,
) -> bool {
    let n = bez_segments(p0, p1, p2, p3);
    exists|i: int|
        0 <= i < n && #[trigger] on_line(
            bez_pt(p0, p1, p2, p3, n, i),
            bez_pt(p0, p1, p2, p3, n, i + 1),
            x,
            y,
        )
}

/// Every curve control coordinate stays in this range.
pub open spec fn bez_coords_ok(p: (int, int)) -> bool {
    -100000 <= p.0 <= 100000 && -100000 <= p.1 <= 100000
}

/// The Bernstein weights at i/n sum to the cube of n and are each
/// non-negative.
proof fn lemma_bez_weights(n: int, i: int)
    by (nonlinear_arith)
    requires
        0 <= i <= n,
    ensures
        (n - i) * (n - i) * (n - i) + 3 * ((n - i) * (n - i)) * i + 3 * (n - i) * (i * i) + i * i
            * i == n * n * n,
        (n - i) * (n - i) * (n - i) >= 0,
        ((n - i) * (n - i)) * i >= 0,
        (n - i) * (i * i) >= 0,
        i * i * i >= 0,
{
}

proof fn lemma_bez_num_bound(c0: int, c1: int, c2: int, c3: int, n: int, i: int)
    requires
        0 <= i <= n,
        -100000 <= c0 <= 100000,
        -100000 <= c1 <= 100000,
        -100000 <= c2 <= 100000,
        -100000 <= c3 <= 100000,
    ensures
        -100000 * (n * n * n) <= bez_num(c0, c1, c2, c3, n, i) <= 100000 * (n * n * n),
{
    lemma_bez_weights(n, i);
    assert(-100000 * (n * n * n) <= bez_num(c0, c1, c2, c3, n, i) <= 100000 * (n * n * n))
        by (nonlinear_arith)
        requires
            (n - i) * (n - i) * (n - i) + 3 * ((n - i) * (n - i)) * i + 3 * (n - i) * (i * i) + i
                * i * i == n * n * n,
            (n - i) * (n - i) * (n - i) >= 0,
            ((n - i) * (n - i)) * i >= 0,
            (n - i) * (i * i) >= 0,
            i * i * i >= 0,
            -100000 <= c0 <= 100000,
            -100000 <= c1 <= 100000,
            -100000 <= c2 <= 100000,
            -100000 <= c3 <= 100000,
    ;
}

proof fn lemma_round_div_bound(a: int, b: int, m: int)
    by (nonlinear_arith)
    requires
        b >= 1,
        m >= 0,
        -m * b <= a <= m * b,
    ensures
        -(m + 1) <= round_div(a, b) <= m + 1,
{
}

/// `a / b` rounded to nearest, halves away from zero, in wide
/// arithmetic.
fn round_div_i128(a: i128, b: i128) -> (r: i128)
    requires
        1 <= b <= 0x1_0000_0000_0000_0000,
        -0x1_0000_0000_0000_0000_0000_0000 <= a <= 0x1_0000_0000_0000_0000_0000_0000,
    ensures
        r as int == round_div(a as int, b as int),
{
    if a >= 0 {
        (((2 * a + b) as u128) / ((2 * b) as u128)) as i128
    } else {
        -((((2 * (-a) + b) as u128) / ((2 * b) as u128)) as i128)
    }
}

/// One sampled point of the curve.
fn bez_point(
    p0: (i32, i32),
    p1: (i32, i32),
    p2: (i32, i32),
    p3: (i32, i32),
    n: i64,
    i: i64,
) -> (r: (i32, i32))
    requires
        bez_coords_ok((p0.0 as int, p0.1 as int)),
        bez_coords_ok((p1.0 as int, p1.1 as int)),
        bez_coords_ok((p2.0 as int, p2.1 as int)),
        bez_coords_ok((p3.0 as int, p3.1 as int)),
        1 <= n <= 300000,
        0 <= i <= n,
    ensures
        (r.0 as int, r.1 as int) == bez_pt(
            (p0.0 as int, p0.1 as int),
            (p1.0 as int, p1.1 as int),
            (p2.0 as int, p2.1 as int),
            (p3.0 as int, p3.1 as int),
            n as int,
            i as int,
        ),
        -100001 <= r.0 <= 100001,
        -100001 <= r.1 <= 100001,
{
    let ni: i128 = n as i128;
    let ii: i128 = i as i128;
    let u: i128 = ni - ii;
    proof {
        assert(1 <= (ni as int) * (ni as int) && (ni as int) * (ni as int) <= 90000000000int
            && 1 <= (ni as int) * (ni as int) * (ni as int) && (ni as int) * (ni as int) * (
        ni as int) <= 27000000000000000int) by (nonlinear_arith)
            requires
                1 <= ni as int <= 300000,
        ;
    }
    let den: i128 = ni * ni * ni;
    let x = bez_coord(p0.0, p1.0, p2.0, p3.0, ni, ii, u, den);
    let y = bez_coord(p0.1, p1.1, p2.1, p3.1, ni, ii, u, den);
    (x, y)
}

/// One coordinate of one sampled point.
fn bez_coord(c0: i32, c1: i32, c2: i32, c3: i32, ni: i128, ii: i128, u: i128, den: i128) -> (r:
    i32)
    requires
        -100000 <= c0 <= 100000,
        -100000 <= c1 <= 100000,
        -100000 <= c2 <= 100000,
        -100000 <= c3 <= 100000,
        1 <= ni <= 300000,
        0 <= ii <= ni,
        u == ni - ii,
        den == ni as int * (ni as int) * (ni as int),
    ensures
        r as int == round_div(
            bez_num(c0 as int, c1 as int, c2 as int, c3 as int, ni as int, ii as int),
            den as int,
        ),
        -100001 <= r <= 100001,
{
    proof {
        assert(0 <= (u as int) * (u as int) && (u as int) * (u as int) <= 90000000000int
            && 0 <= (u as int) * (u as int) * (u as int)
            && (u as int) * (u as int) * (u as int) <= 27000000000000000int
            && 0 <= (ii as int) * (ii as int) && (ii as int) * (ii as int) <= 90000000000int
            && 0 <= (ii as int) * (ii as int) * (ii as int)
            && (ii as int) * (ii as int) * (ii as int) <= 27000000000000000int) by (nonlinear_arith)
            requires
                0 <= u as int <= 300000,
                0 <= ii as int <= 300000,
        ;
        assert(den as int >= 1 && den as int <= 27000000000000000int) by (nonlinear_arith)
            requires
                den == ni as int * (ni as int) * (ni as int),
                1 <= ni as int <= 300000,
        ;
    }
    proof {
        assert(0 <= (u as int) * (u as int) * (ii as int)
            && (u as int) * (u as int) * (ii as int) <= 27000000000000000int
            && 0 <= (u as int) * ((ii as int) * (ii as int))
            && (u as int) * ((ii as int) * (ii as int)) <= 27000000000000000int)
            by (nonlinear_arith)
            requires
                0 <= u as int <= 300000,
                0 <= ii as int <= 300000,
                0 <= (u as int) * (u as int) <= 90000000000int,
                0 <= (ii as int) * (ii as int) <= 90000000000int,
        ;
    }
    let w0: i128 = u * u * u;
    let w1: i128 = (u * u) * ii;
    let w2: i128 = u * (ii * ii);
    let w3: i128 = ii * ii * ii;
    proof {
        assert((c0 as int) * (w0 as int) <= 2700000000000000000000int
            && (c0 as int) * (w0 as int) >= -2700000000000000000000int
            && 3 * (c1 as int) * (w1 as int) <= 8100000000000000000000int
            && 3 * (c1 as int) * (w1 as int) >= -8100000000000000000000int
            && 3 * (c2 as int) * (w2 as int) <= 8100000000000000000000int
            && 3 * (c2 as int) * (w2 as int) >= -8100000000000000000000int
            && (c3 as int) * (w3 as int) <= 2700000000000000000000int
            && (c3 as int) * (w3 as int) >= -2700000000000000000000int) by (nonlinear_arith)
            requires
                -100000 <= c0 as int <= 100000,
                -100000 <= c1 as int <= 100000,
                -100000 <= c2 as int <= 100000,
                -100000 <= c3 as int <= 100000,
                0 <= w0 as int <= 27000000000000000int,
                0 <= w1 as int <= 27000000000000000int,
                0 <= w2 as int <= 27000000000000000int,
                0 <= w3 as int <= 27000000000000000int,
        ;
    }
    let num: i128 = (c0 as i128) * w0 + 3 * (c1 as i128) * w1 + 3 * (c2 as i128) * w2 + (
    c3 as i128) * w3;
    proof {
        lemma_bez_num_bound(c0 as int, c1 as int, c2 as int, c3 as int, ni as int, ii as int);
        assert(num as int == bez_num(c0 as int, c1 as int, c2 as int, c3 as int, ni as int, ii as int))
            by (nonlinear_arith)
            requires
                num as int == (c0 as int) * (w0 as int) + 3 * (c1 as int) * (w1 as int) + 3 * (
                c2 as int) * (w2 as int) + (c3 as int) * (w3 as int),
                w0 as int == (u as int) * (u as int) * (u as int),
                w1 as int == ((u as int) * (u as int)) * (ii as int),
                w2 as int == (u as int) * ((ii as int) * (ii as int)),
                w3 as int == (ii as int) * (ii as int) * (ii as int),
                u as int == ni as int - ii as int,
        ;
        assert(-100000 * (den as int) <= num as int <= 100000 * (den as int));
        lemma_round_div_bound(num as int, den as int, 100000);
    }
    let r = round_div_i128(num, den);
    r as i32
}

impl Canvas {
    /// Draws a cubic Bezier curve in place: the curve is sampled at a
    /// segment count derived from its control-polygon length, and
    /// consecutive sample points are connected with plain line
    /// segments; pixels outside the canvas are dropped.
    pub fn draw_cubic_bezier_curve_mut(
        &mut self,
        start: (i32, i32),
        end: (i32, i32),
        control_a: (i32, i32),
        control_b: (i32, i32),
        color: Rgba,
    )
        requires
            old(self).wf(),
            bez_coords_ok((start.0 as int, start.1 as int)),
            bez_coords_ok((end.0 as int, end.1 as int)),
            bez_coords_ok((control_a.0 as int, control_a.1 as int)),
            bez_coords_ok((control_b.0 as int, control_b.1 as int)),
        ensures
            final(self).wf(),
            final(self).width == old(self).width,
            final(self).height == old(self).height,
            forall|i: int, j: int|
                old(self).in_bounds(i, j) ==> final(self).pix(i, j) == (if on_bezier(
                    (start.0 as int, start.1 as int),
                    (control_a.0 as int, control_a.1 as int),
                    (control_b.0 as int, control_b.1 as int),
                    (end.0 as int, end.1 as int),
                    i,
                    j,
                ) {
                    color
                } else {
                    old(self).pix(i, j)
                }),
    {
        let ghost q0 = (start.0 as int, start.1 as int);
        let ghost q1 = (control_a.0 as int, control_a.1 as int);
        let ghost q2 = (control_b.0 as int, control_b.1 as int);
        let ghost q3 = (end.0 as int, end.1 as int);
        let d1 = idist_exec(start, control_a);
        let d2 = idist_exec(control_a, control_b);
        let d3 = idist_exec(control_b, end);
        let len: u64 = d1 + d2 + d3;
        proof {
            assert((len as int) * (len as int) <= 0x20_0000_0000_0000 - 800) by (nonlinear_arith)
                requires
                    len as int <= 900_000,
            ;
        }
        let nseg: u64 = (isqrt_u64(len * len + 800) + 4) / 8;
        let ghost n = bez_segments(q0, q1, q2, q3);
        proof {
            assert(nseg == n);
        }
        if nseg == 0 {
            return ;
        }
        if nseg > 300000 {
            proof {
                lemma_isqrt_spec_bounds((len as int) * (len as int) + 800);
                assert(false) by (nonlinear_arith)
                    requires
                        isqrt_spec((len as int) * (len as int) + 800) * isqrt_spec(
                            (len as int) * (len as int) + 800,
                        ) <= (len as int) * (len as int) + 800,
                        len as int <= 900_000,
                        isqrt_spec((len as int) * (len as int) + 800) >= 0,
                        (isqrt_spec((len as int) * (len as int) + 800) + 4) / 8 > 300000,
                ;
            }
        }
        let mut k: u64 = 0;
        let mut prev = bez_point(start, control_a, control_b, end, nseg as i64, 0);
        while k < nseg
            invariant
                self.wf(),
                self.width == old(self).width,
                self.height == old(self).height,
                bez_coords_ok(q0),
                bez_coords_ok(q1),
                bez_coords_ok(q2),
                bez_coords_ok(q3),
                q0 == (start.0 as int, start.1 as int),
                q1 == (control_a.0 as int, control_a.1 as int),
                q2 == (control_b.0 as int, control_b.1 as int),
                q3 == (end.0 as int, end.1 as int),
                n == bez_segments(q0, q1, q2, q3),
                1 <= nseg <= 300000,
                nseg == n,
                k <= nseg,
                (prev.0 as int, prev.1 as int) == bez_pt(q0, q1, q2, q3, n, k as int),
                -100001 <= prev.0 <= 100001,
                -100001 <= prev.1 <= 100001,
                forall|i: int, j: int|
                    old(self).in_bounds(i, j) ==> self.pix(i, j) == (if exists|m: int|
                        0 <= m < k && #[trigger] on_line(
                            bez_pt(q0, q1, q2, q3, n, m),
                            bez_pt(q0, q1, q2, q3, n, m + 1),
                            i,
                            j,
                        ) {
                        color
                    } else {
                        old(self).pix(i, j)
                    }),
            decreases nseg - k,
        {
            let cur = bez_point(start, control_a, control_b, end, nseg as i64, (k + 1) as i64);
            self.draw_line_segment_mut(prev, cur, color);
            proof {
                assert forall|i: int, j: int| old(self).in_bounds(i, j) implies self.pix(i, j)
                    == (if exists|m: int|
                    0 <= m < k + 1 && #[trigger] on_line(
                        bez_pt(q0, q1, q2, q3, n, m),
                        bez_pt(q0, q1, q2, q3, n, m + 1),
                        i,
                        j,
                    ) {
                    color
                } else {
                    old(self).pix(i, j)
                }) by {
                    if on_line(bez_pt(q0, q1, q2, q3, n, k as int), bez_pt(q0, q1, q2, q3, n, k as int + 1), i, j) {
                    } else if exists|m: int|
                        0 <= m < k && #[trigger] on_line(
                            bez_pt(q0, q1, q2, q3, n, m),
                            bez_pt(q0, q1, q2, q3, n, m + 1),
                            i,
                            j,
                        ) {
                        let m = choose|m: int|
                            0 <= m < k && #[trigger] on_line(
                                bez_pt(q0, q1, q2, q3, n, m),
                                bez_pt(q0, q1, q2, q3, n, m + 1),
                                i,
                                j,
                            );
                        assert(0 <= m < k + 1);
                    } else if exists|m: int|
                        0 <= m < k + 1 && #[trigger] on_line(
                            bez_pt(q0, q1, q2, q3, n, m),
                            bez_pt(q0, q1, q2, q3, n, m + 1),
                            i,
                            j,
                        ) {
                        let m = choose|m: int|
                            0 <= m < k + 1 && #[trigger] on_line(
                                bez_pt(q0, q1, q2, q3, n, m),
                                bez_pt(q0, q1, q2, q3, n, m + 1),
                                i,
                                j,
                            );
                        assert(m < k);
                    }
                }
            }
            prev = cur;
            k += 1;
        }
    }
}

/// The rounded distance between two control points.
fn idist_exec(a: (i32, i32), b: (i32, i32)) -> (r: u64)
    requires
        bez_coords_ok((a.0 as int, a.1 as int)),
        bez_coords_ok((b.0 as int, b.1 as int)),
    ensures
        r as int == idist((a.0 as int, a.1 as int), (b.0 as int, b.1 as int)),
        r <= 300_000,
{
    let dx: i64 = (b.0 - a.0) as i64;
    let dy: i64 = (b.1 - a.1) as i64;
    proof {
        assert(0 <= (dx as int) * (dx as int) && (dx as int) * (dx as int) <= 40000000000int
            && 0 <= (dy as int) * (dy as int) && (dy as int) * (dy as int)
            <= 40000000000int) by (nonlinear_arith)
            requires
                -200000 <= dx as int <= 200000,
                -200000 <= dy as int <= 200000,
        ;
    }
    let v: u64 = ((dx * dx) + (dy * dy)) as u64;
    let s = isqrt_u64(v);
    proof {
        lemma_isqrt_spec_bounds(v as int);
        assert(s <= 299_999) by (nonlinear_arith)
            requires
                (s as int) * (s as int) <= 80000000000int,
                s as int >= 0,
        ;
    }
    if v >= s * s + s + 1 {
        s + 1
    } else {
        s
    }
}

} // verus!
