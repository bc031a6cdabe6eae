use vstd::prelude::*;
use crate::canvas::Canvas;
use crate::color::Rgba;
use crate::bres::lemma_line_pts_horizontal;
use crate::conic::{circle_ok, on_hollow_circle, on_filled_circle};

verus! {

/// One ellipse step (x, y), mirrored to the four axis-symmetric
/// positions around the center `c`.
pub open spec fn mirror4(c: (int, int), s: (int, int), i: int, j: int) -> bool {
    ||| (i, j) == (c.0 + s.0, c.1 + s.1)
    ||| (i, j) == (c.0 - s.0, c.1 + s.1)
    ||| (i, j) == (c.0 + s.0, c.1 - s.1)
    ||| (i, j) == (c.0 - s.0, c.1 - s.1)
}

/// One ellipse step (x, y), expanded to the two horizontal spans the
/// filled form paints.
pub open spec fn spans2(c: (int, int), s: (int, int), i: int, j: int) -> bool {
    (j == c.1 + s.1 || j == c.1 - s.1) && c.0 - s.0 <= i <= c.0 + s.0
}

/// The steps of the first midpoint region, where x advances every step
/// and y falls when the decision value crosses zero. `p4` carries four
/// times the textbook decision value so the arithmetic stays integral;
/// `px` and `py` are the running tangent-slope terms.
pub open spec fn ell_r1(
    x: int,
    y: int,
    p4: int,
    px: int,
    py: int,
    w2: int,
    h2: int,
) -> Seq<(int, int)>
    decreases (if px < py { py - px } else { 0 }) when (px < py ==> h2 >= 1 && w2 >= 0)
{
    if px >= py {
        Seq::empty()
    } else {
        let x2 = x + 1;
        let px2 = px + 2 * h2;
        if p4 < 0 {
            seq![(x2, y)] + ell_r1(x2, y, p4 + 4 * (h2 + px2), px2, py, w2, h2)
        } else {
            let y2 = y - 1;
            let py2 = py - 2 * w2;
            seq![(x2, y2)] + ell_r1(x2, y2, p4 + 4 * (h2 + px2 - py2), px2, py2, w2, h2)
        }
    }
}

/// The state (x, y, px, py) in which the first region ends.
pub open spec fn ell_r1_end(
    x: int,
    y: int,
    p4: int,
    px: int,
    py: int,
    w2: int,
    h2: int,
) -> (int, int, int, int)
    decreases (if px < py { py - px } else { 0 }) when (px < py ==> h2 >= 1 && w2 >= 0)
{
    if px >= py {
        (x, y, px, py)
    } else {
        let x2 = x + 1;
        let px2 = px + 2 * h2;
        if p4 < 0 {
            ell_r1_end(x2, y, p4 + 4 * (h2 + px2), px2, py, w2, h2)
        } else {
            let y2 = y - 1;
            let py2 = py - 2 * w2;
            ell_r1_end(x2, y2, p4 + 4 * (h2 + px2 - py2), px2, py2, w2, h2)
        }
    }
}

/// The steps of the second midpoint region, where y falls every step
/// and x advances when the decision value stays non-positive.
pub open spec fn ell_r2(
    x: int,
    y: int,
    p4: int,
    px: int,
    py: int,
    w2: int,
    h2: int,
) -> Seq<(int, int)>
    decreases (if y >= 0 { y } else { 0 })
{
    if y <= 0 {
        Seq::empty()
    } else {
        let y2 = y - 1;
        let py2 = py - 2 * w2;
        if p4 > 0 {
            seq![(x, y2)] + ell_r2(x, y2, p4 + 4 * (w2 - py2), px, py2, w2, h2)
        } else {
            let x2 = x + 1;
            let px2 = px + 2 * h2;
            seq![(x2, y2)] + ell_r2(x2, y2, p4 + 4 * (w2 - py2 + px2), px2, py2, w2, h2)
        }
    }
}

/// The decision value the second region starts from, recomputed from
/// the state the first region ends in: four times
/// `h2 (x + 1/2)^2 + w2 (y - 1)^2 - w2 h2`.
pub open spec fn ell_r2_p4(x: int, y: int, w2: int, h2: int) -> int {
    h2 * (2 * x + 1) * (2 * x + 1) + 4 * w2 * (y - 1) * (y - 1) - 4 * w2 * h2
}

/// The full step sequence of the midpoint ellipse walk: the initial
/// point (0, hr), then the two regions.
pub open spec fn ellipse_steps(wr: int, hr: int) -> Seq<(int, int)> {
    let w2 = wr * wr;
    let h2 = hr * hr;
    let r1 = ell_r1(0, hr, 4 * h2 - 4 * w2 * hr + w2, 0, 2 * w2 * hr, w2, h2);
    let end = ell_r1_end(0, hr, 4 * h2 - 4 * w2 * hr + w2, 0, 2 * w2 * hr, w2, h2);
    let r2 = ell_r2(end.0, end.1, ell_r2_p4(end.0, end.1, w2, h2), end.2, end.3, w2, h2);
    seq![(0, hr)] + r1 + r2
}

/// Whether (i, j) is one of the four mirrored pixels of some step.
pub open spec fn cover_mirror4(c: (int, int), ss: Seq<(int, int)>, i: int, j: int) -> bool {
    exists|m: int| 0 <= m < ss.len() && mirror4(c, ss[m], i, j)
}

/// Whether (i, j) lies on one of the two spans of some step.
pub open spec fn cover_spans2(c: (int, int), ss: Seq<(int, int)>, i: int, j: int) -> bool {
    exists|m: int| 0 <= m < ss.len() && spans2(c, ss[m], i, j)
}

/// The pixel set of the hollow ellipse outline. Equal radii delegate to
/// the circle walk, whose pixel set is then exactly the circle's.
pub open spec fn on_hollow_ellipse(c: (int, int), wr: int, hr: int, i: int, j: int) -> bool {
    if wr == hr {
        on_hollow_circle(c, wr, i, j)
    } else {
        cover_mirror4(c, ellipse_steps(wr, hr), i, j)
    }
}

/// The pixel set of the filled ellipse. Equal radii delegate to the
/// circle walk, whose pixel set is then exactly the circle's.
pub open spec fn on_filled_ellipse(c: (int, int), wr: int, hr: int, i: int, j: int) -> bool {
    if wr == hr {
        on_filled_circle(c, wr, i, j)
    } else {
        cover_spans2(c, ellipse_steps(wr, hr), i, j)
    }
}

/// Invoked with equal radii, the filled-ellipse and filled-circle
/// algorithms paint an identical pixel set: the ellipse walk delegates
/// to the circle walk, so the two pixel sets agree everywhere. The same
/// holds for the hollow forms.
pub proof fn lemma_equal_radii_ellipse_is_circle(c: (int, int), r: int)
    ensures
        forall|i: int, j: int|
            #[trigger] on_filled_ellipse(c, r, r, i, j) == on_filled_circle(c, r, i, j),
        forall|i: int, j: int|
            #[trigger] on_hollow_ellipse(c, r, r, i, j) == on_hollow_circle(c, r, i, j),
{
}

/// The executable points match the specification steps one for one.
pub open spec fn steps_match(v: Seq<(i32, i32)>, s: Seq<(int, int)>) -> bool {
    &&& v.len() == s.len()
    &&& forall|k: int| 0 <= k < s.len() ==> (#[trigger] v[k].0 as int, v[k].1 as int) == s[k]
}

proof fn lemma_r1_p4_flat(x: int, y: int, p4: int, w2: int, h2: int)
    by (nonlinear_arith)
    requires
        p4 == 4 * h2 * ((x + 1) * (x + 1)) + w2 * ((2 * y - 1) * (2 * y - 1)) - 4 * w2 * h2,
    ensures
        p4 + 4 * (h2 + 2 * h2 * (x + 1)) == 4 * h2 * ((x + 2) * (x + 2)) + w2 * ((2 * y - 1) * (2
            * y - 1)) - 4 * w2 * h2,
{
}

proof fn lemma_r1_p4_down(x: int, y: int, p4: int, w2: int, h2: int)
    by (nonlinear_arith)
    requires
        p4 == 4 * h2 * ((x + 1) * (x + 1)) + w2 * ((2 * y - 1) * (2 * y - 1)) - 4 * w2 * h2,
    ensures
        p4 + 4 * (h2 + 2 * h2 * (x + 1) - 2 * w2 * (y - 1)) == 4 * h2 * ((x + 2) * (x + 2)) + w2
            * ((2 * (y - 1) - 1) * (2 * (y - 1) - 1)) - 4 * w2 * h2,
{
}

proof fn lemma_r1_x_bound(x: int, y: int, p4: int, w2: int, h2: int, wr: int)
    by (nonlinear_arith)
    requires
        p4 == 4 * h2 * ((x + 1) * (x + 1)) + w2 * ((2 * y - 1) * (2 * y - 1)) - 4 * w2 * h2,
        p4 < 0,
        h2 >= 1,
        w2 == wr * wr,
        x + 1 >= 0,
    ensures
        x + 1 <= (if wr >= 0 { wr } else { -wr }),
{
}

proof fn lemma_r1_p4_bound(x: int, y: int, p4: int, w2: int, h2: int)
    by (nonlinear_arith)
    requires
        p4 == 4 * h2 * ((x + 1) * (x + 1)) + w2 * ((2 * y - 1) * (2 * y - 1)) - 4 * w2 * h2,
        0 <= x <= 0x400000,
        -0x100000 <= y <= 0x100000,
        0 <= w2 <= 0x10000000000,
        0 <= h2 <= 0x10000000000,
    ensures
        -0x1000000000000000000000000 <= p4 <= 0x1000000000000000000000000,
{
}

proof fn lemma_r2_p4_flat(x: int, y: int, w2: int, h2: int)
    by (nonlinear_arith)
    ensures
        ell_r2_p4(x, y, w2, h2) + 4 * (w2 - 2 * w2 * (y - 1)) == ell_r2_p4(x, y - 1, w2, h2),
{
}

proof fn lemma_r2_p4_step(x: int, y: int, w2: int, h2: int)
    by (nonlinear_arith)
    ensures
        ell_r2_p4(x, y, w2, h2) + 4 * (w2 - 2 * w2 * (y - 1) + 2 * h2 * (x + 1)) == ell_r2_p4(
            x + 1,
            y - 1,
            w2,
            h2,
        ),
{
}

proof fn lemma_r2_p4_bound(x: int, y: int, w2: int, h2: int)
    by (nonlinear_arith)
    requires
        0 <= x <= 0x400000,
        -0x100000 <= y <= 0x100000,
        0 <= w2 <= 0x10000000000,
        0 <= h2 <= 0x10000000000,
    ensures
        -0x1000000000000000000000000 <= ell_r2_p4(x, y, w2, h2) <= 0x1000000000000000000000000,
{
}

proof fn lemma_pos_product(a: int, b: int)
    by (nonlinear_arith)
    requires
        2 * a * b > 0,
        a >= 0,
    ensures
        a >= 1 && b >= 1,
{
}

/// The step sequence of the midpoint ellipse walk with the given radii,
/// as executable values: the initial top point, then the two regions.
pub fn ellipse_walk(width_radius: i32, height_radius: i32) -> (r: Vec<(i32, i32)>)
    requires
        -1000000 <= width_radius <= 1000000,
        -1000000 <= height_radius <= 1000000,
    ensures
        steps_match(r@, ellipse_steps(width_radius as int, height_radius as int)),
        forall|k: int|
            0 <= k < r@.len() ==> 0 <= #[trigger] r@[k].0 <= 3000002 && -1000000 <= r@[k].1
                <= 1000000,
{
    let ghost wr = width_radius as int;
    let ghost hr = height_radius as int;
    let ghost aw: int = if wr >= 0 { wr } else { -wr };
    let ghost ah: int = if hr >= 0 { hr } else { -hr };
    proof {
        assert(0 <= wr * wr <= 0x10000000000 && 0 <= hr * hr <= 0x10000000000) by (nonlinear_arith)
            requires
                -1000000 <= wr <= 1000000,
                -1000000 <= hr <= 1000000,
        ;
    }
    let w2: i128 = (width_radius as i128) * (width_radius as i128);
    let h2: i128 = (height_radius as i128) * (height_radius as i128);
    proof {
        assert(-0x10000000000000000 <= 2 * (w2 as int) * hr <= 0x10000000000000000
            && -0x10000000000000000 <= 4 * (w2 as int) * hr <= 0x10000000000000000)
            by (nonlinear_arith)
            requires
                0 <= w2 as int <= 0x10000000000,
                -1000000 <= hr <= 1000000,
        ;
    }
    let ghost steps = ellipse_steps(wr, hr);
    let ghost r1 = ell_r1(
        0,
        hr,
        4 * (hr * hr) - 4 * (wr * wr) * hr + wr * wr,
        0,
        2 * (wr * wr) * hr,
        wr * wr,
        hr * hr,
    );
    let ghost end0 = ell_r1_end(
        0,
        hr,
        4 * (hr * hr) - 4 * (wr * wr) * hr + wr * wr,
        0,
        2 * (wr * wr) * hr,
        wr * wr,
        hr * hr,
    );
    let ghost r2 = ell_r2(
        end0.0,
        end0.1,
        ell_r2_p4(end0.0, end0.1, wr * wr, hr * hr),
        end0.2,
        end0.3,
        wr * wr,
        hr * hr,
    );

    let mut out: Vec<(i32, i32)> = Vec::new();
    out.push((0, height_radius));

    let mut x: i32 = 0;
    let mut y: i32 = height_radius;
    let mut px: i128 = 0;
    let mut py: i128 = 2 * w2 * (y as i128);
    let mut p4: i128 = 4 * h2 - 4 * w2 * (height_radius as i128) + w2;
    let ghost mut n: int = 1;

    proof {
        assert(p4 == 4 * (h2 as int) * ((0 + 1) * (0 + 1)) + (w2 as int) * ((2 * (hr as int) - 1)
            * (2 * (hr as int) - 1)) - 4 * (w2 as int) * (h2 as int)) by (nonlinear_arith)
            requires
                w2 == wr * wr,
                h2 == hr * hr,
                p4 == 4 * (h2 as int) - 4 * (w2 as int) * hr + w2 as int,
        ;
        assert(r1.skip(0) =~= r1);
        assert(steps =~= seq![(0, hr)] + r1 + r2);
    }

    while px < py
        invariant
            -1000000 <= width_radius <= 1000000,
            -1000000 <= height_radius <= 1000000,
            wr == width_radius as int,
            hr == height_radius as int,
            aw == (if wr >= 0 { wr } else { -wr }),
            ah == (if hr >= 0 { hr } else { -hr }),
            w2 == wr * wr,
            h2 == hr * hr,
            0 <= w2 as int <= 0x10000000000,
            0 <= h2 as int <= 0x10000000000,
            steps == ellipse_steps(wr, hr),
            steps == seq![(0, hr)] + r1 + r2,
            r1 == ell_r1(0, hr, 4 * (hr * hr) - 4 * (wr * wr) * hr + wr * wr, 0, 2 * (wr * wr) * hr, wr * wr, hr * hr),
            end0 == ell_r1_end(0, hr, 4 * (hr * hr) - 4 * (wr * wr) * hr + wr * wr, 0, 2 * (wr * wr) * hr, wr * wr, hr * hr),
            r2 == ell_r2(end0.0, end0.1, ell_r2_p4(end0.0, end0.1, wr * wr, hr * hr), end0.2, end0.3, wr * wr, hr * hr),
            px == 2 * (h2 as int) * (x as int),
            py == 2 * (w2 as int) * (y as int),
            p4 == 4 * (h2 as int) * ((x + 1) * (x + 1)) + (w2 as int) * ((2 * y - 1) * (2 * y - 1)) - 4 * (w2 as int) * (h2 as int),
            0 <= x <= 2000001,
            x <= aw + (ah - y) + 1,
            y <= ah,
            y >= 0 || (x == 0 && y == hr),
            1 <= n <= 1 + r1.len(),
            ell_r1(x as int, y as int, p4 as int, px as int, py as int, wr * wr, hr * hr) == r1.skip(n - 1),
            ell_r1_end(x as int, y as int, p4 as int, px as int, py as int, wr * wr, hr * hr) == end0,
            out@.len() == n,
            forall|k: int| 0 <= k < n ==> (#[trigger] out@[k].0 as int, out@[k].1 as int) == steps[k],
            forall|k: int|
                0 <= k < out@.len() ==> 0 <= #[trigger] out@[k].0 <= 3000002 && -1000000
                    <= out@[k].1 <= 1000000,
        decreases (if px < py { py - px } else { 0int }),
    {
        proof {
            assert(h2 as int >= 1 && w2 as int >= 1 && y as int >= 1) by (nonlinear_arith)
                requires
                    px as int == 2 * (h2 as int) * (x as int),
                    py as int == 2 * (w2 as int) * (y as int),
                    (px as int) < (py as int),
                    x as int >= 0,
                    h2 == hr * hr,
                    w2 == wr * wr,
                    y as int <= ah,
                    ah == (if hr >= 0 { hr } else { -hr }),
                    ah <= 1000000,
            ;
            assert(0 <= px as int <= 0x10000000000000000 && -0x10000000000000000 <= py as int
                <= 0x10000000000000000) by (nonlinear_arith)
                requires
                    px as int == 2 * (h2 as int) * (x as int),
                    py as int == 2 * (w2 as int) * (y as int),
                    0 <= x as int <= 2000001,
                    -1000000 <= y as int <= 1000000,
                    0 <= w2 as int <= 0x10000000000,
                    0 <= h2 as int <= 0x10000000000,
            ;
            lemma_r1_p4_bound(x as int, y as int, p4 as int, w2 as int, h2 as int);
        }
        let ghost pre_x = x as int;
        let ghost pre_y = y as int;
        let ghost pre_p4 = p4 as int;
        let ghost pre_px = px as int;
        let ghost pre_py = py as int;

        x += 1;
        px += 2 * h2;
        proof {
            assert(px as int == 2 * (h2 as int) * (x as int)) by (nonlinear_arith)
                requires
                    px as int == 2 * (h2 as int) * (x as int - 1) + 2 * (h2 as int),
            ;
        }
        if p4 < 0 {
            p4 += 4 * (h2 + px);
            proof {
                lemma_r1_p4_flat(pre_x, pre_y, pre_p4, w2 as int, h2 as int);
                lemma_r1_x_bound(pre_x, pre_y, pre_p4, w2 as int, h2 as int, wr);
            }
        } else {
            y -= 1;
            py -= 2 * w2;
            p4 += 4 * (h2 + px - py);
            proof {
                lemma_r1_p4_down(pre_x, pre_y, pre_p4, w2 as int, h2 as int);
                assert(py as int == 2 * (w2 as int) * (y as int)) by (nonlinear_arith)
                    requires
                        py as int == 2 * (w2 as int) * (y as int + 1) - 2 * (w2 as int),
                ;
            }
        }
        out.push((x, y));
        proof {
            assert(ell_r1(pre_x, pre_y, pre_p4, pre_px, pre_py, wr * wr, hr * hr) == seq![
                (x as int, y as int),
            ] + ell_r1(x as int, y as int, p4 as int, px as int, py as int, wr * wr, hr * hr));
            assert(ell_r1(x as int, y as int, p4 as int, px as int, py as int, wr * wr, hr * hr)
                =~= r1.skip(n - 1).drop_first());
            assert(r1.skip(n - 1).drop_first() =~= r1.skip(n));
            assert(r1.skip(n - 1)[0] == r1[n - 1]);
            assert(steps[n] == (seq![(0, hr)] + r1)[n]);
            n = n + 1;
        }
    }

    proof {
        assert(r1.skip(n - 1).len() == 0);
        assert(n == 1 + r1.len());
        assert(ell_r1_end(x as int, y as int, p4 as int, px as int, py as int, wr * wr, hr * hr)
            == (x as int, y as int, px as int, py as int));
        assert(end0 == (x as int, y as int, px as int, py as int));
    }

    let xx: i128 = x as i128;
    let yy: i128 = y as i128;
    let t: i128 = 2 * xx + 1;
    let u: i128 = yy - 1;
    proof {
        assert(-0x10000000000000000 <= (h2 as int) * (t as int) <= 0x10000000000000000)
            by (nonlinear_arith)
            requires
                0 <= h2 as int <= 0x10000000000,
                -5000000 <= t as int <= 5000000,
        ;
        assert(-0x1000000000000000000000000 <= (h2 as int) * (t as int) * (t as int)
            <= 0x1000000000000000000000000) by (nonlinear_arith)
            requires
                -0x10000000000000000 <= (h2 as int) * (t as int) <= 0x10000000000000000,
                -5000000 <= t as int <= 5000000,
        ;
        assert(-0x40000000000000000 <= 4 * (w2 as int) * (u as int) <= 0x40000000000000000)
            by (nonlinear_arith)
            requires
                0 <= w2 as int <= 0x10000000000,
                -5000000 <= u as int <= 5000000,
        ;
        assert(-0x1000000000000000000000000 <= 4 * (w2 as int) * (u as int) * (u as int)
            <= 0x1000000000000000000000000) by (nonlinear_arith)
            requires
                -0x40000000000000000 <= 4 * (w2 as int) * (u as int) <= 0x40000000000000000,
                -5000000 <= u as int <= 5000000,
        ;
        assert(0 <= 4 * (w2 as int) * (h2 as int) <= 0x1000000000000000000000000)
            by (nonlinear_arith)
            requires
                0 <= w2 as int <= 0x10000000000,
                0 <= h2 as int <= 0x10000000000,
        ;
    }
    let mut p42: i128 = h2 * t * t + 4 * w2 * u * u - 4 * w2 * h2;
    let ghost bx: int = x as int;
    let ghost by: int = y as int;

    proof {
        assert(p42 == ell_r2_p4(x as int, y as int, w2 as int, h2 as int));
        assert(r2.skip(0) =~= r2);
    }

    while y > 0
        invariant
            -1000000 <= width_radius <= 1000000,
            -1000000 <= height_radius <= 1000000,
            wr == width_radius as int,
            hr == height_radius as int,
            w2 == wr * wr,
            h2 == hr * hr,
            0 <= w2 as int <= 0x10000000000,
            0 <= h2 as int <= 0x10000000000,
            steps == ellipse_steps(wr, hr),
            steps == seq![(0, hr)] + r1 + r2,
            r2 == ell_r2(end0.0, end0.1, ell_r2_p4(end0.0, end0.1, wr * wr, hr * hr), end0.2, end0.3, wr * wr, hr * hr),
            px == 2 * (h2 as int) * (x as int),
            py == 2 * (w2 as int) * (y as int),
            p42 == ell_r2_p4(x as int, y as int, w2 as int, h2 as int),
            0 <= x,
            x <= bx + (by - y),
            y <= by,
            y >= 0 || y == by,
            0 <= bx <= 2000001,
            by <= 1000000,
            -1000000 <= y <= 1000000,
            1 + r1.len() <= n <= steps.len(),
            ell_r2(x as int, y as int, p42 as int, px as int, py as int, wr * wr, hr * hr) == r2.skip(n - 1 - r1.len()),
            out@.len() == n,
            forall|k: int| 0 <= k < n ==> (#[trigger] out@[k].0 as int, out@[k].1 as int) == steps[k],
            forall|k: int|
                0 <= k < out@.len() ==> 0 <= #[trigger] out@[k].0 <= 3000002 && -1000000
                    <= out@[k].1 <= 1000000,
        decreases y,
    {
        proof {
            lemma_r2_p4_bound(x as int, y as int, w2 as int, h2 as int);
            assert(0 <= px as int <= 0x10000000000000000 && -0x10000000000000000 <= py as int
                <= 0x10000000000000000) by (nonlinear_arith)
                requires
                    px as int == 2 * (h2 as int) * (x as int),
                    py as int == 2 * (w2 as int) * (y as int),
                    0 <= x as int <= 3000002,
                    -1000000 <= y as int <= 1000000,
                    0 <= w2 as int <= 0x10000000000,
                    0 <= h2 as int <= 0x10000000000,
            ;
        }
        let ghost pre_x = x as int;
        let ghost pre_y = y as int;
        let ghost pre_p4 = p42 as int;
        let ghost pre_px = px as int;
        let ghost pre_py = py as int;

        y -= 1;
        py -= 2 * w2;
        proof {
            assert(py as int == 2 * (w2 as int) * (y as int)) by (nonlinear_arith)
                requires
                    py as int == 2 * (w2 as int) * (y as int + 1) - 2 * (w2 as int),
            ;
        }
        if p42 > 0 {
            p42 += 4 * (w2 - py);
            proof {
                lemma_r2_p4_flat(pre_x, pre_y, w2 as int, h2 as int);
            }
        } else {
            x += 1;
            px += 2 * h2;
            p42 += 4 * (w2 - py + px);
            proof {
                lemma_r2_p4_step(pre_x, pre_y, w2 as int, h2 as int);
                assert(px as int == 2 * (h2 as int) * (x as int)) by (nonlinear_arith)
                    requires
                        px as int == 2 * (h2 as int) * (x as int - 1) + 2 * (h2 as int),
                ;
            }
        }
        out.push((x, y));
        proof {
            assert(ell_r2(pre_x, pre_y, pre_p4, pre_px, pre_py, wr * wr, hr * hr) == seq![
                (x as int, y as int),
            ] + ell_r2(x as int, y as int, p42 as int, px as int, py as int, wr * wr, hr * hr));
            assert(ell_r2(x as int, y as int, p42 as int, px as int, py as int, wr * wr, hr * hr)
                =~= r2.skip(n - 1 - r1.len()).drop_first());
            assert(r2.skip(n - 1 - r1.len()).drop_first() =~= r2.skip(n - r1.len()));
            assert(r2.skip(n - 1 - r1.len())[0] == r2[n - 1 - r1.len()]);
            assert(steps[n] == r2[n - 1 - r1.len()]);
            n = n + 1;
        }
    }

    proof {
        assert(r2.skip(n - 1 - r1.len()).len() == 0);
        assert(n == steps.len());
    }
    out
}

impl Canvas {
    /// Draws the outline of an axis-aligned ellipse in place. Equal radii
    /// delegate to the circle walk; otherwise each step of the two-region
    /// midpoint walk paints its four mirrored pixels, and pixels outside
    /// the canvas are dropped.
    pub fn draw_hollow_ellipse_mut(
        &mut self,
        center: (i32, i32),
        width_radius: i32,
        height_radius: i32,
        color: Rgba,
    )
        requires
            old(self).wf(),
            circle_ok((center.0 as int, center.1 as int), width_radius as int),
            circle_ok((center.0 as int, center.1 as int), height_radius as int),
        ensures
            final(self).wf(),
            final(self).width == old(self).width,
            final(self).height == old(self).height,
            forall|i: int, j: int|
                old(self).in_bounds(i, j) ==> final(self).pix(i, j) == (if on_hollow_ellipse(
                    (center.0 as int, center.1 as int),
                    width_radius as int,
                    height_radius as int,
                    i,
                    j,
                ) {
                    color
                } else {
                    old(self).pix(i, j)
                }),
    {
        if width_radius == height_radius {
            self.draw_hollow_circle_mut(center, width_radius, color);
            return ;
        }
        let ghost c = (center.0 as int, center.1 as int);
        let ghost steps = ellipse_steps(width_radius as int, height_radius as int);
        let points = ellipse_walk(width_radius, height_radius);
        let x0 = center.0;
        let y0 = center.1;
        let mut k: usize = 0;
        while k < points.len()
            invariant
                self.wf(),
                self.width == old(self).width,
                self.height == old(self).height,
                c == (center.0 as int, center.1 as int),
                -0x1000_0000 <= center.0 <= 0x1000_0000,
                -0x1000_0000 <= center.1 <= 0x1000_0000,
                x0 == center.0,
                y0 == center.1,
                k <= points@.len(),
                steps_match(points@, steps),
                forall|m: int|
                    0 <= m < points@.len() ==> 0 <= #[trigger] points@[m].0 <= 3000002 && -1000000
                        <= points@[m].1 <= 1000000,
                forall|i: int, j: int|
                    old(self).in_bounds(i, j) ==> self.pix(i, j) == (if cover_mirror4(
                        c,
                        steps.take(k as int),
                        i,
                        j,
                    ) {
                        color
                    } else {
                        old(self).pix(i, j)
                    }),
            decreases points@.len() - k,
        {
            let p = points[k];
            self.draw_if_in_bounds(x0 + p.0, y0 + p.1, color);
            self.draw_if_in_bounds(x0 - p.0, y0 + p.1, color);
            self.draw_if_in_bounds(x0 + p.0, y0 - p.1, color);
            self.draw_if_in_bounds(x0 - p.0, y0 - p.1, color);
            proof {
                let s = (p.0 as int, p.1 as int);
                let prev = steps.take(k as int);
                let cur = steps.take(k as int + 1);
                assert(cur[k as int] == s);
                assert forall|i: int, j: int| old(self).in_bounds(i, j) implies self.pix(i, j)
                    == (if cover_mirror4(c, cur, i, j) {
                    color
                } else {
                    old(self).pix(i, j)
                }) by {
                    if mirror4(c, s, i, j) {
                        assert(cover_mirror4(c, cur, i, j));
                    } else {
                        if cover_mirror4(c, prev, i, j) {
                            let m = choose|m: int| 0 <= m < prev.len() && mirror4(c, prev[m], i, j);
                            assert(cur[m] == prev[m]);
                            assert(cover_mirror4(c, cur, i, j));
                        } else if cover_mirror4(c, cur, i, j) {
                            let m = choose|m: int| 0 <= m < cur.len() && mirror4(c, cur[m], i, j);
                            assert(m < k as int);
                            assert(prev[m] == cur[m]);
                            assert(cover_mirror4(c, prev, i, j));
                        }
                    }
                }
            }
            k += 1;
        }
        proof {
            assert(steps.take(points@.len() as int) =~= steps);
        }
    }

    /// Draws an axis-aligned ellipse and its contents in place. Equal
    /// radii delegate to the circle walk; otherwise each step paints two
    /// mirrored horizontal spans.
    pub fn draw_filled_ellipse_mut(
        &mut self,
        center: (i32, i32),
        width_radius: i32,
        height_radius: i32,
        color: Rgba,
    )
        requires
            old(self).wf(),
            circle_ok((center.0 as int, center.1 as int), width_radius as int),
            circle_ok((center.0 as int, center.1 as int), height_radius as int),
        ensures
            final(self).wf(),
            final(self).width == old(self).width,
            final(self).height == old(self).height,
            forall|i: int, j: int|
                old(self).in_bounds(i, j) ==> final(self).pix(i, j) == (if on_filled_ellipse(
                    (center.0 as int, center.1 as int),
                    width_radius as int,
                    height_radius as int,
                    i,
                    j,
                ) {
                    color
                } else {
                    old(self).pix(i, j)
                }),
    {
        if width_radius == height_radius {
            self.draw_filled_circle_mut(center, width_radius, color);
            return ;
        }
        let ghost c = (center.0 as int, center.1 as int);
        let ghost steps = ellipse_steps(width_radius as int, height_radius as int);
        let points = ellipse_walk(width_radius, height_radius);
        let x0 = center.0;
        let y0 = center.1;
        let mut k: usize = 0;
        while k < points.len()
            invariant
                self.wf(),
                self.width == old(self).width,
                self.height == old(self).height,
                c == (center.0 as int, center.1 as int),
                -0x1000_0000 <= center.0 <= 0x1000_0000,
                -0x1000_0000 <= center.1 <= 0x1000_0000,
                x0 == center.0,
                y0 == center.1,
                k <= points@.len(),
                steps_match(points@, steps),
                forall|m: int|
                    0 <= m < points@.len() ==> 0 <= #[trigger] points@[m].0 <= 3000002 && -1000000
                        <= points@[m].1 <= 1000000,
                forall|i: int, j: int|
                    old(self).in_bounds(i, j) ==> self.pix(i, j) == (if cover_spans2(
                        c,
                        steps.take(k as int),
                        i,
                        j,
                    ) {
                        color
                    } else {
                        old(self).pix(i, j)
                    }),
            decreases points@.len() - k,
        {
            let p = points[k];
            self.draw_line_segment_mut((x0 - p.0, y0 + p.1), (x0 + p.0, y0 + p.1), color);
            self.draw_line_segment_mut((x0 - p.0, y0 - p.1), (x0 + p.0, y0 - p.1), color);
            proof {
                lemma_line_pts_horizontal(x0 - p.0 as int, x0 + p.0 as int, y0 + p.1 as int);
                lemma_line_pts_horizontal(x0 - p.0 as int, x0 + p.0 as int, y0 - p.1 as int);
                let s = (p.0 as int, p.1 as int);
                let prev = steps.take(k as int);
                let cur = steps.take(k as int + 1);
                assert(cur[k as int] == s);
                assert forall|i: int, j: int| old(self).in_bounds(i, j) implies self.pix(i, j)
                    == (if cover_spans2(c, cur, i, j) {
                    color
                } else {
                    old(self).pix(i, j)
                }) by {
                    if spans2(c, s, i, j) {
                        assert(cover_spans2(c, cur, i, j));
                    } else {
                        if cover_spans2(c, prev, i, j) {
                            let m = choose|m: int| 0 <= m < prev.len() && spans2(c, prev[m], i, j);
                            assert(cur[m] == prev[m]);
                            assert(cover_spans2(c, cur, i, j));
                        } else if cover_spans2(c, cur, i, j) {
                            let m = choose|m: int| 0 <= m < cur.len() && spans2(c, cur[m], i, j);
                            assert(m < k as int);
                            assert(prev[m] == cur[m]);
                            assert(cover_spans2(c, prev, i, j));
                        }
                    }
                }
            }
            k += 1;
        }
        proof {
            assert(steps.take(points@.len() as int) =~= steps);
        }
    }
}

} // verus!
