use vstd::prelude::*;
use crate::canvas::Canvas;
use crate::color::Rgba;
use crate::bres::lemma_line_pts_horizontal;

verus! {

/// One octant step (x, y) of the midpoint circle walk, mirrored to the
/// eight symmetric positions around the center `c`.
pub open spec fn mirror8(c: (int, int), s: (int, int), i: int, j: int) -> bool {
    ||| (i, j) == (c.0 + s.0, c.1 + s.1)
    ||| (i, j) == (c.0 + s.1, c.1 + s.0)
    ||| (i, j) == (c.0 - s.1, c.1 + s.0)
    ||| (i, j) == (c.0 - s.0, c.1 + s.1)
    ||| (i, j) == (c.0 - s.0, c.1 - s.1)
    ||| (i, j) == (c.0 - s.1, c.1 - s.0)
    ||| (i, j) == (c.0 + s.1, c.1 - s.0)
    ||| (i, j) == (c.0 + s.0, c.1 - s.1)
}

/// One octant step (x, y), expanded to the four horizontal spans the
/// filled form paints: two rows at distance y and two rows at distance x.
pub open spec fn spans4(c: (int, int), s: (int, int), i: int, j: int) -> bool {
    ||| ((j == c.1 + s.1 || j == c.1 - s.1) && c.0 - s.0 <= i <= c.0 + s.0)
    ||| ((j == c.1 + s.0 || j == c.1 - s.0) && c.0 - s.1 <= i <= c.0 + s.1)
}

/// The octant steps of the midpoint circle walk from state (x, y, p).
pub open spec fn circ_rec(x: int, y: int, p: int) -> Seq<(int, int)>
    decreases (if x <= y + 2 { y - x + 2 } else { 0 })
{
    if x > y {
        Seq::empty()
    } else {
        let rest = if p < 0 {
            circ_rec(x + 1, y, p + 2 * (x + 1) + 1)
        } else {
            circ_rec(x + 1, y - 1, p + 2 * ((x + 1) - (y - 1)) + 1)
        };
        seq![(x, y)] + rest
    }
}

/// The octant steps of the circle of radius `r`.
pub open spec fn circle_steps(r: int) -> Seq<(int, int)> {
    circ_rec(0, r, 1 - r)
}

/// Whether (i, j) is one of the eight mirrored pixels of some step.
pub open spec fn cover_mirror8(c: (int, int), ss: Seq<(int, int)>, i: int, j: int) -> bool {
    exists|m: int| 0 <= m < ss.len() && mirror8(c, ss[m], i, j)
}

/// Whether (i, j) lies on one of the four spans of some step.
pub open spec fn cover_spans4(c: (int, int), ss: Seq<(int, int)>, i: int, j: int) -> bool {
    exists|m: int| 0 <= m < ss.len() && spans4(c, ss[m], i, j)
}

/// The pixel set of the hollow circle outline.
pub open spec fn on_hollow_circle(c: (int, int), r: int, i: int, j: int) -> bool {
    cover_mirror8(c, circle_steps(r), i, j)
}

/// The pixel set of the filled circle.
pub open spec fn on_filled_circle(c: (int, int), r: int, i: int, j: int) -> bool {
    cover_spans4(c, circle_steps(r), i, j)
}

/// A center and radius the circle walk accepts: small enough that all
/// stepping arithmetic stays far from the integer limits.
pub open spec fn circle_ok(c: (int, int), r: int) -> bool {
    &&& -0x1000_0000 <= c.0 <= 0x1000_0000
    &&& -0x1000_0000 <= c.1 <= 0x1000_0000
    &&& -1000000 <= r <= 1000000
}

/// The midpoint decision variable keeps this closed form along the walk.
spec fn circ_p_inv(x: int, y: int, p: int, r: int) -> bool {
    p == (x + 1) * (x + 1) + y * y - y - r * r
}

proof fn lemma_circ_p_bound(x: int, y: int, p: int, r: int)
    by (nonlinear_arith)
    requires
        circ_p_inv(x, y, p, r),
        0 <= x <= 1000001,
        -1000000 <= y <= 1000000,
        -1000000 <= r <= 1000000,
    ensures
        -0x40_0000_0000_0000 <= p <= 0x40_0000_0000_0000,
{
}

proof fn lemma_circ_p_step_flat(x: int, y: int, p: int, r: int)
    by (nonlinear_arith)
    requires
        circ_p_inv(x, y, p, r),
    ensures
        circ_p_inv(x + 1, y, p + 2 * (x + 1) + 1, r),
{
}

proof fn lemma_circ_p_step_down(x: int, y: int, p: int, r: int)
    by (nonlinear_arith)
    requires
        circ_p_inv(x, y, p, r),
    ensures
        circ_p_inv(x + 1, y - 1, p + 2 * ((x + 1) - (y - 1)) + 1, r),
{
}

/// Every step of a circle walk that starts at a non-negative x stays
/// inside the octant: its x is between 0 and its y, and y never rises.
proof fn lemma_circ_rec_in_box(x: int, y: int, p: int)
    requires
        0 <= x,
    ensures
        forall|m: int|
            0 <= m < circ_rec(x, y, p).len() ==> {
                let e = #[trigger] circ_rec(x, y, p)[m];
                0 <= e.0 <= e.1 && e.1 <= y
            },
    decreases (if x <= y + 2 { y - x + 2 } else { 0 }),
{
    if x > y {
    } else {
        let s = circ_rec(x, y, p);
        if p < 0 {
            lemma_circ_rec_in_box(x + 1, y, p + 2 * (x + 1) + 1);
            let rest = circ_rec(x + 1, y, p + 2 * (x + 1) + 1);
            assert forall|m: int| 0 <= m < s.len() implies {
                let e = #[trigger] s[m];
                0 <= e.0 <= e.1 && e.1 <= y
            } by {
                if m > 0 {
                    assert(s[m] == rest[m - 1]);
                }
            }
        } else {
            lemma_circ_rec_in_box(x + 1, y - 1, p + 2 * ((x + 1) - (y - 1)) + 1);
            let rest = circ_rec(x + 1, y - 1, p + 2 * ((x + 1) - (y - 1)) + 1);
            assert forall|m: int| 0 <= m < s.len() implies {
                let e = #[trigger] s[m];
                0 <= e.0 <= e.1 && e.1 <= y
            } by {
                if m > 0 {
                    assert(s[m] == rest[m - 1]);
                }
            }
        }
    }
}

/// A filled circle lies inside the square box of its radius around its
/// center.
pub proof fn lemma_disc_in_box(c: (int, int), r: int)
    requires
        r >= 0,
    ensures
        forall|i: int, j: int|
            #[trigger] on_filled_circle(c, r, i, j) ==> c.0 - r <= i <= c.0 + r && c.1 - r <= j
                <= c.1 + r,
{
    lemma_circ_rec_in_box(0, r, 1 - r);
    assert forall|i: int, j: int| #[trigger] on_filled_circle(c, r, i, j) implies c.0 - r <= i
        <= c.0 + r && c.1 - r <= j <= c.1 + r by {
        let m = choose|m: int|
            0 <= m < circle_steps(r).len() && spans4(c, circle_steps(r)[m], i, j);
    }
}

impl Canvas {
    /// Draws the outline of a circle in place, using the midpoint walk of
    /// one octant mirrored to the remaining seven; pixels outside the
    /// canvas are dropped.
    pub fn draw_hollow_circle_mut(&mut self, center: (i32, i32), radius: i32, color: Rgba)
        requires
            old(self).wf(),
            circle_ok((center.0 as int, center.1 as int), radius as int),
        ensures
            final(self).wf(),
            final(self).width == old(self).width,
            final(self).height == old(self).height,
            forall|i: int, j: int|
                old(self).in_bounds(i, j) ==> final(self).pix(i, j) == (if on_hollow_circle(
                    (center.0 as int, center.1 as int),
                    radius as int,
                    i,
                    j,
                ) {
                    color
                } else {
                    old(self).pix(i, j)
                }),
    {
        let ghost c = (center.0 as int, center.1 as int);
        let ghost steps = circle_steps(radius as int);
        let mut x: i32 = 0;
        let mut y: i32 = radius;
        let mut p: i64 = 1 - radius as i64;
        let x0 = center.0;
        let y0 = center.1;
        let ghost mut n: int = 0;

        while x <= y
            invariant
                self.wf(),
                self.width == old(self).width,
                self.height == old(self).height,
                circle_ok(c, radius as int),
                c == (center.0 as int, center.1 as int),
                x0 == center.0,
                y0 == center.1,
                0 <= x,
                x <= y + 2 || x == 0,
                -1000000 <= y <= 1000000,
                x <= 1000001,
                circ_p_inv(x as int, y as int, p as int, radius as int),
                0 <= n <= steps.len(),
                circ_rec(x as int, y as int, p as int) == steps.skip(n),
                forall|i: int, j: int|
                    old(self).in_bounds(i, j) ==> self.pix(i, j) == (if cover_mirror8(
                        c,
                        steps.take(n),
                        i,
                        j,
                    ) {
                        color
                    } else {
                        old(self).pix(i, j)
                    }),
            decreases y - x + 2,
        {
            proof {
                assert(steps.skip(n).len() > 0);
                assert(steps.skip(n)[0] == steps[n]);
                assert(steps[n] == (x as int, y as int));
            }
            self.draw_if_in_bounds(x0 + x, y0 + y, color);
            self.draw_if_in_bounds(x0 + y, y0 + x, color);
            self.draw_if_in_bounds(x0 - y, y0 + x, color);
            self.draw_if_in_bounds(x0 - x, y0 + y, color);
            self.draw_if_in_bounds(x0 - x, y0 - y, color);
            self.draw_if_in_bounds(x0 - y, y0 - x, color);
            self.draw_if_in_bounds(x0 + y, y0 - x, color);
            self.draw_if_in_bounds(x0 + x, y0 - y, color);

            proof {
                let prev = steps.take(n);
                let cur = steps.take(n + 1);
                assert forall|i: int, j: int| old(self).in_bounds(i, j) implies self.pix(i, j)
                    == (if cover_mirror8(c, cur, i, j) {
                    color
                } else {
                    old(self).pix(i, j)
                }) by {
                    if mirror8(c, (x as int, y as int), i, j) {
                        assert(cur[n] == (x as int, y as int));
                        assert(cover_mirror8(c, cur, i, j));
                    } else {
                        if cover_mirror8(c, prev, i, j) {
                            let m = choose|m: int|
                                0 <= m < prev.len() && mirror8(c, prev[m], i, j);
                            assert(cur[m] == prev[m]);
                            assert(cover_mirror8(c, cur, i, j));
                        } else if cover_mirror8(c, cur, i, j) {
                            let m = choose|m: int| 0 <= m < cur.len() && mirror8(c, cur[m], i, j);
                            assert(m < n + 1);
                            assert(m == n ==> mirror8(c, (x as int, y as int), i, j));
                            assert(m < n);
                            assert(prev[m] == cur[m]);
                            assert(cover_mirror8(c, prev, i, j));
                        }
                    }
                }
                lemma_circ_p_bound(x as int, y as int, p as int, radius as int);
            }

            let ghost pre_x = x as int;
            let ghost pre_y = y as int;
            let ghost pre_p = p as int;
            x += 1;
            if p < 0 {
                p += 2 * (x as i64) + 1;
                proof {
                    lemma_circ_p_step_flat(pre_x, pre_y, pre_p, radius as int);
                }
            } else {
                y -= 1;
                p += 2 * ((x as i64) - (y as i64)) + 1;
                proof {
                    lemma_circ_p_step_down(pre_x, pre_y, pre_p, radius as int);
                }
            }
            proof {
                assert(circ_rec(pre_x, pre_y, pre_p) == seq![(pre_x, pre_y)] + circ_rec(
                    x as int,
                    y as int,
                    p as int,
                ));
                assert(circ_rec(x as int, y as int, p as int) =~= steps.skip(n).drop_first());
                assert(steps.skip(n).drop_first() =~= steps.skip(n + 1));
                n = n + 1;
            }
        }
        proof {
            assert(steps.skip(n).len() == 0);
            assert(n == steps.len());
            assert(steps.take(n) =~= steps);
        }
    }
}

impl Canvas {
    /// Draws a circle and its contents in place: the same midpoint walk
    /// as the outline, but each octant step paints four horizontal spans
    /// instead of eight single pixels.
    pub fn draw_filled_circle_mut(&mut self, center: (i32, i32), radius: i32, color: Rgba)
        requires
            old(self).wf(),
            circle_ok((center.0 as int, center.1 as int), radius as int),
        ensures
            final(self).wf(),
            final(self).width == old(self).width,
            final(self).height == old(self).height,
            forall|i: int, j: int|
                old(self).in_bounds(i, j) ==> final(self).pix(i, j) == (if on_filled_circle(
                    (center.0 as int, center.1 as int),
                    radius as int,
                    i,
                    j,
                ) {
                    color
                } else {
                    old(self).pix(i, j)
                }),
    {
        let ghost c = (center.0 as int, center.1 as int);
        let ghost steps = circle_steps(radius as int);
        let mut x: i32 = 0;
        let mut y: i32 = radius;
        let mut p: i64 = 1 - radius as i64;
        let x0 = center.0;
        let y0 = center.1;
        let ghost mut n: int = 0;

        while x <= y
            invariant
                self.wf(),
                self.width == old(self).width,
                self.height == old(self).height,
                circle_ok(c, radius as int),
                c == (center.0 as int, center.1 as int),
                x0 == center.0,
                y0 == center.1,
                0 <= x,
                x <= y + 2 || x == 0,
                -1000000 <= y <= 1000000,
                x <= 1000001,
                circ_p_inv(x as int, y as int, p as int, radius as int),
                0 <= n <= steps.len(),
                circ_rec(x as int, y as int, p as int) == steps.skip(n),
                forall|i: int, j: int|
                    old(self).in_bounds(i, j) ==> self.pix(i, j) == (if cover_spans4(
                        c,
                        steps.take(n),
                        i,
                        j,
                    ) {
                        color
                    } else {
                        old(self).pix(i, j)
                    }),
            decreases y - x + 2,
        {
            proof {
                assert(steps.skip(n).len() > 0);
                assert(steps.skip(n)[0] == steps[n]);
                assert(steps[n] == (x as int, y as int));
            }
            self.draw_line_segment_mut((x0 - x, y0 + y), (x0 + x, y0 + y), color);
            self.draw_line_segment_mut((x0 - y, y0 + x), (x0 + y, y0 + x), color);
            self.draw_line_segment_mut((x0 - x, y0 - y), (x0 + x, y0 - y), color);
            self.draw_line_segment_mut((x0 - y, y0 - x), (x0 + y, y0 - x), color);

            proof {
                lemma_line_pts_horizontal(x0 - x as int, x0 + x as int, y0 + y as int);
                lemma_line_pts_horizontal(x0 - y as int, x0 + y as int, y0 + x as int);
                lemma_line_pts_horizontal(x0 - x as int, x0 + x as int, y0 - y as int);
                lemma_line_pts_horizontal(x0 - y as int, x0 + y as int, y0 - x as int);
                let prev = steps.take(n);
                let cur = steps.take(n + 1);
                assert forall|i: int, j: int| old(self).in_bounds(i, j) implies self.pix(i, j)
                    == (if cover_spans4(c, cur, i, j) {
                    color
                } else {
                    old(self).pix(i, j)
                }) by {
                    if spans4(c, (x as int, y as int), i, j) {
                        assert(cur[n] == (x as int, y as int));
                        assert(cover_spans4(c, cur, i, j));
                    } else {
                        if cover_spans4(c, prev, i, j) {
                            let m = choose|m: int| 0 <= m < prev.len() && spans4(c, prev[m], i, j);
                            assert(cur[m] == prev[m]);
                            assert(cover_spans4(c, cur, i, j));
                        } else if cover_spans4(c, cur, i, j) {
                            let m = choose|m: int| 0 <= m < cur.len() && spans4(c, cur[m], i, j);
                            assert(m < n + 1);
                            assert(m == n ==> spans4(c, (x as int, y as int), i, j));
                            assert(m < n);
                            assert(prev[m] == cur[m]);
                            assert(cover_spans4(c, prev, i, j));
                        }
                    }
                }
                lemma_circ_p_bound(x as int, y as int, p as int, radius as int);
            }

            let ghost pre_x = x as int;
            let ghost pre_y = y as int;
            let ghost pre_p = p as int;
            x += 1;
            if p < 0 {
                p += 2 * (x as i64) + 1;
                proof {
                    lemma_circ_p_step_flat(pre_x, pre_y, pre_p, radius as int);
                }
            } else {
                y -= 1;
                p += 2 * ((x as i64) - (y as i64)) + 1;
                proof {
                    lemma_circ_p_step_down(pre_x, pre_y, pre_p, radius as int);
                }
            }
            proof {
                assert(circ_rec(pre_x, pre_y, pre_p) == seq![(pre_x, pre_y)] + circ_rec(
                    x as int,
                    y as int,
                    p as int,
                ));
                assert(circ_rec(x as int, y as int, p as int) =~= steps.skip(n).drop_first());
                assert(steps.skip(n).drop_first() =~= steps.skip(n + 1));
                n = n + 1;
            }
        }
        proof {
            assert(steps.skip(n).len() == 0);
            assert(n == steps.len());
            assert(steps.take(n) =~= steps);
        }
    }
}

} // verus!
