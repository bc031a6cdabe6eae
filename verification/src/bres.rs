use vstd::prelude::*;
use crate::canvas::Canvas;
use crate::color::Rgba;

verus! {

/// Absolute value of a mathematical integer.
pub open spec fn abs_i(v: int) -> int {
    if v < 0 {
        -v
    } else {
        v
    }
}

/// Coordinates this module accepts: small enough that every intermediate
/// value of the stepping arithmetic stays far from the integer limits.
pub open spec fn coord_ok(p: (int, int)) -> bool {
    &&& -0x2000_0000 <= p.0 <= 0x2000_0000
    &&& -0x2000_0000 <= p.1 <= 0x2000_0000
}

/// A line is steep when it rises faster than it runs.
pub open spec fn line_steep(s: (int, int), e: (int, int)) -> bool {
    abs_i(e.1 - s.1) > abs_i(e.0 - s.0)
}

/// Swap the two coordinates back when the line was walked transposed.
pub open spec fn untranspose(p: (int, int), steep: bool) -> (int, int) {
    if steep {
        (p.1, p.0)
    } else {
        p
    }
}

/// Octant normalization: transpose a steep line, then order the endpoints
/// so the walk proceeds left to right in the dominant axis. Returns the
/// walk's start, its end, and whether the line was transposed.
pub open spec fn line_norm(s: (int, int), e: (int, int)) -> ((int, int), (int, int), bool) {
    let st = line_steep(s, e);
    let s1 = if st {
        (s.1, s.0)
    } else {
        s
    };
    let e1 = if st {
        (e.1, e.0)
    } else {
        e
    };
    if s1.0 > e1.0 {
        (e1, s1, st)
    } else {
        (s1, e1, st)
    }
}

/// The points a Bresenham walk yields from state (x, y) with doubled error
/// term `err2`, until the dominant coordinate passes `end_x`.
pub open spec fn bres_rec(
    x: int,
    y: int,
    err2: int,
    dx: int,
    dy: int,
    ystep: int,
    end_x: int,
    steep: bool,
) -> Seq<(int, int)>
    decreases end_x - x + 1 when x <= end_x + 1
{
    if x > end_x {
        Seq::empty()
    } else {
        let e2 = err2 - 2 * dy;
        let rest = if e2 < 0 {
            bres_rec(x + 1, y + ystep, e2 + 2 * dx, dx, dy, ystep, end_x, steep)
        } else {
            bres_rec(x + 1, y, e2, dx, dy, ystep, end_x, steep)
        };
        seq![untranspose((x, y), steep)] + rest
    }
}

/// The integer pixel sequence of the line from `s` to `e`.
pub open spec fn line_pts(s: (int, int), e: (int, int)) -> Seq<(int, int)> {
    let (a, b, st) = line_norm(s, e);
    let dx = b.0 - a.0;
    let dy = abs_i(b.1 - a.1);
    let ystep: int = if a.1 < b.1 {
        1
    } else {
        -1
    };
    bres_rec(a.0, a.1, dx, dx, dy, ystep, b.0, st)
}

/// Whether the point (x, y) occurs in `pts`.
pub open spec fn pts_contain(pts: Seq<(int, int)>, x: int, y: int) -> bool {
    exists|k: int| 0 <= k < pts.len() && pts[k] == (x, y)
}

/// Whether the pixel (x, y) lies on the line from `s` to `e`.
pub open spec fn on_line(s: (int, int), e: (int, int), x: int, y: int) -> bool {
    pts_contain(line_pts(s, e), x, y)
}

/// Walks the run that starts at (x0, y0): from any intermediate state
/// whose error term satisfies the stepping invariant, the remaining walk
/// has one point per dominant coordinate and ends on the target.
proof fn lemma_bres_rec_run(
    x0: int,
    y0: int,
    x: int,
    y: int,
    err2: int,
    dx: int,
    dy: int,
    ystep: int,
    steep: bool,
)
    requires
        0 <= dy <= dx,
        ystep == 1 || ystep == -1,
        x0 <= x <= x0 + dx,
        err2 == dx - 2 * (x - x0) * dy + 2 * ((y - y0) * ystep) * dx,
        0 <= err2,
        dx > 0 ==> err2 < 2 * dx,
        dx == 0 ==> y == y0,
    ensures
        ({
            let s = bres_rec(x, y, err2, dx, dy, ystep, x0 + dx, steep);
            &&& s.len() == x0 + dx - x + 1
            &&& (forall|k: int|
                0 <= k < s.len() ==> #[trigger] s[k] == untranspose(
                    (x + k, if steep { s[k].0 } else { s[k].1 }),
                    steep,
                ))
            &&& s[0] == untranspose((x, y), steep)
            &&& s[s.len() - 1] == untranspose((x0 + dx, y0 + dy * ystep), steep)
        }),
    decreases x0 + dx - x,
{
    let s = bres_rec(x, y, err2, dx, dy, ystep, x0 + dx, steep);
    if x == x0 + dx {
        assert((y - y0) * ystep == dy) by (nonlinear_arith)
            requires
                0 <= dy <= dx,
                ystep == 1 || ystep == -1,
                err2 == dx - 2 * dx * dy + 2 * ((y - y0) * ystep) * dx,
                0 <= err2,
                dx > 0 ==> err2 < 2 * dx,
                dx == 0 ==> y == y0,
        ;
        assert(y == y0 + dy * ystep) by (nonlinear_arith)
            requires
                (y - y0) * ystep == dy,
                ystep == 1 || ystep == -1,
        ;
        reveal_with_fuel(bres_rec, 2);
        assert(s.len() == 1);
    } else {
        let e2 = err2 - 2 * dy;
        if e2 < 0 {
            let y2 = y + ystep;
            assert(e2 + 2 * dx == dx - 2 * ((x + 1) - x0) * dy + 2 * ((y2 - y0) * ystep) * dx)
                by (nonlinear_arith)
                requires
                    e2 == err2 - 2 * dy,
                    y2 == y + ystep,
                    ystep == 1 || ystep == -1,
                    err2 == dx - 2 * (x - x0) * dy + 2 * ((y - y0) * ystep) * dx,
            ;
            assert(dx > 0);
            lemma_bres_rec_run(x0, y0, x + 1, y2, e2 + 2 * dx, dx, dy, ystep, steep);
        } else {
            assert(e2 == dx - 2 * ((x + 1) - x0) * dy + 2 * ((y - y0) * ystep) * dx)
                by (nonlinear_arith)
                requires
                    e2 == err2 - 2 * dy,
                    err2 == dx - 2 * (x - x0) * dy + 2 * ((y - y0) * ystep) * dx,
            ;
            if dx == 0 {
                assert(dy == 0);
                assert(e2 == err2);
            }
            lemma_bres_rec_run(x0, y0, x + 1, y, e2, dx, dy, ystep, steep);
        }
    }
}

/// The shape of every Bresenham line: it has one point per unit of the
/// dominant extent, its first and last points are exactly the two given
/// endpoints, and the dominant coordinate advances by one per point, so
/// a run is monotonic in the dominant axis.
pub proof fn lemma_bresenham_line_shape(s: (int, int), e: (int, int))
    ensures
        ({
            let pts = line_pts(s, e);
            let dom = if line_steep(s, e) {
                abs_i(e.1 - s.1)
            } else {
                abs_i(e.0 - s.0)
            };
            &&& pts.len() == dom + 1
            &&& (pts[0] == s && pts[pts.len() - 1] == e) || (pts[0] == e && pts[pts.len() - 1]
                == s)
            &&& (forall|k: int|
                0 <= k < pts.len() - 1 ==> (if line_steep(s, e) {
                    #[trigger] pts[k + 1].1 == pts[k].1 + 1
                } else {
                    pts[k + 1].0 == pts[k].0 + 1
                }))
        }),
{
    let (a, b, st) = line_norm(s, e);
    let dx = b.0 - a.0;
    let dy = abs_i(b.1 - a.1);
    let ystep: int = if a.1 < b.1 {
        1
    } else {
        -1
    };
    assert(dx == dx - 2 * (a.0 - a.0) * dy + 2 * ((a.1 - a.1) * ystep) * dx) by (nonlinear_arith);
    lemma_bres_rec_run(a.0, a.1, a.0, a.1, dx, dx, dy, ystep, st);
    let pts = line_pts(s, e);
    assert(pts[pts.len() - 1] == untranspose((b.0, a.1 + dy * ystep), st));
    assert(a.1 + dy * ystep == b.1) by (nonlinear_arith)
        requires
            dy == abs_i(b.1 - a.1),
            ystep == (if a.1 < b.1 { 1int } else { -1int }),
    ;
    assert forall|k: int| 0 <= k < pts.len() - 1 implies (if line_steep(s, e) {
        #[trigger] pts[k + 1].1 == pts[k].1 + 1
    } else {
        pts[k + 1].0 == pts[k].0 + 1
    }) by {
        assert(pts[k] == untranspose((a.0 + k, if st { pts[k].0 } else { pts[k].1 }), st));
        assert(pts[k + 1] == untranspose((a.0 + k + 1, if st { pts[k + 1].0 } else { pts[k + 1].1 }), st));
    }
}

/// A horizontal line covers exactly the span between its endpoints.
pub proof fn lemma_line_pts_horizontal(x0: int, x1: int, y: int)
    ensures
        forall|i: int, j: int|
            #[trigger] on_line((x0, y), (x1, y), i, j) <==> ((if x0 <= x1 {
                x0 <= i <= x1
            } else {
                x1 <= i <= x0
            }) && j == y),
{
    let lo = if x0 <= x1 { x0 } else { x1 };
    let hi = if x0 <= x1 { x1 } else { x0 };
    lemma_bres_rec_const_y(lo, y, hi - lo, hi - lo, hi, false);
}

/// A vertical line covers exactly the span between its endpoints.
pub proof fn lemma_line_pts_vertical(x: int, y0: int, y1: int)
    ensures
        forall|i: int, j: int|
            #[trigger] on_line((x, y0), (x, y1), i, j) <==> (i == x && (if y0 <= y1 {
                y0 <= j <= y1
            } else {
                y1 <= j <= y0
            })),
{
    if y0 == y1 {
        lemma_line_pts_horizontal(x, x, y0);
    } else {
        let lo = if y0 <= y1 { y0 } else { y1 };
        let hi = if y0 <= y1 { y1 } else { y0 };
        lemma_bres_rec_const_y(lo, x, hi - lo, hi - lo, hi, true);
    }
}

/// A walk whose secondary delta is zero never leaves its row: it yields
/// exactly the span of dominant coordinates from `x` to `end_x`.
proof fn lemma_bres_rec_const_y(x: int, y: int, err2: int, dx: int, end_x: int, steep: bool)
    requires
        err2 >= 0,
        x <= end_x + 1,
        end_x - x <= dx,
    ensures
        ({
            let s = bres_rec(x, y, err2, dx, 0, -1, end_x, steep);
            forall|i: int, j: int|
                #[trigger] pts_contain(s, i, j) <==> (if steep {
                    i == y && x <= j <= end_x
                } else {
                    j == y && x <= i <= end_x
                })
        }),
    decreases end_x - x + 1,
{
    let s = bres_rec(x, y, err2, dx, 0, -1, end_x, steep);
    if x > end_x {
        assert(forall|i: int, j: int| !pts_contain(s, i, j));
    } else {
        lemma_bres_rec_const_y(x + 1, y, err2, dx, end_x, steep);
        let tail = bres_rec(x + 1, y, err2, dx, 0, -1, end_x, steep);
        assert(s == seq![untranspose((x, y), steep)] + tail);
        assert forall|i: int, j: int| #[trigger] pts_contain(s, i, j) implies (if steep {
            i == y && x <= j <= end_x
        } else {
            j == y && x <= i <= end_x
        }) by {
            let k = choose|k: int| 0 <= k < s.len() && s[k] == (i, j);
            if k == 0 {
            } else {
                assert(tail[k - 1] == (i, j));
                assert(pts_contain(tail, i, j));
            }
        }
        assert forall|i: int, j: int| (if steep {
            i == y && x <= j <= end_x
        } else {
            j == y && x <= i <= end_x
        }) implies #[trigger] pts_contain(s, i, j) by {
            let d = if steep { j } else { i };
            if d == x {
                assert(s[0] == (i, j));
            } else {
                assert(pts_contain(tail, i, j));
                let k = choose|k: int| 0 <= k < tail.len() && tail[k] == (i, j);
                assert(s[k + 1] == (i, j));
            }
        }
    }
}

/// Iterates over the integer coordinates of a line segment, walking the
/// dominant axis one pixel at a time with a doubled integer error term.
pub struct BresenhamLineIter {
    pub dx: i32,
    pub dy: i32,
    pub x: i32,
    pub y: i32,
    pub err2: i64,
    pub end_x: i32,
    pub is_steep: bool,
    pub y_step: i32,
    pub start: Ghost<(int, int)>,
}

impl BresenhamLineIter {
    /// The stepping invariant: the error term encodes how many secondary
    /// steps the walk from `start` has taken so far.
    pub open spec fn wf(self) -> bool {
        &&& -0x2000_0000 <= self.start@.0 <= 0x2000_0000
        &&& -0x2000_0000 <= self.start@.1 <= 0x2000_0000
        &&& 0 <= self.dy <= self.dx <= 0x4000_0000
        &&& self.end_x == self.start@.0 + self.dx
        &&& self.y_step == 1 || self.y_step == -1
        &&& self.start@.0 <= self.x <= self.end_x + 1
        &&& self.err2 == self.dx - 2 * (self.x - self.start@.0) * self.dy + 2 * (((self.y
            - self.start@.1) * self.y_step) * self.dx)
        &&& 0 <= self.err2
        &&& (self.dx > 0 ==> self.err2 < 2 * self.dx)
        &&& (self.dx == 0 ==> self.y == self.start@.1)
        &&& self.start@.1 - (self.dy + 1) <= self.y <= self.start@.1 + self.dy + 1
        &&& 0 <= (self.y - self.start@.1) * self.y_step
    }

    /// The points this iterator has yet to yield.
    pub open spec fn remaining(self) -> Seq<(int, int)> {
        bres_rec(
            self.x as int,
            self.y as int,
            self.err2 as int,
            self.dx as int,
            self.dy as int,
            self.y_step as int,
            self.end_x as int,
            self.is_steep,
        )
    }

    /// Creates an iterator over the integer coordinates of the line
    /// between `start` and `end`.
    pub fn new(start: (i32, i32), end: (i32, i32)) -> (it: BresenhamLineIter)
        requires
            coord_ok((start.0 as int, start.1 as int)),
            coord_ok((end.0 as int, end.1 as int)),
        ensures
            it.wf(),
            it.remaining() == line_pts(
                (start.0 as int, start.1 as int),
                (end.0 as int, end.1 as int),
            ),
    {
        let (mut x0, mut y0) = (start.0, start.1);
        let (mut x1, mut y1) = (end.0, end.1);

        let ady = if y1 >= y0 {
            y1 - y0
        } else {
            y0 - y1
        };
        let adx = if x1 >= x0 {
            x1 - x0
        } else {
            x0 - x1
        };
        let is_steep = ady > adx;
        if is_steep {
            let t0 = x0;
            x0 = y0;
            y0 = t0;
            let t1 = x1;
            x1 = y1;
            y1 = t1;
        }
        if x0 > x1 {
            let tx = x0;
            x0 = x1;
            x1 = tx;
            let ty = y0;
            y0 = y1;
            y1 = ty;
        }
        let dx = x1 - x0;
        let dy = if y1 >= y0 {
            y1 - y0
        } else {
            y0 - y1
        };
        let it = BresenhamLineIter {
            dx,
            dy,
            x: x0,
            y: y0,
            err2: dx as i64,
            end_x: x1,
            is_steep,
            y_step: if y0 < y1 {
                1
            } else {
                -1
            },
            start: Ghost((x0 as int, y0 as int)),
        };
        proof {
            assert(it.dx == it.dx - 2 * (it.x - it.start@.0) * it.dy + 2 * (((it.y - it.start@.1)
                * it.y_step) * it.dx)) by (nonlinear_arith)
                requires
                    it.x == it.start@.0,
                    it.y == it.start@.1,
            ;
            assert((it.y - it.start@.1) * it.y_step == 0) by (nonlinear_arith)
                requires
                    it.y == it.start@.1,
            ;
        }
        it
    }

    /// Yield the next point of the line, or `None` once the walk has
    /// passed the final dominant coordinate.
    pub fn next(&mut self) -> (r: Option<(i32, i32)>)
        requires
            old(self).wf(),
        ensures
            final(self).wf(),
            old(self).remaining().len() == 0 ==> r is None && *final(self) == *old(self),
            old(self).remaining().len() > 0 ==> {
                &&& r matches Some(q) && (q.0 as int, q.1 as int) == old(self).remaining()[0]
                &&& final(self).remaining() == old(self).remaining().drop_first()
            },
    {
        if self.x > self.end_x {
            None
        } else {
            let ret = if self.is_steep {
                (self.y, self.x)
            } else {
                (self.x, self.y)
            };
            let ghost pre = *self;
            self.x = self.x + 1;
            self.err2 = self.err2 - 2 * (self.dy as i64);
            if self.err2 < 0 {
                proof {
                    assert((pre.y - pre.start@.1) * pre.y_step <= pre.dy) by (nonlinear_arith)
                        requires
                            pre.err2 == pre.dx - 2 * (pre.x - pre.start@.0) * pre.dy + 2 * (((pre.y
                                - pre.start@.1) * pre.y_step) * pre.dx),
                            0 <= pre.err2,
                            pre.dx > 0 ==> pre.err2 < 2 * pre.dx,
                            pre.dx == 0 ==> pre.y == pre.start@.1,
                            0 <= pre.dy <= pre.dx,
                            pre.start@.0 <= pre.x <= pre.end_x,
                            pre.end_x == pre.start@.0 + pre.dx,
                            pre.err2 - 2 * pre.dy < 0,
                    ;
                }
                self.y = self.y + self.y_step;
                self.err2 = self.err2 + 2 * (self.dx as i64);
                proof {
                    assert(self.err2 == self.dx - 2 * (self.x - self.start@.0) * self.dy + 2 * (((
                    self.y - self.start@.1) * self.y_step) * self.dx) && 0 <= (self.y
                        - self.start@.1) * self.y_step <= self.dy + 1) by (nonlinear_arith)
                        requires
                            pre.err2 == pre.dx - 2 * (pre.x - pre.start@.0) * pre.dy + 2 * (((pre.y
                                - pre.start@.1) * pre.y_step) * pre.dx),
                            (pre.y - pre.start@.1) * pre.y_step <= pre.dy,
                            0 <= (pre.y - pre.start@.1) * pre.y_step,
                            pre.y_step == 1 || pre.y_step == -1,
                            self.x == pre.x + 1,
                            self.y == pre.y + pre.y_step,
                            self.err2 == pre.err2 - 2 * pre.dy + 2 * pre.dx,
                            self.dx == pre.dx,
                            self.dy == pre.dy,
                            self.y_step == pre.y_step,
                            self.start == pre.start,
                    ;
                }
            } else {
                proof {
                    assert(self.err2 == self.dx - 2 * (self.x - self.start@.0) * self.dy + 2 * (((
                    self.y - self.start@.1) * self.y_step) * self.dx)) by (nonlinear_arith)
                        requires
                            pre.err2 == pre.dx - 2 * (pre.x - pre.start@.0) * pre.dy + 2 * (((pre.y
                                - pre.start@.1) * pre.y_step) * pre.dx),
                            self.x == pre.x + 1,
                            self.y == pre.y,
                            self.err2 == pre.err2 - 2 * pre.dy,
                            self.dx == pre.dx,
                            self.dy == pre.dy,
                            self.y_step == pre.y_step,
                            self.start == pre.start,
                    ;
                    if self.dx == 0 {
                        assert(self.dy == 0);
                    }
                }
            }
            Some(ret)
        }
    }
}

/// The integer pixel sequence connecting `start` and `end`.
pub fn bresenham_points(start: (i32, i32), end: (i32, i32)) -> (r: Vec<(i32, i32)>)
    requires
        coord_ok((start.0 as int, start.1 as int)),
        coord_ok((end.0 as int, end.1 as int)),
    ensures
        ({
            let pts = line_pts((start.0 as int, start.1 as int), (end.0 as int, end.1 as int));
            &&& r@.len() == pts.len()
            &&& forall|k: int| 0 <= k < pts.len() ==> (r@[k].0 as int, r@[k].1 as int) == pts[k]
        }),
{
    let ghost total = line_pts((start.0 as int, start.1 as int), (end.0 as int, end.1 as int));
    let mut it = BresenhamLineIter::new(start, end);
    let mut out: Vec<(i32, i32)> = Vec::new();
    loop
        invariant_except_break
            it.wf(),
            out@.len() <= total.len(),
            it.remaining() == total.skip(out@.len() as int),
            forall|k: int| 0 <= k < out@.len() ==> (out@[k].0 as int, out@[k].1 as int) == total[k],
        ensures
            out@.len() == total.len(),
            forall|k: int| 0 <= k < out@.len() ==> (out@[k].0 as int, out@[k].1 as int) == total[k],
        decreases it.remaining().len(),
    {
        let ghost n = out@.len() as int;
        match it.next() {
            Some(p) => {
                proof {
                    assert(total.skip(n).drop_first() =~= total.skip(n + 1));
                }
                out.push(p);
            },
            None => {
                proof {
                    assert(total.skip(n).len() == 0);
                }
                break;
            },
        }
    }
    out
}

impl Canvas {
    /// Draws a line segment in place, painting every pixel of the
    /// Bresenham sequence between `start` and `end` that lies inside
    /// the canvas.
    pub fn draw_line_segment_mut(&mut self, start: (i32, i32), end: (i32, i32), color: Rgba)
        requires
            old(self).wf(),
            coord_ok((start.0 as int, start.1 as int)),
            coord_ok((end.0 as int, end.1 as int)),
        ensures
            final(self).wf(),
            final(self).width == old(self).width,
            final(self).height == old(self).height,
            forall|i: int, j: int|
                old(self).in_bounds(i, j) ==> final(self).pix(i, j) == (if on_line(
                    (start.0 as int, start.1 as int),
                    (end.0 as int, end.1 as int),
                    i,
                    j,
                ) {
                    color
                } else {
                    old(self).pix(i, j)
                }),
    {
        let ghost pts = line_pts((start.0 as int, start.1 as int), (end.0 as int, end.1 as int));
        let points = bresenham_points(start, end);
        let mut k: usize = 0;
        while k < points.len()
            invariant
                self.wf(),
                self.width == old(self).width,
                self.height == old(self).height,
                k <= points.len(),
                points@.len() == pts.len(),
                forall|m: int|
                    0 <= m < pts.len() ==> (points@[m].0 as int, points@[m].1 as int) == pts[m],
                forall|i: int, j: int|
                    old(self).in_bounds(i, j) ==> self.pix(i, j) == (if pts_contain(
                        pts.take(k as int),
                        i,
                        j,
                    ) {
                        color
                    } else {
                        old(self).pix(i, j)
                    }),
            decreases points.len() - k,
        {
            let p = points[k];
            self.draw_if_in_bounds(p.0, p.1, color);
            proof {
                let prev = pts.take(k as int);
                let cur = pts.take(k as int + 1);
                assert forall|i: int, j: int| #[trigger] pts_contain(cur, i, j) && !((i, j) == (
                    p.0 as int,
                    p.1 as int,
                )) implies pts_contain(prev, i, j) by {
                    let m = choose|m: int| 0 <= m < cur.len() && cur[m] == (i, j);
                    assert(m < k as int);
                    assert(prev[m] == (i, j));
                }
                assert forall|i: int, j: int| #[trigger] pts_contain(prev, i, j) implies
                    pts_contain(cur, i, j) by {
                    let m = choose|m: int| 0 <= m < prev.len() && prev[m] == (i, j);
                    assert(cur[m] == (i, j));
                }
                assert(cur[k as int] == (p.0 as int, p.1 as int));
                assert(pts_contain(cur, p.0 as int, p.1 as int));
            }
            k += 1;
        }
        proof {
            assert(pts.take(pts.len() as int) =~= pts);
        }
    }
}

} // verus!
