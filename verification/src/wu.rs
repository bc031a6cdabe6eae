use vstd::prelude::*;
use crate::canvas::Canvas;
use crate::color::Rgba;
use crate::bres::{coord_ok, line_norm, line_steep};
use crate::blend::{blend_px, weighted_sum};

verus! {

/// The row the ideal line passes through at dominant coordinate `d`:
/// the floor of the interpolated secondary coordinate.
pub open spec fn wu_row(a: (int, int), dy: int, den: int, d: int) -> int {
    a.1 + ((d - a.0) * dy) / den
}

/// The fractional part of the interpolated secondary coordinate, as a
/// numerator over `den`.
pub open spec fn wu_frac(a: (int, int), dy: int, den: int, d: int) -> int {
    ((d - a.0) * dy) % den
}

/// The pixel value after the antialiased line from `s` to `e` has been
/// drawn over `oldpix` at (i, j): each dominant coordinate blends the
/// line color into the two pixels bracketing the ideal line, weighted
/// by their coverage; every other pixel keeps its value.
pub open spec fn wu_paint(
    s: (int, int),
    e: (int, int),
    oldpix: Rgba,
    color: Rgba,
    i: int,
    j: int,
) -> Rgba {
    let (a, b, st) = line_norm(s, e);
    let dx = b.0 - a.0;
    let den = if dx >= 1 {
        dx
    } else {
        1
    };
    let d = if st {
        j
    } else {
        i
    };
    let r = if st {
        i
    } else {
        j
    };
    if a.0 <= d <= b.0 {
        let row = wu_row(a, b.1 - a.1, den, d);
        let fr = wu_frac(a, b.1 - a.1, den, d);
        if r == row {
            blend_px(color, oldpix, den - fr, den)
        } else if r == row + 1 {
            blend_px(color, oldpix, fr, den)
        } else {
            oldpix
        }
    } else {
        oldpix
    }
}

/// Floor division and Euclidean remainder of `a` by a positive `b`.
fn floor_div_mod(a: i64, b: i64) -> (r: (i64, i64))
    requires
        1 <= b <= 0x1_0000_0000,
        -0x2000_0000_0000_0000 <= a <= 0x2000_0000_0000_0000,
    ensures
        r.0 == a as int / b as int,
        r.1 == a as int % b as int,
{
    let q: i64 = if a >= 0 {
        ((a as u64) / (b as u64)) as i64
    } else {
        let m = ((((-a) as u64) + (b as u64) - 1) / (b as u64)) as i64;
        -m
    };
    proof {
        if a >= 0 {
            assert(q == a as int / b as int && (a as int / b as int) * b <= a as int && a as int
                - (a as int / b as int) * b == a as int % b as int && a as int - (a as int
                / b as int) * b < b) by (nonlinear_arith)
                requires
                    b >= 1,
                    a >= 0,
                    q == a as int / b as int,
            ;
        } else {
            let x = (-a) + b - 1;
            let m = x as int / b as int;
            vstd::arithmetic::div_mod::lemma_fundamental_div_mod(x as int, b as int);
            vstd::arithmetic::div_mod::lemma_mod_bound(x as int, b as int);
            vstd::arithmetic::div_mod::lemma_fundamental_div_mod(a as int, b as int);
            vstd::arithmetic::div_mod::lemma_mod_bound(a as int, b as int);
            assert(q * b <= a && a - q * b < b) by (nonlinear_arith)
                requires
                    b >= 1,
                    q == -m,
                    x == (-a) + b - 1,
                    x as int == b * m + (x as int % b as int),
                    0 <= (x as int % b as int) && (x as int % b as int) < b,
            ;
            assert(q == a as int / b as int && a - q * b == a as int % b as int)
                by (nonlinear_arith)
                requires
                    b >= 1,
                    q * b <= a,
                    a - q * b < b,
                    a as int == b * (a as int / b as int) + (a as int % b as int),
                    0 <= (a as int % b as int) && (a as int % b as int) < b,
            ;
        }
    }
    let rem: i64 = a - q * b;
    (q, rem)
}

impl Canvas {
    /// Draws an antialiased line segment in place, splitting each step's
    /// coverage between the two pixels bracketing the ideal line and
    /// blending with the pixels underneath; pixels outside the canvas
    /// are dropped.
    pub fn draw_antialiased_line_segment_mut(
        &mut self,
        start: (i32, i32),
        end: (i32, i32),
        color: Rgba,
    )
        requires
            old(self).wf(),
            coord_ok((start.0 as int, start.1 as int)),
            coord_ok((end.0 as int, end.1 as int)),
        ensures
            final(self).wf(),
            final(self).width == old(self).width,
            final(self).height == old(self).height,
            forall|i: int, j: int|
                old(self).in_bounds(i, j) ==> final(self).pix(i, j) == wu_paint(
                    (start.0 as int, start.1 as int),
                    (end.0 as int, end.1 as int),
                    old(self).pix(i, j),
                    color,
                    i,
                    j,
                ),
    {
        let ghost s0 = (start.0 as int, start.1 as int);
        let ghost e0 = (end.0 as int, end.1 as int);
        let (mut x0, mut y0) = (start.0, start.1);
        let (mut x1, mut y1) = (end.0, end.1);
        let ady = if y1 >= y0 {
            y1 - y0
        } else {
            y0 - y1
        };
        let adx = if x1 >= x0 {
            x1 - x0
        } else {
            x0 - x1
        };
        let is_steep = ady > adx;
        if is_steep {
            let t0 = x0;
            x0 = y0;
            y0 = t0;
            let t1 = x1;
            x1 = y1;
            y1 = t1;
        }
        if x0 > x1 {
            let tx = x0;
            x0 = x1;
            x1 = tx;
            let ty = y0;
            y0 = y1;
            y1 = ty;
        }
        let ghost st = line_steep(s0, e0);
        let ghost a = (x0 as int, y0 as int);
        let dx: i64 = (x1 - x0) as i64;
        let dy: i64 = (y1 - y0) as i64;
        let den: i64 = if dx >= 1 {
            dx
        } else {
            1
        };
        let mut d: i32 = x0;
        while d <= x1
            invariant
                self.wf(),
                self.width == old(self).width,
                self.height == old(self).height,
                coord_ok(s0),
                coord_ok(e0),
                (a, (x1 as int, y1 as int), st) == line_norm(s0, e0),
                is_steep == st,
                a == (x0 as int, y0 as int),
                x0 <= x1,
                dx == x1 - x0,
                dy == y1 - y0,
                den == (if dx >= 1 {
                    dx as int
                } else {
                    1
                }),
                -0x2000_0000 <= x0 <= 0x2000_0000,
                -0x2000_0000 <= x1 <= 0x2000_0000,
                -0x2000_0000 <= y0 <= 0x2000_0000,
                -0x2000_0000 <= y1 <= 0x2000_0000,
                x0 <= d,
                d <= x1 + 1,
                forall|i: int, j: int|
                    old(self).in_bounds(i, j) ==> self.pix(i, j) == (if (if st {
                        j
                    } else {
                        i
                    }) < d {
                        wu_paint(s0, e0, old(self).pix(i, j), color, i, j)
                    } else {
                        old(self).pix(i, j)
                    }),
            decreases x1 + 1 - d,
        {
            let ghost pre = *self;
            proof {
                assert(-0x2000_0000_0000_0000 <= ((d - x0) as int) * (dy as int)
                    <= 0x2000_0000_0000_0000) by (nonlinear_arith)
                    requires
                        0 <= (d - x0) as int <= 0x4000_0001,
                        -0x4000_0001 <= dy as int <= 0x4000_0001,
                ;
            }
            let num: i64 = ((d - x0) as i64) * dy;
            let (q, fr) = floor_div_mod(num, den);
            proof {
                assert(0 <= (num as int % den as int) && (num as int % den as int) < (den as int)) by (nonlinear_arith)
                    requires
                        den as int >= 1,
                ;
                assert(-0x2000_0000_0000_0000 <= q <= 0x2000_0000_0000_0000)
                    by (nonlinear_arith)
                    requires
                        q == num as int / den as int,
                        -0x2000_0000_0000_0000 <= num as int <= 0x2000_0000_0000_0000,
                        1 <= den as int,
                ;
            }
            let row: i64 = (y0 as i64) + q;
            // Blend into the two bracketing pixels of this column.
            let (px1, py1) = if is_steep {
                (row, d as i64)
            } else {
                (d as i64, row)
            };
            if 0 <= px1 && px1 < self.width() as i64 && 0 <= py1 && py1 < self.height() as i64 {
                let o = self.get_pixel(px1 as u32, py1 as u32);
                let np = weighted_sum(color, o, (den - fr) as u32, den as u32);
                self.put_pixel(px1 as u32, py1 as u32, np);
            }
            let (px2, py2) = if is_steep {
                (row + 1, d as i64)
            } else {
                (d as i64, row + 1)
            };
            if 0 <= px2 && px2 < self.width() as i64 && 0 <= py2 && py2 < self.height() as i64 {
                let o = self.get_pixel(px2 as u32, py2 as u32);
                let np = weighted_sum(color, o, fr as u32, den as u32);
                self.put_pixel(px2 as u32, py2 as u32, np);
            }
            proof {
                assert forall|i: int, j: int| old(self).in_bounds(i, j) implies self.pix(i, j)
                    == (if (if st {
                    j
                } else {
                    i
                }) < d + 1 {
                    wu_paint(s0, e0, old(self).pix(i, j), color, i, j)
                } else {
                    old(self).pix(i, j)
                }) by {
                    let dc = if st {
                        j
                    } else {
                        i
                    };
                    let rc = if st {
                        i
                    } else {
                        j
                    };
                    if dc == d as int {
                        assert(wu_row(a, dy as int, den as int, dc) == row);
                        assert(wu_frac(a, dy as int, den as int, dc) == fr);
                        if rc == row {
                            assert(self.pix(i, j) == blend_px(
                                color,
                                pre.pix(i, j),
                                den - fr,
                                den as int,
                            ));
                            assert(pre.pix(i, j) == old(self).pix(i, j));
                        } else if rc == row + 1 {
                            assert(self.pix(i, j) == blend_px(
                                color,
                                pre.pix(i, j),
                                fr as int,
                                den as int,
                            ));
                            assert(pre.pix(i, j) == old(self).pix(i, j));
                        } else {
                            assert(self.pix(i, j) == pre.pix(i, j));
                        }
                    } else if dc < d as int {
                        assert(self.pix(i, j) == pre.pix(i, j));
                    } else {
                        assert(self.pix(i, j) == pre.pix(i, j));
                    }
                }
            }
            d = d + 1;
        }
    }
}

} // verus!
