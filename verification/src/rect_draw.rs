use vstd::prelude::*;
use crate::canvas::Canvas;
use crate::color::Rgba;
use crate::geom::Rect;
use crate::bres::{on_line, lemma_line_pts_horizontal, lemma_line_pts_vertical};
use crate::conic::{circle_ok, on_filled_circle};
use crate::Error;

verus! {

/// A rectangle whose corners stay well inside the line walk's
/// coordinate range.
pub open spec fn rect_coord_ok(r: Rect) -> bool {
    &&& -0x1000_0000 <= r.spec_left() <= 0x1000_0000
    &&& -0x1000_0000 <= r.spec_top() <= 0x1000_0000
    &&& -0x1000_0000 <= r.spec_right() <= 0x1000_0000
    &&& -0x1000_0000 <= r.spec_bottom() <= 0x1000_0000
}

/// The pixel set of a rectangle outline: its two edge rows and two edge
/// columns.
pub open spec fn on_rect_border(r: Rect, i: int, j: int) -> bool {
    ||| ((j == r.spec_top() || j == r.spec_bottom()) && r.spec_left() <= i <= r.spec_right())
    ||| ((i == r.spec_left() || i == r.spec_right()) && r.spec_top() <= j <= r.spec_bottom())
}

/// The pixel set of a colored cross at (x, y): the center pixel and its
/// four axis neighbors.
pub open spec fn on_cross(x: int, y: int, i: int, j: int) -> bool {
    ||| (i == x && y - 1 <= j <= y + 1)
    ||| (j == y && x - 1 <= i <= x + 1)
}

/// The pixel set of a filled rounded rectangle: four corner discs of the
/// given radius, and two straight bands that cover the rest.
pub open spec fn on_rounded_rect(r: Rect, radius: int, i: int, j: int) -> bool {
    let l = r.spec_left();
    let t = r.spec_top();
    let rr = r.spec_right();
    let b = r.spec_bottom();
    ||| on_filled_circle((l + radius, t + radius), radius, i, j)
    ||| on_filled_circle((l + radius, b - radius), radius, i, j)
    ||| on_filled_circle((rr - radius, t + radius), radius, i, j)
    ||| on_filled_circle((rr - radius, b - radius), radius, i, j)
    ||| (l <= i <= rr && t + radius <= j <= b - radius)
    ||| (l + radius <= i <= rr - radius && t <= j <= b)
}

impl Canvas {
    /// An independent canvas holding the same pixels.
    pub fn duplicate(&self) -> (out: Canvas)
        requires
            self.wf(),
        ensures
            out.wf(),
            out.width == self.width,
            out.height == self.height,
            out.data@ == self.data@,
    {
        let mut data: Vec<Rgba> = Vec::new();
        let n = self.data.len();
        let mut i: usize = 0;
        while i < n
            invariant
                0 <= i <= n,
                n == self.data.len(),
                data.len() == i,
                forall|k: int| 0 <= k < i ==> data[k] == self.data[k],
            decreases n - i,
        {
            data.push(self.data[i]);
            i += 1;
        }
        proof {
            assert(data@ =~= self.data@);
        }
        Canvas { width: self.width, height: self.height, data }
    }

    /// Paints the pixels of row `y` with x in `[from, to_excl)`, which
    /// must lie inside the canvas, and leaves every other pixel alone.
    pub(crate) fn fill_row_mut(&mut self, y: i64, from: i64, to_excl: i64, color: Rgba)
        requires
            old(self).wf(),
            0 <= y < old(self).h(),
            0 <= from,
            to_excl <= old(self).w(),
        ensures
            final(self).wf(),
            final(self).width == old(self).width,
            final(self).height == old(self).height,
            forall|i: int, j: int|
                old(self).in_bounds(i, j) ==> final(self).pix(i, j) == (if j == y && from <= i
                    < to_excl {
                    color
                } else {
                    old(self).pix(i, j)
                }),
    {
        let mut x: i64 = from;
        while x < to_excl
            invariant
                self.wf(),
                self.width == old(self).width,
                self.height == old(self).height,
                0 <= y < self.h(),
                0 <= from,
                to_excl <= self.w(),
                from <= x,
                x <= to_excl || x == from,
                forall|i: int, j: int|
                    old(self).in_bounds(i, j) ==> self.pix(i, j) == (if j == y && from <= i < x {
                        color
                    } else {
                        old(self).pix(i, j)
                    }),
            decreases to_excl - x,
        {
            self.put_pixel(x as u32, y as u32, color);
            x += 1;
        }
    }

    /// Draws a rectangle and its contents in place; only the part inside
    /// the canvas is painted.
    pub fn draw_filled_rect_mut(&mut self, rect: Rect, color: Rgba)
        requires
            old(self).wf(),
            rect.wf(),
        ensures
            final(self).wf(),
            final(self).width == old(self).width,
            final(self).height == old(self).height,
            forall|i: int, j: int|
                old(self).in_bounds(i, j) ==> final(self).pix(i, j) == (if rect.contains(i, j) {
                    color
                } else {
                    old(self).pix(i, j)
                }),
    {
        // Clip the rectangle to the canvas; the row fills then stay in bounds.
        let left: i64 = if rect.left() >= 0 {
            rect.left() as i64
        } else {
            0
        };
        let top: i64 = if rect.top() >= 0 {
            rect.top() as i64
        } else {
            0
        };
        let w: i64 = self.width() as i64;
        let h: i64 = self.height() as i64;
        let right_excl: i64 = {
            let r = rect.right() as i64 + 1;
            if r <= w {
                r
            } else {
                w
            }
        };
        let bottom_excl: i64 = {
            let b = rect.bottom() as i64 + 1;
            if b <= h {
                b
            } else {
                h
            }
        };
        let mut y: i64 = top;
        while y < bottom_excl
            invariant
                self.wf(),
                self.width == old(self).width,
                self.height == old(self).height,
                rect.wf(),
                w == self.width as int,
                h == self.height as int,
                left == (if rect.spec_left() >= 0 { rect.spec_left() } else { 0 }),
                top == (if rect.spec_top() >= 0 { rect.spec_top() } else { 0 }),
                right_excl == (if rect.spec_right() + 1 <= w { rect.spec_right() + 1 } else { w as int }),
                bottom_excl == (if rect.spec_bottom() + 1 <= h { rect.spec_bottom() + 1 } else { h as int }),
                top <= y,
                y <= bottom_excl || y == top,
                forall|i: int, j: int|
                    old(self).in_bounds(i, j) ==> self.pix(i, j) == (if rect.contains(i, j) && j
                        < y {
                        color
                    } else {
                        old(self).pix(i, j)
                    }),
            decreases bottom_excl - y,
        {
            self.fill_row_mut(y, left, right_excl, color);
            proof {
                assert forall|i: int, j: int| old(self).in_bounds(i, j) implies self.pix(i, j)
                    == (if rect.contains(i, j) && j < y + 1 {
                    color
                } else {
                    old(self).pix(i, j)
                }) by {
                    if rect.contains(i, j) && j == y as int && 0 <= i < self.w() {
                        assert(left <= i < right_excl);
                    }
                }
            }
            y += 1;
        }
    }

    /// Draws the outline of a rectangle in place; only the part inside
    /// the canvas is painted.
    pub fn draw_hollow_rect_mut(&mut self, rect: Rect, color: Rgba)
        requires
            old(self).wf(),
            rect.wf(),
            rect_coord_ok(rect),
        ensures
            final(self).wf(),
            final(self).width == old(self).width,
            final(self).height == old(self).height,
            forall|i: int, j: int|
                old(self).in_bounds(i, j) ==> final(self).pix(i, j) == (if on_rect_border(
                    rect,
                    i,
                    j,
                ) {
                    color
                } else {
                    old(self).pix(i, j)
                }),
    {
        let left = rect.left();
        let top = rect.top();
        let right = rect.right();
        let bottom = rect.bottom();
        self.draw_line_segment_mut((left, top), (right, top), color);
        self.draw_line_segment_mut((left, bottom), (right, bottom), color);
        self.draw_line_segment_mut((left, top), (left, bottom), color);
        self.draw_line_segment_mut((right, top), (right, bottom), color);
        proof {
            lemma_line_pts_horizontal(left as int, right as int, top as int);
            lemma_line_pts_horizontal(left as int, right as int, bottom as int);
            lemma_line_pts_vertical(left as int, top as int, bottom as int);
            lemma_line_pts_vertical(right as int, top as int, bottom as int);
        }
    }

    /// Draws a colored cross in place: the pixel at (x, y) and its four
    /// axis neighbors, each dropped when outside the canvas.
    pub fn draw_cross_mut(&mut self, color: Rgba, x: i32, y: i32)
        requires
            old(self).wf(),
            -0x1000_0000 <= x <= 0x1000_0000,
            -0x1000_0000 <= y <= 0x1000_0000,
        ensures
            final(self).wf(),
            final(self).width == old(self).width,
            final(self).height == old(self).height,
            forall|i: int, j: int|
                old(self).in_bounds(i, j) ==> final(self).pix(i, j) == (if on_cross(
                    x as int,
                    y as int,
                    i,
                    j,
                ) {
                    color
                } else {
                    old(self).pix(i, j)
                }),
    {
        self.draw_if_in_bounds(x, y - 1, color);
        self.draw_if_in_bounds(x - 1, y, color);
        self.draw_if_in_bounds(x, y, color);
        self.draw_if_in_bounds(x + 1, y, color);
        self.draw_if_in_bounds(x, y + 1, color);
    }

    /// Draws a filled rounded rectangle in place: four corner discs and
    /// two straight bands that together cover the rounded area.
    pub fn draw_filled_rounded_rect_mut(&mut self, rect: Rect, radius: i32, color: Rgba)
        requires
            old(self).wf(),
            rect.wf(),
            rect_coord_ok(rect),
            0 <= radius <= 1000000,
            2 * radius + 1 <= rect.spec_width(),
            2 * radius + 1 <= rect.spec_height(),
        ensures
            final(self).wf(),
            final(self).width == old(self).width,
            final(self).height == old(self).height,
            forall|i: int, j: int|
                old(self).in_bounds(i, j) ==> final(self).pix(i, j) == (if on_rounded_rect(
                    rect,
                    radius as int,
                    i,
                    j,
                ) {
                    color
                } else {
                    old(self).pix(i, j)
                }),
    {
        let left = rect.left();
        let top = rect.top();
        let right = rect.right();
        let bottom = rect.bottom();
        self.draw_filled_circle_mut((left + radius, top + radius), radius, color);
        self.draw_filled_circle_mut((left + radius, bottom - radius), radius, color);
        self.draw_filled_circle_mut((right - radius, top + radius), radius, color);
        self.draw_filled_circle_mut((right - radius, bottom - radius), radius, color);
        let band_h = Rect::at(left, top + radius).of_size(
            rect.width(),
            (rect.height() as u64 - 2 * (radius as u64)) as u32,
        );
        self.draw_filled_rect_mut(band_h, color);
        let band_v = Rect::at(left + radius, top).of_size(
            (rect.width() as u64 - 2 * (radius as u64)) as u32,
            rect.height(),
        );
        self.draw_filled_rect_mut(band_v, color);
    }

    /// The hollow rounded-rectangle outline is not provided: the canvas
    /// is left untouched and the call reports `Unsupported`.
    pub fn draw_hollow_rounded_rect_mut(&mut self, _rect: Rect, _radius: i32, _color: Rgba) -> (r:
        Result<(), Error>)
        requires
            old(self).wf(),
        ensures
            final(self).wf(),
            *final(self) == *old(self),
            r == Err::<(), Error>(Error::Unsupported),
    {
        Err(Error::Unsupported)
    }
}

} // verus!
