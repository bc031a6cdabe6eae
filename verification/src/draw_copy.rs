use vstd::prelude::*;
use crate::canvas::Canvas;
use crate::color::Rgba;
use crate::geom::{Point, Rect};
use crate::bres::{coord_ok, on_line};
use crate::conic::{circle_ok, on_hollow_circle, on_filled_circle};
use crate::ellipse::{on_hollow_ellipse, on_filled_ellipse};
use crate::rect_draw::{rect_coord_ok, on_rect_border, on_cross, on_rounded_rect};
use crate::poly::{poly_coords_ok, degenerate, on_polygon, on_poly_outline, on_scanfill, aa_after};
use crate::wu::wu_paint;
use crate::bezier::{bez_coords_ok, on_bezier};
use crate::Error;

verus! {

// The copy forms of the drawing operations: each paints on a duplicate
// of the canvas, leaving the original untouched, with the same pixel
// sets as its in-place form.
impl Canvas {
    /// Draws a line segment on a new copy of the canvas.
    pub fn draw_line_segment(&self, start: (i32, i32), end: (i32, i32), color: Rgba) -> (out:
        Canvas)
        requires
            self.wf(),
            coord_ok((start.0 as int, start.1 as int)),
            coord_ok((end.0 as int, end.1 as int)),
        ensures
            out.wf(),
            out.width == self.width,
            out.height == self.height,
            forall|i: int, j: int|
                self.in_bounds(i, j) ==> out.pix(i, j) == (if on_line(
                    (start.0 as int, start.1 as int),
                    (end.0 as int, end.1 as int),
                    i,
                    j,
                ) {
                    color
                } else {
                    self.pix(i, j)
                }),
    {
        let mut out = self.duplicate();
        out.draw_line_segment_mut(start, end, color);
        out
    }

    /// Draws an antialiased line segment on a new copy of the canvas.
    pub fn draw_antialiased_line_segment(&self, start: (i32, i32), end: (i32, i32), color: Rgba)
        -> (out: Canvas)
        requires
            self.wf(),
            coord_ok((start.0 as int, start.1 as int)),
            coord_ok((end.0 as int, end.1 as int)),
        ensures
            out.wf(),
            out.width == self.width,
            out.height == self.height,
            forall|i: int, j: int|
                self.in_bounds(i, j) ==> out.pix(i, j) == wu_paint(
                    (start.0 as int, start.1 as int),
                    (end.0 as int, end.1 as int),
                    self.pix(i, j),
                    color,
                    i,
                    j,
                ),
    {
        let mut out = self.duplicate();
        out.draw_antialiased_line_segment_mut(start, end, color);
        out
    }

    /// Draws a hollow circle on a new copy of the canvas.
    pub fn draw_hollow_circle(&self, center: (i32, i32), radius: i32, color: Rgba) -> (out: Canvas)
        requires
            self.wf(),
            circle_ok((center.0 as int, center.1 as int), radius as int),
        ensures
            out.wf(),
            out.width == self.width,
            out.height == self.height,
            forall|i: int, j: int|
                self.in_bounds(i, j) ==> out.pix(i, j) == (if on_hollow_circle(
                    (center.0 as int, center.1 as int),
                    radius as int,
                    i,
                    j,
                ) {
                    color
                } else {
                    self.pix(i, j)
                }),
    {
        let mut out = self.duplicate();
        out.draw_hollow_circle_mut(center, radius, color);
        out
    }

    /// Draws a filled circle on a new copy of the canvas.
    pub fn draw_filled_circle(&self, center: (i32, i32), radius: i32, color: Rgba) -> (out: Canvas)
        requires
            self.wf(),
            circle_ok((center.0 as int, center.1 as int), radius as int),
        ensures
            out.wf(),
            out.width == self.width,
            out.height == self.height,
            forall|i: int, j: int|
                self.in_bounds(i, j) ==> out.pix(i, j) == (if on_filled_circle(
                    (center.0 as int, center.1 as int),
                    radius as int,
                    i,
                    j,
                ) {
                    color
                } else {
                    self.pix(i, j)
                }),
    {
        let mut out = self.duplicate();
        out.draw_filled_circle_mut(center, radius, color);
        out
    }

    /// Draws a hollow ellipse on a new copy of the canvas.
    pub fn draw_hollow_ellipse(
        &self,
        center: (i32, i32),
        width_radius: i32,
        height_radius: i32,
        color: Rgba,
    ) -> (out: Canvas)
        requires
            self.wf(),
            circle_ok((center.0 as int, center.1 as int), width_radius as int),
            circle_ok((center.0 as int, center.1 as int), height_radius as int),
        ensures
            out.wf(),
            out.width == self.width,
            out.height == self.height,
            forall|i: int, j: int|
                self.in_bounds(i, j) ==> out.pix(i, j) == (if on_hollow_ellipse(
                    (center.0 as int, center.1 as int),
                    width_radius as int,
                    height_radius as int,
                    i,
                    j,
                ) {
                    color
                } else {
                    self.pix(i, j)
                }),
    {
        let mut out = self.duplicate();
        out.draw_hollow_ellipse_mut(center, width_radius, height_radius, color);
        out
    }

    /// Draws a filled ellipse on a new copy of the canvas.
    pub fn draw_filled_ellipse(
        &self,
        center: (i32, i32),
        width_radius: i32,
        height_radius: i32,
        color: Rgba,
    ) -> (out: Canvas)
        requires
            self.wf(),
            circle_ok((center.0 as int, center.1 as int), width_radius as int),
            circle_ok((center.0 as int, center.1 as int), height_radius as int),
        ensures
            out.wf(),
            out.width == self.width,
            out.height == self.height,
            forall|i: int, j: int|
                self.in_bounds(i, j) ==> out.pix(i, j) == (if on_filled_ellipse(
                    (center.0 as int, center.1 as int),
                    width_radius as int,
                    height_radius as int,
                    i,
                    j,
                ) {
                    color
                } else {
                    self.pix(i, j)
                }),
    {
        let mut out = self.duplicate();
        out.draw_filled_ellipse_mut(center, width_radius, height_radius, color);
        out
    }

    /// Draws a colored cross on a new copy of the canvas.
    pub fn draw_cross(&self, color: Rgba, x: i32, y: i32) -> (out: Canvas)
        requires
            self.wf(),
            -0x1000_0000 <= x <= 0x1000_0000,
            -0x1000_0000 <= y <= 0x1000_0000,
        ensures
            out.wf(),
            out.width == self.width,
            out.height == self.height,
            forall|i: int, j: int|
                self.in_bounds(i, j) ==> out.pix(i, j) == (if on_cross(x as int, y as int, i, j) {
                    color
                } else {
                    self.pix(i, j)
                }),
    {
        let mut out = self.duplicate();
        out.draw_cross_mut(color, x, y);
        out
    }

    /// Draws a filled polygon on a new copy of the canvas.
    pub fn draw_polygon(&self, poly: &[Point<i32>], color: Rgba) -> (res: Result<Canvas, Error>)
        requires
            self.wf(),
            poly_coords_ok(poly@),
        ensures
            match res {
                Err(e) => degenerate(poly@) && e == Error::DegeneratePolygon,
                Ok(out) => {
                    &&& !degenerate(poly@)
                    &&& out.wf()
                    &&& out.width == self.width
                    &&& out.height == self.height
                    &&& forall|i: int, j: int|
                        self.in_bounds(i, j) ==> out.pix(i, j) == (if on_polygon(
                            poly@,
                            self.w(),
                            self.h(),
                            i,
                            j,
                        ) {
                            color
                        } else {
                            self.pix(i, j)
                        })
                },
            },
    {
        let mut out = self.duplicate();
        match out.draw_polygon_mut(poly, color) {
            Ok(()) => Ok(out),
            Err(e) => Err(e),
        }
    }

    /// Draws an antialiased filled polygon on a new copy of the canvas.
    pub fn draw_antialiased_polygon(&self, poly: &[Point<i32>], color: Rgba) -> (res: Result<
        Canvas,
        Error,
    >)
        requires
            self.wf(),
            poly_coords_ok(poly@),
        ensures
            match res {
                Err(e) => degenerate(poly@) && e == Error::DegeneratePolygon,
                Ok(out) => {
                    &&& !degenerate(poly@)
                    &&& out.wf()
                    &&& out.width == self.width
                    &&& out.height == self.height
                    &&& forall|i: int, j: int|
                        self.in_bounds(i, j) ==> out.pix(i, j) == aa_after(
                            poly@,
                            poly@.len() as int,
                            (if on_scanfill(poly@, self.w(), self.h(), i, j) {
                                color
                            } else {
                                self.pix(i, j)
                            }),
                            color,
                            i,
                            j,
                        )
                },
            },
    {
        let mut out = self.duplicate();
        match out.draw_antialiased_polygon_mut(poly, color) {
            Ok(()) => Ok(out),
            Err(e) => Err(e),
        }
    }

    /// Draws a polygon outline on a new copy of the canvas.
    pub fn draw_hallow_polygon(&self, poly: &[Point<i32>], color: Rgba) -> (res: Result<
        Canvas,
        Error,
    >)
        requires
            self.wf(),
            poly_coords_ok(poly@),
        ensures
            match res {
                Err(e) => degenerate(poly@) && e == Error::DegeneratePolygon,
                Ok(out) => {
                    &&& !degenerate(poly@)
                    &&& out.wf()
                    &&& out.width == self.width
                    &&& out.height == self.height
                    &&& forall|i: int, j: int|
                        self.in_bounds(i, j) ==> out.pix(i, j) == (if on_poly_outline(
                            poly@,
                            i,
                            j,
                        ) {
                            color
                        } else {
                            self.pix(i, j)
                        })
                },
            },
    {
        let mut out = self.duplicate();
        match out.draw_hallow_polygon_mut(poly, color) {
            Ok(()) => Ok(out),
            Err(e) => Err(e),
        }
    }

    /// Draws a rectangle outline on a new copy of the canvas.
    pub fn draw_hollow_rect(&self, rect: Rect, color: Rgba) -> (out: Canvas)
        requires
            self.wf(),
            rect.wf(),
            rect_coord_ok(rect),
        ensures
            out.wf(),
            out.width == self.width,
            out.height == self.height,
            forall|i: int, j: int|
                self.in_bounds(i, j) ==> out.pix(i, j) == (if on_rect_border(rect, i, j) {
                    color
                } else {
                    self.pix(i, j)
                }),
    {
        let mut out = self.duplicate();
        out.draw_hollow_rect_mut(rect, color);
        out
    }

    /// Draws a filled rectangle on a new copy of the canvas.
    pub fn draw_filled_rect(&self, rect: Rect, color: Rgba) -> (out: Canvas)
        requires
            self.wf(),
            rect.wf(),
        ensures
            out.wf(),
            out.width == self.width,
            out.height == self.height,
            forall|i: int, j: int|
                self.in_bounds(i, j) ==> out.pix(i, j) == (if rect.contains(i, j) {
                    color
                } else {
                    self.pix(i, j)
                }),
    {
        let mut out = self.duplicate();
        out.draw_filled_rect_mut(rect, color);
        out
    }

    /// Draws a filled rounded rectangle on a new copy of the canvas.
    pub fn draw_filled_rounded_rect(&self, rect: Rect, radius: i32, color: Rgba) -> (out: Canvas)
        requires
            self.wf(),
            rect.wf(),
            rect_coord_ok(rect),
            0 <= radius <= 1000000,
            2 * radius + 1 <= rect.spec_width(),
            2 * radius + 1 <= rect.spec_height(),
        ensures
            out.wf(),
            out.width == self.width,
            out.height == self.height,
            forall|i: int, j: int|
                self.in_bounds(i, j) ==> out.pix(i, j) == (if on_rounded_rect(
                    rect,
                    radius as int,
                    i,
                    j,
                ) {
                    color
                } else {
                    self.pix(i, j)
                }),
    {
        let mut out = self.duplicate();
        out.draw_filled_rounded_rect_mut(rect, radius, color);
        out
    }

    /// The hollow rounded-rectangle outline is not provided; the call
    /// reports `Unsupported`.
    pub fn draw_hollow_rounded_rect(&self, _rect: Rect, _radius: i32, _color: Rgba) -> (res: Result<
        Canvas,
        Error,
    >)
        requires
            self.wf(),
        ensures
            res == Err::<Canvas, Error>(Error::Unsupported),
    {
        Err(Error::Unsupported)
    }

    /// Draws a cubic Bezier curve on a new copy of the canvas.
    pub fn draw_cubic_bezier_curve(
        &self,
        start: (i32, i32),
        end: (i32, i32),
        control_a: (i32, i32),
        control_b: (i32, i32),
        color: Rgba,
    ) -> (out: Canvas)
        requires
            self.wf(),
            bez_coords_ok((start.0 as int, start.1 as int)),
            bez_coords_ok((end.0 as int, end.1 as int)),
            bez_coords_ok((control_a.0 as int, control_a.1 as int)),
            bez_coords_ok((control_b.0 as int, control_b.1 as int)),
        ensures
            out.wf(),
            out.width == self.width,
            out.height == self.height,
            forall|i: int, j: int|
                self.in_bounds(i, j) ==> out.pix(i, j) == (if on_bezier(
                    (start.0 as int, start.1 as int),
                    (control_a.0 as int, control_a.1 as int),
                    (control_b.0 as int, control_b.1 as int),
                    (end.0 as int, end.1 as int),
                    i,
                    j,
                ) {
                    color
                } else {
                    self.pix(i, j)
                }),
    {
        let mut out = self.duplicate();
        out.draw_cubic_bezier_curve_mut(start, end, control_a, control_b, color);
        out
    }
}

} // verus!
