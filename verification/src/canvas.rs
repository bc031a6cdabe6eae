use vstd::prelude::*;
use crate::color::Rgba;

verus! {

/// An owned, row-major RGBA pixel buffer. Every drawing operation in this
/// library mutates a `Canvas` in place and silently drops writes that fall
/// outside `[0, width) x [0, height)`.
pub struct Canvas {
    pub width: u32,
    pub height: u32,
    pub data: Vec<Rgba>,
}

/// The pixel index (x, y) stays within a `width x height` grid.
pub open spec fn in_grid(x: int, y: int, w: int, h: int) -> bool {
    0 <= x < w && 0 <= y < h
}

pub proof fn lemma_row_major(x: int, y: int, w: int, h: int)
    by (nonlinear_arith)
    requires
        in_grid(x, y, w, h),
    ensures
        0 <= y * w + x < w * h,
{
}

pub proof fn lemma_row_major_injective(x1: int, y1: int, x2: int, y2: int, w: int, h: int)
    by (nonlinear_arith)
    requires
        in_grid(x1, y1, w, h),
        in_grid(x2, y2, w, h),
        !(x1 == x2 && y1 == y2),
    ensures
        y1 * w + x1 != y2 * w + x2,
{
}

impl Canvas {
    /// The buffer holds exactly one pixel per grid cell.
    pub open spec fn wf(self) -> bool {
        self.data.len() == self.width * self.height
    }

    pub open spec fn w(self) -> int {
        self.width as int
    }

    pub open spec fn h(self) -> int {
        self.height as int
    }

    /// The pixel stored at (x, y).
    pub open spec fn pix(self, x: int, y: int) -> Rgba {
        self.data[y * self.w() + x]
    }

    pub open spec fn in_bounds(self, x: int, y: int) -> bool {
        in_grid(x, y, self.w(), self.h())
    }

    /// The two canvases have the same size and hold the same pixels.
    pub open spec fn same_pixels(self, other: Canvas) -> bool {
        &&& self.w() == other.w()
        &&& self.h() == other.h()
        &&& forall|x: int, y: int| self.in_bounds(x, y) ==> self.pix(x, y) == other.pix(x, y)
    }

    /// A fully transparent canvas of the given size.
    pub fn new(width: u32, height: u32) -> (c: Canvas)
        requires
            width * height <= usize::MAX,
        ensures
            c.wf(),
            c.width == width,
            c.height == height,
            forall|x: int, y: int| c.in_bounds(x, y) ==> c.pix(x, y) == (Rgba([0, 0, 0, 0])),
    {
        let n: usize = (width as usize) * (height as usize);
        let mut data: Vec<Rgba> = Vec::new();
        let mut i: usize = 0;
        while i < n
            invariant
                0 <= i <= n,
                data.len() == i,
                forall|k: int| 0 <= k < i ==> data[k] == (Rgba([0, 0, 0, 0])),
            decreases n - i,
        {
            data.push(Rgba([0, 0, 0, 0]));
            i += 1;
        }
        let c = Canvas { width, height, data };
        proof {
            assert forall|x: int, y: int| c.in_bounds(x, y) implies c.pix(x, y) == (Rgba(
                [0, 0, 0, 0],
            )) by {
                lemma_row_major(x, y, c.w(), c.h());
            }
        }
        c
    }

    pub fn width(&self) -> (r: u32)
        ensures
            r == self.width,
    {
        self.width
    }

    pub fn height(&self) -> (r: u32)
        ensures
            r == self.height,
    {
        self.height
    }

    pub fn dimensions(&self) -> (r: (u32, u32))
        ensures
            r.0 == self.width,
            r.1 == self.height,
    {
        (self.width, self.height)
    }

    /// Read the pixel at (x, y), which must lie inside the canvas.
    pub fn get_pixel(&self, x: u32, y: u32) -> (r: Rgba)
        requires
            self.wf(),
            self.in_bounds(x as int, y as int),
        ensures
            r == self.pix(x as int, y as int),
    {
        proof {
            lemma_row_major(x as int, y as int, self.w(), self.h());
        }
        self.data[(y as usize) * (self.width as usize) + (x as usize)]
    }

    /// Overwrite the pixel at (x, y), which must lie inside the canvas.
    pub fn put_pixel(&mut self, x: u32, y: u32, color: Rgba)
        requires
            old(self).wf(),
            old(self).in_bounds(x as int, y as int),
        ensures
            final(self).wf(),
            final(self).width == old(self).width,
            final(self).height == old(self).height,
            final(self).pix(x as int, y as int) == color,
            forall|i: int, j: int|
                old(self).in_bounds(i, j) && !(i == x && j == y) ==> final(self).pix(i, j) == old(
                    self,
                ).pix(i, j),
    {
        proof {
            lemma_row_major(x as int, y as int, self.w(), self.h());
        }
        let idx: usize = (y as usize) * (self.width as usize) + (x as usize);
        self.data.set(idx, color);
        proof {
            assert forall|i: int, j: int|
                old(self).in_bounds(i, j) && !(i == x && j == y) implies self.pix(i, j) == old(
                self,
            ).pix(i, j) by {
                lemma_row_major(i, j, self.w(), self.h());
                lemma_row_major_injective(i, j, x as int, y as int, self.w(), self.h());
            }
        }
    }

    /// Overwrite the pixel at (x, y) when it lies inside the canvas;
    /// do nothing otherwise.
    pub fn draw_if_in_bounds(&mut self, x: i32, y: i32, color: Rgba)
        requires
            old(self).wf(),
        ensures
            final(self).wf(),
            final(self).width == old(self).width,
            final(self).height == old(self).height,
            forall|i: int, j: int|
                old(self).in_bounds(i, j) ==> final(self).pix(i, j) == (if i == x && j == y {
                    color
                } else {
                    old(self).pix(i, j)
                }),
    {
        if x >= 0 && y >= 0 {
            let xu = x as u32;
            let yu = y as u32;
            if xu < self.width && yu < self.height {
                self.put_pixel(xu, yu, color);
            }
        }
    }
}

impl Canvas {
    /// A canvas built from a row-major byte buffer holding four bytes
    /// per pixel. Missing bytes read as zero, surplus bytes are ignored.
    pub fn from_rgba_bytes(width: u32, height: u32, bytes: Vec<u8>) -> (c: Canvas)
        requires
            width <= 0x7FFF,
            height <= 0x7FFF,
        ensures
            c.wf(),
            c.width == width,
            c.height == height,
            forall|k: int|
                0 <= k < width * height && 4 * k + 3 < bytes@.len() ==> #[trigger] c.data@[k]
                    == (Rgba(
                    [bytes@[4 * k], bytes@[4 * k + 1], bytes@[4 * k + 2], bytes@[4 * k + 3]],
                )),
            forall|k: int|
                0 <= k < width * height && 4 * k + 3 >= bytes@.len() ==> #[trigger] c.data@[k]
                    == (Rgba([0, 0, 0, 0])),
    {
        proof {
            assert(0 <= (width as int) * (height as int) <= 0x3FFF0001) by (nonlinear_arith)
                requires
                    0 <= width as int <= 0x7FFF,
                    0 <= height as int <= 0x7FFF,
            ;
        }
        let n: usize = (width as usize) * (height as usize);
        let mut data: Vec<Rgba> = Vec::new();
        let mut k: usize = 0;
        while k < n
            invariant
                0 <= k <= n,
                n == width * height,
                n <= 0x3FFF0001,
                width <= 0x7FFF,
                height <= 0x7FFF,
                data.len() == k,
                forall|m: int|
                    0 <= m < k && 4 * m + 3 < bytes@.len() ==> #[trigger] data@[m] == (Rgba(
                        [bytes@[4 * m], bytes@[4 * m + 1], bytes@[4 * m + 2], bytes@[4 * m + 3]],
                    )),
                forall|m: int|
                    0 <= m < k && 4 * m + 3 >= bytes@.len() ==> #[trigger] data@[m] == (Rgba(
                        [0, 0, 0, 0],
                    )),
            decreases n - k,
        {
            if 4 * (k as u64) + 3 < bytes.len() as u64 {
                data.push(
                    Rgba([bytes[4 * k], bytes[4 * k + 1], bytes[4 * k + 2], bytes[4 * k + 3]]),
                );
            } else {
                data.push(Rgba([0, 0, 0, 0]));
            }
            k += 1;
        }
        Canvas { width, height, data }
    }

    /// Copy one row segment of `other` onto this canvas; the segment
    /// must lie inside both canvases.
    pub(crate) fn copy_row_from(&mut self, other: &Canvas, sy: u32, dx: u32, dy: u32)
        requires
            old(self).wf(),
            other.wf(),
            sy < other.height,
            dy < old(self).height,
            dx + other.width <= old(self).width,
        ensures
            final(self).wf(),
            final(self).width == old(self).width,
            final(self).height == old(self).height,
            forall|i: int, j: int|
                old(self).in_bounds(i, j) ==> final(self).pix(i, j) == (if j == dy && dx <= i < dx
                    + other.width {
                    other.pix(i - dx, sy as int)
                } else {
                    old(self).pix(i, j)
                }),
    {
        let mut x: u32 = 0;
        while x < other.width
            invariant
                self.wf(),
                self.width == old(self).width,
                self.height == old(self).height,
                other.wf(),
                sy < other.height,
                dy < self.height,
                dx + other.width <= self.width,
                x <= other.width,
                forall|i: int, j: int|
                    old(self).in_bounds(i, j) ==> self.pix(i, j) == (if j == dy && dx <= i < dx
                        + x {
                        other.pix(i - dx, sy as int)
                    } else {
                        old(self).pix(i, j)
                    }),
            decreases other.width - x,
        {
            let p = other.get_pixel(x, sy);
            self.put_pixel(dx + x, dy, p);
            x += 1;
        }
    }

    /// Copy the whole of `other` onto this canvas with its top-left
    /// corner at (x, y). Fails, leaving this canvas untouched, when the
    /// copy would not fit.
    pub fn copy_from(&mut self, other: &Canvas, x: u32, y: u32) -> (r: Result<(), crate::Error>)
        requires
            old(self).wf(),
            other.wf(),
        ensures
            final(self).wf(),
            final(self).width == old(self).width,
            final(self).height == old(self).height,
            r is Ok <==> (x + other.width <= old(self).width && y + other.height <= old(
                self,
            ).height),
            r is Err ==> *final(self) == *old(self) && r == Err::<(), crate::Error>(
                crate::Error::SourceUnavailable,
            ),
            r is Ok ==> forall|i: int, j: int|
                old(self).in_bounds(i, j) ==> final(self).pix(i, j) == (if x <= i < x
                    + other.width && y <= j < y + other.height {
                    other.pix(i - x, j - y)
                } else {
                    old(self).pix(i, j)
                }),
    {
        if !(x as u64 + other.width as u64 <= self.width as u64 && y as u64 + other.height as u64
            <= self.height as u64) {
            return Err(crate::Error::SourceUnavailable);
        }
        let mut row: u32 = 0;
        while row < other.height
            invariant
                self.wf(),
                self.width == old(self).width,
                self.height == old(self).height,
                other.wf(),
                x + other.width <= self.width,
                y + other.height <= self.height,
                row <= other.height,
                forall|i: int, j: int|
                    old(self).in_bounds(i, j) ==> self.pix(i, j) == (if x <= i < x + other.width
                        && y <= j < y + row {
                        other.pix(i - x, j - y)
                    } else {
                        old(self).pix(i, j)
                    }),
            decreases other.height - row,
        {
            self.copy_row_from(other, row, x, y + row);
            row += 1;
        }
        Ok(())
    }
}

} // verus!
