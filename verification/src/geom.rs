use vstd::prelude::*;

verus! {

/// A 2D point over a numeric coordinate type.
#[derive(Debug, Copy, Clone, PartialEq, Eq, Structural)]
pub struct Point<T> {
    /// x-coordinate.
    pub x: T,
    /// y-coordinate.
    pub y: T,
}

impl<T> Point<T> {
    /// Construct a point at (x, y).
    pub fn new(x: T, y: T) -> (p: Point<T>)
        ensures
            p.x == x,
            p.y == y,
    {
        Point::<T> { x, y }
    }
}

/// An axis-aligned rectangle: a top-left corner (which may lie outside
/// any canvas, and may be negative) and a positive width and height.
#[derive(Debug, Copy, Clone, PartialEq, Eq, Structural)]
pub struct Rect {
    pub left: i32,
    pub top: i32,
    pub width: u32,
    pub height: u32,
}

/// The position half of a rectangle under construction; `of_size` completes it.
#[derive(Debug, Copy, Clone, PartialEq, Eq, Structural)]
pub struct RectPosition {
    pub left: i32,
    pub top: i32,
}

impl Rect {
    /// Both dimensions are positive and the inclusive right and bottom
    /// edges stay within `i32`.
    pub open spec fn wf(self) -> bool {
        &&& self.width >= 1
        &&& self.height >= 1
        &&& self.left + self.width - 1 <= i32::MAX
        &&& self.top + self.height - 1 <= i32::MAX
    }

    /// Start building a rectangle whose top-left corner sits at (left, top).
    pub fn at(left: i32, top: i32) -> (p: RectPosition)
        ensures
            p.left == left,
            p.top == top,
    {
        RectPosition { left, top }
    }

    pub fn left(&self) -> (r: i32)
        ensures
            r == self.left,
    {
        self.left
    }

    pub fn top(&self) -> (r: i32)
        ensures
            r == self.top,
    {
        self.top
    }

    pub fn width(&self) -> (r: u32)
        ensures
            r == self.width,
    {
        self.width
    }

    pub fn height(&self) -> (r: u32)
        ensures
            r == self.height,
    {
        self.height
    }

    pub open spec fn spec_left(self) -> int {
        self.left as int
    }

    pub open spec fn spec_top(self) -> int {
        self.top as int
    }

    pub open spec fn spec_width(self) -> int {
        self.width as int
    }

    pub open spec fn spec_height(self) -> int {
        self.height as int
    }

    /// The x-coordinate of the rightmost column the rectangle covers.
    pub open spec fn spec_right(self) -> int {
        self.left + self.width - 1
    }

    /// The y-coordinate of the bottom row the rectangle covers.
    pub open spec fn spec_bottom(self) -> int {
        self.top + self.height - 1
    }

    pub fn right(&self) -> (r: i32)
        requires
            self.wf(),
        ensures
            r == self.spec_right(),
    {
        (self.left as i64 + self.width as i64 - 1) as i32
    }

    pub fn bottom(&self) -> (r: i32)
        requires
            self.wf(),
        ensures
            r == self.spec_bottom(),
    {
        (self.top as i64 + self.height as i64 - 1) as i32
    }

    /// Whether the pixel (x, y) lies inside the rectangle.
    pub open spec fn contains(self, x: int, y: int) -> bool {
        &&& self.spec_left() <= x <= self.spec_right()
        &&& self.spec_top() <= y <= self.spec_bottom()
    }

    /// The largest rectangle covered by both `self` and `other`,
    /// or `None` when they share no pixel.
    pub fn intersect(&self, other: Rect) -> (r: Option<Rect>)
        requires
            self.wf(),
            other.wf(),
        ensures
            match r {
                Some(i) => {
                    &&& i.wf()
                    &&& forall|x: int, y: int|
                        i.contains(x, y) <==> (self.contains(x, y) && other.contains(x, y))
                },
                None => forall|x: int, y: int|
                    !(self.contains(x, y) && other.contains(x, y)),
            },
    {
        let left = if self.left >= other.left { self.left } else { other.left };
        let top = if self.top >= other.top { self.top } else { other.top };
        let self_right = self.right();
        let other_right = other.right();
        let right = if self_right <= other_right { self_right } else { other_right };
        let self_bottom = self.bottom();
        let other_bottom = other.bottom();
        let bottom = if self_bottom <= other_bottom { self_bottom } else { other_bottom };
        if right < left || bottom < top {
            return None;
        }
        assert(right as i64 - left as i64 + 1 <= self.width as i64);
        assert(bottom as i64 - top as i64 + 1 <= self.height as i64);
        Some(Rect {
            left,
            top,
            width: (right as i64 - left as i64 + 1) as u32,
            height: (bottom as i64 - top as i64 + 1) as u32,
        })
    }
}

impl RectPosition {
    /// Complete the rectangle with the given positive size.
    pub fn of_size(self, width: u32, height: u32) -> (r: Rect)
        requires
            width >= 1,
            height >= 1,
            self.left + width - 1 <= i32::MAX,
            self.top + height - 1 <= i32::MAX,
        ensures
            r.wf(),
            r.spec_left() == self.left,
            r.spec_top() == self.top,
            r.spec_width() == width,
            r.spec_height() == height,
    {
        Rect { left: self.left, top: self.top, width, height }
    }
}

} // verus!
