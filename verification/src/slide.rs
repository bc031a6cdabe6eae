use vstd::prelude::*;
use crate::canvas::Canvas;
use crate::color::{Color, Rgba};
use crate::geom::Rect;
use crate::rect_draw::on_rounded_rect;
use crate::conic::lemma_disc_in_box;
use crate::bres::lemma_line_pts_vertical;
use crate::imgio::thumbnail_to_canvas;
use crate::Error;
use vstd::string::StrSliceExecFns;

verus! {

/// Where a content element sits in a frame: a left inset mirrored on
/// the right, an offset from the frame's top, and a height.
#[derive(Debug, Copy, Clone, PartialEq, Eq, Structural)]
pub struct Position {
    pub left: i32,
    pub top: i32,
    pub height: u32,
}

/// The rectangle a position resolves to in a frame of the given width:
/// the left inset is applied on both sides.
pub open spec fn spec_to_rect(p: Position, width: int) -> Rect {
    Rect {
        left: p.left,
        top: p.top,
        width: (width - 2 * p.left) as u32,
        height: p.height,
    }
}

/// A position that resolves to a well-formed rectangle inside the
/// coordinate range the rasterizer accepts.
pub open spec fn pos_ok(p: Position, width: int) -> bool {
    &&& 0 <= p.left
    &&& 2 * p.left < width
    &&& width <= 0x7FFF
    &&& -0x7FFF <= p.top <= 0x7FFF
    &&& 1 <= p.height <= 0x7FFF
}

impl Position {
    pub fn new(left: i32, top: i32, height: u32) -> (p: Position)
        ensures
            p.left == left,
            p.top == top,
            p.height == height,
    {
        Position { left, top, height }
    }

    /// Resolve the position against a frame width.
    pub fn to_rect(&self, width: u32) -> (r: Rect)
        requires
            pos_ok(*self, width as int),
        ensures
            r == spec_to_rect(*self, width as int),
            r.wf(),
            crate::rect_draw::rect_coord_ok(r),
    {
        Rect::at(self.left, self.top).of_size(width - 2 * (self.left as u32), self.height)
    }
}

/// One content element of a slide.
#[derive(Debug)]
pub enum Element {
    /// An image, referenced by a source path, scaled down to fit its
    /// rectangle and centered in it.
    Image { path: String, pos: Position },
    /// A line of text, rasterized by the font collaborator at the
    /// largest scale that fits, then centered in its rectangle.
    Text { content: String, max_scale: u32, color: Color, pos: Position },
    /// A flat color block with rounded corners.
    Color { color: Color, pos: Position },
}

/// A template for one element: the same variants, carrying a z-order
/// index instead of concrete content.
#[derive(Debug, Clone, Copy)]
pub enum Operation {
    Image { pos: Position, z_index: u8 },
    Text { scale: u32, color: Color, pos: Position, z_index: u8 },
    Color { color: Color, pos: Position, z_index: u8 },
}

impl Operation {
    pub open spec fn spec_z_index(self) -> u8 {
        match self {
            Operation::Image { z_index, .. } => z_index,
            Operation::Text { z_index, .. } => z_index,
            Operation::Color { z_index, .. } => z_index,
        }
    }

    /// The z-order index of this operation.
    pub fn z_index(&self) -> (r: u8)
        ensures
            r == self.spec_z_index(),
    {
        match self {
            Operation::Image { z_index, .. } => *z_index,
            Operation::Text { z_index, .. } => *z_index,
            Operation::Color { z_index, .. } => *z_index,
        }
    }
}

/// Glyph coverage for one text element, as the font collaborator
/// rasterized it: a row-major grid of coverage bytes.
pub struct TextBlock {
    pub width: u32,
    pub height: u32,
    pub coverage: Vec<u8>,
}

impl TextBlock {
    pub open spec fn wf(self) -> bool {
        &&& self.coverage.len() == self.width * self.height
        &&& self.width <= 0x7FFF
        &&& self.height <= 0x7FFF
    }

    /// The coverage byte at (x, y).
    pub open spec fn cov(self, x: int, y: int) -> u8 {
        self.coverage[y * self.width + x]
    }
}

/// A slide: an ordered list of content elements.
#[derive(Debug)]
pub struct Slide(pub Vec<Element>);

/// The mathematical content of one element: a variant tag, the path or
/// text characters, the scale, the color, and the position.
pub open spec fn elem_model(e: Element) -> (int, Seq<char>, int, Color, Position) {
    match e {
        Element::Image { path, pos } => (0int, path@, 0int, Color([0, 0, 0]), pos),
        Element::Text { content, max_scale, color, pos } => (
            1int,
            content@,
            max_scale as int,
            color,
            pos,
        ),
        Element::Color { color, pos } => (2int, Seq::empty(), 0int, color, pos),
    }
}

/// The mathematical content of a slide.
pub open spec fn slide_model(s: Slide) -> Seq<(int, Seq<char>, int, Color, Position)> {
    s.0@.map_values(|e: Element| elem_model(e))
}

/// The character sequences of a list of strings.
pub open spec fn strs_of(v: Seq<String>) -> Seq<Seq<char>> {
    v.map_values(|d: String| d@)
}

/// The character sequences of a list of string lists.
pub open spec fn strs2_of(v: Seq<Vec<String>>) -> Seq<Seq<Seq<char>>> {
    v.map_values(|x: Vec<String>| strs_of(x@))
}

/// What `Slide::generation` builds: the data strings are consumed left
/// to right, one per image operation (as a source path) and one per
/// text operation (as the literal text); color operations consume
/// none. The supply running out is `InsufficientData`.
pub open spec fn gen_model(ops: Seq<Operation>, data: Seq<Seq<char>>) -> Result<
    Seq<(int, Seq<char>, int, Color, Position)>,
    Error,
>
    decreases ops.len(),
{
    if ops.len() == 0 {
        Ok(Seq::empty())
    } else {
        match ops[0] {
            Operation::Image { pos, .. } => {
                if data.len() == 0 {
                    Err(Error::InsufficientData)
                } else {
                    match gen_model(ops.drop_first(), data.drop_first()) {
                        Ok(rest) => Ok(seq![(0int, data[0], 0int, Color([0, 0, 0]), pos)] + rest),
                        Err(e) => Err(e),
                    }
                }
            },
            Operation::Text { scale, color, pos, .. } => {
                if data.len() == 0 {
                    Err(Error::InsufficientData)
                } else {
                    match gen_model(ops.drop_first(), data.drop_first()) {
                        Ok(rest) => Ok(seq![(1int, data[0], scale as int, color, pos)] + rest),
                        Err(e) => Err(e),
                    }
                }
            },
            Operation::Color { color, pos, .. } => {
                match gen_model(ops.drop_first(), data) {
                    Ok(rest) => Ok(seq![(2int, Seq::<char>::empty(), 0int, color, pos)] + rest),
                    Err(e) => Err(e),
                }
            },
        }
    }
}

impl Slide {
    /// An empty slide.
    pub fn new() -> (s: Slide)
        ensures
            s.0@.len() == 0,
    {
        Slide(Vec::new())
    }

    /// Generate a concrete slide from operation templates and a supply
    /// of data strings, consumed in declaration order.
    pub fn generation(operations: &[Operation], datas: Vec<String>) -> (r: Result<Slide, Error>)
        ensures
            match r {
                Ok(s) => gen_model(operations@, strs_of(datas@)) == Ok::<_, Error>(
                    slide_model(s),
                ),
                Err(e) => gen_model(operations@, strs_of(datas@)) == Err::<
                    Seq<(int, Seq<char>, int, Color, Position)>,
                    Error,
                >(e),
            },
    {
        let ghost dseq = strs_of(datas@);
        let n = operations.len();
        let total = datas.len();
        let mut out: Vec<Element> = Vec::new();
        let mut k: usize = 0;
        let mut di: usize = 0;
        proof {
            assert(operations@.skip(0int) =~= operations@);
            assert(dseq.skip(0int) =~= dseq);
            assert(slide_model(Slide(out)).len() == 0);
            match gen_model(operations@, dseq) {
                Ok(rest) => {
                    assert(slide_model(Slide(out)) + rest =~= rest);
                },
                Err(_) => {},
            }
        }
        while k < n
            invariant
                n == operations@.len(),
                total == datas@.len(),
                dseq == strs_of(datas@),
                k <= n,
                di <= total,
                gen_model(operations@, dseq) == (match gen_model(
                    operations@.skip(k as int),
                    dseq.skip(di as int),
                ) {
                    Ok(rest) => Ok::<_, Error>(slide_model(Slide(out)) + rest),
                    Err(e) => Err::<Seq<(int, Seq<char>, int, Color, Position)>, Error>(e),
                }),
            decreases n - k,
        {
            let ghost pre_out = slide_model(Slide(out));
            let ghost ops_suf = operations@.skip(k as int);
            let ghost dat_suf = dseq.skip(di as int);
            proof {
                assert(ops_suf[0] == operations@[k as int]);
                assert(ops_suf.drop_first() =~= operations@.skip(k as int + 1));
            }
            match &operations[k] {
                Operation::Image { pos, .. } => {
                    if di >= total {
                        proof {
                            assert(dat_suf.len() == 0);
                        }
                        return Err(Error::InsufficientData);
                    }
                    let path = datas[di].clone();
                    out.push(Element::Image { path, pos: *pos });
                    di += 1;
                    proof {
                        assert(dat_suf[0] == dseq[di as int - 1]);
                        assert(dat_suf.drop_first() =~= dseq.skip(di as int));
                        assert(slide_model(Slide(out)) =~= pre_out.push(
                            elem_model(out@[out@.len() - 1]),
                        ));
                        match gen_model(operations@.skip(k as int + 1), dseq.skip(di as int)) {
                            Ok(rest) => {
                                assert(pre_out + (seq![elem_model(out@[out@.len() - 1])] + rest)
                                    =~= slide_model(Slide(out)) + rest);
                            },
                            Err(_) => {},
                        }
                    }
                },
                Operation::Text { scale, color, pos, .. } => {
                    if di >= total {
                        proof {
                            assert(dat_suf.len() == 0);
                        }
                        return Err(Error::InsufficientData);
                    }
                    let content = datas[di].clone();
                    out.push(
                        Element::Text { content, max_scale: *scale, color: *color, pos: *pos },
                    );
                    di += 1;
                    proof {
                        assert(dat_suf[0] == dseq[di as int - 1]);
                        assert(dat_suf.drop_first() =~= dseq.skip(di as int));
                        assert(slide_model(Slide(out)) =~= pre_out.push(
                            elem_model(out@[out@.len() - 1]),
                        ));
                        match gen_model(operations@.skip(k as int + 1), dseq.skip(di as int)) {
                            Ok(rest) => {
                                assert(pre_out + (seq![elem_model(out@[out@.len() - 1])] + rest)
                                    =~= slide_model(Slide(out)) + rest);
                            },
                            Err(_) => {},
                        }
                    }
                },
                Operation::Color { color, pos, .. } => {
                    out.push(Element::Color { color: *color, pos: *pos });
                    proof {
                        assert(slide_model(Slide(out)) =~= pre_out.push(
                            elem_model(out@[out@.len() - 1]),
                        ));
                        match gen_model(operations@.skip(k as int + 1), dseq.skip(di as int)) {
                            Ok(rest) => {
                                assert(pre_out + (seq![elem_model(out@[out@.len() - 1])] + rest)
                                    =~= slide_model(Slide(out)) + rest);
                            },
                            Err(_) => {},
                        }
                    }
                },
            }
            k += 1;
        }
        proof {
            assert(operations@.skip(n as int).len() == 0);
            assert(slide_model(Slide(out)) + Seq::<
                (int, Seq<char>, int, Color, Position),
            >::empty() =~= slide_model(Slide(out)));
        }
        Ok(Slide(out))
    }

    /// Append a text element.
    pub fn add_text(&mut self, text: &str, max_scale: u32, color: Color, pos: Position)
        ensures
            final(self).0@.len() == old(self).0@.len() + 1,
            slide_model(*final(self)) == slide_model(*old(self)).push(
                (1int, text@, max_scale as int, color, pos),
            ),
    {
        self.0.push(Element::Text { content: text.to_owned(), max_scale, color, pos });
        proof {
            assert(slide_model(*self) =~= slide_model(*old(self)).push(
                (1int, text@, max_scale as int, color, pos),
            ));
        }
    }

    /// Append an image element.
    pub fn add_image(&mut self, image_path: &str, pos: Position)
        ensures
            final(self).0@.len() == old(self).0@.len() + 1,
            slide_model(*final(self)) == slide_model(*old(self)).push(
                (0int, image_path@, 0int, Color([0, 0, 0]), pos),
            ),
    {
        self.0.push(Element::Image { path: image_path.to_owned(), pos });
        proof {
            assert(slide_model(*self) =~= slide_model(*old(self)).push(
                (0int, image_path@, 0int, Color([0, 0, 0]), pos),
            ));
        }
    }

    /// Append a color element.
    pub fn add_color(&mut self, color: Color, pos: Position)
        ensures
            final(self).0@.len() == old(self).0@.len() + 1,
            slide_model(*final(self)) == slide_model(*old(self)).push(
                (2int, Seq::<char>::empty(), 0int, color, pos),
            ),
    {
        self.0.push(Element::Color { color, pos });
        proof {
            assert(slide_model(*self) =~= slide_model(*old(self)).push(
                (2int, Seq::<char>::empty(), 0int, color, pos),
            ));
        }
    }
}

/// The position of an element.
pub open spec fn elem_pos(e: Element) -> Position {
    elem_model(e).4
}

/// An element whose geometry the rasterizer accepts: a valid position,
/// and for color blocks a rectangle large enough for the fixed corner
/// radius of 10.
pub open spec fn elem_ok(e: Element, width: int) -> bool {
    &&& pos_ok(elem_pos(e), width)
    &&& (e matches Element::Color { .. } ==> spec_to_rect(elem_pos(e), width).spec_width() >= 21
        && spec_to_rect(elem_pos(e), width).spec_height() >= 21)
}

/// A filled rounded rectangle lies inside its rectangle.
pub proof fn lemma_rounded_in_rect(r: Rect, radius: int)
    requires
        r.wf(),
        0 <= radius,
        2 * radius + 1 <= r.spec_width(),
        2 * radius + 1 <= r.spec_height(),
    ensures
        forall|i: int, j: int| #[trigger] on_rounded_rect(r, radius, i, j) ==> r.contains(i, j),
{
    let l = r.spec_left();
    let t = r.spec_top();
    let rr = r.spec_right();
    let b = r.spec_bottom();
    lemma_disc_in_box((l + radius, t + radius), radius);
    lemma_disc_in_box((l + radius, b - radius), radius);
    lemma_disc_in_box((rr - radius, t + radius), radius);
    lemma_disc_in_box((rr - radius, b - radius), radius);
}

impl Canvas {
    /// Blends one row of a coverage grid over this canvas, weighting the
    /// given color by each coverage byte out of 255.
    fn blend_cov_row(&mut self, tb: &TextBlock, color4: Rgba, sy: u32, dx: u32, dy: u32)
        requires
            old(self).wf(),
            tb.wf(),
            sy < tb.height,
            dy < old(self).height,
            dx + tb.width <= old(self).width,
        ensures
            final(self).wf(),
            final(self).width == old(self).width,
            final(self).height == old(self).height,
            forall|i: int, j: int|
                old(self).in_bounds(i, j) ==> final(self).pix(i, j) == (if j == dy && dx <= i < dx
                    + tb.width {
                    crate::blend::blend_px(
                        color4,
                        old(self).pix(i, j),
                        tb.cov(i - dx, sy as int) as int,
                        255,
                    )
                } else {
                    old(self).pix(i, j)
                }),
    {
        let mut x: u32 = 0;
        while x < tb.width
            invariant
                self.wf(),
                self.width == old(self).width,
                self.height == old(self).height,
                tb.wf(),
                sy < tb.height,
                dy < self.height,
                dx + tb.width <= self.width,
                x <= tb.width,
                forall|i: int, j: int|
                    old(self).in_bounds(i, j) ==> self.pix(i, j) == (if j == dy && dx <= i < dx
                        + x {
                        crate::blend::blend_px(
                            color4,
                            old(self).pix(i, j),
                            tb.cov(i - dx, sy as int) as int,
                            255,
                        )
                    } else {
                        old(self).pix(i, j)
                    }),
            decreases tb.width - x,
        {
            proof {
                crate::canvas::lemma_row_major(
                    x as int,
                    sy as int,
                    tb.width as int,
                    tb.height as int,
                );
            }
            let cov = tb.coverage[(sy as usize) * (tb.width as usize) + (x as usize)];
            let old_px = self.get_pixel(dx + x, dy);
            let px = crate::blend::weighted_sum(color4, old_px, cov as u32, 255);
            self.put_pixel(dx + x, dy, px);
            x += 1;
        }
    }
}

/// The column where a block of width `bw`, centered in `rect`, starts.
pub open spec fn block_left(rect: Rect, bw: int) -> int {
    rect.spec_left() + (rect.spec_width() - bw) / 2
}

/// The row where a block of height `bh`, centered in `rect`, starts.
pub open spec fn block_top(rect: Rect, bh: int) -> int {
    rect.spec_top() + (rect.spec_height() - bh) / 2
}

/// The frame `after` holds the canvas `t` centered in `rect` and is
/// otherwise `before`; `t` fits inside the rectangle.
pub open spec fn image_placed(t: Canvas, rect: Rect, before: Canvas, after: Canvas) -> bool {
    &&& t.wf()
    &&& 1 <= t.w() <= rect.spec_width()
    &&& 1 <= t.h() <= rect.spec_height()
    &&& forall|i: int, j: int|
        before.in_bounds(i, j) ==> after.pix(i, j) == (if block_left(rect, t.w()) <= i
            < block_left(rect, t.w()) + t.w() && block_top(rect, t.h()) <= j < block_top(
            rect,
            t.h(),
        ) + t.h() {
            t.pix(i - block_left(rect, t.w()), j - block_top(rect, t.h()))
        } else {
            before.pix(i, j)
        })
}

impl Element {
    /// Paints this element into the frame. Image elements scale the
    /// supplied decoded source down to the element rectangle and center
    /// it; text elements blend the supplied glyph coverage centered in
    /// the rectangle; color elements fill a rounded rectangle with a
    /// corner radius of 10. Nothing outside the element's rectangle is
    /// touched, and a failed element leaves the frame untouched.
    pub fn render(
        &self,
        img: &mut Canvas,
        width: u32,
        image_src: Option<&image::DynamicImage>,
        text_src: Option<&TextBlock>,
    ) -> (r: Result<(), Error>)
        requires
            old(img).wf(),
            elem_ok(*self, width as int),
            text_src matches Some(tb) ==> tb.wf(),
        ensures
            final(img).wf(),
            final(img).width == old(img).width,
            final(img).height == old(img).height,
            forall|i: int, j: int|
                old(img).in_bounds(i, j) && !spec_to_rect(elem_pos(*self), width as int).contains(
                    i,
                    j,
                ) ==> final(img).pix(i, j) == old(img).pix(i, j),
            r is Err ==> *final(img) == *old(img),
            self matches Element::Color { color, pos } ==> r is Ok && forall|i: int, j: int|
                old(img).in_bounds(i, j) ==> final(img).pix(i, j) == (if on_rounded_rect(
                    spec_to_rect(*pos, width as int),
                    10,
                    i,
                    j,
                ) {
                    crate::color::Rgba([color.0[0], color.0[1], color.0[2], 255])
                } else {
                    old(img).pix(i, j)
                }),
            self matches Element::Image { .. } ==> (r is Err ==> r == Err::<(), Error>(
                Error::SourceUnavailable,
            )),
            (self matches Element::Image { .. } && image_src is Some && spec_to_rect(
                elem_pos(*self),
                width as int,
            ).spec_top() >= 0 && spec_to_rect(elem_pos(*self), width as int).spec_right() < old(
                img,
            ).w() && spec_to_rect(elem_pos(*self), width as int).spec_bottom() < old(img).h())
                ==> r is Ok,
            (self matches Element::Image { .. } && r is Ok) ==> spec_to_rect(
                elem_pos(*self),
                width as int,
            ).spec_top() >= 0 && exists|t: Canvas|
                #[trigger] image_placed(
                    t,
                    spec_to_rect(elem_pos(*self), width as int),
                    *old(img),
                    *final(img),
                ),
            self matches Element::Text { color, pos, .. } ==> match text_src {
                Some(tb) => {
                    let rect = spec_to_rect(*pos, width as int);
                    &&& (r is Ok <==> tb.width <= rect.spec_width() && tb.height
                        <= rect.spec_height() && rect.spec_top() >= 0 && block_top(
                        rect,
                        tb.height as int,
                    ) + tb.height <= old(img).h() && block_left(rect, tb.width as int) + tb.width
                        <= old(img).w())
                    &&& (r is Err ==> r == Err::<(), Error>(Error::InvalidFont))
                    &&& (r is Ok ==> {
                        let bx = block_left(rect, tb.width as int);
                        let by = block_top(rect, tb.height as int);
                        forall|i: int, j: int|
                            old(img).in_bounds(i, j) ==> final(img).pix(i, j) == (if bx <= i < bx
                                + tb.width && by <= j < by + tb.height {
                                crate::blend::blend_px(
                                    Rgba([color.0[0], color.0[1], color.0[2], 255]),
                                    old(img).pix(i, j),
                                    tb.cov(i - bx, j - by) as int,
                                    255,
                                )
                            } else {
                                old(img).pix(i, j)
                            })
                    })
                },
                None => r == Err::<(), Error>(Error::InvalidFont),
            },
    {
        match self {
            Element::Image { path: _, pos } => {
                let rect = pos.to_rect(width);
                match image_src {
                    None => Err(Error::SourceUnavailable),
                    Some(src) => {
                        if rect.top() < 0 {
                            return Err(Error::SourceUnavailable);
                        }
                        let thumb = thumbnail_to_canvas(src, rect.width(), rect.height());
                        let px = (rect.left() as u32) + (rect.width() - thumb.width()) / 2;
                        let py = (rect.top() as u32) + (rect.height() - thumb.height()) / 2;
                        let res = img.copy_from(&thumb, px, py);
                        proof {
                            if res is Ok {
                                assert(px == block_left(rect, thumb.w()));
                                assert(py == block_top(rect, thumb.h()));
                                assert(image_placed(thumb, rect, *old(img), *img));
                                assert forall|i: int, j: int|
                                    old(img).in_bounds(i, j) && !spec_to_rect(
                                        elem_pos(*self),
                                        width as int,
                                    ).contains(i, j) implies img.pix(i, j) == old(img).pix(
                                    i,
                                    j,
                                ) by {
                                    let rect0 = spec_to_rect(elem_pos(*self), width as int);
                                    if px <= i < px + thumb.width && py <= j < py + thumb.height {
                                        assert(rect0.spec_left() <= px);
                                        assert(px + thumb.width <= rect0.spec_right() + 1);
                                    }
                                }
                            }
                        }
                        res
                    },
                }
            },
            Element::Text { content: _, max_scale: _, color, pos } => {
                let rect = pos.to_rect(width);
                match text_src {
                    None => Err(Error::InvalidFont),
                    Some(tb) => {
                        if tb.width > rect.width() || tb.height > rect.height() {
                            return Err(Error::InvalidFont);
                        }
                        if rect.top() < 0 {
                            return Err(Error::InvalidFont);
                        }
                        let color4 = Rgba([color.0[0], color.0[1], color.0[2], 255]);
                        let bx = (rect.left() as u32) + (rect.width() - tb.width) / 2;
                        let by = (rect.top() as u32) + (rect.height() - tb.height) / 2;
                        // A block that would not lie fully inside the frame is
                        // rejected rather than partially painted.
                        if by as u64 + tb.height as u64 > img.height() as u64 || bx as u64
                            + tb.width as u64 > img.width() as u64 {
                            return Err(Error::InvalidFont);
                        }
                        let mut row: u32 = 0;
                        while row < tb.height
                            invariant
                                img.wf(),
                                img.width == old(img).width,
                                img.height == old(img).height,
                                tb.wf(),
                                bx + tb.width <= img.width,
                                by + tb.height <= img.height,
                                row <= tb.height,
                                forall|i: int, j: int|
                                    old(img).in_bounds(i, j) ==> img.pix(i, j) == (if bx <= i < bx
                                        + tb.width && by <= j < by + row {
                                        crate::blend::blend_px(
                                            color4,
                                            old(img).pix(i, j),
                                            tb.cov(i - bx, j - by) as int,
                                            255,
                                        )
                                    } else {
                                        old(img).pix(i, j)
                                    }),
                            decreases tb.height - row,
                        {
                            img.blend_cov_row(tb, color4, row, bx, by + row);
                            row += 1;
                        }
                        proof {
                            let rect0 = spec_to_rect(elem_pos(*self), width as int);
                            assert(rect0.spec_left() <= bx);
                            assert(bx + tb.width <= rect0.spec_right() + 1);
                            assert(rect0.spec_top() <= by);
                            assert(by + tb.height <= rect0.spec_bottom() + 1);
                        }
                        Ok(())
                    },
                }
            },
            Element::Color { color, pos } => {
                let rect = pos.to_rect(width);
                let color4 = Rgba([color.0[0], color.0[1], color.0[2], 255]);
                img.draw_filled_rounded_rect_mut(rect, 10, color4);
                proof {
                    lemma_rounded_in_rect(rect, 10);
                }
                Ok(())
            },
        }
    }
}

/// How many image elements occur among the first `k` elements.
pub open spec fn imgs_before(s: Seq<Element>, k: int) -> int
    decreases k,
{
    if k <= 0 {
        0
    } else {
        imgs_before(s, k - 1) + (if s[k - 1] matches Element::Image { .. } {
            1int
        } else {
            0int
        })
    }
}

/// How many text elements occur among the first `k` elements.
pub open spec fn texts_before(s: Seq<Element>, k: int) -> int
    decreases k,
{
    if k <= 0 {
        0
    } else {
        texts_before(s, k - 1) + (if s[k - 1] matches Element::Text { .. } {
            1int
        } else {
            0int
        })
    }
}

/// Whether some element's rectangle covers the pixel (i, j).
pub open spec fn covered_by_elems(s: Seq<Element>, width: int, i: int, j: int) -> bool {
    exists|k: int|
        0 <= k < s.len() && #[trigger] spec_to_rect(elem_pos(s[k]), width).contains(i, j)
}

/// The pixel (i, j) after one element has painted over the value
/// `prev`: a color block fills its rounded rectangle, a text element
/// blends its coverage block centered in its rectangle, and an image
/// element holds its scaled stand-in canvas centered in its rectangle.
/// Only the asset of the element's own kind is read.
pub open spec fn elem_pix(
    e: Element,
    width: int,
    tb: TextBlock,
    thumb: Canvas,
    prev: Rgba,
    i: int,
    j: int,
) -> Rgba {
    let rect = spec_to_rect(elem_pos(e), width);
    match e {
        Element::Color { color, .. } => if on_rounded_rect(rect, 10, i, j) {
            Rgba([color.0[0], color.0[1], color.0[2], 255])
        } else {
            prev
        },
        Element::Text { color, .. } => {
            let bx = block_left(rect, tb.width as int);
            let by = block_top(rect, tb.height as int);
            if bx <= i < bx + tb.width && by <= j < by + tb.height {
                crate::blend::blend_px(
                    Rgba([color.0[0], color.0[1], color.0[2], 255]),
                    prev,
                    tb.cov(i - bx, j - by) as int,
                    255,
                )
            } else {
                prev
            }
        },
        Element::Image { .. } => {
            let bx = block_left(rect, thumb.w());
            let by = block_top(rect, thumb.h());
            if bx <= i < bx + thumb.w() && by <= j < by + thumb.h() {
                thumb.pix(i - bx, j - by)
            } else {
                prev
            }
        },
    }
}

/// The pixel (i, j) after the first `k` elements have painted, in
/// stored order, over a fully transparent frame: each element takes
/// the next coverage block or stand-in canvas of its kind.
pub open spec fn render_pix(
    elems: Seq<Element>,
    width: int,
    texts: Seq<TextBlock>,
    thumbs: Seq<Canvas>,
    k: int,
    i: int,
    j: int,
) -> Rgba
    decreases k,
{
    if k <= 0 {
        Rgba([0, 0, 0, 0])
    } else {
        elem_pix(
            elems[k - 1],
            width,
            texts[texts_before(elems, k - 1)],
            thumbs[imgs_before(elems, k - 1)],
            render_pix(elems, width, texts, thumbs, k - 1, i, j),
            i,
            j,
        )
    }
}

/// One stand-in canvas per image element among the first `k`, each
/// fitting its element's rectangle.
pub open spec fn thumbs_fit_upto(
    elems: Seq<Element>,
    k: int,
    width: int,
    thumbs: Seq<Canvas>,
) -> bool {
    &&& thumbs.len() == imgs_before(elems, k)
    &&& forall|m: int|
        0 <= m < k && (elems[m] matches Element::Image { .. }) ==> {
            let t = #[trigger] thumbs[imgs_before(elems, m)];
            let rect = spec_to_rect(elem_pos(elems[m]), width);
            t.wf() && 1 <= t.w() <= rect.spec_width() && 1 <= t.h() <= rect.spec_height()
        }
}

/// One stand-in canvas per image element, each fitting its element's
/// rectangle.
pub open spec fn thumbs_fit(elems: Seq<Element>, width: int, thumbs: Seq<Canvas>) -> bool {
    thumbs_fit_upto(elems, elems.len() as int, width, thumbs)
}

/// Whether element `k` must succeed whatever the decoded sources hold:
/// a color block always does; a text element does exactly when its
/// coverage block lies inside both its rectangle and the frame; an
/// image element does whenever its rectangle lies inside the frame
/// (its scaled source is bounded by the rectangle).
pub open spec fn elem_forced_ok(
    elems: Seq<Element>,
    k: int,
    width: int,
    height: int,
    texts: Seq<TextBlock>,
) -> bool {
    let e = elems[k];
    let rect = spec_to_rect(elem_pos(e), width);
    match e {
        Element::Color { .. } => true,
        Element::Text { .. } => {
            let tb = texts[texts_before(elems, k)];
            &&& tb.width <= rect.spec_width()
            &&& tb.height <= rect.spec_height()
            &&& rect.spec_top() >= 0
            &&& block_top(rect, tb.height as int) + tb.height <= height
            &&& block_left(rect, tb.width as int) + tb.width <= width
        },
        Element::Image { .. } => rect.spec_top() >= 0 && rect.spec_right() < width
            && rect.spec_bottom() < height,
    }
}

impl Slide {
    /// Paints the slide into a fresh transparent frame of the given
    /// size, element by element in stored order; image elements consume
    /// the decoded sources in order, text elements the rasterized
    /// coverage blocks in order. If a separator color is set, a vertical
    /// line is drawn along the frame's left edge last. On success the
    /// frame is exactly the in-order composition of the per-element
    /// effects over a transparent frame (each image element contributing
    /// some scaled stand-in that fits its rectangle), with the separator
    /// column on top; rendering is owed whenever every element is forced
    /// to succeed, and a failure names an element that was not.
    pub fn render(
        &self,
        size: (u32, u32),
        images: &Vec<image::DynamicImage>,
        texts: &Vec<TextBlock>,
        split_line_color: Option<Color>,
    ) -> (r: Result<Canvas, Error>)
        requires
            1 <= size.0 <= 0x7FFF,
            1 <= size.1 <= 0x7FFF,
            forall|k: int| 0 <= k < self.0@.len() ==> elem_ok(#[trigger] self.0@[k], size.0 as int),
            images@.len() >= imgs_before(self.0@, self.0@.len() as int),
            texts@.len() >= texts_before(self.0@, self.0@.len() as int),
            forall|k: int| 0 <= k < texts@.len() ==> (#[trigger] texts@[k]).wf(),
        ensures
            match r {
                Ok(c) => {
                    &&& c.wf()
                    &&& c.width == size.0
                    &&& c.height == size.1
                    &&& exists|thumbs: Seq<Canvas>|
                        #[trigger] thumbs_fit(self.0@, size.0 as int, thumbs) && forall|
                            i: int,
                            j: int,
                        |
                            c.in_bounds(i, j) ==> c.pix(i, j) == (
                            if split_line_color is Some && i == 0 {
                                match split_line_color {
                                    Some(col) => Rgba([col.0[0], col.0[1], col.0[2], 255]),
                                    None => Rgba([0, 0, 0, 0]),
                                }
                            } else {
                                render_pix(
                                    self.0@,
                                    size.0 as int,
                                    texts@,
                                    thumbs,
                                    self.0@.len() as int,
                                    i,
                                    j,
                                )
                            })
                    &&& forall|i: int, j: int|
                        c.in_bounds(i, j) && !covered_by_elems(self.0@, size.0 as int, i, j) && !(
                        split_line_color is Some && i == 0) ==> c.pix(i, j) == (Rgba([0, 0, 0, 0]))
                    &&& (split_line_color matches Some(col) ==> forall|j: int|
                        0 <= j < size.1 ==> c.pix(0, j) == (Rgba(
                            [col.0[0], col.0[1], col.0[2], 255],
                        )))
                },
                Err(e) => {
                    &&& (e == Error::SourceUnavailable || e == Error::InvalidFont)
                    &&& (e == Error::InvalidFont ==> exists|k: int|
                        0 <= k < self.0@.len() && (self.0@[k] matches Element::Text { .. })
                            && !#[trigger] elem_forced_ok(
                            self.0@,
                            k,
                            size.0 as int,
                            size.1 as int,
                            texts@,
                        ))
                    &&& (e == Error::SourceUnavailable ==> exists|k: int|
                        0 <= k < self.0@.len() && (self.0@[k] matches Element::Image { .. })
                            && !#[trigger] elem_forced_ok(
                            self.0@,
                            k,
                            size.0 as int,
                            size.1 as int,
                            texts@,
                        ))
                },
            },
            (forall|k: int|
                0 <= k < self.0@.len() ==> #[trigger] elem_forced_ok(
                    self.0@,
                    k,
                    size.0 as int,
                    size.1 as int,
                    texts@,
                )) ==> r is Ok,
    {
        let width = size.0;
        let height = size.1;
        proof {
            assert((width as int) * (height as int) <= 0x7FFF * 0x7FFF) by (nonlinear_arith)
                requires
                    1 <= width as int <= 0x7FFF,
                    1 <= height as int <= 0x7FFF,
            ;
        }
        let mut img = Canvas::new(width, height);
        let img_total = images.len();
        let txt_total = texts.len();
        let n = self.0.len();
        let mut k: usize = 0;
        let mut ii: usize = 0;
        let mut ti: usize = 0;
        proof {
            assert(thumbs_fit_upto(self.0@, 0, size.0 as int, Seq::<Canvas>::empty()));
            assert forall|i: int, j: int| img.in_bounds(i, j) implies img.pix(i, j) == render_pix(
                self.0@,
                size.0 as int,
                texts@,
                Seq::<Canvas>::empty(),
                0,
                i,
                j,
            ) by {}
        }
        while k < n
            invariant
                img.wf(),
                img.width == size.0,
                img.height == size.1,
                1 <= size.0 <= 0x7FFF,
                1 <= size.1 <= 0x7FFF,
                width == size.0,
                height == size.1,
                n == self.0@.len(),
                img_total == images@.len(),
                txt_total == texts@.len(),
                k <= n,
                ii == imgs_before(self.0@, k as int),
                ti == texts_before(self.0@, k as int),
                forall|m: int| 0 <= m < n ==> elem_ok(#[trigger] self.0@[m], size.0 as int),
                images@.len() >= imgs_before(self.0@, n as int),
                texts@.len() >= texts_before(self.0@, n as int),
                forall|m: int| 0 <= m < texts@.len() ==> (#[trigger] texts@[m]).wf(),
                exists|thumbs: Seq<Canvas>|
                    #[trigger] thumbs_fit_upto(self.0@, k as int, size.0 as int, thumbs) && forall|
                        i: int,
                        j: int,
                    |
                        img.in_bounds(i, j) ==> img.pix(i, j) == render_pix(
                            self.0@,
                            size.0 as int,
                            texts@,
                            thumbs,
                            k as int,
                            i,
                            j,
                        ),
                forall|i: int, j: int|
                    img.in_bounds(i, j) && !covered_by_elems(
                        self.0@.take(k as int),
                        size.0 as int,
                        i,
                        j,
                    ) ==> img.pix(i, j) == (Rgba([0, 0, 0, 0])),
            decreases n - k,
        {
            proof {
                lemma_counts_monotonic(self.0@, k as int, n as int);
            }
            let ghost thumbs0 = choose|thumbs: Seq<Canvas>|
                #[trigger] thumbs_fit_upto(self.0@, k as int, size.0 as int, thumbs) && forall|
                    i: int,
                    j: int,
                |
                    img.in_bounds(i, j) ==> img.pix(i, j) == render_pix(
                        self.0@,
                        size.0 as int,
                        texts@,
                        thumbs,
                        k as int,
                        i,
                        j,
                    );
            let ghost pre_img = img;
            let e = &self.0[k];
            let res = match e {
                Element::Image { .. } => {
                    proof {
                        lemma_counts_monotonic(self.0@, k as int + 1, n as int);
                        assert(imgs_before(self.0@, k as int + 1) == imgs_before(
                            self.0@,
                            k as int,
                        ) + 1);
                    }
                    let r0 = e.render(&mut img, width, Some(&images[ii]), None);
                    proof {
                        assert(ii as int + 1 <= images@.len());
                    }
                    ii += 1;
                    r0
                },
                Element::Text { .. } => {
                    proof {
                        lemma_counts_monotonic(self.0@, k as int + 1, n as int);
                        assert(texts_before(self.0@, k as int + 1) == texts_before(
                            self.0@,
                            k as int,
                        ) + 1);
                    }
                    let r0 = e.render(&mut img, width, None, Some(&texts[ti]));
                    proof {
                        assert(ti as int + 1 <= texts@.len());
                    }
                    ti += 1;
                    r0
                },
                Element::Color { .. } => e.render(&mut img, width, None, None),
            };
            match res {
                Ok(()) => {},
                Err(err) => {
                    proof {
                        assert(!elem_forced_ok(
                            self.0@,
                            k as int,
                            size.0 as int,
                            size.1 as int,
                            texts@,
                        ));
                    }
                    return Err(err);
                },
            }
            proof {
                let elems = self.0@;
                let w = size.0 as int;
                let cur_e = elems[k as int];
                // Extend the stand-in list and re-establish the composition.
                if cur_e matches Element::Image { .. } {
                    let t = choose|t: Canvas|
                        #[trigger] image_placed(t, spec_to_rect(elem_pos(cur_e), w), pre_img, img);
                    let thumbs1 = thumbs0.push(t);
                    assert(thumbs1.len() == imgs_before(elems, k as int + 1));
                    assert(thumbs_fit_upto(elems, k as int + 1, w, thumbs1)) by {
                        assert forall|m: int|
                            0 <= m < k as int + 1 && (elems[m] matches Element::Image {
                                ..
                            }) implies {
                            let tm = #[trigger] thumbs1[imgs_before(elems, m)];
                            let rect = spec_to_rect(elem_pos(elems[m]), w);
                            tm.wf() && 1 <= tm.w() <= rect.spec_width() && 1 <= tm.h()
                                <= rect.spec_height()
                        } by {
                            if m < k as int {
                                assert(imgs_before(elems, m + 1) == imgs_before(elems, m) + 1);
                                lemma_counts_monotonic(elems, m + 1, k as int);
                                lemma_counts_nonneg(elems, m);
                                assert(0 <= imgs_before(elems, m) < thumbs0.len());
                                assert(thumbs0.push(t)[imgs_before(elems, m)] == thumbs0[imgs_before(
                                    elems,
                                    m,
                                )]);
                            } else {
                                assert(m == k as int);
                                assert(imgs_before(elems, m) == thumbs0.len());
                                assert(thumbs0.push(t)[thumbs0.len() as int] == t);
                            }
                        }
                    }
                    assert forall|i: int, j: int| img.in_bounds(i, j) implies img.pix(i, j)
                        == render_pix(elems, w, texts@, thumbs1, k as int + 1, i, j) by {
                        lemma_render_pix_more_thumbs(
                            elems,
                            w,
                            texts@,
                            thumbs0,
                            thumbs1,
                            k as int,
                            i,
                            j,
                        );
                        assert(pre_img.pix(i, j) == render_pix(
                            elems,
                            w,
                            texts@,
                            thumbs1,
                            k as int,
                            i,
                            j,
                        ));
                        assert(thumbs1[imgs_before(elems, k as int)] == t);
                    }
                    assert(exists|thumbs: Seq<Canvas>|
                        #[trigger] thumbs_fit_upto(self.0@, k as int + 1, size.0 as int, thumbs)
                            && forall|i: int, j: int|
                            img.in_bounds(i, j) ==> img.pix(i, j) == render_pix(
                                self.0@,
                                size.0 as int,
                                texts@,
                                thumbs,
                                k as int + 1,
                                i,
                                j,
                            ));
                } else {
                    assert(imgs_before(elems, k as int + 1) == imgs_before(elems, k as int));
                    assert(thumbs_fit_upto(elems, k as int + 1, w, thumbs0)) by {
                        assert forall|m: int|
                            0 <= m < k as int + 1 && (elems[m] matches Element::Image {
                                ..
                            }) implies {
                            let tm = #[trigger] thumbs0[imgs_before(elems, m)];
                            let rect = spec_to_rect(elem_pos(elems[m]), w);
                            tm.wf() && 1 <= tm.w() <= rect.spec_width() && 1 <= tm.h()
                                <= rect.spec_height()
                        } by {
                            assert(m < k as int);
                        }
                    }
                    assert forall|i: int, j: int| img.in_bounds(i, j) implies img.pix(i, j)
                        == render_pix(elems, w, texts@, thumbs0, k as int + 1, i, j) by {
                        assert(pre_img.pix(i, j) == render_pix(
                            elems,
                            w,
                            texts@,
                            thumbs0,
                            k as int,
                            i,
                            j,
                        ));
                    }
                    assert(exists|thumbs: Seq<Canvas>|
                        #[trigger] thumbs_fit_upto(self.0@, k as int + 1, size.0 as int, thumbs)
                            && forall|i: int, j: int|
                            img.in_bounds(i, j) ==> img.pix(i, j) == render_pix(
                                self.0@,
                                size.0 as int,
                                texts@,
                                thumbs,
                                k as int + 1,
                                i,
                                j,
                            ));
                }
                let prev = elems.take(k as int);
                let cur = elems.take(k as int + 1);
                assert(cur[k as int] == elems[k as int]);
                assert forall|i: int, j: int|
                    img.in_bounds(i, j) && !covered_by_elems(cur, w, i, j) implies img.pix(i, j)
                    == (Rgba([0, 0, 0, 0])) by {
                    assert(!spec_to_rect(elem_pos(cur[k as int]), w).contains(i, j));
                    assert forall|m: int|
                        0 <= m < prev.len() implies !(#[trigger] spec_to_rect(
                        elem_pos(prev[m]),
                        w,
                    ).contains(i, j)) by {
                        assert(cur[m] == prev[m]);
                    }
                    assert(!covered_by_elems(prev, w, i, j));
                }
            }
            k += 1;
        }
        proof {
            assert(self.0@.take(n as int) =~= self.0@);
        }
        let ghost thumbs_fin = choose|thumbs: Seq<Canvas>|
            #[trigger] thumbs_fit_upto(self.0@, n as int, size.0 as int, thumbs) && forall|
                i: int,
                j: int,
            |
                img.in_bounds(i, j) ==> img.pix(i, j) == render_pix(
                    self.0@,
                    size.0 as int,
                    texts@,
                    thumbs,
                    n as int,
                    i,
                    j,
                );
        proof {
            assert(thumbs_fit(self.0@, size.0 as int, thumbs_fin));
        }
        match split_line_color {
            Some(col) => {
                let ghost base = img;
                let rgba = Rgba([col.0[0], col.0[1], col.0[2], 255]);
                img.draw_line_segment_mut((0, 0), (0, height as i32), rgba);
                proof {
                    lemma_line_pts_vertical(0, 0, height as int);
                    assert forall|i: int, j: int| img.in_bounds(i, j) implies img.pix(i, j) == (
                    if split_line_color is Some && i == 0 {
                        rgba
                    } else {
                        render_pix(
                            self.0@,
                            size.0 as int,
                            texts@,
                            thumbs_fin,
                            self.0@.len() as int,
                            i,
                            j,
                        )
                    }) by {
                        if i != 0 {
                            assert(img.pix(i, j) == base.pix(i, j));
                        }
                    }
                }
            },
            None => {},
        }
        Ok(img)
    }
}

/// Adding stand-ins beyond those the first `k` elements use does not
/// change what those elements paint.
proof fn lemma_render_pix_more_thumbs(
    elems: Seq<Element>,
    width: int,
    texts: Seq<TextBlock>,
    thumbs: Seq<Canvas>,
    more: Seq<Canvas>,
    k: int,
    i: int,
    j: int,
)
    requires
        0 <= k,
        imgs_before(elems, k) <= thumbs.len(),
        forall|q: int| 0 <= q < thumbs.len() ==> #[trigger] more[q] == thumbs[q],
    ensures
        render_pix(elems, width, texts, more, k, i, j) == render_pix(
            elems,
            width,
            texts,
            thumbs,
            k,
            i,
            j,
        ),
    decreases k,
{
    if k > 0 {
        lemma_counts_nonneg(elems, k - 1);
        if elems[k - 1] matches Element::Image { .. } {
            assert(imgs_before(elems, k) == imgs_before(elems, k - 1) + 1);
            assert(imgs_before(elems, k - 1) < thumbs.len());
        } else {
            assert(imgs_before(elems, k) == imgs_before(elems, k - 1));
        }
        lemma_render_pix_more_thumbs(elems, width, texts, thumbs, more, k - 1, i, j);
    }
}

/// Element counters never decrease and never exceed the element count./// Element counters never decrease and never exceed the element count.
proof fn lemma_counts_monotonic(s: Seq<Element>, k: int, n: int)
    requires
        0 <= k <= n <= s.len(),
    ensures
        imgs_before(s, k) <= imgs_before(s, n),
        texts_before(s, k) <= texts_before(s, n),
        0 <= imgs_before(s, k),
        0 <= texts_before(s, k),
    decreases n - k,
{
    if k < n {
        lemma_counts_monotonic(s, k + 1, n);
        lemma_counts_nonneg(s, k);
    } else {
        lemma_counts_nonneg(s, k);
    }
}

proof fn lemma_counts_nonneg(s: Seq<Element>, k: int)
    requires
        0 <= k,
    ensures
        0 <= imgs_before(s, k),
        0 <= texts_before(s, k),
    decreases k,
{
    if k > 0 {
        lemma_counts_nonneg(s, k - 1);
    }
}

} // verus!
