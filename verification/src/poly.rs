use vstd::prelude::*;
use crate::canvas::Canvas;
use crate::color::Rgba;
use crate::geom::Point;
use crate::bres::on_line;
use crate::wu::wu_paint;
use crate::Error;

verus! {

/// The integer coordinates of a polygon vertex.
pub open spec fn ipt(p: Point<i32>) -> (int, int) {
    (p.x as int, p.y as int)
}

/// Every vertex lies in the coordinate range the scanline arithmetic
/// accepts.
pub open spec fn poly_coords_ok(s: Seq<Point<i32>>) -> bool {
    forall|k: int|
        0 <= k < s.len() ==> -0x100000 <= (#[trigger] s[k]).x <= 0x100000 && -0x100000 <= s[k].y
            <= 0x100000
}

/// The first endpoint of closed edge `k`: vertex `k`.
pub open spec fn edge_a(s: Seq<Point<i32>>, k: int) -> (int, int) {
    ipt(s[k])
}

/// The second endpoint of closed edge `k`: the next vertex, wrapping
/// back to the first.
pub open spec fn edge_b(s: Seq<Point<i32>>, k: int) -> (int, int) {
    ipt(s[if k + 1 == s.len() { 0int } else { k + 1 }])
}

/// `a / b` rounded to the nearest integer, halves away from zero.
/// Meaningful for positive `b`.
pub open spec fn round_div(a: int, b: int) -> int {
    if a >= 0 {
        (2 * a + b) / (2 * b)
    } else {
        -((2 * (-a) + b) / (2 * b))
    }
}

/// The x value where the non-horizontal edge (p0, p1) crosses the
/// scanline `y`, linearly interpolated and rounded to the nearest
/// integer.
pub open spec fn interp_x(p0: (int, int), p1: (int, int), y: int) -> int {
    let dy = p1.1 - p0.1;
    let num = (y - p0.1) * (p1.0 - p0.0);
    if dy > 0 {
        round_div(p0.0 * dy + num, dy)
    } else {
        round_div(p0.0 * (-dy) + (-num), -dy)
    }
}

/// The x entries one edge contributes to the scanline `y`: a horizontal
/// edge at `y` contributes both endpoints; an edge that only touches `y`
/// with one endpoint contributes that endpoint exactly when the other
/// endpoint lies strictly below; any other crossing edge contributes the
/// interpolated x.
pub open spec fn edge_hits(p0: (int, int), p1: (int, int), y: int) -> Seq<int> {
    if (p0.1 <= y && p1.1 >= y) || (p1.1 <= y && p0.1 >= y) {
        if p0.1 == p1.1 {
            seq![p0.0, p1.0]
        } else if p0.1 == y || p1.1 == y {
            (if p1.1 > y {
                seq![p0.0]
            } else {
                Seq::empty()
            }) + (if p0.1 > y {
                seq![p1.0]
            } else {
                Seq::empty()
            })
        } else {
            seq![interp_x(p0, p1, y)]
        }
    } else {
        Seq::empty()
    }
}

/// The x entries the first `k` closed edges contribute to scanline `y`,
/// in edge order.
pub open spec fn row_hits_upto(s: Seq<Point<i32>>, y: int, k: int) -> Seq<int>
    decreases k,
{
    if k <= 0 {
        Seq::empty()
    } else {
        row_hits_upto(s, y, k - 1) + edge_hits(edge_a(s, k - 1), edge_b(s, k - 1), y)
    }
}

/// The x entries of every closed edge at scanline `y`, in edge order.
pub open spec fn row_hits(s: Seq<Point<i32>>, y: int) -> Seq<int> {
    row_hits_upto(s, y, s.len() as int)
}

/// The sequence is ascending.
pub open spec fn sorted_int(s: Seq<int>) -> bool {
    forall|k: int, l: int| 0 <= k < l < s.len() ==> s[k] <= s[l]
}

/// Insert `x` into an ascending sequence, before the first strictly
/// larger element.
pub open spec fn insert_sorted(s: Seq<int>, x: int) -> Seq<int>
    decreases s.len(),
{
    if s.len() == 0 {
        seq![x]
    } else if x < s[0] {
        seq![x] + s
    } else {
        seq![s[0]] + insert_sorted(s.drop_first(), x)
    }
}

/// Insertion sort of a sequence.
pub open spec fn isort(s: Seq<int>) -> Seq<int>
    decreases s.len(),
{
    if s.len() == 0 {
        Seq::empty()
    } else {
        insert_sorted(isort(s.drop_first()), s[0])
    }
}

proof fn lemma_insert_sorted_props(s: Seq<int>, x: int)
    requires
        sorted_int(s),
    ensures
        sorted_int(insert_sorted(s, x)),
        insert_sorted(s, x).len() == s.len() + 1,
        forall|v: int| #[trigger] insert_sorted(s, x).contains(v) <==> (s.contains(v) || v == x),
    decreases s.len(),
{
    let out = insert_sorted(s, x);
    if s.len() == 0 {
        assert forall|v: int| #[trigger] out.contains(v) implies (s.contains(v) || v == x) by {
            let k = choose|k: int| 0 <= k < out.len() && out[k] == v;
        }
        assert(out[0] == x);
        assert(out.contains(x));
    } else if x < s[0] {
        assert forall|v: int| #[trigger] out.contains(v) implies (s.contains(v) || v == x) by {
            let k = choose|k: int| 0 <= k < out.len() && out[k] == v;
            if k > 0 {
                assert(s[k - 1] == v);
            }
        }
        assert(out[0] == x);
        assert forall|v: int| s.contains(v) || v == x implies #[trigger] out.contains(v) by {
            if s.contains(v) {
                let k = choose|k: int| 0 <= k < s.len() && s[k] == v;
                assert(out[k + 1] == v);
            } else {
                assert(out[0] == v);
            }
        }
    } else {
        let tail = s.drop_first();
        assert(sorted_int(tail));
        lemma_insert_sorted_props(tail, x);
        let rec = insert_sorted(tail, x);
        assert(out == seq![s[0]] + rec);
        assert forall|k: int, l: int| 0 <= k < l < out.len() implies out[k] <= out[l] by {
            if k == 0 {
                assert(out[l] == rec[l - 1]);
                assert(rec.contains(rec[l - 1]));
                if rec[l - 1] == x {
                    assert(s[0] <= x);
                } else {
                    assert(tail.contains(rec[l - 1]));
                    let m = choose|m: int| 0 <= m < tail.len() && tail[m] == rec[l - 1];
                    assert(s[m + 1] == tail[m]);
                }
            } else {
                assert(out[k] == rec[k - 1] && out[l] == rec[l - 1]);
            }
        }
        assert forall|v: int| #[trigger] out.contains(v) implies (s.contains(v) || v == x) by {
            let k = choose|k: int| 0 <= k < out.len() && out[k] == v;
            if k == 0 {
                assert(s[0] == v);
            } else {
                assert(rec[k - 1] == v);
                assert(rec.contains(v));
                if v != x {
                    assert(tail.contains(v));
                    let m = choose|m: int| 0 <= m < tail.len() && tail[m] == v;
                    assert(s[m + 1] == v);
                }
            }
        }
        assert forall|v: int| s.contains(v) || v == x implies #[trigger] out.contains(v) by {
            if v == x {
                assert(rec.contains(x));
                let m = choose|m: int| 0 <= m < rec.len() && rec[m] == x;
                assert(out[m + 1] == x);
            } else {
                let k = choose|k: int| 0 <= k < s.len() && s[k] == v;
                if k == 0 {
                    assert(out[0] == v);
                } else {
                    assert(tail[k - 1] == v);
                    assert(rec.contains(v));
                    let m = choose|m: int| 0 <= m < rec.len() && rec[m] == v;
                    assert(out[m + 1] == v);
                }
            }
        }
    }
}

proof fn lemma_isort_props(s: Seq<int>)
    ensures
        sorted_int(isort(s)),
        isort(s).len() == s.len(),
    decreases s.len(),
{
    if s.len() > 0 {
        lemma_isort_props(s.drop_first());
        lemma_insert_sorted_props(isort(s.drop_first()), s[0]);
    }
}

/// Inserting at the position the scan found produces exactly the
/// specification insertion.
proof fn lemma_insert_at(s: Seq<int>, x: int, idx: int)
    requires
        sorted_int(s),
        0 <= idx <= s.len(),
        forall|k: int| 0 <= k < idx ==> s[k] <= x,
        idx < s.len() ==> s[idx] > x,
    ensures
        insert_sorted(s, x) =~= s.insert(idx, x),
    decreases idx,
{
    if idx == 0 {
        if s.len() == 0 {
            assert(insert_sorted(s, x) =~= s.insert(0, x));
        } else {
            assert(x < s[0]);
            assert(insert_sorted(s, x) == seq![x] + s);
            assert(insert_sorted(s, x) =~= s.insert(0, x));
        }
    } else {
        assert(s[0] <= x);
        let tail = s.drop_first();
        assert(sorted_int(tail));
        lemma_insert_at(tail, x, idx - 1);
        assert(insert_sorted(s, x) == seq![s[0]] + insert_sorted(tail, x));
        assert(insert_sorted(s, x) =~= s.insert(idx, x));
    }
}

/// The mathematical values of a vector of machine integers.
pub open spec fn ints_of(v: Seq<i64>) -> Seq<int> {
    Seq::new(v.len(), |k: int| v[k] as int)
}

/// The least y among the first `k` vertices.
pub open spec fn ymin_upto(s: Seq<Point<i32>>, k: int) -> int
    decreases k,
{
    if k <= 1 {
        s[0].y as int
    } else if s[k - 1].y as int <= ymin_upto(s, k - 1) {
        s[k - 1].y as int
    } else {
        ymin_upto(s, k - 1)
    }
}

/// The greatest y among the first `k` vertices.
pub open spec fn ymax_upto(s: Seq<Point<i32>>, k: int) -> int
    decreases k,
{
    if k <= 1 {
        s[0].y as int
    } else if s[k - 1].y as int >= ymax_upto(s, k - 1) {
        s[k - 1].y as int
    } else {
        ymax_upto(s, k - 1)
    }
}

/// The first scanline the fill visits: the polygon's least y, clipped
/// into the canvas rows.
pub open spec fn scan_lo(s: Seq<Point<i32>>, h: int) -> int {
    let m = ymin_upto(s, s.len() as int);
    let c = if m <= h - 1 {
        m
    } else {
        h - 1
    };
    if c >= 0 {
        c
    } else {
        0
    }
}

/// The last scanline the fill visits: the polygon's greatest y, clipped
/// into the canvas rows.
pub open spec fn scan_hi(s: Seq<Point<i32>>, h: int) -> int {
    let m = ymax_upto(s, s.len() as int);
    let c = if m <= h - 1 {
        m
    } else {
        h - 1
    };
    if c >= 0 {
        c
    } else {
        0
    }
}

/// Whether the pair of sorted intersections at positions (idx, idx+1)
/// covers column `i` once clipped to a canvas of width `w`: the pair
/// fills the inclusive span between its two entries.
pub open spec fn pair_covers(hits: Seq<int>, w: int, idx: int, i: int) -> bool {
    let a = hits[idx];
    let b = hits[idx + 1];
    let from0 = if a <= w {
        a
    } else {
        w
    };
    let to0 = if b <= w - 1 {
        b
    } else {
        w - 1
    };
    from0 < w && to0 >= 0 && (if from0 >= 0 {
        from0
    } else {
        0
    }) <= i <= to0
}

/// Whether some complete pair among the first `lim` sorted
/// intersections covers column `i`. An unpaired trailing intersection
/// covers nothing.
pub open spec fn row_covers_upto(hits: Seq<int>, w: int, lim: int, i: int) -> bool {
    exists|k: int| 0 <= k && 2 * k + 1 < lim && #[trigger] pair_covers(hits, w, 2 * k, i)
}

/// Whether some complete pair of the sorted intersections covers
/// column `i`.
pub open spec fn row_covers(hits: Seq<int>, w: int, i: int) -> bool {
    row_covers_upto(hits, w, hits.len() as int, i)
}

/// The pixels the scanline pass of the polygon fill paints.
pub open spec fn on_scanfill(s: Seq<Point<i32>>, w: int, h: int, i: int, j: int) -> bool {
    &&& scan_lo(s, h) <= j <= scan_hi(s, h)
    &&& row_covers(isort(row_hits(s, j)), w, i)
}

/// The pixels the closing edge strokes of the polygon fill paint.
pub open spec fn on_poly_edges(s: Seq<Point<i32>>, i: int, j: int) -> bool {
    exists|k: int| 0 <= k < s.len() && on_line(edge_a(s, k), edge_b(s, k), i, j)
}

/// The full pixel set of the filled polygon: the scanline spans plus a
/// stroke along every closed edge.
pub open spec fn on_polygon(s: Seq<Point<i32>>, w: int, h: int, i: int, j: int) -> bool {
    on_scanfill(s, w, h, i, j) || on_poly_edges(s, i, j)
}

/// A point list the polygon routines reject: fewer than two points, or
/// first and last point equal.
pub open spec fn degenerate(s: Seq<Point<i32>>) -> bool {
    s.len() < 2 || s[0] == s[s.len() - 1]
}

/// `a / b` rounded to nearest, halves away from zero.
fn round_div_i64(a: i64, b: i64) -> (r: i64)
    requires
        1 <= b <= 0x10000000000,
        -0x100000000000000 <= a <= 0x100000000000000,
    ensures
        r as int == round_div(a as int, b as int),
{
    if a >= 0 {
        (((2 * a + b) as u64) / ((2 * b) as u64)) as i64
    } else {
        -((((2 * (-a) + b) as u64) / ((2 * b) as u64)) as i64)
    }
}

/// The x entries every closed edge of the polygon contributes to
/// scanline `y`, in edge order.
fn collect_row_hits(poly: &[Point<i32>], y: i64) -> (v: Vec<i64>)
    requires
        poly_coords_ok(poly@),
        poly@.len() >= 1,
        -0x200000 <= y <= 0x200000,
    ensures
        ints_of(v@) == row_hits(poly@, y as int),
{
    let n = poly.len();
    let mut v: Vec<i64> = Vec::new();
    let mut k: usize = 0;
    while k < n
        invariant
            poly_coords_ok(poly@),
            n == poly@.len(),
            1 <= n,
            -0x200000 <= y <= 0x200000,
            k <= n,
            ints_of(v@) == row_hits_upto(poly@, y as int, k as int),
        decreases n - k,
    {
        let ghost prev = ints_of(v@);
        let p0 = poly[k];
        let p1 = poly[if k + 1 == n {
            0
        } else {
            k + 1
        }];
        let a0: i64 = p0.y as i64;
        let a1: i64 = p1.y as i64;
        let ghost e = edge_hits(
            (p0.x as int, p0.y as int),
            (p1.x as int, p1.y as int),
            y as int,
        );
        if (a0 <= y && a1 >= y) || (a1 <= y && a0 >= y) {
            if a0 == a1 {
                v.push(p0.x as i64);
                v.push(p1.x as i64);
            } else if a0 == y || a1 == y {
                if a1 > y {
                    v.push(p0.x as i64);
                }
                if a0 > y {
                    v.push(p1.x as i64);
                }
            } else {
                let dy: i64 = a1 - a0;
                let dx: i64 = p1.x as i64 - p0.x as i64;
                proof {
                    assert(-0x100000000000 <= (y - a0) as int * (dx as int)
                        <= 0x100000000000) by (nonlinear_arith)
                        requires
                            -0x400000 <= (y - a0) as int <= 0x400000,
                            -0x200000 <= dx as int <= 0x200000,
                    ;
                    assert(-0x100000000000 <= (p0.x as int) * (dy as int) <= 0x100000000000
                        && -0x100000000000 <= (p0.x as int) * (-dy as int)
                        <= 0x100000000000) by (nonlinear_arith)
                        requires
                            -0x200000 <= p0.x as int <= 0x200000,
                            -0x400000 <= dy as int <= 0x400000,
                    ;
                }
                let num: i64 = (y - a0) * dx;
                let r: i64 = if dy > 0 {
                    round_div_i64(p0.x as i64 * dy + num, dy)
                } else {
                    round_div_i64(p0.x as i64 * (-dy) + (-num), -dy)
                };
                v.push(r);
            }
        }
        proof {
            assert(row_hits_upto(poly@, y as int, k as int + 1) == prev + e);
            assert(ints_of(v@) =~= prev + e);
        }
        k += 1;
    }
    v
}

/// The same intersection entries in ascending order.
fn sort_hits(v: &Vec<i64>) -> (out: Vec<i64>)
    ensures
        ints_of(out@) == isort(ints_of(v@)),
        out@.len() == v@.len(),
{
    let n = v.len();
    let mut out: Vec<i64> = Vec::new();
    let mut i: usize = n;
    while i > 0
        invariant
            n == v@.len(),
            i <= n,
            ints_of(out@) == isort(ints_of(v@).skip(i as int)),
            sorted_int(ints_of(out@)),
        decreases i,
    {
        i -= 1;
        let x = v[i];
        let ghost prev = ints_of(out@);
        let mut idx: usize = 0;
        while idx < out.len() && out[idx] <= x
            invariant
                idx <= out@.len(),
                sorted_int(ints_of(out@)),
                ints_of(out@) == prev,
                forall|k: int| 0 <= k < idx ==> ints_of(out@)[k] <= x as int,
            decreases out@.len() - idx,
        {
            idx += 1;
        }
        out.insert(idx, x);
        proof {
            lemma_insert_at(prev, x as int, idx as int);
            assert(ints_of(out@) =~= prev.insert(idx as int, x as int));
            assert(ints_of(v@).skip(i as int).drop_first() =~= ints_of(v@).skip(i as int + 1));
            assert(ints_of(v@).skip(i as int)[0] == v@[i as int] as int);
            assert(ints_of(out@) == insert_sorted(prev, x as int));
            lemma_insert_sorted_props(prev, x as int);
        }
    }
    proof {
        assert(ints_of(v@).skip(0) =~= ints_of(v@));
        lemma_isort_props(ints_of(v@));
    }
    out
}

impl Canvas {
    /// Paints the spans of one scanline: the sorted intersection list is
    /// consumed in consecutive pairs, each pair filling the inclusive
    /// span between its entries, clipped to the canvas width. An
    /// unpaired trailing entry paints nothing.
    fn fill_scan_row(&mut self, hits: &Vec<i64>, y: i64, color: Rgba)
        requires
            old(self).wf(),
            0 <= y < old(self).h(),
            sorted_int(ints_of(hits@)),
        ensures
            final(self).wf(),
            final(self).width == old(self).width,
            final(self).height == old(self).height,
            forall|i: int, j: int|
                old(self).in_bounds(i, j) ==> final(self).pix(i, j) == (if j == y && row_covers(
                    ints_of(hits@),
                    old(self).w(),
                    i,
                ) {
                    color
                } else {
                    old(self).pix(i, j)
                }),
    {
        let ghost hs = ints_of(hits@);
        let len = hits.len();
        let wl: i64 = self.width() as i64;
        let mut m: usize = 0;
        while m + 1 < len
            invariant
                self.wf(),
                self.width == old(self).width,
                self.height == old(self).height,
                0 <= y < self.h(),
                hs == ints_of(hits@),
                len == hits@.len(),
                wl == self.w(),
                m % 2 == 0,
                m <= len,
                hs.len() == len,
                forall|i: int, j: int|
                    old(self).in_bounds(i, j) ==> self.pix(i, j) == (if j == y && row_covers_upto(
                        hs,
                        wl as int,
                        m as int,
                        i,
                    ) {
                        color
                    } else {
                        old(self).pix(i, j)
                    }),
            decreases len - m,
        {
            let a = hits[m];
            let b = hits[m + 1];
            let from0: i64 = if a <= wl {
                a
            } else {
                wl
            };
            let to0: i64 = if b <= wl - 1 {
                b
            } else {
                wl - 1
            };
            if from0 < wl && to0 >= 0 {
                let f: i64 = if from0 >= 0 {
                    from0
                } else {
                    0
                };
                self.fill_row_mut(y, f, to0 + 1, color);
            }
            proof {
                assert forall|i: int, j: int| old(self).in_bounds(i, j) implies self.pix(i, j)
                    == (if j == y && row_covers_upto(hs, wl as int, m as int + 2, i) {
                    color
                } else {
                    old(self).pix(i, j)
                }) by {
                    if j == y {
                        if pair_covers(hs, wl as int, m as int, i) {
                            assert(row_covers_upto(hs, wl as int, m as int + 2, i)) by {
                                assert(2 * ((m as int) / 2) == m as int);
                                assert(pair_covers(hs, wl as int, 2 * ((m as int) / 2), i));
                            }
                        } else if row_covers_upto(hs, wl as int, m as int, i) {
                            let k = choose|k: int|
                                0 <= k && 2 * k + 1 < m as int && #[trigger] pair_covers(
                                    hs,
                                    wl as int,
                                    2 * k,
                                    i,
                                );
                            assert(2 * k + 1 < m as int + 2);
                        } else if row_covers_upto(hs, wl as int, m as int + 2, i) {
                            let k = choose|k: int|
                                0 <= k && 2 * k + 1 < m as int + 2 && #[trigger] pair_covers(
                                    hs,
                                    wl as int,
                                    2 * k,
                                    i,
                                );
                            if 2 * k + 1 < m as int {
                                assert(row_covers_upto(hs, wl as int, m as int, i));
                            } else {
                                assert(2 * k == m as int);
                                assert(pair_covers(hs, wl as int, m as int, i));
                            }
                        }
                    }
                }
            }
            m += 2;
        }
        proof {
            assert forall|i: int| row_covers(hs, wl as int, i) == row_covers_upto(
                hs,
                wl as int,
                m as int,
                i,
            ) by {
                if row_covers(hs, wl as int, i) {
                    let k = choose|k: int|
                        0 <= k && 2 * k + 1 < hs.len() && #[trigger] pair_covers(hs, wl as int, 2 * k, i);
                    assert(2 * k + 1 < m as int);
                    assert(row_covers_upto(hs, wl as int, m as int, i));
                }
                if row_covers_upto(hs, wl as int, m as int, i) {
                    let k = choose|k: int|
                        0 <= k && 2 * k + 1 < m as int && #[trigger] pair_covers(hs, wl as int, 2 * k, i);
                    assert(2 * k + 1 < hs.len());
                    assert(row_covers(hs, wl as int, i));
                }
            }
        }
    }
}

/// The pixels the hollow polygon paints: a line between every pair of
/// consecutive points, plus a final line from the last point back to
/// the first.
pub open spec fn on_poly_outline(s: Seq<Point<i32>>, i: int, j: int) -> bool {
    ||| (exists|k: int| 0 <= k < s.len() - 1 && #[trigger] on_line(ipt(s[k]), ipt(s[k + 1]), i, j))
    ||| on_line(ipt(s[0]), ipt(s[s.len() - 1]), i, j)
}

impl Canvas {
    /// Draws a polygon and its contents in place. The point list must be
    /// an open path: fewer than two points, or a first point equal to
    /// the last, is rejected as `DegeneratePolygon` before any pixel is
    /// touched. On success the scanline spans and every closed edge are
    /// painted, clipped to the canvas.
    pub fn draw_polygon_mut(&mut self, poly: &[Point<i32>], color: Rgba) -> (res: Result<
        (),
        Error,
    >)
        requires
            old(self).wf(),
            poly_coords_ok(poly@),
        ensures
            final(self).wf(),
            final(self).width == old(self).width,
            final(self).height == old(self).height,
            degenerate(poly@) ==> res == Err::<(), Error>(Error::DegeneratePolygon) && *final(self)
                == *old(self),
            !degenerate(poly@) ==> res == Ok::<(), Error>(()) && forall|i: int, j: int|
                old(self).in_bounds(i, j) ==> final(self).pix(i, j) == (if on_polygon(
                    poly@,
                    old(self).w(),
                    old(self).h(),
                    i,
                    j,
                ) {
                    color
                } else {
                    old(self).pix(i, j)
                }),
    {
        let n = poly.len();
        if n < 2 {
            return Err(Error::DegeneratePolygon);
        }
        if poly[0] == poly[n - 1] {
            return Err(Error::DegeneratePolygon);
        }
        let ghost s = poly@;
        let ghost w = self.w();
        let ghost h = self.h();

        self.fill_polygon_scanlines(poly, color);

        let ghost mid = *self;
        let mut k2: usize = 0;
        while k2 < n
            invariant
                self.wf(),
                self.width == old(self).width,
                self.height == old(self).height,
                w == old(self).w(),
                h == old(self).h(),
                s == poly@,
                poly_coords_ok(poly@),
                n == poly@.len(),
                2 <= n,
                k2 <= n,
                mid.w() == w,
                mid.h() == h,
                forall|i: int, j: int|
                    old(self).in_bounds(i, j) ==> mid.pix(i, j) == (if on_scanfill(s, w, h, i, j) {
                        color
                    } else {
                        old(self).pix(i, j)
                    }),
                forall|i: int, j: int|
                    old(self).in_bounds(i, j) ==> self.pix(i, j) == (if edges_upto(
                        s,
                        k2 as int,
                        i,
                        j,
                    ) {
                        color
                    } else {
                        mid.pix(i, j)
                    }),
            decreases n - k2,
        {
            let p0 = poly[k2];
            let p1 = poly[if k2 + 1 == n {
                0
            } else {
                k2 + 1
            }];
            self.draw_line_segment_mut((p0.x, p0.y), (p1.x, p1.y), color);
            proof {
                assert forall|i: int, j: int| old(self).in_bounds(i, j) implies self.pix(i, j)
                    == (if edges_upto(s, k2 as int + 1, i, j) {
                    color
                } else {
                    mid.pix(i, j)
                }) by {
                    if on_line(edge_a(s, k2 as int), edge_b(s, k2 as int), i, j) {
                        assert(edges_upto(s, k2 as int + 1, i, j));
                    } else if edges_upto(s, k2 as int, i, j) {
                        let m = choose|m: int|
                            0 <= m < k2 as int && #[trigger] on_line(edge_a(s, m), edge_b(s, m), i, j);
                        assert(edges_upto(s, k2 as int + 1, i, j));
                    } else if edges_upto(s, k2 as int + 1, i, j) {
                        let m = choose|m: int|
                            0 <= m < k2 as int + 1 && #[trigger] on_line(
                                edge_a(s, m),
                                edge_b(s, m),
                                i,
                                j,
                            );
                        assert(m < k2 as int);
                    }
                }
            }
            k2 += 1;
        }
        proof {
            assert forall|i: int, j: int| old(self).in_bounds(i, j) implies self.pix(i, j) == (
            if on_polygon(s, w, h, i, j) {
                color
            } else {
                old(self).pix(i, j)
            }) by {
                assert(edges_upto(s, n as int, i, j) == on_poly_edges(s, i, j));
            }
        }
        Ok(())
    }

    /// Draws the outline of a polygon in place: a line between every
    /// pair of consecutive points, plus a final line from the last
    /// point back to the first. The point list must be an open path:
    /// fewer than two points, or a first point equal to the last, is
    /// rejected as `DegeneratePolygon` before any pixel is touched.
    pub fn draw_hallow_polygon_mut(&mut self, poly: &[Point<i32>], color: Rgba) -> (res: Result<
        (),
        Error,
    >)
        requires
            old(self).wf(),
            poly_coords_ok(poly@),
        ensures
            final(self).wf(),
            final(self).width == old(self).width,
            final(self).height == old(self).height,
            degenerate(poly@) ==> res == Err::<(), Error>(Error::DegeneratePolygon) && *final(self)
                == *old(self),
            !degenerate(poly@) ==> res == Ok::<(), Error>(()) && forall|i: int, j: int|
                old(self).in_bounds(i, j) ==> final(self).pix(i, j) == (if on_poly_outline(
                    poly@,
                    i,
                    j,
                ) {
                    color
                } else {
                    old(self).pix(i, j)
                }),
    {
        let n = poly.len();
        if n < 2 {
            return Err(Error::DegeneratePolygon);
        }
        if poly[0] == poly[n - 1] {
            return Err(Error::DegeneratePolygon);
        }
        let ghost s = poly@;
        let mut k: usize = 0;
        while k + 1 < n
            invariant
                self.wf(),
                self.width == old(self).width,
                self.height == old(self).height,
                s == poly@,
                poly_coords_ok(poly@),
                n == poly@.len(),
                2 <= n,
                k <= n - 1,
                forall|i: int, j: int|
                    old(self).in_bounds(i, j) ==> self.pix(i, j) == (if open_edges_upto(
                        s,
                        k as int,
                        i,
                        j,
                    ) {
                        color
                    } else {
                        old(self).pix(i, j)
                    }),
            decreases n - k,
        {
            let p0 = poly[k];
            let p1 = poly[k + 1];
            self.draw_line_segment_mut((p0.x, p0.y), (p1.x, p1.y), color);
            proof {
                assert forall|i: int, j: int| old(self).in_bounds(i, j) implies self.pix(i, j)
                    == (if open_edges_upto(s, k as int + 1, i, j) {
                    color
                } else {
                    old(self).pix(i, j)
                }) by {
                    if on_line(ipt(s[k as int]), ipt(s[k as int + 1]), i, j) {
                        assert(open_edges_upto(s, k as int + 1, i, j));
                    } else if open_edges_upto(s, k as int, i, j) {
                        let m = choose|m: int|
                            0 <= m < k as int && #[trigger] on_line(ipt(s[m]), ipt(s[m + 1]), i, j);
                        assert(open_edges_upto(s, k as int + 1, i, j));
                    } else if open_edges_upto(s, k as int + 1, i, j) {
                        let m = choose|m: int|
                            0 <= m < k as int + 1 && #[trigger] on_line(
                                ipt(s[m]),
                                ipt(s[m + 1]),
                                i,
                                j,
                            );
                        assert(m < k as int);
                    }
                }
            }
            k += 1;
        }
        let first = poly[0];
        let last = poly[n - 1];
        self.draw_line_segment_mut((first.x, first.y), (last.x, last.y), color);
        Ok(())
    }
}

/// The pixel value after the first `k` closed edges have been stroked
/// with the antialiased line over the base value at (i, j).
pub open spec fn aa_after(
    s: Seq<Point<i32>>,
    k: int,
    base: Rgba,
    color: Rgba,
    i: int,
    j: int,
) -> Rgba
    decreases k,
{
    if k <= 0 {
        base
    } else {
        wu_paint(
            edge_a(s, k - 1),
            edge_b(s, k - 1),
            aa_after(s, k - 1, base, color, i, j),
            color,
            i,
            j,
        )
    }
}

/// The pixels of the first `k` open-path edges.
pub open spec fn open_edges_upto(s: Seq<Point<i32>>, k: int, i: int, j: int) -> bool {
    exists|m: int| 0 <= m < k && #[trigger] on_line(ipt(s[m]), ipt(s[m + 1]), i, j)
}

/// The pixels of the first `k` closed edges.
pub open spec fn edges_upto(s: Seq<Point<i32>>, k: int, i: int, j: int) -> bool {
    exists|m: int| 0 <= m < k && #[trigger] on_line(edge_a(s, m), edge_b(s, m), i, j)
}

/// The four corners of a rectangle as an open polygon path, in the
/// order left-top, right-top, right-bottom, left-bottom.
pub open spec fn rect_poly(r: crate::geom::Rect) -> Seq<Point<i32>> {
    seq![
        Point { x: r.left, y: r.top },
        Point { x: (r.spec_right()) as i32, y: r.top },
        Point { x: (r.spec_right()) as i32, y: (r.spec_bottom()) as i32 },
        Point { x: r.left, y: (r.spec_bottom()) as i32 },
    ]
}

proof fn lemma_round_div_exact(c: int, b: int)
    by (nonlinear_arith)
    requires
        b >= 1,
        c >= 0,
    ensures
        round_div(c * b, b) == c,
{
    assert((2 * (c * b) + b) == (2 * c + 1) * b);
    assert(((2 * c + 1) * b) / (2 * b) == c) by {
        assert((2 * c + 1) * b == c * (2 * b) + b);
        assert(0 <= b < 2 * b);
    }
}

/// For a rectangle lying inside the canvas with at least two pixels on
/// each side, the scanline polygon fill of the polygon that exactly
/// matches the rectangle paints exactly the same pixel set as the
/// filled-rectangle operation: every canvas pixel is painted by the one
/// exactly when it is painted by the other.
pub proof fn lemma_polygon_matches_rect(r: crate::geom::Rect, w: int, h: int)
    requires
        r.wf(),
        r.spec_width() >= 2,
        r.spec_height() >= 2,
        0 <= r.spec_left(),
        r.spec_right() < w,
        0 <= r.spec_top(),
        r.spec_bottom() < h,
    ensures
        !degenerate(rect_poly(r)),
        forall|i: int, j: int|
            0 <= i < w && 0 <= j < h ==> (#[trigger] on_polygon(rect_poly(r), w, h, i, j)
                <==> r.contains(i, j)),
{
    let s = rect_poly(r);
    let l = r.spec_left();
    let t = r.spec_top();
    let rr = r.spec_right();
    let b = r.spec_bottom();
    assert(l < rr && t < b);
    assert(s[0] == Point { x: l as i32, y: t as i32 });
    assert(!degenerate(s));

    // The scan range is exactly the rectangle's rows.
    assert(ymin_upto(s, 4) == t) by {
        assert(ymin_upto(s, 1) == t);
        assert(ymin_upto(s, 2) == t);
        assert(ymin_upto(s, 3) == t);
    }
    assert(ymax_upto(s, 4) == b) by {
        assert(ymax_upto(s, 1) == t);
        assert(ymax_upto(s, 2) == t);
        assert(ymax_upto(s, 3) == b);
    }
    assert(scan_lo(s, h) == t);
    assert(scan_hi(s, h) == b);

    // The sorted intersections of every scanned row.
    assert forall|j: int| t <= j <= b implies isort(row_hits(s, j)) =~= (if t < j && j < b {
        seq![l, rr]
    } else if j == t {
        seq![l, l, rr, rr]
    } else {
        seq![l, rr]
    }) by {
        lemma_rect_row_hits(r, j);
    }

    assert forall|i: int, j: int| 0 <= i < w && 0 <= j < h implies (#[trigger] on_polygon(
        s,
        w,
        h,
        i,
        j,
    ) <==> r.contains(i, j)) by {
        crate::bres::lemma_line_pts_horizontal(l, rr, t);
        crate::bres::lemma_line_pts_horizontal(rr, l, b);
        crate::bres::lemma_line_pts_vertical(rr, t, b);
        crate::bres::lemma_line_pts_vertical(l, b, t);
        assert(edge_a(s, 0) == (l, t) && edge_b(s, 0) == (rr, t));
        assert(edge_a(s, 1) == (rr, t) && edge_b(s, 1) == (rr, b));
        assert(edge_a(s, 2) == (rr, b) && edge_b(s, 2) == (l, b));
        assert(edge_a(s, 3) == (l, b) && edge_b(s, 3) == (l, t));
        if r.contains(i, j) {
            if j == t {
                assert(on_line(edge_a(s, 0), edge_b(s, 0), i, j));
                assert(on_poly_edges(s, i, j));
            } else if j == b {
                assert(on_line(edge_a(s, 2), edge_b(s, 2), i, j));
                assert(on_poly_edges(s, i, j));
            } else {
                let hs = isort(row_hits(s, j));
                assert(hs =~= seq![l, rr]);
                assert(pair_covers(hs, w, 2 * 0int, i));
                assert(row_covers(hs, w, i));
                assert(on_scanfill(s, w, h, i, j));
            }
        }
        if on_polygon(s, w, h, i, j) {
            if on_scanfill(s, w, h, i, j) {
                let hs = isort(row_hits(s, j));
                let k = choose|k: int|
                    0 <= k && 2 * k + 1 < hs.len() && #[trigger] pair_covers(hs, w, 2 * k, i);
                if t < j < b {
                    assert(hs =~= seq![l, rr]);
                    assert(k == 0);
                    assert(l <= i <= rr);
                } else if j == t {
                    assert(hs =~= seq![l, l, rr, rr]);
                    assert(k == 0 || k == 1);
                    assert(l <= i <= rr);
                } else {
                    assert(hs =~= seq![l, rr]);
                    assert(k == 0);
                    assert(l <= i <= rr);
                }
                assert(r.contains(i, j));
            } else {
                let k = choose|k: int|
                    0 <= k < s.len() && #[trigger] on_line(edge_a(s, k), edge_b(s, k), i, j);
                assert(r.contains(i, j));
            }
        }
    }
}

/// The intersections of one scanned row of the rectangle polygon: the
/// interior rows and the bottom row cross the two vertical sides, and
/// the top row gets its two corners twice from the endpoint rule.
proof fn lemma_rect_row_hits(r: crate::geom::Rect, j: int)
    requires
        r.wf(),
        r.spec_width() >= 2,
        r.spec_height() >= 2,
        0 <= r.spec_left(),
        0 <= r.spec_top(),
        r.spec_top() <= j <= r.spec_bottom(),
    ensures
        isort(row_hits(rect_poly(r), j)) =~= (if r.spec_top() < j && j < r.spec_bottom() {
            seq![r.spec_left(), r.spec_right()]
        } else if j == r.spec_top() {
            seq![r.spec_left(), r.spec_left(), r.spec_right(), r.spec_right()]
        } else {
            seq![r.spec_left(), r.spec_right()]
        }),
{
    let s = rect_poly(r);
    let l = r.spec_left();
    let t = r.spec_top();
    let rr = r.spec_right();
    let b = r.spec_bottom();
    assert(l < rr && t < b);
    assert(edge_a(s, 0) == (l, t) && edge_b(s, 0) == (rr, t));
    assert(edge_a(s, 1) == (rr, t) && edge_b(s, 1) == (rr, b));
    assert(edge_a(s, 2) == (rr, b) && edge_b(s, 2) == (l, b));
    assert(edge_a(s, 3) == (l, b) && edge_b(s, 3) == (l, t));

    lemma_round_div_exact(rr, b - t);
    lemma_round_div_exact(l, b - t);
    assert((j - t) * (rr - rr) == 0) by (nonlinear_arith);
    assert((b - j) * (l - l) == 0) by (nonlinear_arith);
    assert(-((j - b) * (l - l)) == 0) by (nonlinear_arith);
    assert(rr * (b - t) + 0 == rr * (b - t));
    assert(l * (b - t) + 0 == l * (b - t));

    let e0 = edge_hits((l, t), (rr, t), j);
    let e1 = edge_hits((rr, t), (rr, b), j);
    let e2 = edge_hits((rr, b), (l, b), j);
    let e3 = edge_hits((l, b), (l, t), j);
    assert(row_hits(s, j) == row_hits_upto(s, j, 4));
    assert(row_hits_upto(s, j, 4) == row_hits_upto(s, j, 3) + e3);
    assert(row_hits_upto(s, j, 3) == row_hits_upto(s, j, 2) + e2);
    assert(row_hits_upto(s, j, 2) == row_hits_upto(s, j, 1) + e1);
    assert(row_hits_upto(s, j, 1) == row_hits_upto(s, j, 0) + e0);
    assert(row_hits_upto(s, j, 0) == Seq::<int>::empty());

    if t < j && j < b {
        assert(e0 =~= Seq::<int>::empty());
        assert(interp_x((rr, t), (rr, b), j) == rr);
        assert(e1 =~= seq![rr]);
        assert(e2 =~= Seq::<int>::empty());
        assert(interp_x((l, b), (l, t), j) == l);
        assert(e3 =~= seq![l]);
        let hits = row_hits(s, j);
        assert(hits =~= seq![rr, l]);
        lemma_isort_pair(rr, l);
    } else if j == t {
        assert(e0 =~= seq![l, rr]);
        assert(e1 =~= seq![rr]);
        assert(e2 =~= Seq::<int>::empty());
        assert(e3 =~= seq![l]);
        let hits = row_hits(s, j);
        assert(hits =~= seq![l, rr, rr, l]);
        lemma_isort_top_row(l, rr);
    } else {
        assert(j == b);
        assert(e0 =~= Seq::<int>::empty());
        assert(e1 =~= Seq::<int>::empty());
        assert(e2 =~= seq![rr, l]);
        assert(e3 =~= Seq::<int>::empty());
        let hits = row_hits(s, j);
        assert(hits =~= seq![rr, l]);
        lemma_isort_pair(rr, l);
    }
}

/// Sorting the two-entry row [rr, l] with l <= rr gives [l, rr].
proof fn lemma_isort_pair(rr: int, l: int)
    requires
        l <= rr,
    ensures
        isort(seq![rr, l]) =~= seq![l, rr],
{
    let s = seq![rr, l];
    assert(s.drop_first() =~= seq![l]);
    assert(seq![l].drop_first() =~= Seq::<int>::empty());
    assert(isort(Seq::<int>::empty()) =~= Seq::<int>::empty());
    assert(isort(seq![l]) =~= insert_sorted(Seq::<int>::empty(), l));
    assert(insert_sorted(Seq::<int>::empty(), l) =~= seq![l]);
    assert(isort(s) == insert_sorted(seq![l], rr));
    if rr < l {
    } else {
        assert(insert_sorted(seq![l], rr) == seq![l] + insert_sorted(seq![l].drop_first(), rr));
        assert(insert_sorted(Seq::<int>::empty(), rr) =~= seq![rr]);
        assert(insert_sorted(seq![l], rr) =~= seq![l, rr]);
    }
}

/// Sorting the top row [l, rr, rr, l] with l <= rr gives [l, l, rr, rr].
proof fn lemma_isort_top_row(l: int, rr: int)
    requires
        l <= rr,
    ensures
        isort(seq![l, rr, rr, l]) =~= seq![l, l, rr, rr],
{
    let s = seq![l, rr, rr, l];
    assert(s.drop_first() =~= seq![rr, rr, l]);
    assert(seq![rr, rr, l].drop_first() =~= seq![rr, l]);
    lemma_isort_pair(rr, l);
    assert(isort(seq![rr, l]) =~= seq![l, rr]);
    assert(isort(seq![rr, rr, l]) == insert_sorted(isort(seq![rr, l]), rr));
    assert(seq![l, rr].drop_first() =~= seq![rr]);
    assert(insert_sorted(seq![l, rr], rr) == seq![l] + insert_sorted(seq![l, rr].drop_first(), rr));
    assert(seq![rr].drop_first() =~= Seq::<int>::empty());
    assert(insert_sorted(seq![rr], rr) == seq![rr] + insert_sorted(seq![rr].drop_first(), rr));
    assert(insert_sorted(Seq::<int>::empty(), rr) =~= seq![rr]);
    assert(insert_sorted(seq![rr], rr) =~= seq![rr, rr]);
    assert(insert_sorted(seq![l, rr], rr) =~= seq![l, rr, rr]);
    assert(isort(seq![rr, rr, l]) =~= seq![l, rr, rr]);
    assert(isort(s) == insert_sorted(seq![l, rr, rr], l));
    if l < l {
    } else {
        if l == rr {
            assert(seq![l, rr, rr].drop_first() =~= seq![rr, rr]);
            assert(insert_sorted(seq![l, rr, rr], l) == seq![l] + insert_sorted(seq![rr, rr], l));
            assert(seq![rr, rr].drop_first() =~= seq![rr]);
            assert(insert_sorted(seq![rr, rr], l) == seq![rr] + insert_sorted(seq![rr], l));
            assert(insert_sorted(seq![rr], l) == seq![rr] + insert_sorted(Seq::<int>::empty(), l));
            assert(insert_sorted(seq![rr], l) =~= seq![rr, l]);
            assert(insert_sorted(seq![rr, rr], l) =~= seq![rr, rr, l]);
            assert(insert_sorted(seq![l, rr, rr], l) =~= seq![l, rr, rr, l]);
            assert(isort(s) =~= seq![l, l, rr, rr]);
        } else {
            assert(l < rr);
            assert(seq![l, rr, rr].drop_first() =~= seq![rr, rr]);
            assert(insert_sorted(seq![l, rr, rr], l) == seq![l] + insert_sorted(seq![rr, rr], l));
            assert(insert_sorted(seq![rr, rr], l) =~= seq![l, rr, rr]);
            assert(isort(s) =~= seq![l, l, rr, rr]);
        }
    }
}

proof fn lemma_ymin_le_ymax(s: Seq<Point<i32>>, k: int)
    requires
        1 <= k <= s.len(),
        poly_coords_ok(s),
    ensures
        -0x100000 <= ymin_upto(s, k) <= ymax_upto(s, k) <= 0x100000,
    decreases k,
{
    if k > 1 {
        lemma_ymin_le_ymax(s, k - 1);
    }
}

impl Canvas {
    /// Draws an antialiased polygon and its contents in place: the same
    /// scanline fill as the plain form, then an antialiased stroke along
    /// every closed edge, each stroke blending over what lies beneath it.
    /// The point list must be an open path: fewer than two points, or a
    /// first point equal to the last, is rejected as `DegeneratePolygon`
    /// before any pixel is touched.
    pub fn draw_antialiased_polygon_mut(&mut self, poly: &[Point<i32>], color: Rgba) -> (res:
        Result<(), Error>)
        requires
            old(self).wf(),
            poly_coords_ok(poly@),
        ensures
            final(self).wf(),
            final(self).width == old(self).width,
            final(self).height == old(self).height,
            degenerate(poly@) ==> res == Err::<(), Error>(Error::DegeneratePolygon) && *final(self)
                == *old(self),
            !degenerate(poly@) ==> res == Ok::<(), Error>(()) && forall|i: int, j: int|
                old(self).in_bounds(i, j) ==> final(self).pix(i, j) == aa_after(
                    poly@,
                    poly@.len() as int,
                    (if on_scanfill(poly@, old(self).w(), old(self).h(), i, j) {
                        color
                    } else {
                        old(self).pix(i, j)
                    }),
                    color,
                    i,
                    j,
                ),
    {
        let n = poly.len();
        if n < 2 {
            return Err(Error::DegeneratePolygon);
        }
        if poly[0] == poly[n - 1] {
            return Err(Error::DegeneratePolygon);
        }
        let ghost s = poly@;
        let ghost w = self.w();
        let ghost h = self.h();
        self.fill_polygon_scanlines(poly, color);
        let ghost mid = *self;
        let mut k2: usize = 0;
        while k2 < n
            invariant
                self.wf(),
                self.width == old(self).width,
                self.height == old(self).height,
                w == old(self).w(),
                h == old(self).h(),
                s == poly@,
                poly_coords_ok(poly@),
                n == poly@.len(),
                2 <= n,
                k2 <= n,
                mid.w() == w,
                mid.h() == h,
                forall|i: int, j: int|
                    old(self).in_bounds(i, j) ==> mid.pix(i, j) == (if on_scanfill(s, w, h, i, j) {
                        color
                    } else {
                        old(self).pix(i, j)
                    }),
                forall|i: int, j: int|
                    old(self).in_bounds(i, j) ==> self.pix(i, j) == aa_after(
                        s,
                        k2 as int,
                        mid.pix(i, j),
                        color,
                        i,
                        j,
                    ),
            decreases n - k2,
        {
            let p0 = poly[k2];
            let p1 = poly[if k2 + 1 == n {
                0
            } else {
                k2 + 1
            }];
            self.draw_antialiased_line_segment_mut((p0.x, p0.y), (p1.x, p1.y), color);
            k2 += 1;
        }
        Ok(())
    }

    /// The scanline pass of the polygon fill: every scanned row between
    /// the polygon's clipped vertical extent is painted according to
    /// its sorted edge intersections.
    fn fill_polygon_scanlines(&mut self, poly: &[Point<i32>], color: Rgba)
        requires
            old(self).wf(),
            poly_coords_ok(poly@),
            poly@.len() >= 2,
        ensures
            final(self).wf(),
            final(self).width == old(self).width,
            final(self).height == old(self).height,
            forall|i: int, j: int|
                old(self).in_bounds(i, j) ==> final(self).pix(i, j) == (if on_scanfill(
                    poly@,
                    old(self).w(),
                    old(self).h(),
                    i,
                    j,
                ) {
                    color
                } else {
                    old(self).pix(i, j)
                }),
    {
        let n = poly.len();
        let ghost s = poly@;
        let ghost w = self.w();
        let ghost h = self.h();
        let mut ymin: i64 = poly[0].y as i64;
        let mut ymax: i64 = poly[0].y as i64;
        let mut k: usize = 1;
        while k < n
            invariant
                poly_coords_ok(poly@),
                n == poly@.len(),
                2 <= n,
                1 <= k <= n,
                ymin == ymin_upto(poly@, k as int),
                ymax == ymax_upto(poly@, k as int),
            decreases n - k,
        {
            let py = poly[k].y as i64;
            if py < ymin {
                ymin = py;
            }
            if py > ymax {
                ymax = py;
            }
            k += 1;
        }
        proof {
            lemma_ymin_le_ymax(poly@, n as int);
            assert(-0x100000 <= ymin <= 0x100000);
            assert(-0x100000 <= ymax <= 0x100000);
        }

        if self.height() > 0 {
            let hh: i64 = self.height() as i64;
            let y0c: i64 = {
                let c = if ymin <= hh - 1 {
                    ymin
                } else {
                    hh - 1
                };
                if c >= 0 {
                    c
                } else {
                    0
                }
            };
            let y1c: i64 = {
                let c = if ymax <= hh - 1 {
                    ymax
                } else {
                    hh - 1
                };
                if c >= 0 {
                    c
                } else {
                    0
                }
            };
            let mut y: i64 = y0c;
            while y <= y1c
                invariant
                    self.wf(),
                    self.width == old(self).width,
                    self.height == old(self).height,
                    w == old(self).w(),
                    h == old(self).h(),
                    s == poly@,
                    poly_coords_ok(poly@),
                    n == poly@.len(),
                    2 <= n,
                    h >= 1,
                    y0c == scan_lo(s, h),
                    y1c == scan_hi(s, h),
                    0 <= y0c <= y1c <= h - 1,
                    y1c <= 0x100000,
                    y0c <= y,
                    y <= y1c + 1,
                    forall|i: int, j: int|
                        old(self).in_bounds(i, j) ==> self.pix(i, j) == (if y0c <= j < y
                            && row_covers(isort(row_hits(s, j)), w, i) {
                            color
                        } else {
                            old(self).pix(i, j)
                        }),
                decreases y1c + 1 - y,
            {
                let hits = collect_row_hits(poly, y);
                let sorted = sort_hits(&hits);
                proof {
                    lemma_isort_props(ints_of(hits@));
                }
                self.fill_scan_row(&sorted, y, color);
                proof {
                    assert forall|i: int, j: int| old(self).in_bounds(i, j) implies self.pix(
                        i,
                        j,
                    ) == (if y0c <= j < y + 1 && row_covers(isort(row_hits(s, j)), w, i) {
                        color
                    } else {
                        old(self).pix(i, j)
                    }) by {}
                }
                y += 1;
            }
        }
        proof {
            assert forall|i: int, j: int| old(self).in_bounds(i, j) implies self.pix(i, j) == (
            if on_scanfill(s, w, h, i, j) {
                color
            } else {
                old(self).pix(i, j)
            }) by {}
        }

    }
}

} // verus!
