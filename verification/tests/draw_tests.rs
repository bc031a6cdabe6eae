use slide_raster::canvas::Canvas;
use slide_raster::color::Rgba;
use slide_raster::geom::{Point, Rect};
use slide_raster::Error;

#[test]
fn test_draw_hollow_ellipse() {
    let img = Canvas::new(100, 100);
    let color = Rgba([0, 255, 255, 255]);
    let img2 = img.draw_hollow_ellipse((50, 50), 30, 20, color);
    assert_eq!(img2.get_pixel(50, 30), color);
    assert_eq!(img2.get_pixel(80, 50), color);
    assert_eq!(img2.get_pixel(50, 70), color);
    assert_eq!(img2.get_pixel(20, 50), color);
    // The source canvas is untouched.
    assert_eq!(img.get_pixel(50, 30), Rgba([0, 0, 0, 0]));
}

#[test]
fn test_draw_filled_ellipse() {
    let img = Canvas::new(100, 100);
    let color = Rgba([255, 128, 0, 255]);
    let img2 = img.draw_filled_ellipse((50, 50), 30, 20, color);
    assert_eq!(img2.get_pixel(50, 50), color);
    assert_eq!(img2.get_pixel(50, 30), color);
    assert_eq!(img2.get_pixel(80, 50), color);
    assert_eq!(img2.get_pixel(50, 70), color);
}

#[test]
fn test_draw_hollow_circle() {
    let img = Canvas::new(100, 100);
    let color = Rgba([255, 0, 0, 255]);
    let img2 = img.draw_hollow_circle((50, 50), 20, color);
    assert_eq!(img2.get_pixel(50, 30), color);
    assert_eq!(img2.get_pixel(70, 50), color);
    assert_eq!(img2.get_pixel(50, 70), color);
    assert_eq!(img2.get_pixel(30, 50), color);
}

#[test]
fn test_draw_filled_circle() {
    let img = Canvas::new(100, 100);
    let color = Rgba([255, 0, 0, 255]);
    let img2 = img.draw_filled_circle((50, 50), 20, color);
    assert_eq!(img2.get_pixel(50, 50), color);
    assert_eq!(img2.get_pixel(50, 30), color);
    assert_eq!(img2.get_pixel(70, 50), color);
    assert_eq!(img2.get_pixel(50, 70), color);
}

#[test]
fn test_draw_cross() {
    let img = Canvas::new(100, 100);
    let color = Rgba([128, 128, 128, 255]);
    let img2 = img.draw_cross(color, 40, 50);
    assert_eq!(img2.get_pixel(40, 50), color);
    assert_eq!(img2.get_pixel(39, 50), color);
    assert_eq!(img2.get_pixel(41, 50), color);
    assert_eq!(img2.get_pixel(40, 49), color);
    assert_eq!(img2.get_pixel(40, 51), color);
}

#[test]
fn test_draw_line_segment() {
    let img = Canvas::new(100, 100);
    let color = Rgba([255, 0, 0, 255]);
    let img2 = img.draw_line_segment((10, 10), (90, 90), color);
    assert_eq!(img2.get_pixel(10, 10), color);
    assert_eq!(img2.get_pixel(50, 50), color);
    assert_eq!(img2.get_pixel(90, 90), color);
}

#[test]
fn test_draw_hallow_polygon() {
    let img = Canvas::new(100, 100);
    let color = Rgba([255, 0, 0, 255]);
    let points = [Point::new(73, 5), Point::new(20, 65), Point::new(35, 86)];
    let img2 = img.draw_hallow_polygon(&points, color).unwrap();
    // The vertices lie on the outline; the triangle's interior does not.
    assert_eq!(img2.get_pixel(73, 5), color);
    assert_eq!(img2.get_pixel(20, 65), color);
    assert_eq!(img2.get_pixel(35, 86), color);
    assert_eq!(img2.get_pixel(50, 50), Rgba([0, 0, 0, 0]));
}

#[test]
fn test_draw_hollow_rect() {
    let img = Canvas::new(100, 100);
    let color = Rgba([255, 0, 0, 255]);
    let rect = Rect::at(20, 20).of_size(40, 40);
    let img2 = img.draw_hollow_rect(rect, color);
    assert_eq!(img2.get_pixel(20, 20), color);
    assert_eq!(img2.get_pixel(59, 20), color);
    assert_eq!(img2.get_pixel(20, 59), color);
    assert_eq!(img2.get_pixel(59, 59), color);
}

#[test]
fn test_draw_filled_rect() {
    let img = Canvas::new(100, 100);
    let color = Rgba([255, 255, 0, 255]);
    let rect = Rect::at(30, 30).of_size(20, 20);
    let img2 = img.draw_filled_rect(rect, color);
    assert_eq!(img2.get_pixel(30, 30), color);
    assert_eq!(img2.get_pixel(49, 30), color);
    assert_eq!(img2.get_pixel(30, 49), color);
    assert_eq!(img2.get_pixel(49, 49), color);
}

#[test]
fn test_draw_hollow_ellipse_mut() {
    let mut img = Canvas::new(100, 100);
    let color = Rgba([0, 255, 255, 255]);
    img.draw_hollow_ellipse_mut((50, 50), 30, 20, color);
    assert_eq!(img.get_pixel(50, 30), color);
    assert_eq!(img.get_pixel(80, 50), color);
    assert_eq!(img.get_pixel(50, 70), color);
    assert_eq!(img.get_pixel(20, 50), color);
}

#[test]
fn test_draw_filled_ellipse_mut() {
    let mut img = Canvas::new(100, 100);
    let color = Rgba([255, 128, 0, 255]);
    img.draw_filled_ellipse_mut((50, 50), 30, 20, color);
    assert_eq!(img.get_pixel(50, 50), color);
    assert_eq!(img.get_pixel(50, 30), color);
    assert_eq!(img.get_pixel(80, 50), color);
    assert_eq!(img.get_pixel(50, 70), color);
}

#[test]
fn test_draw_hollow_circle_mut() {
    let mut img = Canvas::new(100, 100);
    let color = Rgba([255, 0, 0, 255]);
    img.draw_hollow_circle_mut((50, 50), 20, color);
    assert_eq!(img.get_pixel(50, 30), color);
    assert_eq!(img.get_pixel(70, 50), color);
    assert_eq!(img.get_pixel(50, 70), color);
    assert_eq!(img.get_pixel(30, 50), color);
}

#[test]
fn test_draw_filled_circle_mut() {
    let mut img = Canvas::new(100, 100);
    let color = Rgba([255, 0, 0, 255]);
    img.draw_filled_circle_mut((50, 50), 20, color);
    assert_eq!(img.get_pixel(50, 50), color);
    assert_eq!(img.get_pixel(50, 30), color);
    assert_eq!(img.get_pixel(70, 50), color);
    assert_eq!(img.get_pixel(50, 70), color);
}

#[test]
fn test_draw_cross_mut() {
    let mut img = Canvas::new(100, 100);
    let color = Rgba([255, 0, 0, 255]);
    img.draw_cross_mut(color, 40, 50);
    assert_eq!(img.get_pixel(40, 50), color);
    assert_eq!(img.get_pixel(39, 50), color);
    assert_eq!(img.get_pixel(41, 50), color);
    assert_eq!(img.get_pixel(40, 49), color);
    assert_eq!(img.get_pixel(40, 51), color);
}

#[test]
fn test_draw_line_segment_mut() {
    let mut img = Canvas::new(100, 100);
    let color = Rgba([255, 0, 0, 255]);
    img.draw_line_segment_mut((10, 10), (90, 90), color);
    assert_eq!(img.get_pixel(10, 10), color);
    assert_eq!(img.get_pixel(50, 50), color);
    assert_eq!(img.get_pixel(90, 90), color);
}

#[test]
fn test_draw_hollow_rect_mut() {
    let mut img = Canvas::new(100, 100);
    let color = Rgba([255, 0, 0, 255]);
    let rect = Rect::at(20, 20).of_size(40, 40);
    img.draw_hollow_rect_mut(rect, color);
    assert_eq!(img.get_pixel(20, 20), color);
    assert_eq!(img.get_pixel(59, 20), color);
    assert_eq!(img.get_pixel(20, 59), color);
    assert_eq!(img.get_pixel(59, 59), color);
}

#[test]
fn test_draw_filled_rect_mut() {
    let mut img = Canvas::new(100, 100);
    let color = Rgba([255, 255, 0, 255]);
    let rect = Rect::at(30, 30).of_size(20, 20);
    img.draw_filled_rect_mut(rect, color);
    assert_eq!(img.get_pixel(30, 30), color);
    assert_eq!(img.get_pixel(49, 30), color);
    assert_eq!(img.get_pixel(30, 49), color);
    assert_eq!(img.get_pixel(49, 49), color);
}

#[test]
fn test_bresenham_endpoints_and_monotonic() {
    // The first and last points of a run are exactly the endpoints,
    // and the dominant coordinate advances by one per step.
    let pts = slide_raster::bres::bresenham_points((3, 7), (45, 20));
    assert_eq!(pts[0], (3, 7));
    assert_eq!(pts[pts.len() - 1], (45, 20));
    for w in pts.windows(2) {
        assert_eq!(w[1].0, w[0].0 + 1);
    }
    // A right-to-left segment is walked from its left end.
    let pts2 = slide_raster::bres::bresenham_points((45, 20), (3, 7));
    assert_eq!(pts2[0], (3, 7));
    assert_eq!(pts2[pts2.len() - 1], (45, 20));
}

#[test]
fn test_filled_ellipse_equal_radii_matches_circle() {
    // Equal radii paint an identical pixel set to the filled circle.
    let base = Canvas::new(80, 80);
    let color = Rgba([9, 8, 7, 255]);
    let a = base.draw_filled_ellipse((40, 40), 17, 17, color);
    let b = base.draw_filled_circle((40, 40), 17, color);
    for y in 0..80 {
        for x in 0..80 {
            assert_eq!(a.get_pixel(x, y), b.get_pixel(x, y));
        }
    }
}

#[test]
fn test_polygon_matches_filled_rect() {
    // An axis-aligned polygon exactly matching a rectangle paints the
    // same pixels as the rectangle fill: 1600 of them.
    let base = Canvas::new(100, 100);
    let color = Rgba([255, 255, 0, 255]);
    let rect = Rect::at(10, 10).of_size(40, 40);
    let points = [
        Point::new(10, 10),
        Point::new(49, 10),
        Point::new(49, 49),
        Point::new(10, 49),
    ];
    let a = base.draw_polygon(&points, color).unwrap();
    let b = base.draw_filled_rect(rect, color);
    let mut painted = 0u32;
    for y in 0..100 {
        for x in 0..100 {
            assert_eq!(a.get_pixel(x, y), b.get_pixel(x, y));
            if a.get_pixel(x, y) == color {
                painted += 1;
            }
        }
    }
    assert_eq!(painted, 1600);
}

#[test]
fn test_degenerate_polygon_paints_nothing() {
    // A polygon whose first and last points are equal fails before any
    // pixel is touched.
    let mut img = Canvas::new(50, 50);
    let points = [
        Point::new(5, 5),
        Point::new(20, 5),
        Point::new(20, 20),
        Point::new(5, 5),
    ];
    let res = img.draw_polygon_mut(&points, Rgba([1, 2, 3, 4]));
    assert_eq!(res, Err(Error::DegeneratePolygon));
    for y in 0..50 {
        for x in 0..50 {
            assert_eq!(img.get_pixel(x, y), Rgba([0, 0, 0, 0]));
        }
    }
    let short = [Point::new(5, 5)];
    assert_eq!(
        img.draw_polygon_mut(&short, Rgba([1, 2, 3, 4])),
        Err(Error::DegeneratePolygon)
    );
    assert_eq!(
        img.draw_hallow_polygon_mut(&points, Rgba([1, 2, 3, 4])),
        Err(Error::DegeneratePolygon)
    );
}

#[test]
fn test_hollow_rounded_rect_unsupported() {
    let mut img = Canvas::new(50, 50);
    let rect = Rect::at(5, 5).of_size(30, 30);
    let res = img.draw_hollow_rounded_rect_mut(rect, 4, Rgba([1, 1, 1, 1]));
    assert_eq!(res, Err(Error::Unsupported));
    assert_eq!(img.get_pixel(5, 5), Rgba([0, 0, 0, 0]));
}

#[test]
fn test_filled_rounded_rect_shape() {
    let img = Canvas::new(100, 100);
    let color = Rgba([7, 7, 7, 255]);
    let rect = Rect::at(20, 20).of_size(40, 40);
    let img2 = img.draw_filled_rounded_rect(rect, 10, color);
    // The center and the edge midpoints are painted; the square
    // corners are left out.
    assert_eq!(img2.get_pixel(40, 40), color);
    assert_eq!(img2.get_pixel(40, 20), color);
    assert_eq!(img2.get_pixel(20, 40), color);
    assert_eq!(img2.get_pixel(20, 20), Rgba([0, 0, 0, 0]));
    assert_eq!(img2.get_pixel(59, 59), Rgba([0, 0, 0, 0]));
}

#[test]
fn test_antialiased_line_blends() {
    let mut img = Canvas::new(20, 20);
    let color = Rgba([100, 100, 100, 100]);
    // A perfectly horizontal line has full coverage on its own row and
    // none on the next.
    img.draw_antialiased_line_segment_mut((2, 5), (10, 5), color);
    assert_eq!(img.get_pixel(5, 5), color);
    assert_eq!(img.get_pixel(5, 6), Rgba([0, 0, 0, 0]));
}

#[test]
fn test_bezier_endpoints_on_curve() {
    let mut img = Canvas::new(100, 100);
    let color = Rgba([255, 0, 0, 255]);
    img.draw_cubic_bezier_curve_mut((10, 10), (90, 90), (30, 30), (70, 70), color);
    // A curve whose control points sit on the diagonal is the diagonal.
    assert_eq!(img.get_pixel(10, 10), color);
    assert_eq!(img.get_pixel(90, 90), color);
    assert_eq!(img.get_pixel(50, 50), color);
}

#[test]
fn test_rect_accessors_and_intersect() {
    let r = Rect::at(10, 20).of_size(30, 40);
    assert_eq!(r.left(), 10);
    assert_eq!(r.top(), 20);
    assert_eq!(r.right(), 39);
    assert_eq!(r.bottom(), 59);
    assert_eq!(r.width(), 30);
    assert_eq!(r.height(), 40);
    let other = Rect::at(25, 30).of_size(30, 40);
    let i = r.intersect(other).unwrap();
    assert_eq!(i.left(), 25);
    assert_eq!(i.top(), 30);
    assert_eq!(i.right(), 39);
    assert_eq!(i.bottom(), 59);
    let far = Rect::at(200, 200).of_size(5, 5);
    assert!(r.intersect(far).is_none());
}

#[test]
fn test_point_new() {
    let p = Point::new(3, -4);
    assert_eq!(p.x, 3);
    assert_eq!(p.y, -4);
}

#[test]
fn test_canvas_copy_from() {
    let mut dst = Canvas::new(10, 10);
    let mut src = Canvas::new(3, 2);
    src.put_pixel(0, 0, Rgba([1, 2, 3, 4]));
    src.put_pixel(2, 1, Rgba([5, 6, 7, 8]));
    dst.copy_from(&src, 4, 5).unwrap();
    assert_eq!(dst.get_pixel(4, 5), Rgba([1, 2, 3, 4]));
    assert_eq!(dst.get_pixel(6, 6), Rgba([5, 6, 7, 8]));
    // A copy that would not fit fails and changes nothing.
    let big = Canvas::new(9, 9);
    assert_eq!(dst.copy_from(&big, 5, 5), Err(Error::SourceUnavailable));
    assert_eq!(dst.get_pixel(4, 5), Rgba([1, 2, 3, 4]));
}
