use vstd::prelude::*;
use crate::canvas::Canvas;

verus! {

/// Declares the image crate's decoded-image type so its values can be
/// carried through signatures; the library never looks inside one.
#[verifier::external_type_specification]
#[verifier::external_body]
pub struct ExDynamicImage(image::DynamicImage);

/// Relies on `image::DynamicImage::thumbnail`: the scaled image
/// preserves the source's aspect ratio and fits within the given
/// bounds, and `resize_dimensions` in the image crate forces each
/// result dimension into `1..=bound` whenever the bound is at least 1.
#[verifier::external_body]
pub fn thumbnail_to_canvas(img: &image::DynamicImage, max_w: u32, max_h: u32) -> (r: Canvas)
    requires
        1 <= max_w <= 0x7FFF,
        1 <= max_h <= 0x7FFF,
    ensures
        r.wf(),
        1 <= r.width <= max_w,
        1 <= r.height <= max_h,
{
    let t = img.thumbnail(max_w, max_h);
    let w = t.width();
    let h = t.height();
    Canvas::from_rgba_bytes(w, h, t.into_rgba8().into_raw())
}

} // verus!
