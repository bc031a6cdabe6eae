pub mod bezier;
pub mod blend;
pub mod bres;
pub mod canvas;
pub mod clamp;
pub mod conic;
pub mod draw_copy;
pub mod ellipse;
pub mod poly;
pub mod records;
pub mod rect_draw;
pub mod slide;
pub mod video;
pub mod wu;
pub mod color;
pub mod geom;
pub mod imgio;

pub use canvas::Canvas;
pub use clamp::Clamp;
pub use color::Color;
pub use color::Rgba;
pub use geom::Point;
pub use geom::Rect;
pub use geom::RectPosition;

use vstd::prelude::*;

verus! {

/// The error kinds this library reports. Construction and drawing
/// functions return these instead of panicking.
#[derive(Debug, Clone, PartialEq, Eq, Structural)]
pub enum Error {
    /// A color string was malformed or named no known color.
    InvalidColor,
    /// A polygon had fewer than two points, or its first and last points were equal.
    DegeneratePolygon,
    /// The data-string supply ran out while generating a slide.
    InsufficientData,
    /// Screen width, slide width, step and overlap do not fit together.
    InvalidConfig,
    /// Fewer slides were supplied than the configured overlap requires.
    InsufficientSlides,
    /// A referenced image source could not be used.
    SourceUnavailable,
    /// The font bytes could not be parsed.
    InvalidFont,
    /// The requested drawing operation is not provided.
    Unsupported,
}

pub fn error_message(e: &Error) -> (r: &'static str) {
    match e {
        Error::InvalidColor => "invalid color",
        Error::DegeneratePolygon => "degenerate polygon",
        Error::InsufficientData => "insufficient data",
        Error::InvalidConfig => "invalid config",
        Error::InsufficientSlides => "insufficient slides",
        Error::SourceUnavailable => "source unavailable",
        Error::InvalidFont => "invalid font",
        Error::Unsupported => "unsupported operation",
    }
}

} // verus!
