use slide_raster::color::{Color, Rgba};
use slide_raster::Clamp;
use slide_raster::Error;

#[test]
fn test_color_from_hex() {
    let color = Color::try_from("#FF5733").unwrap();
    assert_eq!(color.0, [255, 87, 51]);
}

#[test]
fn test_color_from_invalid_hex() {
    let color = Color::try_from("#ZZZZZZ");
    assert!(color.is_err());
}

#[test]
fn test_color_from_invalid_named_color() {
    let color = Color::try_from("notacolor");
    assert!(color.is_err());
}

#[test]
fn test_color_into_rgba() {
    let color = Color([128, 64, 32]);
    let rgba: Rgba = color.into();
    assert_eq!(rgba.0, [128, 64, 32, 255]);
}

#[test]
fn test_color_from_rgba_array() {
    let color = Color::from([128, 64, 32, 255]);
    assert_eq!(color.0, [128, 64, 32]);
}

#[test]
fn test_color_deref() {
    let color = Color([10, 20, 30]);
    assert_eq!(color.channels()[0], 10);
    assert_eq!(color.channels()[1], 20);
    assert_eq!(color.channels()[2], 30);
}

#[test]
fn test_color_named_lookup() {
    assert_eq!(Color::try_from("white").unwrap().0, [255, 255, 255]);
    assert_eq!(Color::try_from("gold").unwrap().0, [255, 215, 0]);
    assert_eq!(Color::from_name("brown").unwrap().0, [165, 42, 42]);
    assert_eq!(Color::try_from("#abcdef").unwrap().0, [171, 205, 239]);
    assert_eq!(Color::try_from("#1234"), Err(Error::InvalidColor));
    assert_eq!(Color::try_from(""), Err(Error::InvalidColor));
}

#[test]
fn test_weighted_sum_exact() {
    let left = Rgba([10, 20, 30, 255]);
    let right = Rgba([100, 80, 60, 255]);
    // 10 * 7/10 + 100 * 3/10 = 37, 20 * 7/10 + 80 * 3/10 = 38, ...
    let sum = slide_raster::blend::weighted_sum(left, right, 7, 10);
    assert_eq!(sum.0, [37, 38, 39, 255]);
    // A zero weight keeps the original, a full weight takes the line color.
    assert_eq!(slide_raster::blend::weighted_sum(left, right, 0, 10), right);
    assert_eq!(slide_raster::blend::weighted_sum(left, right, 10, 10), left);
}

#[test]
fn test_clamp_saturates() {
    let a: u8 = Clamp::clamp(300i32);
    assert_eq!(a, 255);
    let b: u8 = Clamp::clamp(-5i32);
    assert_eq!(b, 0);
    let c: u8 = Clamp::clamp(77u32);
    assert_eq!(c, 77);
    let d: i16 = Clamp::clamp(123456i32);
    assert_eq!(d, 32767);
    let e: u16 = Clamp::clamp(70000i32);
    assert_eq!(e, 65535);
    let f: u32 = Clamp::clamp(9u32);
    assert_eq!(f, 9);
}
