use slide_raster::canvas::Canvas;
use slide_raster::color::{Color, Rgba};
use slide_raster::slide::{Element, Operation, Position, Slide, TextBlock};
use slide_raster::video::{sort_operations, MotionType, VideoBuilder, VideoConfig};
use slide_raster::Error;
use slide_raster::records::{date_of_birth, del_lt_gt, parse_u8, rarity, story_txt, traitadd, JsonScalar};

fn op_color(z: u8) -> Operation {
    Operation::Color {
        color: Color([1, 2, 3]),
        pos: Position::new(1, 0, 100),
        z_index: z,
    }
}

#[test]
fn test_generation_consumes_data_in_order() {
    let ops = vec![
        Operation::Image {
            pos: Position::new(1, 0, 100),
            z_index: 0,
        },
        Operation::Color {
            color: Color([9, 9, 9]),
            pos: Position::new(1, 100, 50),
            z_index: 1,
        },
        Operation::Text {
            scale: 24,
            color: Color([0, 0, 0]),
            pos: Position::new(1, 150, 50),
            z_index: 2,
        },
    ];
    let datas = vec![String::from("a.png"), String::from("hello")];
    let slide = Slide::generation(&ops, datas).unwrap();
    assert_eq!(slide.0.len(), 3);
    match &slide.0[0] {
        Element::Image { path, .. } => assert_eq!(path, "a.png"),
        _ => panic!("first element should be the image"),
    }
    match &slide.0[2] {
        Element::Text { content, .. } => assert_eq!(content, "hello"),
        _ => panic!("last element should be the text"),
    }
}

#[test]
fn test_generation_insufficient_data() {
    // Two image operations with only one data string fail.
    let ops = vec![
        Operation::Image {
            pos: Position::new(1, 0, 100),
            z_index: 0,
        },
        Operation::Image {
            pos: Position::new(1, 100, 100),
            z_index: 1,
        },
    ];
    let datas = vec![String::from("only.png")];
    let res = Slide::generation(&ops, datas);
    assert_eq!(res.err(), Some(Error::InsufficientData));
}

#[test]
fn test_slide_add_helpers() {
    let mut s = Slide::new();
    s.add_text("t", 20, Color([1, 1, 1]), Position::new(1, 0, 10));
    s.add_image("p.png", Position::new(1, 10, 10));
    s.add_color(Color([2, 2, 2]), Position::new(1, 20, 10));
    assert_eq!(s.0.len(), 3);
}

#[test]
fn test_sort_operations_stable_by_z() {
    let ops = vec![op_color(3), op_color(1), op_color(2), op_color(1)];
    let sorted = sort_operations(&ops);
    let zs: Vec<u8> = sorted.iter().map(|o| o.z_index()).collect();
    assert_eq!(zs, vec![1, 1, 2, 3]);
}

fn test_config() -> VideoConfig {
    VideoConfig::builder()
        .step(20)
        .font(String::from("font.ttf"))
        .build(String::from("work"))
        .unwrap()
}

#[test]
fn test_chunk_windowing_two_chunks() {
    // 23 slides, step 20, overlap 4: windows [0, 20) and [16, 23).
    let mut slides = Vec::new();
    let mut k = 0;
    while k < 23 {
        let mut s = Slide::new();
        s.add_color(Color([k as u8, 0, 0]), Position::new(1, 0, 10));
        slides.push(s);
        k += 1;
    }
    let config = test_config();
    assert_eq!(config.step, 20);
    assert_eq!(config.overlap, 4);
    let vb = VideoBuilder { slides, config };
    let video = vb.build().unwrap();
    assert_eq!(video.chunks().len(), 2);
    assert_eq!(video.chunks()[0].len(), 20);
    assert_eq!(video.chunks()[1].len(), 7);
    // The second window starts at slide 16.
    match &video.chunks()[1][0].0[0] {
        Element::Color { color, .. } => assert_eq!(color.0, [16, 0, 0]),
        _ => panic!("expected a color element"),
    }
}

#[test]
fn test_chunk_windowing_insufficient_slides() {
    let config = test_config();
    let vb = VideoBuilder {
        slides: vec![Slide::new(), Slide::new()],
        config,
    };
    let res = vb.build();
    assert!(matches!(res, Err(Error::InsufficientSlides)));
    let config2 = test_config();
    let vb2 = VideoBuilder {
        slides: Vec::new(),
        config: config2,
    };
    assert!(matches!(vb2.build(), Err(Error::InsufficientSlides)));
}

#[test]
fn test_config_build_rejects_bad_geometry() {
    // A screen width that is no multiple of the slide width fails.
    let r = VideoConfig::builder()
        .screen((1000, 1080))
        .font(String::from("f"))
        .build(String::from("w"));
    assert!(matches!(r, Err(Error::InvalidConfig)));
    // A step no larger than the overlap fails.
    let r2 = VideoConfig::builder()
        .step(4)
        .font(String::from("f"))
        .build(String::from("w"));
    assert!(matches!(r2, Err(Error::InvalidConfig)));
    // A missing font fails.
    let r3 = VideoConfig::builder().build(String::from("w"));
    assert!(matches!(r3, Err(Error::InvalidConfig)));
}

#[test]
fn test_config_build_defaults() {
    let c = test_config();
    assert_eq!(c.encoder, "libx264");
    assert_eq!(c.screen, (1920, 1080));
    assert_eq!(c.width_slides, 480);
    assert_eq!(c.work_dir, "work");
    assert_eq!(c.save_path, "work/output.mp4");
    assert_eq!(c.font, "font.ttf");
}

#[test]
fn test_motion_range_expressions() {
    let t = "clip(t-0,0,2.5)/2.5";
    assert_eq!(MotionType::Linear.get_motion_range(t), t);
    assert_eq!(
        MotionType::EaseIn.get_motion_range(t),
        "sin(clip(t-0,0,2.5)/2.5*3.14/2-3.14/2)+1"
    );
    assert_eq!(
        MotionType::EaseOut.get_motion_range(t),
        "sin(clip(t-0,0,2.5)/2.5*3.14/2)"
    );
    assert_eq!(
        MotionType::EaseInOut.get_motion_range(t),
        "(sin(clip(t-0,0,2.5)/2.5*3.14-3.14/2)+1)/2"
    );
}

#[test]
fn test_u32_string_digits() {
    assert_eq!(slide_raster::video::u32_string(0), "0");
    assert_eq!(slide_raster::video::u32_string(7), "7");
    assert_eq!(slide_raster::video::u32_string(1234), "1234");
    assert_eq!(slide_raster::video::u32_string(4294967295), "4294967295");
}

#[test]
fn test_generate_mid_video_args() {
    let args = slide_raster::video::generate_mid_video(
        "libx264",
        "00.png",
        "00.mp4",
        (1920, 1080),
        160,
        "white",
        60,
        48,
        4,
    );
    let expected = "-r 1 -loop 1 -i 00.png -filter_complex color=white:s=1920x1080:r=60[bg];[bg][0]overlay=x='-160*clip(t,0,48)' -c:v libx264 -crf 18 -preset fast -movflags +faststart -t 52 00.mp4";
    assert_eq!(args, expected);
}

#[test]
fn test_mid_video_move_sec() {
    // 20 slides of 480 pixels scroll past a 1920 screen at 160 px/s.
    assert_eq!(slide_raster::video::mid_video_move_sec(20, 480, 1920, 160), 48);
}

#[test]
fn test_concat_file_list_filters_mp4() {
    let names = vec![
        String::from("cover_0.png"),
        String::from("cover.mp4"),
        String::from("00.png"),
        String::from("00.mp4"),
    ];
    let list = slide_raster::video::concat_file_list(&names);
    assert_eq!(list, "file cover.mp4\nfile 00.mp4\n");
}

#[test]
fn test_render_color_block() {
    let mut s = Slide::new();
    s.add_color(Color([200, 100, 50]), Position::new(2, 2, 40));
    let img = s
        .render((100, 60), &Vec::new(), &Vec::new(), None)
        .unwrap();
    assert_eq!(img.width(), 100);
    assert_eq!(img.height(), 60);
    // The block's interior carries the color; far corners stay clear.
    assert_eq!(img.get_pixel(50, 20), Rgba([200, 100, 50, 255]));
    assert_eq!(img.get_pixel(99, 59), Rgba([0, 0, 0, 0]));
}

#[test]
fn test_render_separator_line() {
    let s = Slide::new();
    let img = s
        .render((40, 30), &Vec::new(), &Vec::new(), Some(Color([255, 255, 255])))
        .unwrap();
    for y in 0..30 {
        assert_eq!(img.get_pixel(0, y), Rgba([255, 255, 255, 255]));
    }
    assert_eq!(img.get_pixel(1, 0), Rgba([0, 0, 0, 0]));
}

#[test]
fn test_render_image_scales_to_fit() {
    // The source is far wider than the element rectangle; rendering
    // succeeds only because the thumbnail pass scales it down.
    let mut s = Slide::new();
    s.add_image("ignored.png", Position::new(10, 5, 40));
    let src = image::DynamicImage::new_rgba8(300, 50);
    let images = vec![src];
    let img = s.render((100, 60), &images, &Vec::new(), None).unwrap();
    assert_eq!(img.width(), 100);
    assert_eq!(img.height(), 60);
}

#[test]
fn test_render_text_blends_coverage() {
    let mut s = Slide::new();
    s.add_text("hi", 24, Color([250, 0, 0]), Position::new(10, 5, 40));
    let tb = TextBlock {
        width: 4,
        height: 4,
        coverage: vec![255; 16],
    };
    let texts = vec![tb];
    let img = s.render((100, 60), &Vec::new(), &texts, None).unwrap();
    // The block is centered in the rectangle at (10, 5) with size 80x40:
    // its top-left corner lands at (48, 23).
    assert_eq!(img.get_pixel(49, 24), Rgba([250, 0, 0, 255]));
    assert_eq!(img.get_pixel(10, 5), Rgba([0, 0, 0, 0]));
}

#[test]
fn test_render_text_oversized_coverage_fails() {
    // A coverage block larger than its element rectangle is rejected.
    let mut s = Slide::new();
    s.add_text("hi", 24, Color([250, 0, 0]), Position::new(10, 5, 40));
    let tb = TextBlock {
        width: 200,
        height: 200,
        coverage: vec![0; 40000],
    };
    let res = s.render((100, 60), &Vec::new(), &vec![tb], None);
    assert_eq!(res.err(), Some(Error::InvalidFont));
}

#[test]
fn test_parse_u8_and_rarity() {
    assert_eq!(parse_u8("0"), Some(0));
    assert_eq!(parse_u8("+5"), Some(5));
    assert_eq!(parse_u8("255"), Some(255));
    assert_eq!(parse_u8("256"), None);
    assert_eq!(parse_u8(""), None);
    assert_eq!(parse_u8("+"), None);
    assert_eq!(parse_u8("12a"), None);
    assert_eq!(rarity(&JsonScalar::Num(3)), Some(3));
    assert_eq!(rarity(&JsonScalar::Num(300)), None);
    assert_eq!(rarity(&JsonScalar::Text(String::from("4"))), Some(5));
    assert_eq!(rarity(&JsonScalar::Text(String::from("x"))), None);
    assert_eq!(rarity(&JsonScalar::Null), None);
    assert_eq!(traitadd(&JsonScalar::Null), Some(false));
    assert_eq!(traitadd(&JsonScalar::Bool(true)), Some(true));
    assert_eq!(traitadd(&JsonScalar::Text(String::from("y"))), Some(true));
    assert_eq!(traitadd(&JsonScalar::Num(1)), None);
    assert_eq!(
        story_txt("https://prts.wiki/w/abc"),
        "https://prts.wiki/w/abc"
    );
    assert_eq!(story_txt("abc"), "https://prts.wiki/w/abc");
}

#[test]
fn test_date_of_birth_padding() {
    assert_eq!(date_of_birth("3\u{6708}15\u{65e5}"), "03\u{6708}15\u{65e5}");
    assert_eq!(date_of_birth("12\u{6708}5\u{65e5}"), "12\u{6708}05\u{65e5}");
    assert_eq!(date_of_birth("4\u{6708}7"), "04\u{6708}07\u{65e5}");
    assert_eq!(date_of_birth("unknown"), "unknown");
}

#[test]
fn test_del_lt_gt_strips_markers() {
    assert_eq!(del_lt_gt("a&lt;b&gt;c"), "ac");
    assert_eq!(del_lt_gt("plain"), "plain");
    assert_eq!(del_lt_gt("&ltgt;"), "");
    // Markers that do not pair up leave the value as it is.
    assert_eq!(del_lt_gt("open &lt only"), "open &lt only");
}

#[test]
fn test_render_elements_in_stored_order() {
    // Two overlapping color blocks: the later element paints over the
    // earlier one where they overlap.
    let mut s = Slide::new();
    s.add_color(Color([10, 20, 30]), Position::new(2, 2, 60));
    s.add_color(Color([200, 0, 0]), Position::new(10, 30, 40));
    let img = s.render((100, 80), &Vec::new(), &Vec::new(), None).unwrap();
    // Inside only the first block.
    assert_eq!(img.get_pixel(50, 10), Rgba([10, 20, 30, 255]));
    // Inside both: the second, later block wins.
    assert_eq!(img.get_pixel(50, 40), Rgba([200, 0, 0, 255]));
}
