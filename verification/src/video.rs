use vstd::prelude::*;
use crate::color::Color;
use crate::slide::{Slide, Element, Operation, slide_model, gen_model, strs_of, strs2_of};
use crate::Error;
use vstd::string::StrSliceExecFns;
use vstd::string::StringExecFns;

verus! {

/// How the scroll motion eases over a video segment.
#[derive(Debug, Copy, Clone, PartialEq, Eq, Structural)]
pub enum MotionType {
    Linear,
    EaseIn,
    EaseOut,
    EaseInOut,
}

impl MotionType {
    /// The encoder motion expression for a normalized time range:
    /// linear motion passes the range through, the eased forms wrap it
    /// in the corresponding sine expression.
    pub fn get_motion_range(&self, ranges: &str) -> (r: String)
        ensures
            r@ == (match *self {
                MotionType::Linear => ranges@,
                MotionType::EaseIn => "sin("@ + ranges@ + "*3.14/2-3.14/2)+1"@,
                MotionType::EaseOut => "sin("@ + ranges@ + "*3.14/2)"@,
                MotionType::EaseInOut => "(sin("@ + ranges@ + "*3.14-3.14/2)+1)/2"@,
            }),
    {
        match self {
            MotionType::Linear => ranges.to_owned(),
            MotionType::EaseIn => {
                let mut s = String::from_str("sin(");
                s.append(ranges);
                s.append("*3.14/2-3.14/2)+1");
                s
            },
            MotionType::EaseOut => {
                let mut s = String::from_str("sin(");
                s.append(ranges);
                s.append("*3.14/2)");
                s
            },
            MotionType::EaseInOut => {
                let mut s = String::from_str("(sin(");
                s.append(ranges);
                s.append("*3.14-3.14/2)+1)/2");
                s
            },
        }
    }
}

/// The decimal digit character for a value below ten.
pub open spec fn dec_digit(d: int) -> char {
    if d == 0 {
        '0'
    } else if d == 1 {
        '1'
    } else if d == 2 {
        '2'
    } else if d == 3 {
        '3'
    } else if d == 4 {
        '4'
    } else if d == 5 {
        '5'
    } else if d == 6 {
        '6'
    } else if d == 7 {
        '7'
    } else if d == 8 {
        '8'
    } else {
        '9'
    }
}

/// The decimal digit string of a non-negative integer.
pub open spec fn dec_str(n: int) -> Seq<char>
    decreases (if n >= 0 { n } else { 0 }),
{
    if n < 10 {
        seq![dec_digit(n)]
    } else {
        dec_str(n / 10) + seq![dec_digit(n % 10)]
    }
}

fn digit_str(d: u32) -> (r: &'static str)
    requires
        d < 10,
    ensures
        r@ == seq![dec_digit(d as int)],
{
    let s: &'static str = if d == 0 {
        "0"
    } else if d == 1 {
        "1"
    } else if d == 2 {
        "2"
    } else if d == 3 {
        "3"
    } else if d == 4 {
        "4"
    } else if d == 5 {
        "5"
    } else if d == 6 {
        "6"
    } else if d == 7 {
        "7"
    } else if d == 8 {
        "8"
    } else {
        "9"
    };
    proof {
        reveal_strlit("0");
        reveal_strlit("1");
        reveal_strlit("2");
        reveal_strlit("3");
        reveal_strlit("4");
        reveal_strlit("5");
        reveal_strlit("6");
        reveal_strlit("7");
        reveal_strlit("8");
        reveal_strlit("9");
        assert(s@ =~= seq![dec_digit(d as int)]);
    }
    s
}

/// The decimal digit string of a number.
pub fn u32_string(n: u32) -> (s: String)
    ensures
        s@ == dec_str(n as int),
    decreases n,
{
    if n < 10 {
        digit_str(n).to_owned()
    } else {
        let mut s = u32_string(n / 10);
        s.append(digit_str(n % 10));
        s
    }
}

/// The argument string of the scrolling mid-segment encoder run: the
/// composed image slides left under a fixed background at the given
/// pixel speed, then holds still for the trailing seconds.
pub open spec fn mid_video_args(
    encoder: Seq<char>,
    pic_name: Seq<char>,
    video_name: Seq<char>,
    screen_w: int,
    screen_h: int,
    swip: int,
    back_color: Seq<char>,
    fps: int,
    move_sec: int,
    static_sec: int,
) -> Seq<char> {
    "-r 1 -loop 1 -i "@ + pic_name + " -filter_complex color="@ + back_color + ":s="@ + dec_str(
        screen_w,
    ) + "x"@ + dec_str(screen_h) + ":r="@ + dec_str(fps) + "[bg];[bg][0]overlay=x='-"@ + dec_str(
        swip,
    ) + "*clip(t,0,"@ + dec_str(move_sec) + ")' -c:v "@ + encoder
        + " -crf 18 -preset fast -movflags +faststart -t "@ + dec_str(move_sec + static_sec) + " "@
        + video_name
}

/// Builds the encoder arguments for one scrolling mid segment.
pub fn generate_mid_video(
    encoder: &str,
    pic_name: &str,
    video_name: &str,
    screen: (u32, u32),
    swip_pixels_per_sec: u32,
    back_color: &str,
    fps: u32,
    move_sec: u32,
    static_sec: u32,
) -> (r: String)
    requires
        move_sec + static_sec <= u32::MAX,
    ensures
        r@ == mid_video_args(
            encoder@,
            pic_name@,
            video_name@,
            screen.0 as int,
            screen.1 as int,
            swip_pixels_per_sec as int,
            back_color@,
            fps as int,
            move_sec as int,
            static_sec as int,
        ),
{
    let mut s = String::from_str("-r 1 -loop 1 -i ");
    s.append(pic_name);
    s.append(" -filter_complex color=");
    s.append(back_color);
    s.append(":s=");
    s.append(u32_string(screen.0).as_str());
    s.append("x");
    s.append(u32_string(screen.1).as_str());
    s.append(":r=");
    s.append(u32_string(fps).as_str());
    s.append("[bg];[bg][0]overlay=x='-");
    s.append(u32_string(swip_pixels_per_sec).as_str());
    s.append("*clip(t,0,");
    s.append(u32_string(move_sec).as_str());
    s.append(")' -c:v ");
    s.append(encoder);
    s.append(" -crf 18 -preset fast -movflags +faststart -t ");
    s.append(u32_string(move_sec + static_sec).as_str());
    s.append(" ");
    s.append(video_name);
    s
}

/// How many seconds the scroll of one composed chunk image takes: the
/// part of the image that must leave the screen, at the configured
/// pixel speed, in whole seconds.
pub fn mid_video_move_sec(
    slides_len: u32,
    width_slides: u32,
    screen_w: u32,
    swip_pixels_per_sec: u32,
) -> (r: u32)
    requires
        swip_pixels_per_sec >= 1,
        slides_len * width_slides <= u32::MAX,
        screen_w <= slides_len * width_slides,
    ensures
        r == ((slides_len * width_slides - screen_w) as int) / (swip_pixels_per_sec as int),
{
    proof {
        assert(0 <= (slides_len as int) * (width_slides as int)) by (nonlinear_arith)
            requires
                slides_len as int >= 0,
                width_slides as int >= 0,
        ;
    }
    (slides_len * width_slides - screen_w) / swip_pixels_per_sec
}

/// The concat list the segment joiner consumes: one `file <name>`
/// line per entry that names an mp4 file; all other entries are
/// passed over.
pub open spec fn concat_list_model(names: Seq<Seq<char>>) -> Seq<char>
    decreases names.len(),
{
    if names.len() == 0 {
        Seq::empty()
    } else {
        (if is_mp4_name(names[0]) {
            "file "@ + names[0] + "\n"@
        } else {
            Seq::empty()
        }) + concat_list_model(names.drop_first())
    }
}

/// A name that ends in `mp4`.
pub open spec fn is_mp4_name(s: Seq<char>) -> bool {
    s.len() >= 3 && s.subrange(s.len() - 3, s.len() as int) == "mp4"@
}

fn ends_with_mp4(s: &str) -> (r: bool)
    ensures
        r == is_mp4_name(s@),
{
    let n = s.unicode_len();
    if n < 3 {
        return false;
    }
    let c0 = s.get_char(n - 3);
    let c1 = s.get_char(n - 2);
    let c2 = s.get_char(n - 1);
    proof {
        reveal_strlit("mp4");
        if c0 == 'm' && c1 == 'p' && c2 == '4' {
            assert(s@.subrange(s@.len() - 3, s@.len() as int) =~= "mp4"@);
        } else {
            assert(s@.subrange(s@.len() - 3, s@.len() as int)[0] == c0);
            assert(s@.subrange(s@.len() - 3, s@.len() as int)[1] == c1);
            assert(s@.subrange(s@.len() - 3, s@.len() as int)[2] == c2);
        }
    }
    c0 == 'm' && c1 == 'p' && c2 == '4'
}

/// Builds the list-file contents for joining the finished mp4
/// segments, one `file <name>` line per mp4 entry, in order.
pub fn concat_file_list(results: &Vec<String>) -> (r: String)
    ensures
        r@ == concat_list_model(results@.map_values(|s: String| s@)),
{
    let ghost names = results@.map_values(|s: String| s@);
    let n = results.len();
    let mut k: usize = n;
    let mut acc = String::new();
    proof {
        assert(names.skip(n as int).len() == 0);
    }
    while k > 0
        invariant
            n == results@.len(),
            names == results@.map_values(|s: String| s@),
            k <= n,
            acc@ == concat_list_model(names.skip(k as int)),
        decreases k,
    {
        k -= 1;
        let mut line = String::new();
        if ends_with_mp4(results[k].as_str()) {
            line.append("file ");
            line.append(results[k].as_str());
            line.append("\n");
        }
        line.append(acc.as_str());
        acc = line;
        proof {
            assert(names.skip(k as int)[0] == names[k as int]);
            assert(names.skip(k as int).drop_first() =~= names.skip(k as int + 1));
        }
    }
    proof {
        assert(names.skip(0) =~= names);
    }
    acc
}

/// The validated configuration of one video run.
#[derive(Debug)]
pub struct VideoConfig {
    pub encoder: String,
    pub screen: (u32, u32),
    pub fps: u32,
    pub work_dir: String,
    pub back_color: String,
    pub cover_sec: u32,
    pub motion_type: MotionType,
    pub ending_sec: u32,
    pub swip_pixels_per_sec: u32,
    pub width_slides: u32,
    pub save_path: String,
    pub step: u32,
    pub overlap: u32,
    pub font: String,
    pub split_line_color: Option<Color>,
    pub clean_temp: bool,
}

impl VideoConfig {
    /// A window of `step` slides always shares `overlap` slides with
    /// its predecessor and moves forward by at least one.
    pub open spec fn wf(self) -> bool {
        self.step > self.overlap >= 1
    }

    /// Start collecting configuration values, with the defaults of
    /// `VideoConfigBuilder::new`.
    pub fn builder() -> (b: VideoConfigBuilder)
        ensures
            b.encoder@ == "libx264"@,
            b.screen == (1920u32, 1080u32),
            b.fps == 60u32,
            b.work_dir is None,
            b.back_color@ == "white"@,
            b.cover_sec == 10u32,
            b.motion_type == MotionType::EaseInOut,
            b.ending_sec == 4u32,
            b.swip_pixels_per_sec == 160u32,
            b.width_slides == 480u32,
            b.save_path is None,
            b.step == 20u32,
            b.font is None,
            b.split_line_color == Some(Color([255, 255, 255])),
            b.clean_temp == true,
    {
        VideoConfigBuilder::new()
    }

    pub fn save_path(&self) -> (r: &String)
        ensures
            r == self.save_path,
    {
        &self.save_path
    }
}

/// The raw configuration values before validation.
#[derive(Debug)]
pub struct VideoConfigBuilder {
    pub encoder: String,
    pub screen: (u32, u32),
    pub fps: u32,
    pub work_dir: Option<String>,
    pub back_color: String,
    pub cover_sec: u32,
    pub motion_type: MotionType,
    pub ending_sec: u32,
    pub swip_pixels_per_sec: u32,
    pub width_slides: u32,
    pub save_path: Option<String>,
    pub step: u32,
    pub font: Option<String>,
    pub split_line_color: Option<Color>,
    pub clean_temp: bool,
}

impl VideoConfigBuilder {
    /// The default configuration values: a 1920x1080 screen at 60 fps,
    /// slides 480 pixels wide, windows of 20 slides, a white separator
    /// line, and temporary files cleaned up.
    pub fn new() -> (b: VideoConfigBuilder)
        ensures
            b.encoder@ == "libx264"@,
            b.screen == (1920u32, 1080u32),
            b.fps == 60u32,
            b.work_dir is None,
            b.back_color@ == "white"@,
            b.cover_sec == 10u32,
            b.motion_type == MotionType::EaseInOut,
            b.ending_sec == 4u32,
            b.swip_pixels_per_sec == 160u32,
            b.width_slides == 480u32,
            b.save_path is None,
            b.step == 20u32,
            b.font is None,
            b.split_line_color == Some(Color([255, 255, 255])),
            b.clean_temp == true,
    {
        let b = VideoConfigBuilder {
            encoder: String::from_str("libx264"),
            screen: (1920, 1080),
            fps: 60,
            work_dir: None,
            back_color: String::from_str("white"),
            cover_sec: 10,
            motion_type: MotionType::EaseInOut,
            ending_sec: 4,
            swip_pixels_per_sec: 160,
            width_slides: 480,
            save_path: None,
            step: 20,
            font: None,
            split_line_color: Some(Color([255, 255, 255])),
            clean_temp: true,
        };
        b
    }

    /// Validate the collected values. The screen width must be an exact
    /// multiple of the slide width; their quotient is the overlap, which
    /// must be at least one and strictly below the step; a font must be
    /// set. Checking the directories on disk is the caller's business:
    /// the fallback directory stands in when no working directory was
    /// chosen, and the default output name is placed inside it.
    pub fn build(self, fallback_work_dir: String) -> (r: Result<VideoConfig, Error>)
        requires
            self.width_slides >= 1,
        ensures
            ({
                let overlap = self.screen.0 as int / self.width_slides as int;
                let bad = self.screen.0 as int % self.width_slides as int != 0 || self.step as int
                    <= overlap || overlap < 1 || self.font is None;
                match r {
                    Err(e) => bad && e == Error::InvalidConfig,
                    Ok(c) => {
                        &&& !bad
                        &&& c.wf()
                        &&& c.encoder == self.encoder
                        &&& c.screen == self.screen
                        &&& c.fps == self.fps
                        &&& c.work_dir == (match self.work_dir {
                            Some(d) => d,
                            None => fallback_work_dir,
                        })
                        &&& c.back_color == self.back_color
                        &&& c.cover_sec == self.cover_sec
                        &&& c.motion_type == self.motion_type
                        &&& c.ending_sec == self.ending_sec
                        &&& c.swip_pixels_per_sec == self.swip_pixels_per_sec
                        &&& c.width_slides == self.width_slides
                        &&& (self.save_path matches Some(p) ==> c.save_path == p)
                        &&& (self.save_path is None ==> c.save_path@ == c.work_dir@
                            + "/output.mp4"@)
                        &&& c.step == self.step
                        &&& c.overlap == overlap
                        &&& (self.font matches Some(f) ==> c.font == f)
                        &&& c.split_line_color == self.split_line_color
                        &&& c.clean_temp == self.clean_temp
                    },
                }
            }),
    {
        if self.screen.0 % self.width_slides != 0 {
            return Err(Error::InvalidConfig);
        }
        let overlap = self.screen.0 / self.width_slides;
        if self.step <= overlap || overlap < 1 {
            return Err(Error::InvalidConfig);
        }
        let font = match self.font {
            Some(f) => f,
            None => {
                return Err(Error::InvalidConfig);
            },
        };
        let work_dir = match self.work_dir {
            Some(d) => d,
            None => fallback_work_dir,
        };
        let save_path = match self.save_path {
            Some(p) => p,
            None => {
                let mut p = work_dir.clone();
                p.append("/output.mp4");
                p
            },
        };
        Ok(
            VideoConfig {
                encoder: self.encoder,
                screen: self.screen,
                fps: self.fps,
                work_dir,
                back_color: self.back_color,
                cover_sec: self.cover_sec,
                motion_type: self.motion_type,
                ending_sec: self.ending_sec,
                swip_pixels_per_sec: self.swip_pixels_per_sec,
                width_slides: self.width_slides,
                save_path,
                step: self.step,
                overlap,
                font,
                split_line_color: self.split_line_color,
                clean_temp: self.clean_temp,
            },
        )
    }

    pub fn encoder(self, encoder: &str) -> (r: Self)
        ensures
            r == (Self { encoder: r.encoder, ..self }),
            r.encoder@ == encoder@,
    {
        Self { encoder: encoder.to_owned(), ..self }
    }

    pub fn screen(self, screen: (u32, u32)) -> (r: Self)
        ensures
            r == (Self { screen, ..self }),
    {
        Self { screen, ..self }
    }

    pub fn fps(self, fps: u32) -> (r: Self)
        ensures
            r == (Self { fps, ..self }),
    {
        Self { fps, ..self }
    }

    pub fn work_dir(self, work_dir: String) -> (r: Self)
        ensures
            r == (Self { work_dir: Some(work_dir), ..self }),
    {
        Self { work_dir: Some(work_dir), ..self }
    }

    pub fn back_color(self, back_color: &str) -> (r: Self)
        ensures
            r == (Self { back_color: r.back_color, ..self }),
            r.back_color@ == back_color@,
    {
        Self { back_color: back_color.to_owned(), ..self }
    }

    pub fn cover_sec(self, cover_sec: u32) -> (r: Self)
        ensures
            r == (Self { cover_sec, ..self }),
    {
        Self { cover_sec, ..self }
    }

    pub fn motion_type(self, motion_type: MotionType) -> (r: Self)
        ensures
            r == (Self { motion_type, ..self }),
    {
        Self { motion_type, ..self }
    }

    pub fn ending_sec(self, ending_sec: u32) -> (r: Self)
        ensures
            r == (Self { ending_sec, ..self }),
    {
        Self { ending_sec, ..self }
    }

    pub fn swip_pixels_per_sec(self, swip_pixels_per_sec: u32) -> (r: Self)
        ensures
            r == (Self { swip_pixels_per_sec, ..self }),
    {
        Self { swip_pixels_per_sec, ..self }
    }

    pub fn width_slides(self, width_slides: u32) -> (r: Self)
        ensures
            r == (Self { width_slides, ..self }),
    {
        Self { width_slides, ..self }
    }

    pub fn save_path(self, save_path: String) -> (r: Self)
        ensures
            r == (Self { save_path: Some(save_path), ..self }),
    {
        Self { save_path: Some(save_path), ..self }
    }

    pub fn step(self, step: u32) -> (r: Self)
        ensures
            r == (Self { step, ..self }),
    {
        Self { step, ..self }
    }

    pub fn font(self, font: String) -> (r: Self)
        ensures
            r == (Self { font: Some(font), ..self }),
    {
        Self { font: Some(font), ..self }
    }

    pub fn split_line_color(self, split_line_color: Option<Color>) -> (r: Self)
        ensures
            r == (Self { split_line_color, ..self }),
    {
        Self { split_line_color, ..self }
    }

    pub fn clean_temp(self, clean_temp: bool) -> (r: Self)
        ensures
            r == (Self { clean_temp, ..self }),
    {
        Self { clean_temp, ..self }
    }
}

/// Ascending by z-order index.
pub open spec fn ops_sorted(s: Seq<Operation>) -> bool {
    forall|k: int, l: int|
        0 <= k < l < s.len() ==> s[k].spec_z_index() <= s[l].spec_z_index()
}

/// Insert an operation into a z-ordered sequence, before the first
/// operation with a strictly larger index; equal indices keep their
/// relative order.
pub open spec fn ops_insert(s: Seq<Operation>, x: Operation) -> Seq<Operation>
    decreases s.len(),
{
    if s.len() == 0 {
        seq![x]
    } else if x.spec_z_index() < s[0].spec_z_index() {
        seq![x] + s
    } else {
        seq![s[0]] + ops_insert(s.drop_first(), x)
    }
}

/// Stable insertion sort of operations by their z-order index.
pub open spec fn ops_isort(s: Seq<Operation>) -> Seq<Operation>
    decreases s.len(),
{
    if s.len() == 0 {
        Seq::empty()
    } else {
        insert_of(ops_isort(s.drop_first()), s[0])
    }
}

/// An alias that keeps the recursive definitions readable.
pub open spec fn insert_of(s: Seq<Operation>, x: Operation) -> Seq<Operation> {
    ops_insert(s, x)
}

proof fn lemma_ops_insert_props(s: Seq<Operation>, x: Operation)
    requires
        ops_sorted(s),
    ensures
        ops_sorted(ops_insert(s, x)),
        ops_insert(s, x).len() == s.len() + 1,
    decreases s.len(),
{
    let out = ops_insert(s, x);
    if s.len() == 0 {
    } else if x.spec_z_index() < s[0].spec_z_index() {
        assert forall|k: int, l: int| 0 <= k < l < out.len() implies out[k].spec_z_index()
            <= out[l].spec_z_index() by {
            if k > 0 {
                assert(out[k] == s[k - 1] && out[l] == s[l - 1]);
            } else {
                assert(out[l] == s[l - 1]);
            }
        }
    } else {
        let tail = s.drop_first();
        assert(ops_sorted(tail));
        lemma_ops_insert_props(tail, x);
        let rec = ops_insert(tail, x);
        assert(out == seq![s[0]] + rec);
        assert forall|k: int, l: int| 0 <= k < l < out.len() implies out[k].spec_z_index()
            <= out[l].spec_z_index() by {
            if k == 0 {
                assert(out[l] == rec[l - 1]);
                lemma_ops_insert_member(tail, x, l - 1);
            } else {
                assert(out[k] == rec[k - 1] && out[l] == rec[l - 1]);
            }
        }
    }
}

/// Every member of an insertion result is the inserted element or a
/// member of the original sequence.
proof fn lemma_ops_insert_member(s: Seq<Operation>, x: Operation, m: int)
    requires
        0 <= m < ops_insert(s, x).len(),
    ensures
        ops_insert(s, x)[m] == x || exists|q: int| 0 <= q < s.len() && s[q] == ops_insert(s, x)[m],
    decreases s.len(),
{
    let out = ops_insert(s, x);
    if s.len() == 0 {
    } else if x.spec_z_index() < s[0].spec_z_index() {
        if m > 0 {
            assert(s[m - 1] == out[m]);
        }
    } else {
        if m > 0 {
            lemma_ops_insert_member(s.drop_first(), x, m - 1);
            let rec = ops_insert(s.drop_first(), x);
            assert(out[m] == rec[m - 1]);
            if rec[m - 1] != x {
                let q = choose|q: int|
                    0 <= q < s.drop_first().len() && s.drop_first()[q] == rec[m - 1];
                assert(s[q + 1] == rec[m - 1]);
            }
        }
    }
}

proof fn lemma_ops_insert_at(s: Seq<Operation>, x: Operation, idx: int)
    requires
        ops_sorted(s),
        0 <= idx <= s.len(),
        forall|k: int| 0 <= k < idx ==> s[k].spec_z_index() <= x.spec_z_index(),
        idx < s.len() ==> s[idx].spec_z_index() > x.spec_z_index(),
    ensures
        ops_insert(s, x) =~= s.insert(idx, x),
    decreases idx,
{
    if idx == 0 {
        if s.len() == 0 {
            assert(ops_insert(s, x) =~= s.insert(0, x));
        } else {
            assert(ops_insert(s, x) =~= s.insert(0, x));
        }
    } else {
        let tail = s.drop_first();
        assert(ops_sorted(tail));
        lemma_ops_insert_at(tail, x, idx - 1);
        assert(ops_insert(s, x) =~= s.insert(idx, x));
    }
}

/// The operations in ascending z-order; operations with equal indices
/// keep their relative order.
pub fn sort_operations(operations: &[Operation]) -> (r: Vec<Operation>)
    ensures
        r@ == ops_isort(operations@),
{
    let n = operations.len();
    let mut out: Vec<Operation> = Vec::new();
    let mut i: usize = n;
    proof {
        assert(operations@.skip(n as int).len() == 0);
    }
    while i > 0
        invariant
            n == operations@.len(),
            i <= n,
            out@ == ops_isort(operations@.skip(i as int)),
            ops_sorted(out@),
        decreases i,
    {
        i -= 1;
        let x = operations[i];
        let ghost prev = out@;
        let mut idx: usize = 0;
        while idx < out.len() && out[idx].z_index() <= x.z_index()
            invariant
                idx <= out@.len(),
                out@ == prev,
                ops_sorted(out@),
                forall|k: int|
                    0 <= k < idx ==> (#[trigger] out@[k]).spec_z_index() <= x.spec_z_index(),
            decreases out@.len() - idx,
        {
            idx += 1;
        }
        out.insert(idx, x);
        proof {
            lemma_ops_insert_at(prev, x, idx as int);
            assert(out@ =~= prev.insert(idx as int, x));
            assert(operations@.skip(i as int).drop_first() =~= operations@.skip(i as int + 1));
            assert(operations@.skip(i as int)[0] == operations@[i as int]);
            lemma_ops_insert_props(prev, x);
        }
    }
    proof {
        assert(operations@.skip(0) =~= operations@);
    }
    out
}

impl Element {
    /// An element with the same content.
    pub fn duplicate(&self) -> (r: Element)
        ensures
            crate::slide::elem_model(r) == crate::slide::elem_model(*self),
    {
        match self {
            Element::Image { path, pos } => Element::Image { path: path.clone(), pos: *pos },
            Element::Text { content, max_scale, color, pos } => Element::Text {
                content: content.clone(),
                max_scale: *max_scale,
                color: *color,
                pos: *pos,
            },
            Element::Color { color, pos } => Element::Color { color: *color, pos: *pos },
        }
    }
}

impl Slide {
    /// A slide with the same content.
    pub fn duplicate(&self) -> (r: Slide)
        ensures
            slide_model(r) == slide_model(*self),
    {
        let n = self.0.len();
        let mut out: Vec<Element> = Vec::new();
        let mut k: usize = 0;
        while k < n
            invariant
                n == self.0@.len(),
                k <= n,
                out@.len() == k,
                forall|m: int|
                    0 <= m < k ==> crate::slide::elem_model(#[trigger] out@[m])
                        == crate::slide::elem_model(self.0@[m]),
            decreases n - k,
        {
            let e = self.0[k].duplicate();
            out.push(e);
            k += 1;
        }
        let r = Slide(out);
        proof {
            assert(slide_model(r) =~= slide_model(*self));
        }
        r
    }
}

/// The slides with indices in `[from, to)`, duplicated.
fn slice_slides(slides: &Vec<Slide>, from: usize, to: usize) -> (r: Vec<Slide>)
    requires
        from <= to <= slides@.len(),
    ensures
        r@.len() == to - from,
        forall|m: int|
            0 <= m < to - from ==> slide_model(#[trigger] r@[m]) == slide_model(
                slides@[from + m],
            ),
{
    let mut out: Vec<Slide> = Vec::new();
    let mut k: usize = from;
    while k < to
        invariant
            from <= k <= to <= slides@.len(),
            out@.len() == k - from,
            forall|m: int|
                0 <= m < k - from ==> slide_model(#[trigger] out@[m]) == slide_model(
                    slides@[from + m],
                ),
        decreases to - k,
    {
        let s = slides[k].duplicate();
        out.push(s);
        k += 1;
    }
    out
}

/// The slides waiting to be windowed into chunks, with their
/// configuration.
#[derive(Debug)]
pub struct VideoBuilder {
    pub slides: Vec<Slide>,
    pub config: VideoConfig,
}

/// The windowed slides, ready for rendering.
#[derive(Debug)]
pub struct Video {
    pub chunks: Vec<Vec<Slide>>,
    pub config: VideoConfig,
}

impl Video {
    /// Sorts the operations by z-order, then generates one slide per
    /// data-string list.
    pub fn builder(operations: &[Operation], datas: Vec<Vec<String>>, config: VideoConfig) -> (r:
        Result<VideoBuilder, Error>)
        ensures
            ({
                let dm = strs2_of(datas@);
                match r {
                    Ok(vb) => {
                        &&& vb.config == config
                        &&& vb.slides@.len() == dm.len()
                        &&& forall|i: int|
                            0 <= i < dm.len() ==> gen_model(ops_isort(operations@), #[trigger] dm[i])
                                == Ok::<_, Error>(slide_model(vb.slides@[i]))
                    },
                    Err(e) => exists|i: int|
                        0 <= i < dm.len() && gen_model(ops_isort(operations@), #[trigger] dm[i])
                            == Err::<Seq<(int, Seq<char>, int, Color, crate::slide::Position)>, Error>(
                            e,
                        ),
                }
            }),
    {
        let ghost dm = strs2_of(datas@);
        let sorted = sort_operations(operations);
        let total = datas.len();
        let mut rest = datas;
        let mut slides: Vec<Slide> = Vec::new();
        let mut i: usize = 0;
        while i < total
            invariant
                dm == strs2_of(datas@),
                total == dm.len(),
                i <= total,
                rest@.len() == total - i,
                forall|m: int|
                    0 <= m < total - i ==> strs_of((#[trigger] rest@[m])@) == dm[i + m],
                sorted@ == ops_isort(operations@),
                slides@.len() == i,
                forall|m: int|
                    0 <= m < i ==> gen_model(ops_isort(operations@), #[trigger] dm[m]) == Ok::<
                        _,
                        Error,
                    >(slide_model(slides@[m])),
            decreases total - i,
        {
            let ghost pre = rest@;
            let d = rest.remove(0);
            proof {
                assert(strs_of(pre[0]@) == dm[i as int]);
                assert forall|m: int| 0 <= m < total - i - 1 implies strs_of(
                    (#[trigger] rest@[m])@,
                ) == dm[i + 1 + m] by {
                    assert(rest@[m] == pre[m + 1]);
                }
            }
            let s = match Slide::generation(sorted.as_slice(), d) {
                Ok(s) => s,
                Err(e) => {
                    proof {
                        assert(gen_model(ops_isort(operations@), dm[i as int]) == Err::<
                            Seq<(int, Seq<char>, int, Color, crate::slide::Position)>,
                            Error,
                        >(e));
                        assert(0 <= (i as int) && (i as int) < dm.len());
                        assert(exists|q: int|
                            0 <= q < dm.len() && gen_model(
                                ops_isort(operations@),
                                #[trigger] dm[q],
                            ) == Err::<
                                Seq<(int, Seq<char>, int, Color, crate::slide::Position)>,
                                Error,
                            >(e));
                    }
                    return Err(e);
                },
            };
            slides.push(s);
            i += 1;
        }
        Ok(VideoBuilder { slides, config })
    }

    pub fn chunks(&self) -> (r: &Vec<Vec<Slide>>)
        ensures
            r == self.chunks,
    {
        &self.chunks
    }

    pub fn config(&self) -> (r: &VideoConfig)
        ensures
            r == self.config,
    {
        &self.config
    }
}

impl VideoBuilder {
    /// Append further slides.
    pub fn add_slides(self, slides: Vec<Slide>) -> (r: Self)
        ensures
            r.slides@ == self.slides@ + slides@,
            r.config == self.config,
    {
        let mut mine = self.slides;
        let mut more = slides;
        mine.append(&mut more);
        VideoBuilder { slides: mine, config: self.config }
    }

    pub fn len(&self) -> (r: usize)
        ensures
            r == self.slides@.len(),
    {
        self.slides.len()
    }

    pub fn is_empty(&self) -> (r: bool)
        ensures
            r == (self.slides@.len() == 0),
    {
        self.slides.is_empty()
    }

    /// Window the slides into overlapping chunks: starts advance by
    /// `step - overlap` up to (but excluding) `len - overlap`, and each
    /// chunk spans from its start to `step` slides later, or to the end
    /// of the list if that comes first. An empty list, or fewer slides
    /// than the overlap, is `InsufficientSlides`.
    pub fn build(self) -> (r: Result<Video, Error>)
        requires
            self.config.wf(),
        ensures
            ({
                let len = self.slides@.len() as int;
                let overlap = self.config.overlap as int;
                let stride = self.config.step - self.config.overlap;
                match r {
                    Err(e) => (len == 0 || len < overlap) && e == Error::InsufficientSlides,
                    Ok(v) => {
                        &&& len > 0 && len >= overlap
                        &&& v.config == self.config
                        &&& v.chunks@.len() * stride >= len - overlap
                        &&& (v.chunks@.len() > 0 ==> (v.chunks@.len() - 1) * stride < len
                            - overlap)
                        &&& (len == overlap ==> v.chunks@.len() == 0)
                        &&& forall|c: int|
                            0 <= c < v.chunks@.len() ==> chunk_matches(
                                #[trigger] v.chunks@[c],
                                self.slides@,
                                c * stride,
                                self.config.step as int,
                            )
                    },
                }
            }),
    {
        if self.slides.is_empty() {
            return Err(Error::InsufficientSlides);
        }
        let len = self.slides.len();
        let step = self.config.step as usize;
        let overlap = self.config.overlap as usize;
        if len < overlap {
            return Err(Error::InsufficientSlides);
        }
        let stride: u128 = (step - overlap) as u128;
        let len64: u128 = len as u128;
        let mut chunks: Vec<Vec<Slide>> = Vec::new();
        let mut i: u128 = 0;
        proof {
            assert(0int == 0int * (stride as int)) by (nonlinear_arith);
        }
        while i < len64 - overlap as u128
            invariant
                len == self.slides@.len(),
                len64 == len,
                step == self.config.step as int,
                overlap == self.config.overlap as int,
                self.config.wf(),
                stride == step - overlap,
                1 <= stride <= 0xFFFF_FFFF,
                overlap <= len,
                i == chunks@.len() * stride,
                i < len64 - overlap as u128 + stride,
                forall|c: int|
                    0 <= c < chunks@.len() ==> chunk_matches(
                        #[trigger] chunks@[c],
                        self.slides@,
                        c * stride,
                        step as int,
                    ),
            decreases len64 + stride - i,
        {
            let end: usize = if len - (i as usize) > step {
                (i as usize) + step
            } else {
                len
            };
            let chunk = slice_slides(&self.slides, i as usize, end);
            let ghost c0 = chunks@.len() as int;
            chunks.push(chunk);
            proof {
                assert(c0 * stride == i);
                assert((c0 + 1) * (stride as int) == c0 * (stride as int) + stride as int)
                    by (nonlinear_arith);
                assert forall|c: int| 0 <= c < chunks@.len() implies chunk_matches(
                    #[trigger] chunks@[c],
                    self.slides@,
                    c * stride,
                    step as int,
                ) by {
                    if c < c0 {
                        assert(chunks@[c] == chunks@.subrange(0, c0)[c]);
                    }
                }
            }
            i += stride;
        }
        proof {
            let k = chunks@.len() as int;
            let st = stride as int;
            assert(k * st >= len - overlap);
            if k > 0 {
                assert((k - 1) * st == k * st - st) by (nonlinear_arith);
            }
            if len == overlap {
                assert(k * st == 0 ==> k == 0) by (nonlinear_arith)
                    requires
                        st >= 1,
                        k >= 0,
                ;
                assert(k * st >= 0 && k * st < st ==> k == 0) by (nonlinear_arith)
                    requires
                        st >= 1,
                        k >= 0,
                ;
            }
        }
        Ok(Video { chunks, config: self.config })
    }
}

/// Combines the rendered frames of one chunk into a single wide image:
/// frame `i` occupies the columns starting at `i` times the slide
/// width. An empty chunk is `InsufficientSlides`.
pub fn combain_slides(rendered: &Vec<crate::canvas::Canvas>, width_slides: u32, screen_h: u32)
    -> (r: Result<crate::canvas::Canvas, Error>)
    requires
        1 <= width_slides <= 0x7FFF,
        1 <= screen_h <= 0x7FFF,
        rendered@.len() * width_slides <= 0x7FFF,
        forall|k: int|
            0 <= k < rendered@.len() ==> (#[trigger] rendered@[k]).wf() && rendered@[k].width
                == width_slides && rendered@[k].height == screen_h,
    ensures
        match r {
            Err(e) => rendered@.len() == 0 && e == Error::InsufficientSlides,
            Ok(t) => {
                &&& rendered@.len() > 0
                &&& t.wf()
                &&& t.width == rendered@.len() * width_slides
                &&& t.height == screen_h
                &&& forall|k: int, x: int, y: int|
                    0 <= k < rendered@.len() && 0 <= x < width_slides && 0 <= y < screen_h
                        ==> #[trigger] t.pix(k * width_slides + x, y) == rendered@[k].pix(x, y)
            },
        },
{
    if rendered.len() == 0 {
        return Err(Error::InsufficientSlides);
    }
    let n = rendered.len();
    proof {
        assert((n as int) * (width_slides as int) <= 0x7FFF);
        assert(n as int <= 0x7FFF) by (nonlinear_arith)
            requires
                (n as int) * (width_slides as int) <= 0x7FFF,
                1 <= width_slides as int,
                0 <= n as int,
        ;
    }
    let total_w: u32 = (n as u32) * width_slides;
    proof {
        assert((total_w as int) * (screen_h as int) <= 0x7FFF * 0x7FFF) by (nonlinear_arith)
            requires
                0 <= total_w as int <= 0x7FFF,
                0 <= screen_h as int <= 0x7FFF,
        ;
    }
    let mut target = crate::canvas::Canvas::new(total_w, screen_h);
    let mut i: usize = 0;
    while i < n
        invariant
            n == rendered@.len(),
            1 <= n,
            n <= 0x7FFF,
            1 <= width_slides <= 0x7FFF,
            1 <= screen_h <= 0x7FFF,
            n * width_slides <= 0x7FFF,
            total_w == n * width_slides,
            forall|k: int|
                0 <= k < n ==> (#[trigger] rendered@[k]).wf() && rendered@[k].width
                    == width_slides && rendered@[k].height == screen_h,
            target.wf(),
            target.width == total_w,
            target.height == screen_h,
            i <= n,
            forall|k: int, x: int, y: int|
                0 <= k < i && 0 <= x < width_slides && 0 <= y < screen_h ==> #[trigger] target.pix(
                    k * width_slides + x,
                    y,
                ) == rendered@[k].pix(x, y),
        decreases n - i,
    {
        let ghost pre = target;
        proof {
            assert((i as int) * (width_slides as int) + width_slides <= total_w as int
                && 0 <= (i as int) * (width_slides as int)) by (nonlinear_arith)
                requires
                    0 <= i as int,
                    i as int + 1 <= n as int,
                    1 <= width_slides as int,
                    total_w == n as int * (width_slides as int),
            ;
        }
        let res = target.copy_from(&rendered[i], (i as u32) * width_slides, 0);
        proof {
            assert(res is Ok);
            assert forall|k: int, x: int, y: int|
                0 <= k < i + 1 && 0 <= x < width_slides && 0 <= y < screen_h implies #[trigger] target.pix(
                k * width_slides + x,
                y,
            ) == rendered@[k].pix(x, y) by {
                let base = (i as int) * (width_slides as int);
                if k == i as int {
                    assert(base <= k * width_slides + x < base + width_slides);
                } else {
                    assert((k + 1) * (width_slides as int) <= (i as int) * (
                    width_slides as int)) by (nonlinear_arith)
                        requires
                            k + 1 <= i as int,
                            0 <= width_slides as int,
                    ;
                    assert((k + 1) * (width_slides as int) == k * (width_slides as int)
                        + width_slides as int) by (nonlinear_arith);
                    assert(k * (width_slides as int) + x < base);
                    assert(0 <= k * (width_slides as int)) by (nonlinear_arith)
                        requires
                            0 <= k,
                            0 <= width_slides as int,
                    ;
                    assert(target.pix(k * width_slides + x, y) == pre.pix(k * width_slides + x, y));
                }
            }
        }
        i += 1;
    }
    Ok(target)
}

/// The chunk holds exactly the slides from `start` to `step` later,
/// or to the end of the list.
pub open spec fn chunk_matches(
    chunk: Vec<Slide>,
    slides: Seq<Slide>,
    start: int,
    step: int,
) -> bool {
    let end = if start + step <= slides.len() {
        start + step
    } else {
        slides.len() as int
    };
    &&& chunk@.len() == end - start
    &&& forall|q: int|
        0 <= q < end - start ==> slide_model(#[trigger] chunk@[q]) == slide_model(
            slides[start + q],
        )
}

} // verus!
