use vstd::prelude::*;
use crate::Error;

verus! {

/// A 4-channel pixel: red, green, blue, alpha.
#[derive(Debug, Copy, Clone, PartialEq, Eq)]
pub struct Rgba(pub [u8; 4]);

/// A 3-channel color: red, green and blue.
#[derive(Debug, Copy, Clone, PartialEq, Eq)]
pub struct Color(pub [u8; 3]);

/// The value of a single hexadecimal digit, or 16 when the character is none.
pub open spec fn spec_hex_val(c: char) -> int {
    let u = c as u32;
    if 48 <= u <= 57 {
        u - 48
    } else if 65 <= u <= 70 {
        u - 55
    } else if 97 <= u <= 102 {
        u - 87
    } else {
        16
    }
}

pub open spec fn spec_is_hex(c: char) -> bool {
    spec_hex_val(c) < 16
}

/// The color a `#RRGGBB` string denotes, when it is well-formed.
pub open spec fn spec_hex_color(s: Seq<char>) -> Option<Color> {
    if s.len() == 7 && s[0] == '#' && spec_is_hex(s[1]) && spec_is_hex(s[2]) && spec_is_hex(s[3])
        && spec_is_hex(s[4]) && spec_is_hex(s[5]) && spec_is_hex(s[6]) {
        Some(
            Color(
                [
                    (16 * spec_hex_val(s[1]) + spec_hex_val(s[2])) as u8,
                    (16 * spec_hex_val(s[3]) + spec_hex_val(s[4])) as u8,
                    (16 * spec_hex_val(s[5]) + spec_hex_val(s[6])) as u8,
                ],
            ),
        )
    } else {
        None
    }
}

/// The color a name denotes in the built-in name table, if any.
pub open spec fn spec_named_color(s: Seq<char>) -> Option<Color> {
    if s == "black"@ {
        Some(Color([0, 0, 0]))
    } else if s == "white"@ {
        Some(Color([255, 255, 255]))
    } else if s == "gray"@ {
        Some(Color([128, 128, 128]))
    } else if s == "gold"@ {
        Some(Color([255, 215, 0]))
    } else if s == "silver"@ {
        Some(Color([192, 192, 192]))
    } else if s == "red"@ {
        Some(Color([255, 0, 0]))
    } else if s == "orange"@ {
        Some(Color([255, 165, 0]))
    } else if s == "yellow"@ {
        Some(Color([255, 255, 0]))
    } else if s == "green"@ {
        Some(Color([0, 255, 0]))
    } else if s == "cyan"@ {
        Some(Color([0, 255, 255]))
    } else if s == "blue"@ {
        Some(Color([0, 0, 255]))
    } else if s == "purple"@ {
        Some(Color([128, 0, 128]))
    } else if s == "violet"@ {
        Some(Color([238, 130, 238]))
    } else if s == "orchid"@ {
        Some(Color([218, 112, 214]))
    } else if s == "pink"@ {
        Some(Color([255, 192, 203]))
    } else if s == "snow"@ {
        Some(Color([255, 250, 250]))
    } else if s == "brown"@ {
        Some(Color([165, 42, 42]))
    } else {
        None
    }
}

/// What `Color::try_from` returns for any input string: a `#`-prefixed
/// string must be a well-formed 6-digit hex color, any other string is
/// looked up in the name table, and everything else is `InvalidColor`.
pub open spec fn spec_try_color(s: Seq<char>) -> Result<Color, Error> {
    if s.len() >= 1 && s[0] == '#' {
        match spec_hex_color(s) {
            Some(c) => Ok(c),
            None => Err(Error::InvalidColor),
        }
    } else {
        match spec_named_color(s) {
            Some(c) => Ok(c),
            None => Err(Error::InvalidColor),
        }
    }
}

/// The numeric value of one hexadecimal digit character.
fn hex_digit(c: char) -> (r: Option<u8>)
    ensures
        r matches Some(v) ==> spec_is_hex(c) && v == spec_hex_val(c),
        r is None ==> !spec_is_hex(c),
{
    let u = c as u32;
    if 48 <= u && u <= 57 {
        Some((u - 48) as u8)
    } else if 65 <= u && u <= 70 {
        Some((u - 55) as u8)
    } else if 97 <= u && u <= 102 {
        Some((u - 87) as u8)
    } else {
        None
    }
}

/// Whether two strings hold the same characters.
fn str_eq(a: &str, b: &str) -> (r: bool)
    ensures
        r <==> a@ == b@,
{
    let an = a.unicode_len();
    let bn = b.unicode_len();
    if an != bn {
        assert(a@ != b@);
        return false;
    }
    let mut i: usize = 0;
    while i < an
        invariant
            0 <= i <= an,
            an == a@.len(),
            an == b@.len(),
            forall|j: int| 0 <= j < i ==> a@[j] == b@[j],
        decreases an - i,
    {
        if a.get_char(i) != b.get_char(i) {
            return false;
        }
        i += 1;
    }
    proof {
        assert(a@ =~= b@);
    }
    true
}

impl Color {
    /// Parse a color from a `#RRGGBB` hex string or a known color name.
    pub fn try_from(value: &str) -> (r: Result<Color, Error>)
        ensures
            r == spec_try_color(value@),
    {
        let n = value.unicode_len();
        if n >= 1 && value.get_char(0) == '#' {
            if n != 7 {
                return Err(Error::InvalidColor);
            }
            let d1 = hex_digit(value.get_char(1));
            let d2 = hex_digit(value.get_char(2));
            let d3 = hex_digit(value.get_char(3));
            let d4 = hex_digit(value.get_char(4));
            let d5 = hex_digit(value.get_char(5));
            let d6 = hex_digit(value.get_char(6));
            match (d1, d2, d3, d4, d5, d6) {
                (Some(h1), Some(h2), Some(h3), Some(h4), Some(h5), Some(h6)) => Ok(
                    Color([16 * h1 + h2, 16 * h3 + h4, 16 * h5 + h6]),
                ),
                _ => Err(Error::InvalidColor),
            }
        } else {
            Self::from_name(value)
        }
    }

    /// Look a color name up in the built-in name table.
    pub fn from_name(value: &str) -> (r: Result<Color, Error>)
        ensures
            r == (match spec_named_color(value@) {
                Some(c) => Ok::<Color, Error>(c),
                None => Err(Error::InvalidColor),
            }),
    {
        if str_eq(value, "black") {
            Ok(Color([0, 0, 0]))
        } else if str_eq(value, "white") {
            Ok(Color([255, 255, 255]))
        } else if str_eq(value, "gray") {
            Ok(Color([128, 128, 128]))
        } else if str_eq(value, "gold") {
            Ok(Color([255, 215, 0]))
        } else if str_eq(value, "silver") {
            Ok(Color([192, 192, 192]))
        } else if str_eq(value, "red") {
            Ok(Color([255, 0, 0]))
        } else if str_eq(value, "orange") {
            Ok(Color([255, 165, 0]))
        } else if str_eq(value, "yellow") {
            Ok(Color([255, 255, 0]))
        } else if str_eq(value, "green") {
            Ok(Color([0, 255, 0]))
        } else if str_eq(value, "cyan") {
            Ok(Color([0, 255, 255]))
        } else if str_eq(value, "blue") {
            Ok(Color([0, 0, 255]))
        } else if str_eq(value, "purple") {
            Ok(Color([128, 0, 128]))
        } else if str_eq(value, "violet") {
            Ok(Color([238, 130, 238]))
        } else if str_eq(value, "orchid") {
            Ok(Color([218, 112, 214]))
        } else if str_eq(value, "pink") {
            Ok(Color([255, 192, 203]))
        } else if str_eq(value, "snow") {
            Ok(Color([255, 250, 250]))
        } else if str_eq(value, "brown") {
            Ok(Color([165, 42, 42]))
        } else {
            Err(Error::InvalidColor)
        }
    }

    /// The red, green and blue channels.
    pub fn channels(&self) -> (r: [u8; 3])
        ensures
            r == self.0,
    {
        self.0
    }
}

impl From<Color> for Rgba {
    /// The color's channels with a fully opaque alpha.
    fn from(val: Color) -> (r: Rgba) {
        Rgba([val.0[0], val.0[1], val.0[2], 255])
    }
}

impl vstd::std_specs::convert::FromSpecImpl<Color> for Rgba {
    open spec fn obeys_from_spec() -> bool {
        true
    }

    open spec fn from_spec(val: Color) -> Rgba {
        Rgba([val.0[0], val.0[1], val.0[2], 255])
    }
}

impl From<[u8; 4]> for Color {
    /// The first three channels of an RGBA quadruple.
    fn from(value: [u8; 4]) -> (r: Color) {
        Color([value[0], value[1], value[2]])
    }
}

impl vstd::std_specs::convert::FromSpecImpl<[u8; 4]> for Color {
    open spec fn obeys_from_spec() -> bool {
        true
    }

    open spec fn from_spec(value: [u8; 4]) -> Color {
        Color([value[0], value[1], value[2]])
    }
}

impl From<[u8; 3]> for Color {
    fn from(value: [u8; 3]) -> (r: Color) {
        Color(value)
    }
}

impl vstd::std_specs::convert::FromSpecImpl<[u8; 3]> for Color {
    open spec fn obeys_from_spec() -> bool {
        true
    }

    open spec fn from_spec(value: [u8; 3]) -> Color {
        Color(value)
    }
}

} // verus!
