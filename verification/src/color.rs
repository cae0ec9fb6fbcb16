//! Colours of three 8-bit channels and their linear blend.

use vstd::prelude::*;
use crate::parse::{hex_value, parse_hex, spells, ParseError};
use crate::text::chars_of;

verus! {

/// Opacity that leaves the background untouched.
pub const TRANSPARENT: u8 = 0;

/// Opacity that replaces the background entirely.
pub const OPAQUE: u8 = 255;

/// A colour of three 8-bit channels: red, green and blue.
#[derive(Clone, Copy, Debug, PartialEq, Eq, Structural)]
pub struct Color(pub u8, pub u8, pub u8);

/// One channel of a blend: the point between `bg` and `fg` that lies
/// `alpha` 255ths of the way towards `fg`, rounded down.
pub open spec fn mix(bg: int, fg: int, alpha: int) -> int {
    (bg * (255 - alpha) + fg * alpha) / 255
}

/// A blended channel stays between the two channels it was made from.
pub proof fn lemma_mix_between(bg: int, fg: int, alpha: int)
    requires
        0 <= bg <= 255,
        0 <= fg <= 255,
        0 <= alpha <= 255,
    ensures
        bg <= fg ==> bg <= mix(bg, fg, alpha) <= fg,
        fg <= bg ==> fg <= mix(bg, fg, alpha) <= bg,
        0 <= mix(bg, fg, alpha) <= 255,
{
    let n = bg * (255 - alpha) + fg * alpha;
    assert(n == 255 * bg + (fg - bg) * alpha) by (nonlinear_arith)
        requires
            n == bg * (255 - alpha) + fg * alpha,
    ;
    if bg <= fg {
        assert(0 <= (fg - bg) * alpha <= (fg - bg) * 255) by (nonlinear_arith)
            requires
                0 <= fg - bg,
                0 <= alpha <= 255,
        ;
    } else {
        assert((fg - bg) * 255 <= (fg - bg) * alpha <= 0) by (nonlinear_arith)
            requires
                fg - bg <= 0,
                0 <= alpha <= 255,
        ;
    }
}

/// At no opacity a blend is the background, at full opacity the foreground.
pub proof fn lemma_mix_ends(bg: int, fg: int)
    ensures
        mix(bg, fg, 0) == bg,
        mix(bg, fg, 255) == fg,
{
    assert(bg * (255 - 0) + fg * 0 == 255 * bg);
    assert(bg * (255 - 255) + fg * 255 == 255 * fg);
}

/// Raising the opacity moves a blended channel towards the foreground and
/// never back.
pub proof fn lemma_mix_monotonic(bg: int, fg: int, a: int, b: int)
    requires
        0 <= bg <= 255,
        0 <= fg <= 255,
        0 <= a <= b <= 255,
    ensures
        bg <= fg ==> mix(bg, fg, a) <= mix(bg, fg, b),
        fg <= bg ==> mix(bg, fg, a) >= mix(bg, fg, b),
{
    let na = bg * (255 - a) + fg * a;
    let nb = bg * (255 - b) + fg * b;
    assert(nb - na == (fg - bg) * (b - a)) by (nonlinear_arith)
        requires
            na == bg * (255 - a) + fg * a,
            nb == bg * (255 - b) + fg * b,
    ;
    if bg <= fg {
        assert(0 <= (fg - bg) * (b - a)) by (nonlinear_arith)
            requires
                0 <= fg - bg,
                0 <= b - a,
        ;
    }
    if fg <= bg {
        assert((fg - bg) * (b - a) <= 0) by (nonlinear_arith)
            requires
                fg - bg <= 0,
                0 <= b - a,
        ;
    }
}

impl Color {
    /// Black.
    pub fn black() -> (c: Color)
        ensures
            c == Color(0, 0, 0),
    {
        Color(0, 0, 0)
    }

    /// White.
    pub fn white() -> (c: Color)
        ensures
            c == Color(255, 255, 255),
    {
        Color(255, 255, 255)
    }

    /// Yellow.
    pub fn yellow() -> (c: Color)
        ensures
            c == Color(255, 255, 0),
    {
        Color(255, 255, 0)
    }

    /// Red.
    pub fn red() -> (c: Color)
        ensures
            c == Color(255, 0, 0),
    {
        Color(255, 0, 0)
    }

    /// Gray.
    pub fn gray() -> (c: Color)
        ensures
            c == Color(128, 128, 128),
    {
        Color(128, 128, 128)
    }

    /// The colour that `blend` returns.
    pub open spec fn blended(self, fg: Color, alpha: u8) -> Color {
        Color(
            mix(self.0 as int, fg.0 as int, alpha as int) as u8,
            mix(self.1 as int, fg.1 as int, alpha as int) as u8,
            mix(self.2 as int, fg.2 as int, alpha as int) as u8,
        )
    }

    /// Blending at no opacity gives the background, at full opacity the
    /// foreground.
    pub proof fn lemma_blend_ends(self, fg: Color)
        ensures
            self.blended(fg, TRANSPARENT) == self,
            self.blended(fg, OPAQUE) == fg,
    {
        lemma_mix_ends(self.0 as int, fg.0 as int);
        lemma_mix_ends(self.1 as int, fg.1 as int);
        lemma_mix_ends(self.2 as int, fg.2 as int);
    }

    /// As the opacity rises, each channel of a blend moves from the
    /// background's towards the foreground's and never back.
    pub proof fn lemma_blend_monotonic(self, fg: Color, low: u8, high: u8)
        requires
            low <= high,
        ensures
            self.0 <= fg.0 ==> self.blended(fg, low).0 <= self.blended(fg, high).0,
            self.0 >= fg.0 ==> self.blended(fg, low).0 >= self.blended(fg, high).0,
            self.1 <= fg.1 ==> self.blended(fg, low).1 <= self.blended(fg, high).1,
            self.1 >= fg.1 ==> self.blended(fg, low).1 >= self.blended(fg, high).1,
            self.2 <= fg.2 ==> self.blended(fg, low).2 <= self.blended(fg, high).2,
            self.2 >= fg.2 ==> self.blended(fg, low).2 >= self.blended(fg, high).2,
    {
        lemma_mix_monotonic(self.0 as int, fg.0 as int, low as int, high as int);
        lemma_mix_monotonic(self.1 as int, fg.1 as int, low as int, high as int);
        lemma_mix_monotonic(self.2 as int, fg.2 as int, low as int, high as int);
        lemma_mix_between(self.0 as int, fg.0 as int, low as int);
        lemma_mix_between(self.1 as int, fg.1 as int, low as int);
        lemma_mix_between(self.2 as int, fg.2 as int, low as int);
        lemma_mix_between(self.0 as int, fg.0 as int, high as int);
        lemma_mix_between(self.1 as int, fg.1 as int, high as int);
        lemma_mix_between(self.2 as int, fg.2 as int, high as int);
    }

    /// Every channel of a blend lies between the channels it was made from.
    pub proof fn lemma_blend_between(self, fg: Color, alpha: u8)
        ensures
            self.0 <= fg.0 ==> self.0 <= self.blended(fg, alpha).0 <= fg.0,
            self.0 >= fg.0 ==> self.0 >= self.blended(fg, alpha).0 >= fg.0,
            self.1 <= fg.1 ==> self.1 <= self.blended(fg, alpha).1 <= fg.1,
            self.1 >= fg.1 ==> self.1 >= self.blended(fg, alpha).1 >= fg.1,
            self.2 <= fg.2 ==> self.2 <= self.blended(fg, alpha).2 <= fg.2,
            self.2 >= fg.2 ==> self.2 >= self.blended(fg, alpha).2 >= fg.2,
    {
        lemma_mix_between(self.0 as int, fg.0 as int, alpha as int);
        lemma_mix_between(self.1 as int, fg.1 as int, alpha as int);
        lemma_mix_between(self.2 as int, fg.2 as int, alpha as int);
    }

    /// Blends `fg` over this colour, channel by channel; `alpha` counts the
    /// opacity of `fg` in 255ths.
    pub fn blend(&self, fg: &Color, alpha: u8) -> (r: Color)
        ensures
            r == self.blended(*fg, alpha),
            alpha == TRANSPARENT ==> r == *self,
            alpha == OPAQUE ==> r == *fg,
    {
        let r = Color(
            blend_channel(self.0, fg.0, alpha),
            blend_channel(self.1, fg.1, alpha),
            blend_channel(self.2, fg.2, alpha),
        );
        r
    }
}

/// Blends one channel.
fn blend_channel(bg: u8, fg: u8, alpha: u8) -> (r: u8)
    ensures
        r == mix(bg as int, fg as int, alpha as int),
        alpha == 0 ==> r == bg,
        alpha == 255 ==> r == fg,
{
    proof {
        lemma_mix_between(bg as int, fg as int, alpha as int);
        lemma_mix_ends(bg as int, fg as int);
    }
    let keep: u32 = 255 - alpha as u32;
    assert(bg as int * (255 - alpha as int) <= 255 * 255) by (nonlinear_arith)
        requires
            0 <= bg <= 255,
            0 <= alpha <= 255,
    ;
    assert(fg as int * alpha as int <= 255 * 255) by (nonlinear_arith)
        requires
            0 <= fg <= 255,
            0 <= alpha <= 255,
    ;
    let sum: u32 = bg as u32 * keep + fg as u32 * alpha as u32;
    (sum / 255) as u8
}

/// The byte that two hexadecimal digits spell, the first counting sixteenfold.
pub open spec fn hex_pair(high: char, low: char) -> Option<u8> {
    match (hex_value(high), hex_value(low)) {
        (Some(h), Some(l)) => Some((h * 16 + l) as u8),
        _ => None,
    }
}

/// The colour that a colour name stands for.
pub open spec fn color_named(s: Seq<char>) -> Option<Color> {
    if s == "black"@ {
        Some(Color(0, 0, 0))
    } else if s == "white"@ {
        Some(Color(255, 255, 255))
    } else if s == "yellow"@ {
        Some(Color(255, 255, 0))
    } else if s == "red"@ {
        Some(Color(255, 0, 0))
    } else if s == "gray"@ {
        Some(Color(128, 128, 128))
    } else {
        None
    }
}

/// The colour that `s` spells: `#RRGGBB` with hexadecimal digits of either
/// case, or one of the names `black`, `white`, `yellow`, `red` and `gray`.
pub open spec fn color_of(s: Seq<char>) -> Option<Color> {
    if s.len() == 7 && s[0] == '#' {
        match (hex_pair(s[1], s[2]), hex_pair(s[3], s[4]), hex_pair(s[5], s[6])) {
            (Some(r), Some(g), Some(b)) => Some(Color(r, g, b)),
            _ => None,
        }
    } else {
        color_named(s)
    }
}

/// Reads two hexadecimal digits as a byte.
fn parse_hex_pair(high: char, low: char) -> (r: Option<u8>)
    ensures
        r == hex_pair(high, low),
{
    match (parse_hex(high), parse_hex(low)) {
        (Some(h), Some(l)) => Some(h * 16 + l),
        _ => None,
    }
}

impl Color {
    /// Reads a colour from its characters.
    pub fn parse_chars(chars: &Vec<char>) -> (r: Result<Color, ParseError>)
        ensures
            r == match color_of(chars@) {
                Some(c) => Ok::<Color, ParseError>(c),
                None => Err(ParseError::Color),
            },
    {
        if chars.len() == 7 && chars[0] == '#' {
            match (
                parse_hex_pair(chars[1], chars[2]),
                parse_hex_pair(chars[3], chars[4]),
                parse_hex_pair(chars[5], chars[6]),
            ) {
                (Some(r), Some(g), Some(b)) => Ok(Color(r, g, b)),
                _ => Err(ParseError::Color),
            }
        } else if spells(chars, "black") {
            Ok(Color::black())
        } else if spells(chars, "white") {
            Ok(Color::white())
        } else if spells(chars, "yellow") {
            Ok(Color::yellow())
        } else if spells(chars, "red") {
            Ok(Color::red())
        } else if spells(chars, "gray") {
            Ok(Color::gray())
        } else {
            Err(ParseError::Color)
        }
    }

    /// Reads a colour: `#RRGGBB` or a colour name. Anything else is refused.
    pub fn parse(s: &str) -> (r: Result<Color, ParseError>)
        ensures
            r == match color_of(s@) {
                Some(c) => Ok::<Color, ParseError>(c),
                None => Err(ParseError::Color),
            },
    {
        let chars = chars_of(s);
        Color::parse_chars(&chars)
    }
}

impl Default for Color {
    /// Black.
    fn default() -> (c: Color)
        ensures
            c == Color(0, 0, 0),
    {
        Color(0, 0, 0)
    }
}

impl std::str::FromStr for Color {
    type Err = ParseError;

    fn from_str(s: &str) -> (r: Result<Color, ParseError>)
        ensures
            r == match color_of(s@) {
                Some(c) => Ok::<Color, ParseError>(c),
                None => Err(ParseError::Color),
            },
    {
        Color::parse(s)
    }
}

} // verus!
