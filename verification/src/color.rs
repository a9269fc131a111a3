//! The color model: a small palette of logical colors and their encoding as
//! pixel bytes under the channel order of the surface.
use vstd::prelude::*;
use crate::text::{chars_of, eq_ignore_ascii_case, spec_eq_ignore_ascii_case};

verus! {

/// Supported text colors.
#[derive(Copy, Clone, Debug, PartialEq, Eq, Structural)]
pub enum TextColor {
    White,
    Red,
    Green,
    Blue,
    Yellow,
}

/// Byte order of the color channels within one pixel.
#[derive(Copy, Clone, Debug, PartialEq, Eq, Structural)]
pub enum PixelFormat {
    /// Red, then green, then blue.
    Rgb,
    /// Blue, then green, then red.
    Bgr,
    /// A single grayscale byte.
    U8,
    /// A layout this console has no table for.
    Unknown,
}

/// The lower-case spelling of a color's name.
pub open spec fn spec_name(color: TextColor) -> Seq<char> {
    match color {
        TextColor::White => seq!['w', 'h', 'i', 't', 'e'],
        TextColor::Red => seq!['r', 'e', 'd'],
        TextColor::Green => seq!['g', 'r', 'e', 'e', 'n'],
        TextColor::Blue => seq!['b', 'l', 'u', 'e'],
        TextColor::Yellow => seq!['y', 'e', 'l', 'l', 'o', 'w'],
    }
}

/// The color that a name stands for: the one whose spelling it matches
/// without regard to ASCII case, if any.
pub open spec fn spec_from_name(name: Seq<char>) -> Option<TextColor> {
    if spec_eq_ignore_ascii_case(name, spec_name(TextColor::White)) {
        Some(TextColor::White)
    } else if spec_eq_ignore_ascii_case(name, spec_name(TextColor::Red)) {
        Some(TextColor::Red)
    } else if spec_eq_ignore_ascii_case(name, spec_name(TextColor::Green)) {
        Some(TextColor::Green)
    } else if spec_eq_ignore_ascii_case(name, spec_name(TextColor::Blue)) {
        Some(TextColor::Blue)
    } else if spec_eq_ignore_ascii_case(name, spec_name(TextColor::Yellow)) {
        Some(TextColor::Yellow)
    } else {
        None
    }
}

/// Which of the red, green and blue channels a color lights up.
pub open spec fn spec_channels(color: TextColor) -> (bool, bool, bool) {
    match color {
        TextColor::White => (true, true, true),
        TextColor::Red => (true, false, false),
        TextColor::Green => (false, true, false),
        TextColor::Blue => (false, false, true),
        TextColor::Yellow => (true, true, false),
    }
}

/// The four bytes of a pixel: each lit channel carries `intensity`, each
/// other channel zero, and the fourth byte is fully opaque. Under `Bgr` the
/// red and blue channels trade places; every other format uses the `Rgb`
/// positions.
pub open spec fn spec_resolve(color: TextColor, intensity: u8, format: PixelFormat) -> Seq<u8> {
    let (r, g, b) = spec_channels(color);
    let red: u8 = if r { intensity } else { 0u8 };
    let green: u8 = if g { intensity } else { 0u8 };
    let blue: u8 = if b { intensity } else { 0u8 };
    match format {
        PixelFormat::Bgr => seq![blue, green, red, 0xFFu8],
        _ => seq![red, green, blue, 0xFFu8],
    }
}

impl TextColor {
    /// The lower-case spelling of this color's name.
    pub fn name(self) -> (r: Vec<char>)
        ensures
            r@ == spec_name(self),
    {
        match self {
            TextColor::White => vec!['w', 'h', 'i', 't', 'e'],
            TextColor::Red => vec!['r', 'e', 'd'],
            TextColor::Green => vec!['g', 'r', 'e', 'e', 'n'],
            TextColor::Blue => vec!['b', 'l', 'u', 'e'],
            TextColor::Yellow => vec!['y', 'e', 'l', 'l', 'o', 'w'],
        }
    }

    /// Looks a color up by the characters of its name, ignoring ASCII case.
    pub fn from_chars(name: &[char]) -> (r: Option<TextColor>)
        ensures
            r == spec_from_name(name@),
    {
        if eq_ignore_ascii_case(name, TextColor::White.name().as_slice()) {
            Some(TextColor::White)
        } else if eq_ignore_ascii_case(name, TextColor::Red.name().as_slice()) {
            Some(TextColor::Red)
        } else if eq_ignore_ascii_case(name, TextColor::Green.name().as_slice()) {
            Some(TextColor::Green)
        } else if eq_ignore_ascii_case(name, TextColor::Blue.name().as_slice()) {
            Some(TextColor::Blue)
        } else if eq_ignore_ascii_case(name, TextColor::Yellow.name().as_slice()) {
            Some(TextColor::Yellow)
        } else {
            None
        }
    }

    /// Converts a string (case-insensitively) into a `TextColor`.
    pub fn from_str(color: &str) -> (r: Option<TextColor>)
        ensures
            r == spec_from_name(color@),
    {
        let chars = chars_of(color);
        TextColor::from_chars(chars.as_slice())
    }
}

/// Encodes one pixel of `color` at the given glyph `intensity` for a surface
/// with the given channel order.
pub fn resolve(color: TextColor, intensity: u8, format: PixelFormat) -> (bytes: [u8; 4])
    ensures
        bytes@ == spec_resolve(color, intensity, format),
{
    let (r, g, b) = match color {
        TextColor::White => (true, true, true),
        TextColor::Red => (true, false, false),
        TextColor::Green => (false, true, false),
        TextColor::Blue => (false, false, true),
        TextColor::Yellow => (true, true, false),
    };
    let red: u8 = if r { intensity } else { 0 };
    let green: u8 = if g { intensity } else { 0 };
    let blue: u8 = if b { intensity } else { 0 };
    let bytes: [u8; 4] = match format {
        PixelFormat::Bgr => [blue, green, red, 0xFF],
        _ => [red, green, blue, 0xFF],
    };
    assert(bytes@ =~= spec_resolve(color, intensity, format));
    bytes
}

} // verus!
