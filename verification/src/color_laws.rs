//! What holds of the color model.
use vstd::prelude::*;
use crate::color::{spec_from_name, spec_name, spec_resolve, PixelFormat, TextColor};
use crate::text::{spec_ascii_lower, spec_eq_ignore_ascii_case};

verus! {

/// Every color is found by its own name.
pub proof fn lemma_every_color_has_its_name(color: TextColor)
    ensures
        spec_from_name(spec_name(color)) == Some(color),
{
    let name = spec_name(color);
    assert(spec_eq_ignore_ascii_case(name, name));
    let white = spec_name(TextColor::White);
    let red = spec_name(TextColor::Red);
    let green = spec_name(TextColor::Green);
    let blue = spec_name(TextColor::Blue);
    match color {
        TextColor::White => {},
        TextColor::Red => {},
        TextColor::Green => {
            assert(spec_ascii_lower(green[0]) != spec_ascii_lower(white[0]));
        },
        TextColor::Blue => {},
        TextColor::Yellow => {},
    }
}

/// Names that match without regard to ASCII case name the same color.
pub proof fn lemma_names_ignore_case(a: Seq<char>, b: Seq<char>)
    requires
        spec_eq_ignore_ascii_case(a, b),
    ensures
        spec_from_name(a) == spec_from_name(b),
{
    assert forall|name: Seq<char>|
        spec_eq_ignore_ascii_case(a, name) == spec_eq_ignore_ascii_case(b, name) by {
        if a.len() == name.len() {
            if spec_eq_ignore_ascii_case(a, name) {
                assert forall|i: int| 0 <= i < b.len() implies spec_ascii_lower(b[i])
                    == spec_ascii_lower(name[i]) by {
                    assert(spec_ascii_lower(a[i]) == spec_ascii_lower(b[i]));
                }
            }
            if spec_eq_ignore_ascii_case(b, name) {
                assert forall|i: int| 0 <= i < a.len() implies spec_ascii_lower(a[i])
                    == spec_ascii_lower(name[i]) by {
                    assert(spec_ascii_lower(a[i]) == spec_ascii_lower(b[i]));
                }
            }
        }
    }
}

/// A pixel is four bytes, of which the fourth is fully opaque, and each of
/// the first three is the intensity or zero.
pub proof fn lemma_pixel_shape(color: TextColor, intensity: u8, format: PixelFormat)
    ensures
        spec_resolve(color, intensity, format).len() == 4,
        spec_resolve(color, intensity, format)[3] == 0xFFu8,
        forall|j: int|
            0 <= j < 3 ==> {
                ||| #[trigger] spec_resolve(color, intensity, format)[j] == intensity
                ||| spec_resolve(color, intensity, format)[j] == 0u8
            },
{
}

/// The same color at the same intensity under `Bgr` is its `Rgb` encoding
/// with the first and the third byte exchanged.
pub proof fn lemma_bgr_mirrors_rgb(color: TextColor, intensity: u8)
    ensures
        spec_resolve(color, intensity, PixelFormat::Bgr)[0] == spec_resolve(
            color,
            intensity,
            PixelFormat::Rgb,
        )[2],
        spec_resolve(color, intensity, PixelFormat::Bgr)[1] == spec_resolve(
            color,
            intensity,
            PixelFormat::Rgb,
        )[1],
        spec_resolve(color, intensity, PixelFormat::Bgr)[2] == spec_resolve(
            color,
            intensity,
            PixelFormat::Rgb,
        )[0],
{
}

/// A layout without a table of its own is encoded as `Rgb`.
pub proof fn lemma_other_layouts_fall_back(color: TextColor, intensity: u8, format: PixelFormat)
    requires
        format != PixelFormat::Bgr,
    ensures
        spec_resolve(color, intensity, format) == spec_resolve(color, intensity, PixelFormat::Rgb),
{
}

/// Different colors are told apart: at a positive intensity no two colors
/// have the same encoding.
pub proof fn lemma_colors_differ(a: TextColor, b: TextColor, intensity: u8, format: PixelFormat)
    requires
        intensity > 0,
        a != b,
    ensures
        spec_resolve(a, intensity, format) != spec_resolve(b, intensity, format),
{
    let x = spec_resolve(a, intensity, format);
    let y = spec_resolve(b, intensity, format);
    assert(x[0] != y[0] || x[1] != y[1] || x[2] != y[2]);
}

} // verus!
