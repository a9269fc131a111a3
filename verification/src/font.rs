//! The glyph source: pre-rendered bitmaps of a monospaced font.
//!
//! A glyph is a grid of intensities, one byte per pixel, in rows from top to
//! bottom. The bitmaps come from the `noto-sans-mono-bitmap` crate at regular
//! weight and sixteen pixels of height.
use vstd::prelude::*;
use noto_sans_mono_bitmap::{get_raster, FontWeight, RasterHeight};

verus! {

/// Height of each glyph in pixels.
pub const CHAR_RASTER_HEIGHT: usize = 16;

/// Width of each glyph in pixels.
pub const CHAR_RASTER_WIDTH: usize = 7;

/// The character drawn in place of one that the font lacks.
pub const BACKUP_CHAR: char = '\u{FFFD}';

/// Every row of `rows` is `width` pixels long.
pub open spec fn spec_rectangular(rows: Seq<Seq<u8>>, width: int) -> bool {
    forall|i: int| 0 <= i < rows.len() ==> (#[trigger] rows[i]).len() == width
}

/// The rows of the font's bitmap for `c` at regular weight and height 16, or
/// `None` where the font has no such character. The bitmaps are tables of
/// the font crate; this name stands for what its lookup returns.
pub uninterp spec fn font_raster(c: char) -> Option<Seq<Seq<u8>>>;

/// The bitmap that is drawn for `c`: its own, or the backup character's
/// where the font lacks `c`.
pub open spec fn spec_glyph(c: char) -> Seq<Seq<u8>> {
    match font_raster(c) {
        Some(rows) => rows,
        None => font_raster(BACKUP_CHAR).unwrap(),
    }
}

/// The rows of intensities of one rendered character.
pub struct Glyph {
    rows: Vec<Vec<u8>>,
    width: usize,
}

impl Glyph {
    /// The rows of the bitmap, top to bottom.
    pub closed spec fn view(&self) -> Seq<Seq<u8>> {
        self.rows.deep_view()
    }

    /// The width of every row.
    pub closed spec fn spec_width(&self) -> int {
        self.width as int
    }

    /// All rows have the glyph's width.
    pub open spec fn wf(&self) -> bool {
        spec_rectangular(self@, self.spec_width())
    }

    /// Makes a glyph of `rows`, each of which must be `width` long;
    /// otherwise there is no such glyph.
    pub fn new(rows: Vec<Vec<u8>>, width: usize) -> (g: Option<Glyph>)
        ensures
            g is Some <==> spec_rectangular(rows.deep_view(), width as int),
            g matches Some(glyph) ==> glyph@ == rows.deep_view() && glyph.spec_width() == width
                && glyph.wf(),
    {
        let mut i: usize = 0;
        while i < rows.len()
            invariant
                i <= rows@.len(),
                forall|k: int| 0 <= k < i ==> (#[trigger] rows@[k])@.len() == width,
            decreases rows@.len() - i,
        {
            if rows[i].len() != width {
                proof {
                    assert(rows.deep_view()[i as int] =~= rows@[i as int]@);
                }
                return None;
            }
            i = i + 1;
        }
        proof {
            assert forall|k: int| 0 <= k < rows.deep_view().len() implies (
            #[trigger] rows.deep_view()[k]).len() == width by {
                assert(rows.deep_view()[k] =~= rows@[k]@);
            }
        }
        Some(Glyph { rows, width })
    }

    /// The width of the glyph in pixels.
    pub fn width(&self) -> (w: usize)
        ensures
            w == self.spec_width(),
    {
        self.width
    }

    /// The height of the glyph in pixels.
    pub fn height(&self) -> (h: usize)
        ensures
            h == self@.len(),
    {
        self.rows.len()
    }

    /// The intensity of the pixel in column `x` of row `y`.
    pub fn intensity(&self, x: usize, y: usize) -> (v: u8)
        requires
            self.wf(),
            y < self@.len(),
            x < self.spec_width(),
        ensures
            v == self@[y as int][x as int],
    {
        proof {
            assert(self.rows.deep_view()[y as int] =~= self.rows@[y as int]@);
        }
        self.rows[y][x]
    }
}

/// Looks `c` up in the font. Calls `noto_sans_mono_bitmap::get_raster` with
/// `FontWeight::Regular` and `RasterHeight::Size16` and copies the rows of
/// the bitmap it returns.
///
/// Taken on trust from the font crate: the result is a fixed table entry for
/// `c` (`None` for a character outside the table); every bitmap of this
/// weight and size has 16 rows of 7 bytes; and the table holds the backup
/// character, which is part of the crate's `unicode-specials` range.
#[verifier::external_body]
fn lookup(c: char) -> (r: Option<Vec<Vec<u8>>>)
    ensures
        r is Some <==> font_raster(c) is Some,
        r matches Some(rows) ==> rows.deep_view() == font_raster(c).unwrap(),
        r matches Some(rows) ==> rows.deep_view().len() == CHAR_RASTER_HEIGHT && spec_rectangular(
            rows.deep_view(),
            CHAR_RASTER_WIDTH as int,
        ),
        c == BACKUP_CHAR ==> r is Some,
{
    match get_raster(c, FontWeight::Regular, RasterHeight::Size16) {
        Some(raster) => Some(raster.raster().iter().map(|row| row.to_vec()).collect()),
        None => None,
    }
}

/// The glyph that the font has for `c`, if it has one.
pub fn find_raster(c: char) -> (g: Option<Glyph>)
    ensures
        g is Some <==> font_raster(c) is Some,
        g matches Some(glyph) ==> glyph@ == font_raster(c).unwrap() && glyph.spec_width()
            == CHAR_RASTER_WIDTH && glyph@.len() == CHAR_RASTER_HEIGHT && glyph.wf(),
        c == BACKUP_CHAR ==> g is Some,
{
    match lookup(c) {
        Some(rows) => Some(Glyph { rows, width: CHAR_RASTER_WIDTH }),
        None => None,
    }
}

/// The glyph to draw, given what the font has for a character and for the
/// backup character: the character's own glyph where there is one, the
/// backup's otherwise.
pub fn glyph_or_backup(own: Option<Glyph>, backup: Option<Glyph>) -> (g: Option<Glyph>)
    ensures
        own is Some ==> g == own,
        own is None ==> g == backup,
{
    match own {
        Some(glyph) => Some(glyph),
        None => backup,
    }
}

/// Retrieves the raster of the given char or of the backup char.
pub fn get_char_raster(c: char) -> (g: Glyph)
    ensures
        g@ == spec_glyph(c),
        g.spec_width() == CHAR_RASTER_WIDTH,
        g@.len() == CHAR_RASTER_HEIGHT,
        g.wf(),
{
    let own = find_raster(c);
    let backup = if own.is_none() {
        find_raster(BACKUP_CHAR)
    } else {
        None
    };
    match glyph_or_backup(own, backup) {
        Some(glyph) => glyph,
        None => vstd::pervasive::unreached(),
    }
}

} // verus!
