//! The console over a pixel surface.
//!
//! The surface is a linear byte region of `height` rows of `stride` pixels,
//! of which the first `width` are visible, each pixel `bytes_per_pixel`
//! bytes long. Glyph bitmaps are drawn into it in the current color, one
//! text line every [`LINE_HEIGHT`] pixel rows, inside a border of
//! [`BORDER_PADDING`] pixels.
use vstd::prelude::*;
use crate::color::{resolve, spec_resolve, PixelFormat, TextColor};
use crate::escape::{parse, spec_parse, ColorToken, Directive, TokenForm};
use crate::font::{get_char_raster, spec_glyph, Glyph, CHAR_RASTER_HEIGHT, CHAR_RASTER_WIDTH};
use crate::sink::read_back;
use crate::text::chars_of;

verus! {

/// Additional spacing between the text and the edge of the surface.
pub const BORDER_PADDING: usize = 1;

/// Pixel rows from one text line to the next: the height of a glyph and
/// two rows of spacing.
pub const LINE_HEIGHT: usize = 18;

/// Pixels between two tab stops: four glyph widths.
pub const TAB_WIDTH: usize = 28;

/// Describes the layout and pixel format of a framebuffer.
#[derive(Copy, Clone, Debug, PartialEq, Eq, Structural)]
pub struct FrameBufferInfo {
    /// The width in pixels.
    pub width: usize,
    /// The height in pixels.
    pub height: usize,
    /// The color format of each pixel.
    pub pixel_format: PixelFormat,
    /// The number of bytes per pixel.
    pub bytes_per_pixel: usize,
    /// Number of pixels between the start of a line and the start of the next.
    pub stride: usize,
}

impl FrameBufferInfo {
    /// The bytes that the rows of the surface take up.
    pub open spec fn screen_bytes(self) -> int {
        self.height * self.stride * self.bytes_per_pixel
    }

    /// The bytes that the pixel rows of one text line take up.
    pub open spec fn line_bytes(self) -> int {
        LINE_HEIGHT * self.stride * self.bytes_per_pixel
    }

    /// A layout that can be addressed: pixels of one to four bytes, rows no
    /// longer than the stride, and an extent within the range of offsets.
    pub open spec fn valid(self) -> bool {
        &&& 1 <= self.bytes_per_pixel <= 4
        &&& self.width <= self.stride
        &&& self.screen_bytes() <= usize::MAX
    }

    /// Room for text: one glyph and one text line inside the border.
    pub open spec fn has_room(self) -> bool {
        &&& self.width >= CHAR_RASTER_WIDTH + 2 * BORDER_PADDING
        &&& self.height >= LINE_HEIGHT + 2 * BORDER_PADDING
    }

    /// A valid layout whose rows lie within a region of `len` bytes.
    pub open spec fn fits(self, len: int) -> bool {
        self.valid() && self.screen_bytes() <= len
    }

    /// Tells whether a region of `len` bytes can serve as a surface of this
    /// layout.
    pub fn supports(&self, len: usize) -> (ok: bool)
        ensures
            ok == self.fits(len as int),
    {
        if self.bytes_per_pixel < 1 || self.bytes_per_pixel > 4 || self.width > self.stride {
            return false;
        }
        match self.height.checked_mul(self.stride) {
            None => {
                proof {
                    lemma_product_grows(
                        self.height * self.stride,
                        self.bytes_per_pixel as int,
                    );
                }
                false
            },
            Some(pixels) => match pixels.checked_mul(self.bytes_per_pixel) {
                None => false,
                Some(bytes) => bytes <= len,
            },
        }
    }

    /// Tells whether the surface has room for text.
    pub fn has_room_for_text(&self) -> (ok: bool)
        ensures
            ok == self.has_room(),
    {
        self.width >= CHAR_RASTER_WIDTH + 2 * BORDER_PADDING && self.height >= LINE_HEIGHT + 2
            * BORDER_PADDING
    }
}

/// The offset of the first byte of the pixel in column `x` of row `y`, if
/// all bytes of that pixel lie within a surface of `len` bytes.
fn pixel_offset(stride: usize, bytes_per_pixel: usize, len: usize, x: usize, y: usize) -> (r: Option<
    usize,
>)
    requires
        1 <= bytes_per_pixel,
    ensures
        r matches Some(offset) ==> offset == (y * stride + x) * bytes_per_pixel && offset
            + bytes_per_pixel <= len,
        r is None ==> (y * stride + x) * bytes_per_pixel + bytes_per_pixel > len,
{
    proof {
        lemma_product_grows(y * stride + x, bytes_per_pixel as int);
        assert(0 <= y * stride) by (nonlinear_arith)
            requires
                0 <= y,
                0 <= stride,
        ;
    }
    let row = match y.checked_mul(stride) {
        Some(row) => row,
        None => {
            return None;
        },
    };
    let pixel = match row.checked_add(x) {
        Some(pixel) => pixel,
        None => {
            return None;
        },
    };
    let offset = match pixel.checked_mul(bytes_per_pixel) {
        Some(offset) => offset,
        None => {
            return None;
        },
    };
    match offset.checked_add(bytes_per_pixel) {
        Some(end) => if end <= len {
            Some(offset)
        } else {
            None
        },
        None => None,
    }
}

/// A product with a positive factor is no smaller than the other factor.
proof fn lemma_product_grows(a: int, b: int)
    by (nonlinear_arith)
    requires
        0 <= a,
        1 <= b,
    ensures
        a <= a * b,
{
}

/// The extents of a valid layout: a text line is part of the screen, and
/// both can be computed without overflow.
pub proof fn lemma_extents(info: FrameBufferInfo)
    by (nonlinear_arith)
    requires
        info.valid(),
        info.has_room(),
    ensures
        0 <= LINE_HEIGHT * info.stride <= info.height * info.stride <= info.screen_bytes(),
        0 <= info.line_bytes() <= info.screen_bytes(),
        info.screen_bytes() - info.line_bytes() == (info.height - LINE_HEIGHT) * info.stride
            * info.bytes_per_pixel,
{
}

/// The console as a mathematical value: the bytes of the surface, the
/// cursor in pixels, the current color and the layout.
pub struct Console {
    pub buf: Seq<u8>,
    pub x: int,
    pub y: int,
    pub color: TextColor,
    pub info: FrameBufferInfo,
}

/// `n` zero bytes.
pub open spec fn spec_zeros(n: int) -> Seq<u8> {
    Seq::new(n as nat, |i: int| 0u8)
}

impl Console {
    /// The layout is valid, the surface holds its rows and has room for
    /// text, and the cursor is inside the border on the visible part.
    pub open spec fn wf(self) -> bool {
        &&& self.info.fits(self.buf.len() as int)
        &&& self.info.has_room()
        &&& BORDER_PADDING <= self.x < self.info.width
        &&& BORDER_PADDING <= self.y < self.info.height
    }

    /// A blank surface with the cursor in the top left corner.
    pub open spec fn clear(self) -> Console {
        Console {
            buf: spec_zeros(self.buf.len() as int),
            x: BORDER_PADDING as int,
            y: BORDER_PADDING as int,
            ..self
        }
    }

    /// The cursor at `(x, y)`, brought inside the border; a negative
    /// coordinate resets it to the top left corner.
    pub open spec fn set_cursor_position(self, x: int, y: int) -> Console {
        if x < 0 || y < 0 {
            Console { x: BORDER_PADDING as int, y: BORDER_PADDING as int, ..self }
        } else {
            Console {
                x: if x < BORDER_PADDING {
                    BORDER_PADDING as int
                } else if x >= self.info.width {
                    self.info.width - 1
                } else {
                    x
                },
                y: if y < BORDER_PADDING {
                    BORDER_PADDING as int
                } else if y >= self.info.height {
                    self.info.height - 1
                } else {
                    y
                },
                ..self
            }
        }
    }

    /// The cursor at the start of its line.
    pub open spec fn carriage_return(self) -> Console {
        Console { x: BORDER_PADDING as int, ..self }
    }

    /// Every pixel row moves up by one text line, the top line is lost, the
    /// bottom line is blank and the cursor stands on the last line that
    /// fits. Bytes past the rows stay.
    pub open spec fn scroll(self) -> Console {
        Console {
            buf: self.buf.subrange(self.info.line_bytes(), self.info.screen_bytes()) + spec_zeros(
                self.info.line_bytes(),
            ) + self.buf.subrange(self.info.screen_bytes(), self.buf.len() as int),
            y: self.info.height - LINE_HEIGHT - BORDER_PADDING,
            ..self
        }
    }

    /// The cursor moves to the start of the next text line; where that line
    /// starts below the surface, the screen scrolls instead.
    pub open spec fn newline(self) -> Console {
        if self.y + LINE_HEIGHT >= self.info.height {
            self.scroll().carriage_return()
        } else {
            Console { y: self.y + LINE_HEIGHT, ..self }.carriage_return()
        }
    }

    /// The next tab stop after column `x`.
    pub open spec fn tab_stop(self) -> int {
        (self.x / (TAB_WIDTH as int) + 1) * (TAB_WIDTH as int)
    }

    /// The cursor moves to the next tab stop, or to a new line when that
    /// stop is not on the visible part of the row. No pixel changes.
    pub open spec fn tab(self) -> Console {
        if self.tab_stop() >= self.info.width {
            self.newline()
        } else {
            Console { x: self.tab_stop(), ..self }
        }
    }

    /// The index of the pixel in column `x` of row `y`.
    pub open spec fn pixel_index(self, x: int, y: int) -> int {
        y * self.info.stride + x
    }

    /// The pixel at `(x, y)` takes the current color at `intensity`: its
    /// bytes, which start at the pixel's index times the bytes of a pixel,
    /// take the first bytes of the encoded color. Every other byte stays.
    pub open spec fn put_pixel(self, x: int, y: int, intensity: u8) -> Console {
        let bpp = self.info.bytes_per_pixel as int;
        let offset = self.pixel_index(x, y) * bpp;
        let encoded = spec_resolve(self.color, intensity, self.info.pixel_format);
        Console {
            buf: Seq::new(
                self.buf.len(),
                |k: int|
                    if offset <= k < offset + bpp {
                        encoded[k - offset]
                    } else {
                        self.buf[k]
                    },
            ),
            ..self
        }
    }

    /// Whether the glyph cell of `rows` by `width` pixels with its top left
    /// corner at the cursor covers the pixel with index `p`, as far as the
    /// first `done_rows` rows and the first `done_cols` pixels of the next.
    pub open spec fn covers(self, p: int, done_rows: int, done_cols: int, width: int) -> bool {
        let row = p / (self.info.stride as int) - self.y;
        let col = p % (self.info.stride as int) - self.x;
        &&& 0 <= col < width
        &&& (0 <= row < done_rows || (row == done_rows && col < done_cols))
    }

    /// The surface after the first `done_rows` rows of the bitmap `rows`
    /// and the first `done_cols` pixels of the next have been drawn at the
    /// cursor in the current color.
    pub open spec fn draw_part(
        self,
        rows: Seq<Seq<u8>>,
        width: int,
        done_rows: int,
        done_cols: int,
    ) -> Seq<u8> {
        let bpp = self.info.bytes_per_pixel as int;
        let stride = self.info.stride as int;
        Seq::new(
            self.buf.len(),
            |k: int|
                if self.covers(k / bpp, done_rows, done_cols, width) {
                    spec_resolve(
                        self.color,
                        rows[(k / bpp) / stride - self.y][(k / bpp) % stride - self.x],
                        self.info.pixel_format,
                    )[k % bpp]
                } else {
                    self.buf[k]
                },
        )
    }

    /// A bitmap of `height` rows, each `width` pixels long, is drawn with
    /// its top left corner at the cursor: the pixel in column `i` of row
    /// `j` of `rows` colors the pixel at `(x + i, y + j)`. The cursor moves
    /// `width` pixels to the right.
    pub open spec fn write_rendered(self, rows: Seq<Seq<u8>>, width: int, height: int) -> Console {
        Console { buf: self.draw_part(rows, width, height, 0), x: self.x + width, ..self }
    }

    /// The console on which the next glyph is drawn: on a new line if the
    /// glyph would reach the right edge, and scrolled if its line would
    /// reach the bottom edge.
    pub open spec fn make_room(self) -> Console {
        let wrapped = if self.x + CHAR_RASTER_WIDTH >= self.info.width {
            self.newline()
        } else {
            self
        };
        if wrapped.y + CHAR_RASTER_HEIGHT + BORDER_PADDING >= wrapped.info.height {
            wrapped.scroll()
        } else {
            wrapped
        }
    }

    /// One character: a line feed, a carriage return and a tab move the
    /// cursor; every other character is drawn as the font renders it, after
    /// room has been made for it.
    pub open spec fn write_char(self, c: char) -> Console {
        if c == '\n' {
            self.newline()
        } else if c == '\r' {
            self.carriage_return()
        } else if c == '\t' {
            self.tab()
        } else {
            self.make_room().write_rendered(
                spec_glyph(c),
                CHAR_RASTER_WIDTH as int,
                CHAR_RASTER_HEIGHT as int,
            )
        }
    }

    /// One directive. A color given by index is none that this surface
    /// knows: it changes nothing.
    pub open spec fn apply(self, d: Directive) -> Console {
        match d {
            Directive::Literal(c) => self.write_char(c),
            Directive::Newline => self.newline(),
            Directive::Tab => self.tab(),
            Directive::SetColor(ColorToken::Name(color)) => Console { color, ..self },
            Directive::SetColor(ColorToken::Index(_)) => self,
        }
    }

    /// The characters of `cs`, written one after another.
    pub open spec fn write_all(self, cs: Seq<char>) -> Console
        decreases cs.len(),
    {
        if cs.len() == 0 {
            self
        } else {
            self.write_all(cs.drop_last()).write_char(cs.last())
        }
    }

    /// The directives of `ds`, applied one after another.
    pub open spec fn run(self, ds: Seq<Directive>) -> Console
        decreases ds.len(),
    {
        if ds.len() == 0 {
            self
        } else {
            self.run(ds.drop_last()).apply(ds.last())
        }
    }
}

/// The bytes of pixel `p` are those from `p * bpp` up to, not including,
/// `(p + 1) * bpp`, and byte `k` among them is channel `k - p * bpp`.
pub proof fn lemma_pixel_bytes(k: int, p: int, bpp: int)
    by (nonlinear_arith)
    requires
        bpp > 0,
    ensures
        (k / bpp == p) <==> (p * bpp <= k < p * bpp + bpp),
        k / bpp == p ==> k % bpp == k - p * bpp,
{
    assert(k == bpp * (k / bpp) + k % bpp && 0 <= k % bpp < bpp) by {
        vstd::arithmetic::div_mod::lemma_fundamental_div_mod(k, bpp);
        vstd::arithmetic::div_mod::lemma_mod_bound(k, bpp);
    }
}

/// The pixel with index `y * stride + x` is the one in column `x` of row
/// `y`, and no other pixel has that index.
pub proof fn lemma_pixel_position(p: int, x: int, y: int, stride: int)
    requires
        stride > 0,
        0 <= x < stride,
    ensures
        (p == y * stride + x) <==> (p / stride == y && p % stride == x),
{
    vstd::arithmetic::div_mod::lemma_fundamental_div_mod(p, stride);
    vstd::arithmetic::div_mod::lemma_mod_bound(p, stride);
    if p == y * stride + x {
        vstd::arithmetic::div_mod::lemma_fundamental_div_mod_converse(p, stride, y, x);
    }
    if p / stride == y && p % stride == x {
        assert(stride * y == y * stride) by (nonlinear_arith);
    }
}

/// A pixel on the surface lies within the rows of the surface: its bytes
/// end no later than the rows do.
pub proof fn lemma_pixel_in_extent(info: FrameBufferInfo, x: int, y: int)
    by (nonlinear_arith)
    requires
        info.valid(),
        0 <= x < info.stride,
        0 <= y < info.height,
    ensures
        0 <= y * info.stride + x < info.height * info.stride,
        0 <= (y * info.stride + x) * info.bytes_per_pixel,
        (y * info.stride + x) * info.bytes_per_pixel + info.bytes_per_pixel
            <= info.screen_bytes(),
{
}

/// Drawing one more pixel of a glyph row extends the part drawn by that
/// pixel.
pub proof fn lemma_draw_step(start: Console, rows: Seq<Seq<u8>>, width: int, gy: int, gx: int)
    requires
        start.info.valid(),
        0 <= start.x,
        0 <= start.y,
        start.x + width <= start.info.stride,
        0 <= gx < width,
        0 <= gy,
    ensures
        (Console { buf: start.draw_part(rows, width, gy, gx), ..start }).put_pixel(
            start.x + gx,
            start.y + gy,
            rows[gy][gx],
        ).buf == start.draw_part(rows, width, gy, gx + 1),
{
    let stride = start.info.stride as int;
    let bpp = start.info.bytes_per_pixel as int;
    let cur = Console { buf: start.draw_part(rows, width, gy, gx), ..start };
    let next = cur.put_pixel(start.x + gx, start.y + gy, rows[gy][gx]).buf;
    let goal = start.draw_part(rows, width, gy, gx + 1);
    assert forall|k: int| 0 <= k < next.len() implies next[k] == goal[k] by {
        lemma_pixel_position(k / bpp, start.x + gx, start.y + gy, stride);
        lemma_pixel_bytes(k, (start.y + gy) * stride + (start.x + gx), bpp);
    }
    assert(next =~= goal);
}

/// A row drawn to its end is the next row not yet begun.
pub proof fn lemma_draw_row_done(start: Console, rows: Seq<Seq<u8>>, width: int, gy: int)
    requires
        0 <= gy,
    ensures
        start.draw_part(rows, width, gy, width) == start.draw_part(rows, width, gy + 1, 0),
{
    assert(start.draw_part(rows, width, gy, width) =~= start.draw_part(rows, width, gy + 1, 0));
}

/// Before the first pixel is drawn the surface is as it was.
pub proof fn lemma_draw_nothing(start: Console, rows: Seq<Seq<u8>>, width: int)
    ensures
        start.draw_part(rows, width, 0, 0) == start.buf,
{
    assert(start.draw_part(rows, width, 0, 0) =~= start.buf);
}

/// A writer for logging text to a pixel-based framebuffer.
pub struct FrameBufferWriter<'a> {
    framebuffer: &'a mut [u8],
    info: FrameBufferInfo,
    x_pos: usize,
    y_pos: usize,
    color: TextColor,
}

impl<'a> FrameBufferWriter<'a> {
    /// The console that this writer holds.
    pub closed spec fn view(&self) -> Console {
        Console {
            buf: self.framebuffer@,
            x: self.x_pos as int,
            y: self.y_pos as int,
            color: self.color,
            info: self.info,
        }
    }

    /// Creates a new writer with the given framebuffer, which it blanks.
    /// Any layout is taken; text can be written where the layout fits the
    /// framebuffer and has room for it.
    pub fn new(framebuffer: &'a mut [u8], info: FrameBufferInfo) -> (writer: Self)
        ensures
            writer@ == (Console {
                buf: spec_zeros(old(framebuffer)@.len() as int),
                x: BORDER_PADDING as int,
                y: BORDER_PADDING as int,
                color: TextColor::White,
                info,
            }),
            info.fits(old(framebuffer)@.len() as int) && info.has_room() ==> writer@.wf(),
    {
        let mut writer = FrameBufferWriter {
            framebuffer,
            info,
            x_pos: BORDER_PADDING,
            y_pos: BORDER_PADDING,
            color: TextColor::White,
        };
        writer.clear();
        writer
    }

    /// Dynamically sets the cursor position.
    pub fn set_cursor_position(&mut self, x: isize, y: isize)
        requires
            old(self)@.wf(),
        ensures
            final(self)@ == old(self)@.set_cursor_position(x as int, y as int),
            final(self)@.wf(),
    {
        if x < 0 || y < 0 {
            self.x_pos = BORDER_PADDING;
            self.y_pos = BORDER_PADDING;
        } else {
            let x: usize = x as usize;
            let y: usize = y as usize;
            self.x_pos = if x < BORDER_PADDING {
                BORDER_PADDING
            } else if x >= self.info.width {
                self.info.width - 1
            } else {
                x
            };
            self.y_pos = if y < BORDER_PADDING {
                BORDER_PADDING
            } else if y >= self.info.height {
                self.info.height - 1
            } else {
                y
            };
        }
    }

    /// Clears the entire framebuffer.
    pub fn clear(&mut self)
        ensures
            final(self)@ == old(self)@.clear(),
            old(self)@.wf() ==> final(self)@.wf(),
    {
        self.x_pos = BORDER_PADDING;
        self.y_pos = BORDER_PADDING;
        let n: usize = self.framebuffer.len();
        let mut i: usize = 0;
        while i < n
            invariant
                i <= n,
                n == self.framebuffer@.len(),
                forall|k: int| 0 <= k < i ==> self.framebuffer@[k] == 0u8,
                self.info == old(self).info,
                self.color == old(self).color,
                self.x_pos == BORDER_PADDING,
                self.y_pos == BORDER_PADDING,
            decreases n - i,
        {
            self.framebuffer[i] = 0;
            i = i + 1;
        }
        assert(self.framebuffer@ =~= spec_zeros(old(self)@.buf.len() as int));
    }

    /// Retrieves the framebuffer width.
    pub fn width(&self) -> (w: usize)
        ensures
            w == self@.info.width,
    {
        self.info.width
    }

    /// Retrieves the framebuffer height.
    pub fn height(&self) -> (h: usize)
        ensures
            h == self@.info.height,
    {
        self.info.height
    }

    /// The cursor's column in pixels.
    pub fn x_pos(&self) -> (x: usize)
        ensures
            x == self@.x,
    {
        self.x_pos
    }

    /// The cursor's row in pixels.
    pub fn y_pos(&self) -> (y: usize)
        ensures
            y == self@.y,
    {
        self.y_pos
    }

    /// The color that the next glyph is drawn in.
    pub fn color(&self) -> (color: TextColor)
        ensures
            color == self@.color,
    {
        self.color
    }

    /// The bytes of the surface.
    pub fn buffer(&self) -> (bytes: &[u8])
        ensures
            bytes@ == self@.buf,
    {
        &*self.framebuffer
    }

    /// Changes the text color.
    pub fn set_color(&mut self, color: TextColor)
        ensures
            final(self)@ == (Console { color, ..old(self)@ }),
    {
        self.color = color;
    }

    /// Resets the position to the start of the line.
    pub fn carriage_return(&mut self)
        requires
            old(self)@.wf(),
        ensures
            final(self)@ == old(self)@.carriage_return(),
            final(self)@.wf(),
    {
        self.x_pos = BORDER_PADDING;
    }

    /// Scrolls the screen content upward by one line.
    pub fn scroll(&mut self)
        requires
            old(self)@.wf(),
        ensures
            final(self)@ == old(self)@.scroll(),
            final(self)@.wf(),
    {
        proof {
            lemma_extents(self.info);
        }
        let ghost before = self.framebuffer@;
        let line_bytes: usize = LINE_HEIGHT * self.info.stride * self.info.bytes_per_pixel;
        let screen_bytes: usize = self.info.height * self.info.stride * self.info.bytes_per_pixel;
        let kept: usize = screen_bytes - line_bytes;
        let mut i: usize = 0;
        while i < kept
            invariant
                i <= kept,
                kept + line_bytes == screen_bytes,
                screen_bytes <= before.len(),
                self.framebuffer@.len() == before.len(),
                forall|k: int| 0 <= k < i ==> self.framebuffer@[k] == before[k + line_bytes],
                forall|k: int| i <= k < before.len() ==> self.framebuffer@[k] == before[k],
                self.info == old(self).info,
                self.color == old(self).color,
                self.x_pos == old(self).x_pos,
                self.y_pos == old(self).y_pos,
            decreases kept - i,
        {
            let b: u8 = self.framebuffer[i + line_bytes];
            self.framebuffer[i] = b;
            i = i + 1;
        }
        while i < screen_bytes
            invariant
                kept <= i <= screen_bytes,
                kept + line_bytes == screen_bytes,
                screen_bytes <= before.len(),
                self.framebuffer@.len() == before.len(),
                forall|k: int| 0 <= k < kept ==> self.framebuffer@[k] == before[k + line_bytes],
                forall|k: int| kept <= k < i ==> self.framebuffer@[k] == 0u8,
                forall|k: int| screen_bytes <= k < before.len() ==> self.framebuffer@[k] == before[k],
                self.info == old(self).info,
                self.color == old(self).color,
                self.x_pos == old(self).x_pos,
                self.y_pos == old(self).y_pos,
            decreases screen_bytes - i,
        {
            self.framebuffer[i] = 0;
            i = i + 1;
        }
        self.y_pos = self.info.height - LINE_HEIGHT - BORDER_PADDING;
        assert(self.framebuffer@ =~= old(self)@.scroll().buf);
    }

    /// Advances to a new line.
    pub fn newline(&mut self)
        requires
            old(self)@.wf(),
        ensures
            final(self)@ == old(self)@.newline(),
            final(self)@.wf(),
    {
        if self.info.height - self.y_pos <= LINE_HEIGHT {
            self.scroll();
        } else {
            self.y_pos = self.y_pos + LINE_HEIGHT;
        }
        self.carriage_return();
    }

    /// Writes a tab space.
    pub fn write_tab(&mut self)
        requires
            old(self)@.wf(),
        ensures
            final(self)@ == old(self)@.tab(),
            final(self)@.wf(),
    {
        proof {
            lemma_extents(self.info);
            assert(self.x_pos / TAB_WIDTH * TAB_WIDTH <= self.x_pos) by {
                vstd::arithmetic::div_mod::lemma_fundamental_div_mod(
                    self.x_pos as int,
                    TAB_WIDTH as int,
                );
                vstd::arithmetic::div_mod::lemma_mod_bound(self.x_pos as int, TAB_WIDTH as int);
            }
        }
        let stops: usize = self.x_pos / TAB_WIDTH;
        let stop: usize = (stops + 1) * TAB_WIDTH;
        if stop >= self.info.width {
            self.newline();
        } else {
            self.x_pos = stop;
        }
    }

    /// Writes a pixel at the specified position with the given intensity.
    /// A pixel whose bytes do not all lie within the surface is left alone.
    pub fn write_pixel(&mut self, x: usize, y: usize, intensity: u8)
        requires
            1 <= old(self)@.info.bytes_per_pixel <= 4,
        ensures
            final(self)@ == if (y * old(self)@.info.stride + x) * old(self)@.info.bytes_per_pixel
                + old(self)@.info.bytes_per_pixel <= old(self)@.buf.len() {
                old(self)@.put_pixel(x as int, y as int, intensity)
            } else {
                old(self)@
            },
    {
        let bytes_per_pixel: usize = self.info.bytes_per_pixel;
        let byte_offset: usize = match pixel_offset(
            self.info.stride,
            bytes_per_pixel,
            self.framebuffer.len(),
            x,
            y,
        ) {
            Some(offset) => offset,
            None => {
                return;
            },
        };
        let ghost before = self.framebuffer@;
        let ghost p = y * self.info.stride + x;
        let color: [u8; 4] = resolve(self.color, intensity, self.info.pixel_format);
        let mut j: usize = 0;
        while j < bytes_per_pixel
            invariant
                j <= bytes_per_pixel <= 4,
                bytes_per_pixel == self.info.bytes_per_pixel,
                byte_offset == p * bytes_per_pixel,
                byte_offset + bytes_per_pixel <= before.len(),
                byte_offset + bytes_per_pixel <= usize::MAX,
                self.framebuffer@.len() == before.len(),
                color@ == spec_resolve(self.color, intensity, self.info.pixel_format),
                forall|k: int|
                    byte_offset <= k < byte_offset + j ==> self.framebuffer@[k] == color@[k
                        - byte_offset],
                forall|k: int|
                    0 <= k < before.len() && !(byte_offset <= k < byte_offset + j)
                        ==> self.framebuffer@[k] == before[k],
                self.info == old(self).info,
                self.color == old(self).color,
                self.x_pos == old(self).x_pos,
                self.y_pos == old(self).y_pos,
            decreases bytes_per_pixel - j,
        {
            self.framebuffer[byte_offset + j] = color[j];
            j = j + 1;
        }
        let _seen: u8 = read_back(&*self.framebuffer, byte_offset);
        assert(self.framebuffer@ =~= old(self)@.put_pixel(x as int, y as int, intensity).buf);
    }

    /// Renders a character to the framebuffer at the cursor, which must
    /// leave room for it: the glyph ends left of the right edge and no
    /// lower than the bottom edge.
    pub fn write_rendered_char(&mut self, rendered_char: &Glyph)
        requires
            old(self)@.wf(),
            rendered_char.wf(),
            old(self)@.x + rendered_char.spec_width() < old(self)@.info.width,
            old(self)@.y + rendered_char@.len() <= old(self)@.info.height,
        ensures
            final(self)@ == old(self)@.write_rendered(
                rendered_char@,
                rendered_char.spec_width(),
                rendered_char@.len() as int,
            ),
            final(self)@.wf(),
    {
        let ghost start = self@;
        let ghost rows = rendered_char@;
        let height: usize = rendered_char.height();
        let width: usize = rendered_char.width();
        proof {
            lemma_draw_nothing(start, rows, width as int);
        }
        let mut y: usize = 0;
        while y < height
            invariant
                y <= height,
                height == rows.len(),
                width == rendered_char.spec_width(),
                rows == rendered_char@,
                rendered_char.wf(),
                start.wf(),
                start.x + width < start.info.width,
                start.y + height <= start.info.height,
                self@ == (Console { buf: start.draw_part(rows, width as int, y as int, 0), ..start }),
            decreases height - y,
        {
            let mut x: usize = 0;
            while x < width
                invariant
                    y < height,
                    x <= width,
                    height == rows.len(),
                    width == rendered_char.spec_width(),
                    rows == rendered_char@,
                    rendered_char.wf(),
                    start.wf(),
                    start.x + width < start.info.width,
                    start.y + height <= start.info.height,
                    self@ == (Console {
                        buf: start.draw_part(rows, width as int, y as int, x as int),
                        ..start
                    }),
                decreases width - x,
            {
                let byte: u8 = rendered_char.intensity(x, y);
                proof {
                    lemma_draw_step(start, rows, width as int, y as int, x as int);
                    lemma_pixel_in_extent(start.info, start.x + x, start.y + y);
                }
                self.write_pixel(self.x_pos + x, self.y_pos + y, byte);
                x = x + 1;
            }
            proof {
                lemma_draw_row_done(start, rows, width as int, y as int);
            }
            y = y + 1;
        }
        self.x_pos = self.x_pos + width;
    }

    /// Writes a single character to the framebuffer.
    pub fn write_char(&mut self, c: char)
        requires
            old(self)@.wf(),
        ensures
            final(self)@ == old(self)@.write_char(c),
            final(self)@.wf(),
    {
        if c == '\n' {
            self.newline();
        } else if c == '\r' {
            self.carriage_return();
        } else if c == '\t' {
            self.write_tab();
        } else {
            if self.info.width - self.x_pos <= CHAR_RASTER_WIDTH {
                self.newline();
            }
            if self.info.height - self.y_pos <= CHAR_RASTER_HEIGHT + BORDER_PADDING {
                self.scroll();
            }
            let glyph = get_char_raster(c);
            self.write_rendered_char(&glyph);
        }
    }

    /// Writes the characters of `s` as they are, without reading escapes.
    pub fn write_str(&mut self, s: &str)
        requires
            old(self)@.wf(),
        ensures
            final(self)@ == old(self)@.write_all(s@),
            final(self)@.wf(),
    {
        let chars = chars_of(s);
        let mut i: usize = 0;
        while i < chars.len()
            invariant
                i <= chars@.len(),
                self@.wf(),
                self@ == old(self)@.write_all(chars@.take(i as int)),
            decreases chars@.len() - i,
        {
            assert(chars@.take(i + 1).drop_last() =~= chars@.take(i as int));
            self.write_char(chars[i]);
            i = i + 1;
        }
        assert(chars@.take(i as int) =~= chars@);
    }

    /// Carries out one directive.
    pub fn apply(&mut self, d: Directive)
        requires
            old(self)@.wf(),
        ensures
            final(self)@ == old(self)@.apply(d),
            final(self)@.wf(),
    {
        match d {
            Directive::Literal(c) => self.write_char(c),
            Directive::Newline => self.newline(),
            Directive::Tab => self.write_tab(),
            Directive::SetColor(ColorToken::Name(color)) => self.set_color(color),
            Directive::SetColor(ColorToken::Index(_)) => {},
        }
    }

    /// Writes text that may carry escapes: `\n`, `\t`, and `\c` followed by
    /// the name of a color, which selects it for the glyphs that follow.
    pub fn write_string(&mut self, s: &str)
        requires
            old(self)@.wf(),
        ensures
            final(self)@ == old(self)@.run(spec_parse(s@, TokenForm::Name)),
            final(self)@.wf(),
    {
        let chars = chars_of(s);
        let directives = parse(chars.as_slice(), TokenForm::Name);
        let mut i: usize = 0;
        while i < directives.len()
            invariant
                i <= directives@.len(),
                self@.wf(),
                self@ == old(self)@.run(directives@.take(i as int)),
            decreases directives@.len() - i,
        {
            assert(directives@.take(i + 1).drop_last() =~= directives@.take(i as int));
            self.apply(directives[i]);
            i = i + 1;
        }
        assert(directives@.take(i as int) =~= directives@);
    }
}

} // verus!
