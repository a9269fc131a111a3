//! What lines of text leave on the pixel surface.
use vstd::prelude::*;
use crate::color::{spec_resolve, TextColor};
use crate::font::{spec_glyph, CHAR_RASTER_HEIGHT, CHAR_RASTER_WIDTH};
use crate::pixel::{lemma_extents, Console, FrameBufferInfo, BORDER_PADDING, LINE_HEIGHT};
use crate::text::spec_join;
use crate::pixel_laws::{
    lemma_make_room, lemma_newline_keeps_wf, lemma_scroll_keeps_wf, lemma_write_all_concat,
    spec_drawn,
};

verus! {

/// Every character of `cs` is drawn.
pub open spec fn spec_all_drawn(cs: Seq<char>) -> bool {
    forall|i: int| 0 <= i < cs.len() ==> spec_drawn(#[trigger] cs[i])
}

/// Byte `k` of the surface after the glyphs of `cs` have been drawn side
/// by side with the top left corner of the first at the cursor: the pixel
/// `col` columns right of the cursor and `row` rows below it belongs to
/// glyph `col / 7` and shows that glyph's pixel in column `col % 7` of row
/// `row`.
pub open spec fn spec_glyphs_byte(s: Console, cs: Seq<char>, k: int) -> u8 {
    let bpp = s.info.bytes_per_pixel as int;
    let stride = s.info.stride as int;
    let row = (k / bpp) / stride - s.y;
    let col = (k / bpp) % stride - s.x;
    if 0 <= row < CHAR_RASTER_HEIGHT && 0 <= col < CHAR_RASTER_WIDTH * cs.len() {
        spec_resolve(
            s.color,
            spec_glyph(cs[col / (CHAR_RASTER_WIDTH as int)])[row][col % (CHAR_RASTER_WIDTH as int)],
            s.info.pixel_format,
        )[k % bpp]
    } else {
        s.buf[k]
    }
}

/// The surface after the glyphs of `cs` have been drawn side by side with
/// the top left corner of the first at the cursor.
pub open spec fn spec_glyphs_drawn(s: Console, cs: Seq<char>) -> Seq<u8> {
    Seq::new(s.buf.len(), |k: int| spec_glyphs_byte(s, cs, k))
}

/// Glyphs that end left of the right edge are drawn side by side on one
/// line, without a wrap: room is made for the first, which scrolls the
/// screen if the line would reach the bottom, and the others follow it.
pub proof fn lemma_glyphs_on_one_line(s: Console, cs: Seq<char>)
    requires
        s.wf(),
        spec_all_drawn(cs),
        cs.len() >= 1,
        s.x + CHAR_RASTER_WIDTH * cs.len() < s.info.width,
    ensures
        s.write_all(cs) == (Console {
            buf: spec_glyphs_drawn(s.make_room(), cs),
            x: s.x + CHAR_RASTER_WIDTH * cs.len(),
            ..s.make_room()
        }),
        s.make_room().x == s.x,
    decreases cs.len(),
{
    let placed = s.make_room();
    lemma_make_room(s);
    let c = cs.last();
    assert(spec_drawn(c));
    if cs.len() == 1 {
        assert(cs.drop_last() =~= Seq::<char>::empty());
        assert(s.write_all(cs.drop_last()) == s);
        assert(s.write_char(c).buf =~= spec_glyphs_drawn(placed, cs));
    } else {
        let head = cs.drop_last();
        assert(spec_all_drawn(head));
        lemma_glyphs_on_one_line(s, head);
        let mid = s.write_all(head);
        assert(mid.make_room() == mid);
        assert(mid.write_char(c).buf =~= spec_glyphs_drawn(placed, cs));
    }
}

/// A glyph that would reach the right edge is drawn at the left margin of
/// the next line instead.
pub proof fn lemma_glyph_at_line_end_wraps(s: Console, c: char)
    requires
        s.wf(),
        spec_drawn(c),
        s.x + CHAR_RASTER_WIDTH >= s.info.width,
    ensures
        s.write_char(c) == s.newline().write_char(c),
        s.write_char(c).x == BORDER_PADDING + CHAR_RASTER_WIDTH,
{
}

/// The glyphs that fit on one line.
pub open spec fn spec_text_cols(info: FrameBufferInfo) -> int {
    (info.width - 2 * BORDER_PADDING) / (CHAR_RASTER_WIDTH as int)
}

/// The surface is `rows` text lines high within its border, with nothing
/// left over.
pub open spec fn spec_aligned(info: FrameBufferInfo, rows: int) -> bool {
    rows >= 1 && info.height == LINE_HEIGHT * rows + 2 * BORDER_PADDING
}

/// Every line has a glyph to draw, is drawn in full and fits on one line
/// of the surface.
pub open spec fn spec_lines_fit(lines: Seq<Seq<char>>, info: FrameBufferInfo) -> bool {
    forall|i: int|
        0 <= i < lines.len() ==> 1 <= (#[trigger] lines[i]).len() <= spec_text_cols(info)
            && spec_all_drawn(lines[i])
}

/// Every byte of the rows of the surface is zero.
pub open spec fn spec_blank(buf: Seq<u8>, info: FrameBufferInfo) -> bool {
    forall|k: int| 0 <= k < info.screen_bytes() ==> #[trigger] buf[k] == 0u8
}

/// The number of text lines that `n` lines take up on a surface of `rows`.
pub open spec fn spec_shown(n: int, rows: int) -> int {
    if n < rows {
        n
    } else {
        rows
    }
}

/// Byte `k` of a surface that shows the last lines of `lines`, as many as
/// it has text lines, from the top down inside the border: glyph `j` of the
/// line on text line `r` has its top left corner at pixel
/// `(1 + 7 * j, 1 + 18 * r)` and is drawn in `color`. Every other byte of
/// the rows is zero, and the bytes behind the rows are those of `base`.
pub open spec fn spec_page_byte(
    lines: Seq<Seq<char>>,
    color: TextColor,
    info: FrameBufferInfo,
    base: Seq<u8>,
    rows: int,
    k: int,
) -> u8 {
    let shown = spec_shown(lines.len() as int, rows);
    let bpp = info.bytes_per_pixel as int;
    let stride = info.stride as int;
    if k < info.screen_bytes() {
        let prow = (k / bpp) / stride - BORDER_PADDING;
        let pcol = (k / bpp) % stride - BORDER_PADDING;
        let r = prow / (LINE_HEIGHT as int);
        let j = pcol / (CHAR_RASTER_WIDTH as int);
        let line = lines[lines.len() - shown + r];
        if 0 <= prow && 0 <= pcol && r < shown && prow % (LINE_HEIGHT as int) < CHAR_RASTER_HEIGHT
            && j < line.len() {
            spec_resolve(
                color,
                spec_glyph(line[j])[prow % (LINE_HEIGHT as int)][pcol % (CHAR_RASTER_WIDTH as int)],
                info.pixel_format,
            )[k % bpp]
        } else {
            0u8
        }
    } else {
        base[k]
    }
}

/// The surface that shows the last lines of `lines`.
pub open spec fn spec_page(
    lines: Seq<Seq<char>>,
    color: TextColor,
    info: FrameBufferInfo,
    base: Seq<u8>,
    rows: int,
) -> Seq<u8> {
    Seq::new(base.len(), |k: int| spec_page_byte(lines, color, info, base, rows, k))
}

/// Where byte `k` lies: its channel, and the row and column of its pixel.
/// The bytes of the rows of the surface are those of the pixel rows above
/// its height.
pub proof fn lemma_byte_position(info: FrameBufferInfo, k: int)
    requires
        info.valid(),
        info.has_room(),
        0 <= k,
    ensures
        0 <= k % (info.bytes_per_pixel as int) < info.bytes_per_pixel,
        0 <= k / (info.bytes_per_pixel as int),
        0 <= (k / (info.bytes_per_pixel as int)) % (info.stride as int) < info.stride,
        0 <= (k / (info.bytes_per_pixel as int)) / (info.stride as int),
        ((k / (info.bytes_per_pixel as int)) / (info.stride as int) < info.height) <==> (k
            < info.screen_bytes()),
{
    let bpp = info.bytes_per_pixel as int;
    let stride = info.stride as int;
    let p = k / bpp;
    vstd::arithmetic::div_mod::lemma_fundamental_div_mod(k, bpp);
    vstd::arithmetic::div_mod::lemma_mod_bound(k, bpp);
    vstd::arithmetic::div_mod::lemma_div_pos_is_pos(k, bpp);
    vstd::arithmetic::div_mod::lemma_fundamental_div_mod(p, stride);
    vstd::arithmetic::div_mod::lemma_mod_bound(p, stride);
    vstd::arithmetic::div_mod::lemma_div_pos_is_pos(p, stride);
    let row = p / stride;
    let col = p % stride;
    let ch = k % bpp;
    assert((row < info.height) <==> (k < info.height * stride * bpp)) by (nonlinear_arith)
        requires
            k == bpp * (stride * row + col) + ch,
            0 <= ch < bpp,
            0 <= col < stride,
            0 <= row,
            info.height >= 0,
    ;
}

/// One text line further down: the byte that lies the bytes of a text line
/// behind byte `k` has the same channel and the same column, eighteen
/// pixel rows below.
pub proof fn lemma_line_below(info: FrameBufferInfo, k: int)
    requires
        info.valid(),
        info.has_room(),
        0 <= k,
    ensures
        ({
            let bpp = info.bytes_per_pixel as int;
            let stride = info.stride as int;
            let below = k + info.line_bytes();
            &&& below % bpp == k % bpp
            &&& (below / bpp) % stride == (k / bpp) % stride
            &&& (below / bpp) / stride == (k / bpp) / stride + LINE_HEIGHT
        }),
{
    let bpp = info.bytes_per_pixel as int;
    let stride = info.stride as int;
    let p = k / bpp;
    let below = k + info.line_bytes();
    lemma_byte_position(info, k);
    vstd::arithmetic::div_mod::lemma_fundamental_div_mod(k, bpp);
    vstd::arithmetic::div_mod::lemma_fundamental_div_mod(p, stride);
    let shifted = p + LINE_HEIGHT * stride;
    assert(below == shifted * bpp + k % bpp) by (nonlinear_arith)
        requires
            below == k + LINE_HEIGHT * stride * bpp,
            k == bpp * p + k % bpp,
            shifted == p + LINE_HEIGHT * stride,
    ;
    vstd::arithmetic::div_mod::lemma_fundamental_div_mod_converse(below, bpp, shifted, k % bpp);
    assert(shifted == (p / stride + LINE_HEIGHT) * stride + p % stride) by (nonlinear_arith)
        requires
            shifted == p + LINE_HEIGHT * stride,
            p == stride * (p / stride) + p % stride,
    ;
    vstd::arithmetic::div_mod::lemma_fundamental_div_mod_converse(
        shifted,
        stride,
        p / stride + LINE_HEIGHT,
        p % stride,
    );
}

/// The glyphs of a line that fits end left of the right edge.
pub proof fn lemma_line_fits(info: FrameBufferInfo, len: int)
    requires
        info.valid(),
        info.has_room(),
        0 <= len <= spec_text_cols(info),
    ensures
        BORDER_PADDING + CHAR_RASTER_WIDTH * len < info.width,
{
    let span = info.width - 2 * BORDER_PADDING;
    vstd::arithmetic::div_mod::lemma_fundamental_div_mod(span, CHAR_RASTER_WIDTH as int);
    vstd::arithmetic::div_mod::lemma_mod_bound(span, CHAR_RASTER_WIDTH as int);
}

/// The first line on a blank surface is the page of that line.
proof fn lemma_first_line_at(s: Console, line: Seq<char>, rows: int, k: int)
    requires
        s.wf(),
        s.x == BORDER_PADDING,
        s.y == BORDER_PADDING,
        spec_blank(s.buf, s.info),
        spec_aligned(s.info, rows),
        1 <= line.len() <= spec_text_cols(s.info),
        0 <= k < s.buf.len(),
    ensures
        spec_glyphs_byte(s, line, k) == spec_page_byte(seq![line], s.color, s.info, s.buf, rows, k),
{
    lemma_byte_position(s.info, k);
    lemma_line_fits(s.info, line.len() as int);
    assert(seq![line][0] == line);
}

/// A line drawn below the lines of a page that has room for it makes the
/// page of all the lines.
proof fn lemma_next_line_at(
    lines: Seq<Seq<char>>,
    color: TextColor,
    info: FrameBufferInfo,
    base: Seq<u8>,
    rows: int,
    k: int,
)
    requires
        info.fits(base.len() as int),
        info.has_room(),
        spec_aligned(info, rows),
        2 <= lines.len() <= rows,
        spec_lines_fit(lines, info),
        0 <= k < base.len(),
    ensures
        spec_glyphs_byte(
            Console {
                buf: spec_page(lines.drop_last(), color, info, base, rows),
                x: BORDER_PADDING as int,
                y: BORDER_PADDING + LINE_HEIGHT * (lines.len() - 1),
                color,
                info,
            },
            lines.last(),
            k,
        ) == spec_page_byte(lines, color, info, base, rows, k),
{
    let n = lines.len() as int;
    let prev = lines.drop_last();
    lemma_byte_position(info, k);
    lemma_line_fits(info, lines.last().len() as int);
    let prow = (k / (info.bytes_per_pixel as int)) / (info.stride as int) - BORDER_PADDING;
    let r = prow / (LINE_HEIGHT as int);
    if k < info.screen_bytes() && 0 <= r < n - 1 {
        assert(prev[r] == lines[r]);
    }
}

/// A line drawn on the last text line of a full page that has scrolled
/// makes the page of all the lines.
proof fn lemma_scrolled_line_at(
    lines: Seq<Seq<char>>,
    color: TextColor,
    info: FrameBufferInfo,
    base: Seq<u8>,
    rows: int,
    k: int,
)
    requires
        info.fits(base.len() as int),
        info.has_room(),
        spec_aligned(info, rows),
        lines.len() > rows,
        spec_lines_fit(lines, info),
        0 <= k < base.len(),
    ensures
        spec_glyphs_byte(
            (Console {
                buf: spec_page(lines.drop_last(), color, info, base, rows),
                x: BORDER_PADDING as int,
                y: BORDER_PADDING + LINE_HEIGHT * rows,
                color,
                info,
            }).scroll(),
            lines.last(),
            k,
        ) == spec_page_byte(lines, color, info, base, rows, k),
{
    let n = lines.len() as int;
    let prev = lines.drop_last();
    let old_page = spec_page(prev, color, info, base, rows);
    let broken = Console {
        buf: old_page,
        x: BORDER_PADDING as int,
        y: BORDER_PADDING + LINE_HEIGHT * rows,
        color,
        info,
    };
    let placed = broken.scroll();
    lemma_extents(info);
    lemma_byte_position(info, k);
    lemma_line_fits(info, lines.last().len() as int);
    let prow = (k / (info.bytes_per_pixel as int)) / (info.stride as int) - BORDER_PADDING;
    let pcol = (k / (info.bytes_per_pixel as int)) % (info.stride as int) - BORDER_PADDING;
    let r = prow / (LINE_HEIGHT as int);
    let m = prow % (LINE_HEIGHT as int);
    let j = pcol / (CHAR_RASTER_WIDTH as int);
    assert(prow == 18 * r + m && 0 <= m < 18) by {
        vstd::arithmetic::div_mod::lemma_fundamental_div_mod(prow, 18);
        vstd::arithmetic::div_mod::lemma_mod_bound(prow, 18);
    }
    assert(pcol == 7 * j + pcol % 7 && 0 <= pcol % 7 < 7) by {
        vstd::arithmetic::div_mod::lemma_fundamental_div_mod(pcol, 7);
        vstd::arithmetic::div_mod::lemma_mod_bound(pcol, 7);
    }
    if k < info.screen_bytes() - info.line_bytes() {
        lemma_line_below(info, k);
        let below = k + info.line_bytes();
        lemma_byte_position(info, below);
        let prow2 = (below / (info.bytes_per_pixel as int)) / (info.stride as int) - BORDER_PADDING;
        assert(prow2 / 18 == r + 1 && prow2 % 18 == m) by {
            vstd::arithmetic::div_mod::lemma_fundamental_div_mod_converse(prow2, 18, r + 1, m);
        }
    } else if k < info.screen_bytes() {
        assert((k / (info.bytes_per_pixel as int)) / (info.stride as int) >= info.height
            - LINE_HEIGHT) by {
            lemma_rows_above(info, k);
        }
    }
}

/// The bytes in front of the last text line's worth of rows are those of
/// the pixel rows above it.
proof fn lemma_rows_above(info: FrameBufferInfo, k: int)
    requires
        info.valid(),
        info.has_room(),
        0 <= k,
    ensures
        ((k / (info.bytes_per_pixel as int)) / (info.stride as int) < info.height - LINE_HEIGHT)
            <==> (k < info.screen_bytes() - info.line_bytes()),
{
    let bpp = info.bytes_per_pixel as int;
    let stride = info.stride as int;
    let p = k / bpp;
    vstd::arithmetic::div_mod::lemma_fundamental_div_mod(k, bpp);
    vstd::arithmetic::div_mod::lemma_mod_bound(k, bpp);
    vstd::arithmetic::div_mod::lemma_fundamental_div_mod(p, stride);
    vstd::arithmetic::div_mod::lemma_mod_bound(p, stride);
    lemma_byte_position(info, k);
    lemma_extents(info);
    let row = p / stride;
    let col = p % stride;
    let ch = k % bpp;
    let top = info.height - LINE_HEIGHT;
    assert((row < top) <==> (k < top * stride * bpp)) by (nonlinear_arith)
        requires
            k == bpp * (stride * row + col) + ch,
            0 <= ch < bpp,
            0 <= col < stride,
            0 <= row,
            top >= 0,
    ;
}

/// Lines written to a blank surface from its top left corner show as a
/// page: the surface holds the last lines, as many as it has text lines,
/// and the cursor stands behind the last of them.
pub proof fn lemma_lines_show_as_page(s: Console, lines: Seq<Seq<char>>, rows: int)
    requires
        s.wf(),
        s.x == BORDER_PADDING,
        s.y == BORDER_PADDING,
        spec_blank(s.buf, s.info),
        spec_aligned(s.info, rows),
        lines.len() >= 1,
        spec_lines_fit(lines, s.info),
    ensures
        s.write_all(spec_join(lines)) == (Console {
            buf: spec_page(lines, s.color, s.info, s.buf, rows),
            x: BORDER_PADDING + CHAR_RASTER_WIDTH * lines.last().len(),
            y: BORDER_PADDING + LINE_HEIGHT * (spec_shown(lines.len() as int, rows) - 1),
            color: s.color,
            info: s.info,
        }),
    decreases lines.len(),
{
    let n = lines.len() as int;
    let last = lines.last();
    let info = s.info;
    let page = spec_page(lines, s.color, info, s.buf, rows);
    lemma_extents(info);
    lemma_line_fits(info, last.len() as int);
    if n == 1 {
        lemma_glyphs_on_one_line(s, last);
        assert(s.make_room() == s);
        assert(lines =~= seq![last]);
        let written = spec_glyphs_drawn(s, last);
        assert forall|k: int| 0 <= k < page.len() implies written[k] == page[k] by {
            lemma_first_line_at(s, last, rows, k);
        }
        assert(written =~= page);
    } else {
        let prev = lines.drop_last();
        assert(spec_lines_fit(prev, info)) by {
            assert forall|i: int| 0 <= i < prev.len() implies 1 <= (#[trigger] prev[i]).len()
                <= spec_text_cols(info) && spec_all_drawn(prev[i]) by {
                assert(prev[i] == lines[i]);
            }
        }
        lemma_lines_show_as_page(s, prev, rows);
        lemma_line_fits(info, prev.last().len() as int);
        let shown_prev = s.write_all(spec_join(prev));
        let before = spec_shown(n - 1, rows);
        assert(shown_prev.wf());
        let broken = shown_prev.newline();
        lemma_newline_keeps_wf(shown_prev);
        lemma_write_all_concat(s, spec_join(prev) + seq!['\n'], last);
        lemma_write_all_concat(s, spec_join(prev), seq!['\n']);
        assert(shown_prev.write_all(seq!['\n']) == broken) by {
            assert(seq!['\n'].drop_last() =~= Seq::<char>::empty());
            assert(shown_prev.write_all(Seq::<char>::empty()) == shown_prev);
        }
        assert(s.write_all(spec_join(lines)) == broken.write_all(last));
        assert(broken == Console {
            buf: spec_page(prev, s.color, info, s.buf, rows),
            x: BORDER_PADDING as int,
            y: BORDER_PADDING + LINE_HEIGHT * before,
            color: s.color,
            info,
        });
        lemma_glyphs_on_one_line(broken, last);
        let placed = broken.make_room();
        let written = spec_glyphs_drawn(placed, last);
        if before < rows {
            assert(placed == broken);
            assert forall|k: int| 0 <= k < page.len() implies written[k] == page[k] by {
                lemma_next_line_at(lines, s.color, info, s.buf, rows, k);
            }
        } else {
            assert(placed == broken.scroll());
            lemma_scroll_keeps_wf(broken);
            assert forall|k: int| 0 <= k < page.len() implies written[k] == page[k] by {
                lemma_scrolled_line_at(lines, s.color, info, s.buf, rows, k);
            }
        }
        assert(written =~= page);
    }
}

/// Only the last screenful shows. Text of more lines than the surface has
/// text lines leaves the surface, cursor included, as the last lines alone
/// would have left it, as many as it has text lines: each line over the top
/// has scrolled one line away. In particular one full screen followed by
/// one more line shows what the lines from the second on show.
///
/// This needs a surface whose height is a whole number of text lines
/// within the border, and lines that draw at least one glyph: a scroll
/// puts the cursor on the last text line counted from the bottom edge, and
/// a line break at the bottom does not scroll before a glyph follows it.
pub proof fn lemma_only_last_screenful_shows(s: Console, lines: Seq<Seq<char>>, rows: int)
    requires
        s.wf(),
        s.x == BORDER_PADDING,
        s.y == BORDER_PADDING,
        spec_blank(s.buf, s.info),
        spec_aligned(s.info, rows),
        lines.len() > rows,
        spec_lines_fit(lines, s.info),
    ensures
        s.write_all(spec_join(lines)) == s.write_all(spec_join(lines.skip(lines.len() - rows))),
{
    let tail = lines.skip(lines.len() - rows);
    assert(spec_lines_fit(tail, s.info)) by {
        assert forall|i: int| 0 <= i < tail.len() implies 1 <= (#[trigger] tail[i]).len()
            <= spec_text_cols(s.info) && spec_all_drawn(tail[i]) by {
            assert(tail[i] == lines[i + lines.len() - rows]);
        }
    }
    lemma_lines_show_as_page(s, lines, rows);
    lemma_lines_show_as_page(s, tail, rows);
    assert(spec_page(lines, s.color, s.info, s.buf, rows) =~= spec_page(
        tail,
        s.color,
        s.info,
        s.buf,
        rows,
    ));
}

} // verus!
