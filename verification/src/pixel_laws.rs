//! What holds of the pixel console across calls.
use vstd::prelude::*;
use crate::color::{spec_resolve, TextColor};
use crate::escape::{spec_parse, ColorToken, Directive, TokenForm, MARKER};
use crate::escape_laws::{lemma_plain_text_is_literal, spec_literals};
use crate::font::{spec_glyph, CHAR_RASTER_HEIGHT, CHAR_RASTER_WIDTH};
use crate::pixel::{
    lemma_extents, spec_zeros, Console, FrameBufferInfo, BORDER_PADDING, LINE_HEIGHT, TAB_WIDTH,
};

verus! {

/// A text line is a glyph and two pixel rows of spacing high, and a tab
/// stop comes every four glyphs.
pub proof fn lemma_metrics()
    ensures
        LINE_HEIGHT == CHAR_RASTER_HEIGHT + 2,
        TAB_WIDTH == 4 * CHAR_RASTER_WIDTH,
{
}

/// Scrolling keeps the console well-formed and the surface as long as it is.
pub proof fn lemma_scroll_keeps_wf(s: Console)
    requires
        s.wf(),
    ensures
        s.scroll().wf(),
        s.scroll().buf.len() == s.buf.len(),
        s.scroll().y + CHAR_RASTER_HEIGHT + BORDER_PADDING < s.info.height,
{
    lemma_extents(s.info);
}

/// A line break keeps the console well-formed.
pub proof fn lemma_newline_keeps_wf(s: Console)
    requires
        s.wf(),
    ensures
        s.newline().wf(),
        s.newline().buf.len() == s.buf.len(),
        s.newline().x == BORDER_PADDING,
{
    lemma_scroll_keeps_wf(s);
}

/// Before a glyph is drawn there is room for it: it ends left of the right
/// edge and above the bottom edge.
pub proof fn lemma_make_room(s: Console)
    requires
        s.wf(),
    ensures
        s.make_room().wf(),
        s.make_room().buf.len() == s.buf.len(),
        s.make_room().x + CHAR_RASTER_WIDTH < s.info.width,
        s.make_room().y + CHAR_RASTER_HEIGHT + BORDER_PADDING < s.info.height,
        s.make_room().info == s.info,
        s.make_room().color == s.color,
{
    lemma_newline_keeps_wf(s);
    let wrapped = if s.x + CHAR_RASTER_WIDTH >= s.info.width {
        s.newline()
    } else {
        s
    };
    lemma_scroll_keeps_wf(wrapped);
}

/// One character leaves a well-formed console well-formed: the cursor
/// stays inside the border on the visible part of the surface.
pub proof fn lemma_write_char_keeps_wf(s: Console, c: char)
    requires
        s.wf(),
    ensures
        s.write_char(c).wf(),
        s.write_char(c).buf.len() == s.buf.len(),
        s.write_char(c).info == s.info,
        s.write_char(c).color == s.color,
{
    lemma_newline_keeps_wf(s);
    lemma_make_room(s);
    assert(s.tab().wf() && s.tab().buf.len() == s.buf.len()) by {
        vstd::arithmetic::div_mod::lemma_fundamental_div_mod(s.x, TAB_WIDTH as int);
        vstd::arithmetic::div_mod::lemma_mod_bound(s.x, TAB_WIDTH as int);
    }
}

/// The cursor stays on the surface, the layout stays, and the color
/// changes only when it is set: whatever is written, character by
/// character.
pub proof fn lemma_write_all_keeps_wf(s: Console, cs: Seq<char>)
    requires
        s.wf(),
    ensures
        s.write_all(cs).wf(),
        s.write_all(cs).buf.len() == s.buf.len(),
        s.write_all(cs).info == s.info,
        s.write_all(cs).color == s.color,
    decreases cs.len(),
{
    if cs.len() > 0 {
        lemma_write_all_keeps_wf(s, cs.drop_last());
        lemma_write_char_keeps_wf(s.write_all(cs.drop_last()), cs.last());
    }
}

/// Directives leave a well-formed console well-formed.
pub proof fn lemma_run_keeps_wf(s: Console, ds: Seq<Directive>)
    requires
        s.wf(),
    ensures
        s.run(ds).wf(),
        s.run(ds).buf.len() == s.buf.len(),
        s.run(ds).info == s.info,
    decreases ds.len(),
{
    if ds.len() > 0 {
        let before = s.run(ds.drop_last());
        lemma_run_keeps_wf(s, ds.drop_last());
        lemma_newline_keeps_wf(before);
        match ds.last() {
            Directive::Literal(c) => lemma_write_char_keeps_wf(before, c),
            Directive::Tab => lemma_write_char_keeps_wf(before, '\t'),
            _ => {},
        }
    }
}

/// Writing one text after another is writing their concatenation.
pub proof fn lemma_write_all_concat(s: Console, a: Seq<char>, b: Seq<char>)
    ensures
        s.write_all(a + b) == s.write_all(a).write_all(b),
    decreases b.len(),
{
    if b.len() == 0 {
        assert(a + b =~= a);
    } else {
        assert((a + b).drop_last() =~= a + b.drop_last());
        assert((a + b).last() == b.last());
        lemma_write_all_concat(s, a, b.drop_last());
    }
}

/// Carrying out one sequence of directives after another is carrying out
/// their concatenation.
pub proof fn lemma_run_concat(s: Console, a: Seq<Directive>, b: Seq<Directive>)
    ensures
        s.run(a + b) == s.run(a).run(b),
    decreases b.len(),
{
    if b.len() == 0 {
        assert(a + b =~= a);
    } else {
        assert((a + b).drop_last() =~= a + b.drop_last());
        assert((a + b).last() == b.last());
        lemma_run_concat(s, a, b.drop_last());
    }
}

/// The escapes for a line break and a tab do what the control characters
/// do: `\n` is a line feed and `\t` is a tab character.
pub proof fn lemma_escapes_are_control_characters(s: Console)
    ensures
        s.apply(Directive::Newline) == s.write_char('\n'),
        s.apply(Directive::Tab) == s.write_char('\t'),
{
}

/// Literals are written as the characters they stand for.
pub proof fn lemma_literals_are_written(s: Console, cs: Seq<char>)
    ensures
        s.run(spec_literals(cs)) == s.write_all(cs),
    decreases cs.len(),
{
    if cs.len() > 0 {
        assert(spec_literals(cs).drop_last() =~= spec_literals(cs.drop_last()));
        lemma_literals_are_written(s, cs.drop_last());
    }
}

/// Text without the marker is written as it stands.
pub proof fn lemma_plain_text_is_written(s: Console, cs: Seq<char>)
    requires
        forall|i: int| 0 <= i < cs.len() ==> cs[i] != MARKER,
    ensures
        s.run(spec_parse(cs, TokenForm::Name)) == s.write_all(cs),
{
    lemma_plain_text_is_literal(cs, TokenForm::Name);
    lemma_literals_are_written(s, cs);
}

/// A character that is drawn rather than moving the cursor.
pub open spec fn spec_drawn(c: char) -> bool {
    c != '\n' && c != '\r' && c != '\t'
}

/// A color, once selected, is the color of the next glyph: every byte of
/// the glyph's cell holds its channel of that color at the intensity of the
/// font's bitmap, and every byte outside the cell stays. Writing does not
/// change the color, so the same holds of every glyph that follows until
/// another color is selected.
pub proof fn lemma_selected_color_draws_glyph(s: Console, color: TextColor, c: char)
    requires
        s.wf(),
        spec_drawn(c),
    ensures
        ({
            let selected = s.apply(Directive::SetColor(ColorToken::Name(color)));
            let placed = selected.make_room();
            let after = selected.write_char(c);
            let bpp = s.info.bytes_per_pixel as int;
            let stride = s.info.stride as int;
            &&& after.color == color
            &&& after.buf.len() == s.buf.len()
            &&& forall|k: int|
                0 <= k < after.buf.len() ==> #[trigger] after.buf[k] == if placed.covers(
                    k / bpp,
                    CHAR_RASTER_HEIGHT as int,
                    0,
                    CHAR_RASTER_WIDTH as int,
                ) {
                    spec_resolve(
                        color,
                        spec_glyph(c)[(k / bpp) / stride - placed.y][(k / bpp) % stride - placed.x],
                        s.info.pixel_format,
                    )[k % bpp]
                } else {
                    placed.buf[k]
                }
        }),
{
    let selected = s.apply(Directive::SetColor(ColorToken::Name(color)));
    lemma_make_room(selected);
}

/// The bytes of one pixel row.
pub open spec fn spec_row_bytes(info: FrameBufferInfo) -> int {
    info.stride * info.bytes_per_pixel
}

/// Pixel row `r` of the surface.
pub open spec fn spec_pixel_row(buf: Seq<u8>, info: FrameBufferInfo, r: int) -> Seq<u8> {
    buf.subrange(r * spec_row_bytes(info), (r + 1) * spec_row_bytes(info))
}

/// `n` scrolls, one after another.
pub open spec fn spec_scrolls(s: Console, n: nat) -> Console
    decreases n,
{
    if n == 0 {
        s
    } else {
        spec_scrolls(s, (n - 1) as nat).scroll()
    }
}

/// The rows of a text line and of the surface, counted in pixel rows.
pub proof fn lemma_rows(info: FrameBufferInfo)
    by (nonlinear_arith)
    requires
        info.valid(),
        info.has_room(),
    ensures
        spec_row_bytes(info) >= 0,
        info.line_bytes() == LINE_HEIGHT * spec_row_bytes(info),
        info.screen_bytes() == info.height * spec_row_bytes(info),
{
}

/// Row `r` lies between its neighbours.
pub proof fn lemma_row_bounds(rb: int, r: int, n: int)
    by (nonlinear_arith)
    requires
        rb >= 0,
        0 <= r < n,
    ensures
        0 <= r * rb <= (r + 1) * rb <= n * rb,
        (r + 1) * rb == r * rb + rb,
{
}

/// Moving down by `d` rows is moving on by `d` times the bytes of a row.
pub proof fn lemma_row_offset(rb: int, r: int, d: int)
    by (nonlinear_arith)
    ensures
        (r + d) * rb == r * rb + d * rb,
{
}

/// Scrolling moves every pixel row up by one text line: the rows of the
/// top line are lost, the rows of the bottom line are blank, and the bytes
/// behind the rows of the surface are as they were.
pub proof fn lemma_scroll_shifts_rows(s: Console)
    requires
        s.wf(),
    ensures
        s.scroll().wf(),
        s.scroll().buf.len() == s.buf.len(),
        forall|r: int|
            0 <= r < s.info.height - LINE_HEIGHT ==> #[trigger] spec_pixel_row(
                s.scroll().buf,
                s.info,
                r,
            ) == spec_pixel_row(s.buf, s.info, r + LINE_HEIGHT),
        forall|r: int|
            s.info.height - LINE_HEIGHT <= r < s.info.height ==> #[trigger] spec_pixel_row(
                s.scroll().buf,
                s.info,
                r,
            ) == spec_zeros(spec_row_bytes(s.info)),
        forall|k: int|
            s.info.screen_bytes() <= k < s.buf.len() ==> s.scroll().buf[k] == s.buf[k],
{
    lemma_extents(s.info);
    lemma_rows(s.info);
    let rb = spec_row_bytes(s.info);
    let after = s.scroll().buf;
    assert forall|r: int| 0 <= r < s.info.height - LINE_HEIGHT implies #[trigger] spec_pixel_row(
        after,
        s.info,
        r,
    ) == spec_pixel_row(s.buf, s.info, r + LINE_HEIGHT) by {
        lemma_row_bounds(rb, r, s.info.height - LINE_HEIGHT);
        lemma_row_bounds(rb, r + LINE_HEIGHT, s.info.height as int);
        lemma_row_offset(rb, r, LINE_HEIGHT as int);
        lemma_row_offset(rb, s.info.height - LINE_HEIGHT, LINE_HEIGHT as int);
        assert(spec_pixel_row(after, s.info, r) =~= spec_pixel_row(s.buf, s.info, r + LINE_HEIGHT));
    }
    assert forall|r: int|
        s.info.height - LINE_HEIGHT <= r < s.info.height implies #[trigger] spec_pixel_row(
        after,
        s.info,
        r,
    ) == spec_zeros(rb) by {
        lemma_row_bounds(rb, r, s.info.height as int);
        lemma_row_bounds(rb, s.info.height - LINE_HEIGHT, r + 1);
        lemma_row_offset(rb, s.info.height - LINE_HEIGHT, LINE_HEIGHT as int);
        assert(spec_pixel_row(after, s.info, r) =~= spec_zeros(rb));
    }
}

/// Each scroll discards one text line from the top: after `n` scrolls
/// every pixel row that is left has moved up by `n` text lines, the rows
/// below are blank, and the bytes behind the rows of the surface are as
/// they were.
pub proof fn lemma_scrolls_shift_one_line_each(s: Console, n: nat)
    requires
        s.wf(),
        n * LINE_HEIGHT <= s.info.height,
    ensures
        spec_scrolls(s, n).buf.len() == s.buf.len(),
        spec_scrolls(s, n).info == s.info,
        forall|r: int|
            0 <= r < s.info.height - n * LINE_HEIGHT ==> #[trigger] spec_pixel_row(
                spec_scrolls(s, n).buf,
                s.info,
                r,
            ) == spec_pixel_row(s.buf, s.info, r + n * LINE_HEIGHT),
        forall|r: int|
            s.info.height - n * LINE_HEIGHT <= r < s.info.height ==> #[trigger] spec_pixel_row(
                spec_scrolls(s, n).buf,
                s.info,
                r,
            ) == spec_zeros(spec_row_bytes(s.info)),
        forall|k: int|
            s.info.screen_bytes() <= k < s.buf.len() ==> spec_scrolls(s, n).buf[k] == s.buf[k],
        n > 0 ==> spec_scrolls(s, n).wf(),
    decreases n,
{
    if n == 0 {
        assert forall|r: int| 0 <= r < s.info.height implies #[trigger] spec_pixel_row(
            s.buf,
            s.info,
            r,
        ) == spec_pixel_row(s.buf, s.info, r + 0 * LINE_HEIGHT) by {}
    } else if n == 1 {
        lemma_scroll_shifts_rows(s);
        assert(spec_scrolls(s, 1) == spec_scrolls(s, 0).scroll());
    } else {
        let m = (n - 1) as nat;
        let before = spec_scrolls(s, m);
        lemma_scrolls_shift_one_line_each(s, m);
        lemma_scroll_shifts_rows(before);
        let after = spec_scrolls(s, n);
        assert(after == before.scroll());
        assert forall|r: int| 0 <= r < s.info.height - n * LINE_HEIGHT implies #[trigger] spec_pixel_row(
        after.buf, s.info, r) == spec_pixel_row(s.buf, s.info, r + n * LINE_HEIGHT) by {
            assert(spec_pixel_row(after.buf, s.info, r) == spec_pixel_row(
                before.buf,
                s.info,
                r + LINE_HEIGHT,
            ));
            assert(spec_pixel_row(before.buf, s.info, r + LINE_HEIGHT) == spec_pixel_row(
                s.buf,
                s.info,
                r + LINE_HEIGHT + m * LINE_HEIGHT,
            ));
        }
        assert forall|r: int|
            s.info.height - n * LINE_HEIGHT <= r < s.info.height implies #[trigger] spec_pixel_row(
            after.buf,
            s.info,
            r,
        ) == spec_zeros(spec_row_bytes(s.info)) by {
            if r < s.info.height - LINE_HEIGHT {
                assert(spec_pixel_row(after.buf, s.info, r) == spec_pixel_row(
                    before.buf,
                    s.info,
                    r + LINE_HEIGHT,
                ));
            }
        }
    }
}

} // verus!
