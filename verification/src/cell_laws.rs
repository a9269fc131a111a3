//! What holds of the cell console across calls.
use vstd::prelude::*;
use crate::escape::{spec_parse, ColorToken, Directive, TokenForm, MARKER};
use crate::escape_laws::{lemma_plain_text_is_literal, spec_literals};
use crate::text::spec_join;
use crate::cell::{
    spec_blank_row, spec_code, Screen, BLANK, DEFAULT_COLOR, ROW_BYTES, SCREEN_BYTES,
    SCREEN_HEIGHT, SCREEN_WIDTH,
};

verus! {

/// A character that is stored in a cell rather than moving the cursor.
pub open spec fn spec_printable(c: char) -> bool {
    c != '\n' && c != '\t'
}

/// Every character of `cs` is stored in a cell.
pub open spec fn spec_all_printable(cs: Seq<char>) -> bool {
    forall|i: int| 0 <= i < cs.len() ==> spec_printable(#[trigger] cs[i])
}

/// The surface after the characters of `cs` have been stored from byte
/// `offset` on, each with the attribute `color`.
pub open spec fn spec_store(cells: Seq<u8>, offset: int, cs: Seq<char>, color: u8) -> Seq<u8> {
    Seq::new(
        cells.len(),
        |k: int|
            if offset <= k < offset + 2 * cs.len() {
                if (k - offset) % 2 == 0 {
                    spec_code(cs[(k - offset) / 2])
                } else {
                    color
                }
            } else {
                cells[k]
            },
    )
}

/// The cursor stays on the screen: whatever is written to a well-formed
/// console, character by character, leaves it well-formed.
pub proof fn lemma_write_all_keeps_wf(s: Screen, cs: Seq<char>)
    requires
        s.wf(),
    ensures
        s.write_all(cs).wf(),
        s.write_all(cs).cells.len() == s.cells.len(),
    decreases cs.len(),
{
    if cs.len() > 0 {
        lemma_write_all_keeps_wf(s, cs.drop_last());
        lemma_write_char_keeps_wf(s.write_all(cs.drop_last()), cs.last());
    }
}

/// One character leaves a well-formed console well-formed.
pub proof fn lemma_write_char_keeps_wf(s: Screen, c: char)
    requires
        s.wf(),
    ensures
        s.write_char(c).wf(),
        s.write_char(c).cells.len() == s.cells.len(),
{
}

/// Writing one text after another is writing their concatenation.
pub proof fn lemma_write_all_concat(s: Screen, a: Seq<char>, b: Seq<char>)
    ensures
        s.write_all(a + b) == s.write_all(a).write_all(b),
    decreases b.len(),
{
    if b.len() == 0 {
        assert(a + b =~= a);
    } else {
        assert((a + b).drop_last() =~= a + b.drop_last());
        assert((a + b).last() == b.last());
        lemma_write_all_concat(s, a, b.drop_last());
    }
}

/// The attribute changes only when it is set: writing characters keeps it.
pub proof fn lemma_write_all_keeps_color(s: Screen, cs: Seq<char>)
    ensures
        s.write_all(cs).color == s.color,
    decreases cs.len(),
{
    if cs.len() > 0 {
        lemma_write_all_keeps_color(s, cs.drop_last());
    }
}

/// Printable characters that end before the last column are stored side by
/// side from the cursor on, in the current attribute; nothing else changes
/// and the cursor stops behind them.
pub proof fn lemma_run_is_stored(s: Screen, cs: Seq<char>)
    requires
        s.wf(),
        spec_all_printable(cs),
        s.x + cs.len() < SCREEN_WIDTH,
    ensures
        s.write_all(cs) == (Screen {
            cells: spec_store(s.cells, s.offset(), cs, s.color),
            x: s.x + cs.len(),
            ..s
        }),
    decreases cs.len(),
{
    if cs.len() == 0 {
        assert(spec_store(s.cells, s.offset(), cs, s.color) =~= s.cells);
    } else {
        let head = cs.drop_last();
        lemma_run_is_stored(s, head);
        let mid = s.write_all(head);
        assert(spec_printable(cs.last()));
        assert(mid.write_char(cs.last()).cells =~= spec_store(s.cells, s.offset(), cs, s.color));
    }
}

/// Printable characters that fill the row to its end wrap exactly once:
/// they are stored side by side, and then the console is on a new line.
pub proof fn lemma_row_end_wraps_once(s: Screen, cs: Seq<char>)
    requires
        s.wf(),
        spec_all_printable(cs),
        s.x + cs.len() == SCREEN_WIDTH,
    ensures
        s.write_all(cs) == (Screen {
            cells: spec_store(s.cells, s.offset(), cs, s.color),
            ..s
        }).newline(),
{
    let head = cs.drop_last();
    assert(spec_all_printable(head));
    lemma_run_is_stored(s, head);
    let mid = s.write_all(head);
    assert(spec_printable(cs.last()));
    let stored = Screen {
        cells: mid.cells.update(mid.offset(), spec_code(cs.last())).update(
            mid.offset() + 1,
            mid.color,
        ),
        ..mid
    };
    assert(stored.cells =~= spec_store(s.cells, s.offset(), cs, s.color));
}

/// A full row of printable characters written from the left margin ends
/// with the cursor at the left margin, one row further down, or on the last
/// row of a scrolled screen if there is no row further down.
pub proof fn lemma_full_row_wraps_once(s: Screen, cs: Seq<char>)
    requires
        s.wf(),
        s.x == 0,
        cs.len() == SCREEN_WIDTH,
        spec_all_printable(cs),
    ensures
        s.write_all(cs).x == 0,
        s.y + 1 < SCREEN_HEIGHT ==> s.write_all(cs).y == s.y + 1 && s.write_all(cs).cells
            == spec_store(s.cells, s.offset(), cs, s.color),
        s.y + 1 == SCREEN_HEIGHT ==> s.write_all(cs).y == s.y && s.write_all(cs).cells == (Screen {
            cells: spec_store(s.cells, s.offset(), cs, s.color),
            ..s
        }).scroll_up().cells,
{
    lemma_row_end_wraps_once(s, cs);
}

/// Row `r` of the grid.
pub open spec fn spec_row(cells: Seq<u8>, r: int) -> Seq<u8> {
    cells.subrange(r * ROW_BYTES, (r + 1) * ROW_BYTES)
}

/// `n` line breaks, one after another.
pub open spec fn spec_newlines(s: Screen, n: nat) -> Screen
    decreases n,
{
    if n == 0 {
        s
    } else {
        spec_newlines(s, (n - 1) as nat).newline()
    }
}

/// Scrolling moves every row but the first up by one, blanks the last row
/// and leaves the bytes behind the grid alone.
pub proof fn lemma_scroll_shifts_rows(s: Screen)
    requires
        s.wf(),
    ensures
        s.scroll_up().wf(),
        s.scroll_up().cells.len() == s.cells.len(),
        forall|r: int|
            0 <= r < SCREEN_HEIGHT - 1 ==> #[trigger] spec_row(s.scroll_up().cells, r) == spec_row(
                s.cells,
                r + 1,
            ),
        spec_row(s.scroll_up().cells, SCREEN_HEIGHT - 1) == spec_blank_row(),
        forall|k: int| SCREEN_BYTES <= k < s.cells.len() ==> s.scroll_up().cells[k] == s.cells[k],
{
    let after = s.scroll_up().cells;
    assert forall|r: int| 0 <= r < SCREEN_HEIGHT - 1 implies #[trigger] spec_row(after, r)
        == spec_row(s.cells, r + 1) by {
        assert(spec_row(after, r) =~= spec_row(s.cells, r + 1));
    }
    assert(spec_row(after, SCREEN_HEIGHT - 1) =~= spec_blank_row());
}

/// Line breaks on the last row discard one row from the top each: after
/// `n` of them every row that is left has moved up by `n`, the `n` rows
/// below are blank, and the bytes behind the grid are as they were.
pub proof fn lemma_overflow_shifts_one_row_per_line(s: Screen, n: nat)
    requires
        s.wf(),
        s.y == SCREEN_HEIGHT - 1,
        n <= SCREEN_HEIGHT,
    ensures
        spec_newlines(s, n).wf(),
        spec_newlines(s, n).y == SCREEN_HEIGHT - 1,
        spec_newlines(s, n).cells.len() == s.cells.len(),
        forall|r: int|
            0 <= r < SCREEN_HEIGHT - n ==> #[trigger] spec_row(spec_newlines(s, n).cells, r)
                == spec_row(s.cells, r + n),
        forall|r: int|
            SCREEN_HEIGHT - n <= r < SCREEN_HEIGHT ==> #[trigger] spec_row(
                spec_newlines(s, n).cells,
                r,
            ) == spec_blank_row(),
        forall|k: int|
            SCREEN_BYTES <= k < s.cells.len() ==> spec_newlines(s, n).cells[k] == s.cells[k],
    decreases n,
{
    if n > 0 {
        let before = spec_newlines(s, (n - 1) as nat);
        lemma_overflow_shifts_one_row_per_line(s, (n - 1) as nat);
        lemma_scroll_shifts_rows(before);
        let after = spec_newlines(s, n);
        assert(after.cells == before.scroll_up().cells);
        assert forall|r: int| 0 <= r < SCREEN_HEIGHT - n implies #[trigger] spec_row(after.cells, r)
            == spec_row(s.cells, r + n) by {
            assert(spec_row(after.cells, r) == spec_row(before.cells, r + 1));
            assert(spec_row(before.cells, r + 1) == spec_row(s.cells, r + 1 + (n - 1)));
        }
        assert forall|r: int| SCREEN_HEIGHT - n <= r < SCREEN_HEIGHT implies #[trigger] spec_row(
            after.cells,
            r,
        ) == spec_blank_row() by {
            if r < SCREEN_HEIGHT - 1 {
                assert(spec_row(after.cells, r) == spec_row(before.cells, r + 1));
            }
        }
    }
}

/// Every line is printable and shorter than a row.
pub open spec fn spec_lines_fit(lines: Seq<Seq<char>>) -> bool {
    forall|i: int|
        0 <= i < lines.len() ==> (#[trigger] lines[i]).len() < SCREEN_WIDTH && spec_all_printable(
            lines[i],
        )
}

/// Every cell of the grid is blank.
pub open spec fn spec_blank(cells: Seq<u8>) -> bool {
    forall|k: int|
        0 <= k < SCREEN_BYTES ==> #[trigger] cells[k] == if k % 2 == 0 {
            BLANK
        } else {
            DEFAULT_COLOR
        }
}

/// The number of rows that `n` lines take up.
pub open spec fn spec_shown(n: int) -> int {
    if n < SCREEN_HEIGHT {
        n
    } else {
        SCREEN_HEIGHT as int
    }
}

/// A screen that shows the last lines of `lines`, as many as there are
/// rows, from the top row down and each from the left margin, in the
/// attribute `color`; every other cell is blank, and the bytes behind the
/// grid are those of `base`.
pub open spec fn spec_page(lines: Seq<Seq<char>>, color: u8, base: Seq<u8>) -> Seq<u8> {
    let shown = spec_shown(lines.len() as int);
    Seq::new(
        base.len(),
        |k: int|
            if k < SCREEN_BYTES {
                let r = k / (ROW_BYTES as int);
                let col = (k % (ROW_BYTES as int)) / 2;
                let line = lines[lines.len() - shown + r];
                if r < shown && col < line.len() {
                    if k % 2 == 0 {
                        spec_code(line[col])
                    } else {
                        color
                    }
                } else {
                    if k % 2 == 0 {
                        BLANK
                    } else {
                        DEFAULT_COLOR
                    }
                }
            } else {
                base[k]
            },
    )
}

/// Lines written to a blank screen from its top left cell show as a page:
/// the screen holds the last lines, as many as there are rows, and the
/// cursor stands behind the last of them.
pub proof fn lemma_lines_show_as_page(s: Screen, lines: Seq<Seq<char>>)
    requires
        s.wf(),
        s.x == 0,
        s.y == 0,
        spec_blank(s.cells),
        lines.len() >= 1,
        spec_lines_fit(lines),
    ensures
        s.write_all(spec_join(lines)) == (Screen {
            cells: spec_page(lines, s.color, s.cells),
            x: lines.last().len() as int,
            y: spec_shown(lines.len() as int) - 1,
            color: s.color,
        }),
    decreases lines.len(),
{
    let n = lines.len() as int;
    let last = lines.last();
    let page = spec_page(lines, s.color, s.cells);
    if n == 1 {
        lemma_run_is_stored(s, last);
        assert(spec_store(s.cells, s.offset(), last, s.color) =~= page);
    } else {
        let prev = lines.drop_last();
        assert(spec_lines_fit(prev)) by {
            assert forall|i: int| 0 <= i < prev.len() implies (#[trigger] prev[i]).len()
                < SCREEN_WIDTH && spec_all_printable(prev[i]) by {
                assert(prev[i] == lines[i]);
            }
        }
        lemma_lines_show_as_page(s, prev);
        let shown_prev = s.write_all(spec_join(prev));
        let broken = shown_prev.newline();
        lemma_write_all_concat(s, spec_join(prev) + seq!['\n'], last);
        lemma_write_all_concat(s, spec_join(prev), seq!['\n']);
        assert(shown_prev.write_all(seq!['\n']) == broken) by {
            assert(seq!['\n'].drop_last() =~= Seq::<char>::empty());
            assert(shown_prev.write_all(Seq::<char>::empty()) == shown_prev);
        }
        assert(s.write_all(spec_join(lines)) == broken.write_all(last));
        lemma_run_is_stored(broken, last);
        let written = spec_store(broken.cells, broken.offset(), last, broken.color);
        assert forall|k: int| 0 <= k < page.len() implies written[k] == page[k] by {
            if k < SCREEN_BYTES {
                let r = k / (ROW_BYTES as int);
                if r < spec_shown(n) - 1 {
                    assert(prev[n - spec_shown(n) + r] == lines[n - spec_shown(n) + r]);
                }
            }
        }
        assert(written =~= page);
    }
}

/// Only the last screenful shows. Text of more lines than the screen has
/// rows leaves the screen, cursor included, as the last lines alone would
/// have left it, as many as there are rows: each line over the top has
/// scrolled one row away. In particular one full screen followed by one
/// more line shows what the lines from the second on show.
pub proof fn lemma_only_last_screenful_shows(s: Screen, lines: Seq<Seq<char>>)
    requires
        s.wf(),
        s.x == 0,
        s.y == 0,
        spec_blank(s.cells),
        lines.len() > SCREEN_HEIGHT,
        spec_lines_fit(lines),
    ensures
        s.write_all(spec_join(lines)) == s.write_all(
            spec_join(lines.skip(lines.len() - SCREEN_HEIGHT)),
        ),
{
    let tail = lines.skip(lines.len() - SCREEN_HEIGHT);
    assert(spec_lines_fit(tail)) by {
        assert forall|i: int| 0 <= i < tail.len() implies (#[trigger] tail[i]).len()
            < SCREEN_WIDTH && spec_all_printable(tail[i]) by {
            assert(tail[i] == lines[i + lines.len() - SCREEN_HEIGHT]);
        }
    }
    lemma_lines_show_as_page(s, lines);
    lemma_lines_show_as_page(s, tail);
    assert(spec_page(lines, s.color, s.cells) =~= spec_page(tail, s.color, s.cells));
}

/// Directives leave a well-formed console well-formed.
pub proof fn lemma_run_keeps_wf(s: Screen, ds: Seq<Directive>)
    requires
        s.wf(),
    ensures
        s.run(ds).wf(),
        s.run(ds).cells.len() == s.cells.len(),
    decreases ds.len(),
{
    if ds.len() > 0 {
        lemma_run_keeps_wf(s, ds.drop_last());
    }
}

/// Carrying out one sequence of directives after another is carrying out
/// their concatenation.
pub proof fn lemma_run_concat(s: Screen, a: Seq<Directive>, b: Seq<Directive>)
    ensures
        s.run(a + b) == s.run(a).run(b),
    decreases b.len(),
{
    if b.len() == 0 {
        assert(a + b =~= a);
    } else {
        assert((a + b).drop_last() =~= a + b.drop_last());
        assert((a + b).last() == b.last());
        lemma_run_concat(s, a, b.drop_last());
    }
}

/// The escapes for a line break and a tab do what the control characters
/// do: `\n` is a line feed and `\t` is a tab character.
pub proof fn lemma_escapes_are_control_characters(s: Screen)
    ensures
        s.apply(Directive::Newline) == s.write_char('\n'),
        s.apply(Directive::Tab) == s.write_char('\t'),
{
}

/// Literals are written as the characters they stand for.
pub proof fn lemma_literals_are_written(s: Screen, cs: Seq<char>)
    ensures
        s.run(spec_literals(cs)) == s.write_all(cs),
    decreases cs.len(),
{
    if cs.len() > 0 {
        assert(spec_literals(cs).drop_last() =~= spec_literals(cs.drop_last()));
        lemma_literals_are_written(s, cs.drop_last());
    }
}

/// Text without the marker is written as it stands.
pub proof fn lemma_plain_text_is_written(s: Screen, cs: Seq<char>)
    requires
        forall|i: int| 0 <= i < cs.len() ==> cs[i] != MARKER,
    ensures
        s.run(spec_parse(cs, TokenForm::HexDigit)) == s.write_all(cs),
{
    lemma_plain_text_is_literal(cs, TokenForm::HexDigit);
    lemma_literals_are_written(s, cs);
}

/// A palette index, once selected, is the attribute of every character
/// stored after it, until another one is selected.
pub proof fn lemma_selected_attribute_is_stored(s: Screen, index: u8, cs: Seq<char>)
    requires
        s.wf(),
        spec_all_printable(cs),
        s.x + cs.len() < SCREEN_WIDTH,
    ensures
        s.apply(Directive::SetColor(ColorToken::Index(index))).write_all(cs).color == index,
        forall|i: int|
            0 <= i < cs.len() ==> {
                let after = s.apply(Directive::SetColor(ColorToken::Index(index))).write_all(cs);
                &&& after.cells[s.offset() + 2 * i] == spec_code(#[trigger] cs[i])
                &&& after.cells[s.offset() + 2 * i + 1] == index
            },
{
    let t = s.apply(Directive::SetColor(ColorToken::Index(index)));
    lemma_run_is_stored(t, cs);
}

} // verus!
