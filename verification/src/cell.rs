//! The console over a character-cell surface.
//!
//! The surface is a grid of 80 by 25 cells, two bytes each: the character
//! code, then the color attribute. The writer borrows the byte region for
//! its whole life and is the only one to touch it.
use vstd::prelude::*;
use crate::escape::{parse, spec_parse, ColorToken, Directive, TokenForm};
use crate::sink::read_back;
use crate::text::chars_of;

verus! {

/// Cells in one row.
pub const SCREEN_WIDTH: usize = 80;

/// Rows on the screen.
pub const SCREEN_HEIGHT: usize = 25;

/// Cells between two tab stops.
pub const TAB_STRIDE: usize = 4;

/// Bytes of one row: a character code and an attribute for every cell.
pub const ROW_BYTES: usize = 160;

/// Bytes of the whole grid.
pub const SCREEN_BYTES: usize = 4000;

/// The attribute of a writer that was never told a color, and of blank cells.
pub const DEFAULT_COLOR: u8 = 0x07;

/// The character code of a blank cell.
pub const BLANK: u8 = 0x20;

/// The console as a mathematical value: the bytes of the surface, the cursor
/// and the current attribute.
pub struct Screen {
    pub cells: Seq<u8>,
    pub x: int,
    pub y: int,
    pub color: u8,
}

/// The byte that a character is stored as: the low eight bits of its code.
pub open spec fn spec_code(c: char) -> u8 {
    (c as u32 % 256) as u8
}

/// One row of blank cells.
pub open spec fn spec_blank_row() -> Seq<u8> {
    Seq::new(
        ROW_BYTES as nat,
        |i: int|
            if i % 2 == 0 {
                BLANK
            } else {
                DEFAULT_COLOR
            },
    )
}

/// The next tab stop after column `x`.
pub open spec fn spec_tab_stop(x: int) -> int {
    (x / (TAB_STRIDE as int) + 1) * (TAB_STRIDE as int)
}

impl Screen {
    /// The surface covers the grid and the cursor is on it.
    pub open spec fn wf(self) -> bool {
        &&& self.cells.len() >= SCREEN_BYTES
        &&& 0 <= self.x < SCREEN_WIDTH
        &&& 0 <= self.y < SCREEN_HEIGHT
    }

    /// The offset of the cell under the cursor.
    pub open spec fn offset(self) -> int {
        2 * (self.y * (SCREEN_WIDTH as int) + self.x)
    }

    /// Every row moves up by one, the top row is lost, the bottom row is
    /// blank and the cursor stands on it. Bytes past the grid stay.
    pub open spec fn scroll_up(self) -> Screen {
        Screen {
            cells: self.cells.subrange(ROW_BYTES as int, SCREEN_BYTES as int) + spec_blank_row()
                + self.cells.subrange(SCREEN_BYTES as int, self.cells.len() as int),
            y: SCREEN_HEIGHT - 1,
            ..self
        }
    }

    /// The cursor moves to the start of the next row; past the last row the
    /// screen scrolls instead.
    pub open spec fn newline(self) -> Screen {
        if self.y + 1 >= SCREEN_HEIGHT {
            Screen { x: 0, ..self.scroll_up() }
        } else {
            Screen { x: 0, y: self.y + 1, ..self }
        }
    }

    /// The cursor moves to the next tab stop, or to a new line when that
    /// stop is not on the row. No cell changes.
    pub open spec fn tab(self) -> Screen {
        if spec_tab_stop(self.x) >= SCREEN_WIDTH {
            self.newline()
        } else {
            Screen { x: spec_tab_stop(self.x), ..self }
        }
    }

    /// The cell under the cursor takes the character and the current
    /// attribute; the cursor moves one cell on and wraps at the end of the row.
    pub open spec fn put(self, c: char) -> Screen {
        let stored = Screen {
            cells: self.cells.update(self.offset(), spec_code(c)).update(
                self.offset() + 1,
                self.color,
            ),
            ..self
        };
        if self.x + 1 >= SCREEN_WIDTH {
            stored.newline()
        } else {
            Screen { x: self.x + 1, ..stored }
        }
    }

    /// One character: a line feed and a tab move the cursor, every other
    /// character is stored.
    pub open spec fn write_char(self, c: char) -> Screen {
        if c == '\n' {
            self.newline()
        } else if c == '\t' {
            self.tab()
        } else {
            self.put(c)
        }
    }

    /// The cursor at the cell nearest to `(x, y)`.
    pub open spec fn set_cursor(self, x: int, y: int) -> Screen {
        Screen {
            x: if x < SCREEN_WIDTH {
                x
            } else {
                SCREEN_WIDTH - 1
            },
            y: if y < SCREEN_HEIGHT {
                y
            } else {
                SCREEN_HEIGHT - 1
            },
            ..self
        }
    }

    /// One directive. A color given by name is none that this surface
    /// knows: it changes nothing.
    pub open spec fn apply(self, d: Directive) -> Screen {
        match d {
            Directive::Literal(c) => self.write_char(c),
            Directive::Newline => self.newline(),
            Directive::Tab => self.tab(),
            Directive::SetColor(ColorToken::Index(index)) => Screen { color: index, ..self },
            Directive::SetColor(ColorToken::Name(_)) => self,
        }
    }

    /// The characters of `cs`, written one after another.
    pub open spec fn write_all(self, cs: Seq<char>) -> Screen
        decreases cs.len(),
    {
        if cs.len() == 0 {
            self
        } else {
            self.write_all(cs.drop_last()).write_char(cs.last())
        }
    }

    /// The directives of `ds`, applied one after another.
    pub open spec fn run(self, ds: Seq<Directive>) -> Screen
        decreases ds.len(),
    {
        if ds.len() == 0 {
            self
        } else {
            self.run(ds.drop_last()).apply(ds.last())
        }
    }
}

/// A writer of text onto a character-cell surface.
pub struct FrameBufferWriter<'a> {
    buffer: &'a mut [u8],
    cursor_x: usize,
    cursor_y: usize,
    color: u8,
}

impl<'a> FrameBufferWriter<'a> {
    /// The console that this writer holds.
    pub closed spec fn view(&self) -> Screen {
        Screen {
            cells: self.buffer@,
            x: self.cursor_x as int,
            y: self.cursor_y as int,
            color: self.color,
        }
    }

    /// Takes the surface over. The cursor starts in the top left cell and
    /// the surface keeps what it shows.
    pub fn new(buffer: &'a mut [u8]) -> (writer: Self)
        requires
            old(buffer)@.len() >= SCREEN_BYTES,
        ensures
            writer@ == (Screen { cells: old(buffer)@, x: 0, y: 0, color: DEFAULT_COLOR }),
            writer@.wf(),
    {
        FrameBufferWriter { buffer, cursor_x: 0, cursor_y: 0, color: DEFAULT_COLOR }
    }

    /// The cursor's column.
    pub fn cursor_x(&self) -> (x: usize)
        ensures
            x == self@.x,
    {
        self.cursor_x
    }

    /// The cursor's row.
    pub fn cursor_y(&self) -> (y: usize)
        ensures
            y == self@.y,
    {
        self.cursor_y
    }

    /// The attribute that the next character is stored with.
    pub fn color(&self) -> (color: u8)
        ensures
            color == self@.color,
    {
        self.color
    }

    /// The bytes of the surface.
    pub fn buffer(&self) -> (bytes: &[u8])
        ensures
            bytes@ == self@.cells,
    {
        &*self.buffer
    }

    /// Moves the cursor to `(x, y)`, or to the nearest cell on the screen.
    pub fn set_cursor(&mut self, x: usize, y: usize)
        requires
            old(self)@.wf(),
        ensures
            final(self)@ == old(self)@.set_cursor(x as int, y as int),
            final(self)@.wf(),
    {
        self.cursor_x = if x < SCREEN_WIDTH {
            x
        } else {
            SCREEN_WIDTH - 1
        };
        self.cursor_y = if y < SCREEN_HEIGHT {
            y
        } else {
            SCREEN_HEIGHT - 1
        };
    }

    /// Selects the attribute for the characters that follow.
    pub fn set_color(&mut self, color: u8)
        ensures
            final(self)@ == (Screen { color, ..old(self)@ }),
    {
        self.color = color;
    }

    /// Shifts every row up by one and blanks the bottom row.
    pub fn scroll_up(&mut self)
        requires
            old(self)@.wf(),
        ensures
            final(self)@ == old(self)@.scroll_up(),
            final(self)@.wf(),
    {
        let ghost before = self.buffer@;
        let mut i: usize = 0;
        while i < SCREEN_BYTES - ROW_BYTES
            invariant
                i <= SCREEN_BYTES - ROW_BYTES,
                self.buffer@.len() == before.len(),
                before.len() >= SCREEN_BYTES,
                forall|k: int| 0 <= k < i ==> self.buffer@[k] == before[k + ROW_BYTES],
                forall|k: int| i <= k < before.len() ==> self.buffer@[k] == before[k],
                self.cursor_x == old(self).cursor_x,
                self.cursor_y == old(self).cursor_y,
                self.color == old(self).color,
            decreases SCREEN_BYTES - ROW_BYTES - i,
        {
            let b: u8 = self.buffer[i + ROW_BYTES];
            self.buffer[i] = b;
            i = i + 1;
        }
        while i < SCREEN_BYTES
            invariant
                SCREEN_BYTES - ROW_BYTES <= i <= SCREEN_BYTES,
                i % 2 == 0,
                self.buffer@.len() == before.len(),
                before.len() >= SCREEN_BYTES,
                forall|k: int|
                    0 <= k < SCREEN_BYTES - ROW_BYTES ==> self.buffer@[k] == before[k + ROW_BYTES],
                forall|k: int|
                    SCREEN_BYTES - ROW_BYTES <= k < i ==> self.buffer@[k] == spec_blank_row()[k - (
                    SCREEN_BYTES - ROW_BYTES)],
                forall|k: int| SCREEN_BYTES <= k < before.len() ==> self.buffer@[k] == before[k],
                self.cursor_x == old(self).cursor_x,
                self.cursor_y == old(self).cursor_y,
                self.color == old(self).color,
            decreases SCREEN_BYTES - i,
        {
            self.buffer[i] = BLANK;
            self.buffer[i + 1] = DEFAULT_COLOR;
            i = i + 2;
        }
        self.cursor_y = SCREEN_HEIGHT - 1;
        assert(self.buffer@ =~= old(self)@.scroll_up().cells);
    }

    /// Advances to a new line.
    pub fn newline(&mut self)
        requires
            old(self)@.wf(),
        ensures
            final(self)@ == old(self)@.newline(),
            final(self)@.wf(),
    {
        self.cursor_x = 0;
        if self.cursor_y + 1 >= SCREEN_HEIGHT {
            self.scroll_up();
        } else {
            self.cursor_y = self.cursor_y + 1;
        }
    }

    /// Moves to the next tab stop.
    pub fn write_tab(&mut self)
        requires
            old(self)@.wf(),
        ensures
            final(self)@ == old(self)@.tab(),
            final(self)@.wf(),
    {
        let stop: usize = (self.cursor_x / TAB_STRIDE + 1) * TAB_STRIDE;
        if stop >= SCREEN_WIDTH {
            self.newline();
        } else {
            self.cursor_x = stop;
        }
    }

    /// Writes a single character at the cursor.
    pub fn write_char(&mut self, c: char)
        requires
            old(self)@.wf(),
        ensures
            final(self)@ == old(self)@.write_char(c),
            final(self)@.wf(),
    {
        if c == '\n' {
            self.newline();
        } else if c == '\t' {
            self.write_tab();
        } else {
            let offset: usize = 2 * (self.cursor_y * SCREEN_WIDTH + self.cursor_x);
            let code: u8 = ((c as u32) % 256) as u8;
            self.buffer[offset] = code;
            self.buffer[offset + 1] = self.color;
            let _seen: u8 = read_back(&*self.buffer, offset);
            if self.cursor_x + 1 >= SCREEN_WIDTH {
                self.newline();
            } else {
                self.cursor_x = self.cursor_x + 1;
            }
        }
    }

    /// Carries out one directive.
    pub fn apply(&mut self, d: Directive)
        requires
            old(self)@.wf(),
        ensures
            final(self)@ == old(self)@.apply(d),
            final(self)@.wf(),
    {
        match d {
            Directive::Literal(c) => self.write_char(c),
            Directive::Newline => self.newline(),
            Directive::Tab => self.write_tab(),
            Directive::SetColor(ColorToken::Index(index)) => self.set_color(index),
            Directive::SetColor(ColorToken::Name(_)) => {},
        }
    }

    /// Writes text that may carry escapes: `\n`, `\t`, and `\c` followed by
    /// one hexadecimal digit that selects the attribute.
    pub fn write_string(&mut self, s: &str)
        requires
            old(self)@.wf(),
        ensures
            final(self)@ == old(self)@.run(spec_parse(s@, TokenForm::HexDigit)),
            final(self)@.wf(),
    {
        let chars = chars_of(s);
        let directives = parse(chars.as_slice(), TokenForm::HexDigit);
        let mut i: usize = 0;
        while i < directives.len()
            invariant
                i <= directives@.len(),
                self@.wf(),
                self@ == old(self)@.run(directives@.take(i as int)),
            decreases directives@.len() - i,
        {
            assert(directives@.take(i + 1).drop_last() =~= directives@.take(i as int));
            self.apply(directives[i]);
            i = i + 1;
        }
        assert(directives@.take(i as int) =~= directives@);
    }
}

} // verus!
