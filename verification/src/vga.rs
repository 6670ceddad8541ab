//! VGA text writer modeled over an owned cell buffer: cursor
//! movement, line wrap, scrolling and clearing, byte for byte. Each
//! cell is a character byte followed by a color byte. The
//! memory-mapped hardware buffer and the serial port live outside
//! this crate; this module is the screen arithmetic they obey.

use vstd::prelude::*;
use vstd::string::StrSliceExecFns;

verus! {

/// Rows on the screen.
pub const BUFFER_HEIGHT: usize = 25;

/// Columns per row.
pub const BUFFER_WIDTH: usize = 80;

/// Bytes per row: a character byte and a color byte per cell.
pub const ROW_BYTES: usize = 160;

/// Bytes in the whole cell buffer.
pub const BUFFER_BYTES: usize = 4000;

/// The character byte of an empty cell.
pub const BLANK: u8 = 32;

/// The ghost mirror of the writer: cursor position, color, and the
/// cell bytes.
pub struct Screen {
    pub column: int,
    pub row: int,
    pub color: u8,
    pub cells: Seq<u8>,
}

/// A screen state that the writer can be in: full buffer, cursor in
/// range (the column may rest one past the last cell until the next
/// character wraps it).
pub open spec fn screen_wf(s: Screen) -> bool {
    &&& s.cells.len() == BUFFER_BYTES
    &&& 0 <= s.row < BUFFER_HEIGHT
    &&& 0 <= s.column <= BUFFER_WIDTH
}

/// The cells after scrolling one row up: every row moves up, the
/// bottom row becomes blanks in `color`.
pub open spec fn scrolled(cells: Seq<u8>, color: u8) -> Seq<u8> {
    Seq::new(
        BUFFER_BYTES as nat,
        |i: int|
            if i < BUFFER_BYTES - ROW_BYTES {
                cells[i + ROW_BYTES]
            } else if i % 2 == 0 {
                BLANK
            } else {
                color
            },
    )
}

/// All-blank cells in `color`.
pub open spec fn blank_cells(color: u8) -> Seq<u8> {
    Seq::new(
        BUFFER_BYTES as nat,
        |i: int|
            if i % 2 == 0 {
                BLANK
            } else {
                color
            },
    )
}

/// What ending the line does: carriage return plus either a step down
/// or, on the last row, a scroll.
pub open spec fn new_line_spec(s: Screen) -> Screen {
    if s.row + 1 < BUFFER_HEIGHT {
        Screen { column: 0, row: s.row + 1, ..s }
    } else {
        Screen { column: 0, cells: scrolled(s.cells, s.color), ..s }
    }
}

/// The character byte written for `c`: its code point's low byte.
pub open spec fn char_byte(c: char) -> u8 {
    ((c as u32) % 256) as u8
}

/// What one character does to the screen: newline and carriage
/// return move the cursor; anything else is written at the cursor
/// (wrapping first when the row is full) and advances it.
pub open spec fn put_char_spec(s: Screen, c: char) -> Screen {
    if c == '\n' {
        new_line_spec(s)
    } else if c == '\r' {
        Screen { column: 0, ..s }
    } else {
        let s1 = if s.column >= BUFFER_WIDTH {
            new_line_spec(s)
        } else {
            s
        };
        let off = 2 * (s1.row * BUFFER_WIDTH + s1.column);
        Screen {
            column: s1.column + 1,
            cells: s1.cells.update(off, char_byte(c)).update(off + 1, s1.color),
            ..s1
        }
    }
}

/// What a whole string does: its characters, one after the other.
pub open spec fn write_str_spec(s: Screen, cs: Seq<char>) -> Screen
    decreases cs.len(),
{
    if cs.len() == 0 {
        s
    } else {
        write_str_spec(put_char_spec(s, cs[0]), cs.drop_first())
    }
}

/// The text writer: cursor, color, and the owned cell buffer.
pub struct VgaWriter {
    column: usize,
    row: usize,
    color: u8,
    buffer: Vec<u8>,
}

impl VgaWriter {
    /// The writer's screen state.
    pub closed spec fn screen(self) -> Screen {
        Screen {
            column: self.column as int,
            row: self.row as int,
            color: self.color,
            cells: self.buffer@,
        }
    }

    pub open spec fn wf(self) -> bool {
        screen_wf(self.screen())
    }

    /// A writer over a blank screen, cursor at the top left, in the
    /// standard white-on-black color.
    pub fn new() -> (r: Self)
        ensures
            r.wf(),
            r.screen().column == 0,
            r.screen().row == 0,
            r.screen().color == 0x0f,
            r.screen().cells == blank_cells(0x0f),
    {
        let mut buffer: Vec<u8> = Vec::new();
        while buffer.len() < BUFFER_BYTES
            invariant
                buffer@.len() <= BUFFER_BYTES,
                buffer@.len() % 2 == 0,
                forall|i: int|
                    0 <= i < buffer@.len() ==> buffer@[i] == (if i % 2 == 0 {
                        BLANK
                    } else {
                        0x0fu8
                    }),
            decreases BUFFER_BYTES - buffer@.len(),
        {
            buffer.push(BLANK);
            buffer.push(0x0f);
        }
        let r = Self { column: 0, row: 0, color: 0x0f, buffer };
        proof {
            assert(r.screen().cells =~= blank_cells(0x0f));
        }
        r
    }

    /// End the current line: step the cursor down, scrolling the
    /// screen one row when it is already on the bottom row.
    pub fn new_line(&mut self)
        requires
            old(self).wf(),
        ensures
            final(self).wf(),
            final(self).screen() == new_line_spec(old(self).screen()),
    {
        if self.row + 1 < BUFFER_HEIGHT {
            self.row = self.row + 1;
            self.column = 0;
            return ;
        }
        let mut idx: usize = 0;
        while idx < BUFFER_BYTES - ROW_BYTES
            invariant
                idx <= BUFFER_BYTES - ROW_BYTES,
                self.buffer@.len() == BUFFER_BYTES,
                self.row == old(self).row,
                self.column == old(self).column,
                self.color == old(self).color,
                forall|j: int| 0 <= j < idx ==> self.buffer@[j] == old(self).buffer@[j + ROW_BYTES],
                forall|j: int|
                    idx <= j < BUFFER_BYTES ==> self.buffer@[j] == old(self).buffer@[j],
            decreases BUFFER_BYTES - ROW_BYTES - idx,
        {
            let v = self.buffer[idx + ROW_BYTES];
            self.buffer.set(idx, v);
            idx = idx + 1;
        }
        let base = BUFFER_BYTES - ROW_BYTES;
        let mut k: usize = 0;
        while k < BUFFER_WIDTH
            invariant
                k <= BUFFER_WIDTH,
                self.buffer@.len() == BUFFER_BYTES,
                self.row == old(self).row,
                self.column == old(self).column,
                self.color == old(self).color,
                forall|j: int| 0 <= j < base ==> self.buffer@[j] == old(self).buffer@[j + ROW_BYTES],
                forall|j: int|
                    base <= j < base + 2 * k ==> self.buffer@[j] == (if (j - base) % 2 == 0 {
                        BLANK
                    } else {
                        old(self).color
                    }),
            decreases BUFFER_WIDTH - k,
        {
            self.buffer.set(base + 2 * k, BLANK);
            let color = self.color;
            self.buffer.set(base + 2 * k + 1, color);
            k = k + 1;
        }
        self.column = 0;
        proof {
            let pre = old(self).screen().cells;
            let color = old(self).color;
            assert forall|i: int| 0 <= i < BUFFER_BYTES implies self.buffer@[i] == scrolled(
                pre,
                color,
            )[i] by {
                if i >= base {
                    assert((i - base) % 2 == i % 2);
                }
            };
            assert(self.screen().cells =~= scrolled(pre, color));
        }
    }

    /// Write one character at the cursor: newline and carriage return
    /// move it; anything else lands in the current cell (wrapping the
    /// line first when full) as the character's low byte plus the
    /// current color, and the cursor steps right.
    pub fn put_char(&mut self, c: char)
        requires
            old(self).wf(),
        ensures
            final(self).wf(),
            final(self).screen() == put_char_spec(old(self).screen(), c),
    {
        if c == '\n' {
            self.new_line();
            return ;
        }
        if c == '\r' {
            self.column = 0;
            return ;
        }
        if self.column >= BUFFER_WIDTH {
            self.new_line();
        }
        let off = (self.row * BUFFER_WIDTH + self.column) * 2;
        let v = c as u32;
        let b = (v % 256) as u8;
        self.buffer.set(off, b);
        let color = self.color;
        self.buffer.set(off + 1, color);
        self.column = self.column + 1;
    }

    /// Write a string: its characters, one after the other.
    pub fn write_str(&mut self, s: &str)
        requires
            old(self).wf(),
        ensures
            final(self).wf(),
            final(self).screen() == write_str_spec(old(self).screen(), s@),
    {
        let n = s.unicode_len();
        let mut i: usize = 0;
        while i < n
            invariant
                i <= n,
                n == s@.len(),
                self.wf(),
                self.screen() == write_str_spec(old(self).screen(), s@.take(i as int)),
            decreases n - i,
        {
            let c = s.get_char(i);
            self.put_char(c);
            proof {
                assert(s@.take(i as int).push(s@[i as int]) =~= s@.take(i as int + 1));
                lemma_write_str_push(old(self).screen(), s@.take(i as int), s@[i as int]);
            }
            i = i + 1;
        }
        proof {
            assert(s@.take(n as int) =~= s@);
        }
    }

    /// The cursor position as (row, column).
    pub fn cursor(&self) -> (r: (usize, usize))
        ensures
            r.0 == self.screen().row,
            r.1 == self.screen().column,
    {
        (self.row, self.column)
    }

    /// The cell at (row, column) as (character byte, color byte).
    pub fn cell(&self, row: usize, col: usize) -> (r: (u8, u8))
        requires
            self.wf(),
            row < BUFFER_HEIGHT,
            col < BUFFER_WIDTH,
        ensures
            r.0 == self.screen().cells[2 * (row * BUFFER_WIDTH + col)],
            r.1 == self.screen().cells[2 * (row * BUFFER_WIDTH + col) + 1],
    {
        let off = (row * BUFFER_WIDTH + col) * 2;
        (self.buffer[off], self.buffer[off + 1])
    }

    /// Blank every cell in the current color and put the cursor at
    /// the top left.
    pub fn clear_screen(&mut self)
        requires
            old(self).wf(),
        ensures
            final(self).wf(),
            final(self).screen() == (Screen {
                column: 0,
                row: 0,
                color: old(self).screen().color,
                cells: blank_cells(old(self).screen().color),
            }),
    {
        let mut k: usize = 0;
        while k < BUFFER_BYTES / 2
            invariant
                k <= BUFFER_BYTES / 2,
                self.buffer@.len() == BUFFER_BYTES,
                self.color == old(self).color,
                forall|j: int|
                    0 <= j < 2 * k ==> self.buffer@[j] == (if j % 2 == 0 {
                        BLANK
                    } else {
                        old(self).color
                    }),
            decreases BUFFER_BYTES / 2 - k,
        {
            self.buffer.set(2 * k, BLANK);
            let color = self.color;
            self.buffer.set(2 * k + 1, color);
            k = k + 1;
        }
        self.row = 0;
        self.column = 0;
        proof {
            let color = old(self).color;
            assert forall|i: int| 0 <= i < BUFFER_BYTES implies self.buffer@[i] == blank_cells(
                color,
            )[i] by {
            };
            assert(self.screen().cells =~= blank_cells(color));
        }
    }
}

/// The screen half of line printing: write the text, then end the
/// line. Its serial mirror is plain port output, outside this crate.
pub fn vprintln_impl(w: &mut VgaWriter, s: &str)
    requires
        old(w).wf(),
    ensures
        final(w).wf(),
        final(w).screen() == put_char_spec(write_str_spec(old(w).screen(), s@), '\n'),
{
    w.write_str(s);
    w.put_char('\n');
}

/// Writing one more character after a string equals writing the
/// extended string.
proof fn lemma_write_str_push(st: Screen, cs: Seq<char>, c: char)
    ensures
        write_str_spec(st, cs.push(c)) == put_char_spec(write_str_spec(st, cs), c),
    decreases cs.len(),
{
    if cs.len() == 0 {
        assert(cs.push(c)[0] == c);
        assert(cs.push(c).drop_first() =~= Seq::<char>::empty());
        assert(write_str_spec(put_char_spec(st, c), Seq::<char>::empty()) == put_char_spec(st, c));
        assert(write_str_spec(st, cs) == st);
    } else {
        assert(cs.push(c)[0] == cs[0]);
        assert(cs.push(c).drop_first() =~= cs.drop_first().push(c));
        assert(write_str_spec(st, cs.push(c)) == write_str_spec(
            put_char_spec(st, cs[0]),
            cs.drop_first().push(c),
        ));
        lemma_write_str_push(put_char_spec(st, cs[0]), cs.drop_first(), c);
        assert(write_str_spec(st, cs) == write_str_spec(put_char_spec(st, cs[0]), cs.drop_first()));
    }
}

} // verus!
