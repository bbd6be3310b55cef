//! The text-mode console writer, on a model screen: a 25-by-80 grid of
//! characters with a cursor column and a colour code. Writing steps the
//! cursor, a newline scrolls every row up by one and blanks the last row,
//! and an overlong line wraps. The volatile stores into the hardware text
//! buffer are done outside this crate by mirroring this model.

use vstd::prelude::*;
use vstd::string::StringSliceAdditionalSpecFns;

verus! {

/// Rows of the text buffer.
pub const BUFFER_HEIGHT: usize = 25;

/// Columns of the text buffer.
pub const BUFFER_WIDTH: usize = 80;

/// The sixteen colours of the text-mode palette, in palette order.
#[derive(Debug, Clone, Copy, PartialEq, Eq, Structural)]
pub enum Color {
    /// Palette entry 0.
    Black,
    /// Palette entry 1.
    Blue,
    /// Palette entry 2.
    Green,
    /// Palette entry 3.
    Cyan,
    /// Palette entry 4.
    Red,
    /// Palette entry 5.
    Magenta,
    /// Palette entry 6.
    Brown,
    /// Palette entry 7.
    LightGray,
    /// Palette entry 8.
    DarkGray,
    /// Palette entry 9.
    LightBlue,
    /// Palette entry 10.
    LightGreen,
    /// Palette entry 11.
    LightCyan,
    /// Palette entry 12.
    LightRed,
    /// Palette entry 13.
    Pink,
    /// Palette entry 14.
    Yellow,
    /// Palette entry 15.
    White,
}

impl Color {
    /// The palette number of this colour.
    pub open spec fn spec_number(self) -> u8 {
        match self {
            Color::Black => 0,
            Color::Blue => 1,
            Color::Green => 2,
            Color::Cyan => 3,
            Color::Red => 4,
            Color::Magenta => 5,
            Color::Brown => 6,
            Color::LightGray => 7,
            Color::DarkGray => 8,
            Color::LightBlue => 9,
            Color::LightGreen => 10,
            Color::LightCyan => 11,
            Color::LightRed => 12,
            Color::Pink => 13,
            Color::Yellow => 14,
            Color::White => 15,
        }
    }

    /// The palette number of this colour, as the hardware takes it.
    pub fn number(self) -> (n: u8)
        ensures
            n == self.spec_number(),
            n < 16,
    {
        match self {
            Color::Black => 0,
            Color::Blue => 1,
            Color::Green => 2,
            Color::Cyan => 3,
            Color::Red => 4,
            Color::Magenta => 5,
            Color::Brown => 6,
            Color::LightGray => 7,
            Color::DarkGray => 8,
            Color::LightBlue => 9,
            Color::LightGreen => 10,
            Color::LightCyan => 11,
            Color::LightRed => 12,
            Color::Pink => 13,
            Color::Yellow => 14,
            Color::White => 15,
        }
    }
}

/// A full colour code: background colour in the high half of the byte,
/// foreground colour in the low half.
#[derive(Debug, Clone, Copy, PartialEq, Eq, Structural)]
pub struct ColorCode {
    /// The packed byte.
    pub code: u8,
}

impl ColorCode {
    /// Packs a foreground and a background colour into one attribute byte:
    /// sixteen times the background number plus the foreground number.
    pub fn new(foreground: Color, background: Color) -> (c: ColorCode)
        ensures
            c.code == background.spec_number() * 16 + foreground.spec_number(),
    {
        ColorCode { code: background.number() * 16 + foreground.number() }
    }
}

/// One character cell of the screen: the glyph byte and its colour code.
#[derive(Debug, Clone, Copy, PartialEq, Eq, Structural)]
pub struct ScreenChar {
    /// The glyph, as a code-page byte.
    pub ascii_character: u8,
    /// The colour attribute of the cell.
    pub color_code: ColorCode,
}

/// A blank cell: a space in the given colour.
pub open spec fn blank_char(color: ColorCode) -> ScreenChar {
    ScreenChar { ascii_character: 32, color_code: color }
}

/// A row of blank cells.
pub open spec fn blank_row(color: ColorCode) -> Seq<ScreenChar> {
    Seq::new(BUFFER_WIDTH as nat, |c: int| blank_char(color))
}

/// The screen after scrolling: every row moves up by one and the last row
/// is blanked.
pub open spec fn scrolled(screen: Seq<Seq<ScreenChar>>, color: ColorCode) -> Seq<Seq<ScreenChar>> {
    screen.subrange(1, screen.len() as int).push(blank_row(color))
}

/// The screen with one cell replaced.
pub open spec fn written_at(
    screen: Seq<Seq<ScreenChar>>,
    row: int,
    col: int,
    cell: ScreenChar,
) -> Seq<Seq<ScreenChar>> {
    screen.update(row, screen[row].update(col, cell))
}

/// What one byte does to the screen and cursor column: a newline scrolls
/// and returns the cursor to column zero; any other byte first wraps when
/// the line is full, then lands in the bottom row at the cursor, which
/// steps right.
pub open spec fn write_byte_spec(
    screen: Seq<Seq<ScreenChar>>,
    col: int,
    color: ColorCode,
    byte: u8,
) -> (Seq<Seq<ScreenChar>>, int) {
    if byte == 10 {
        (scrolled(screen, color), 0)
    } else {
        let (wrapped, at) = if col >= BUFFER_WIDTH {
            (scrolled(screen, color), 0int)
        } else {
            (screen, col)
        };
        (
            written_at(
                wrapped,
                BUFFER_HEIGHT - 1,
                at,
                (ScreenChar { ascii_character: byte, color_code: color }),
            ),
            at + 1,
        )
    }
}

/// Whether a byte is printed as itself: the printable range of the code
/// page, or the newline.
pub open spec fn printable(byte: u8) -> bool {
    byte == 10 || (0x20 <= byte <= 0x7e)
}

/// The glyph a byte is printed as: itself when printable, the replacement
/// block otherwise.
pub open spec fn glyph_of(byte: u8) -> u8 {
    if printable(byte) {
        byte
    } else {
        0xfe
    }
}

/// What a whole byte string does to the screen and cursor column, one
/// glyph at a time.
pub open spec fn write_bytes_spec(
    screen: Seq<Seq<ScreenChar>>,
    col: int,
    color: ColorCode,
    bytes: Seq<u8>,
) -> (Seq<Seq<ScreenChar>>, int)
    decreases bytes.len(),
{
    if bytes.len() == 0 {
        (screen, col)
    } else {
        let (screen1, col1) = write_byte_spec(screen, col, color, glyph_of(bytes[0]));
        write_bytes_spec(screen1, col1, color, bytes.subrange(1, bytes.len() as int))
    }
}

/// The console writer: the cursor column, the colour new characters take,
/// and the model text buffer.
pub struct Writer {
    /// The cursor column in the bottom row.
    pub column_position: usize,
    /// The colour applied to what is written next.
    pub color_code: ColorCode,
    /// The model text buffer, row by row.
    pub buffer: Vec<Vec<ScreenChar>>,
}

impl Writer {
    /// The screen contents as a grid of cells.
    pub open spec fn screen(self) -> Seq<Seq<ScreenChar>> {
        Seq::new(self.buffer@.len(), |r: int| self.buffer@[r]@)
    }

    /// Well-formedness: the full height and width, and a cursor no further
    /// than one past the last column.
    pub open spec fn wf(self) -> bool {
        &&& self.buffer@.len() == BUFFER_HEIGHT
        &&& forall|r: int|
            0 <= r < BUFFER_HEIGHT ==> (#[trigger] self.buffer@[r])@.len() == BUFFER_WIDTH
        &&& self.column_position <= BUFFER_WIDTH
    }

    /// Builds a writer over a blank screen, with the cursor at column zero.
    pub fn new(color_code: ColorCode) -> (w: Writer)
        ensures
            w.wf(),
            w.column_position == 0,
            w.color_code == color_code,
            forall|r: int| 0 <= r < BUFFER_HEIGHT ==> w.screen()[r] == blank_row(color_code),
    {
        let mut buffer: Vec<Vec<ScreenChar>> = Vec::new();
        let mut r: usize = 0;
        while r < BUFFER_HEIGHT
            invariant
                0 <= r <= BUFFER_HEIGHT,
                buffer@.len() == r,
                forall|i: int| 0 <= i < r ==> (#[trigger] buffer@[i])@ == blank_row(color_code),
            decreases BUFFER_HEIGHT - r,
        {
            let mut row: Vec<ScreenChar> = Vec::new();
            let mut c: usize = 0;
            while c < BUFFER_WIDTH
                invariant
                    0 <= c <= BUFFER_WIDTH,
                    row@.len() == c,
                    forall|i: int| 0 <= i < c ==> row@[i] == blank_char(color_code),
                decreases BUFFER_WIDTH - c,
            {
                row.push(ScreenChar { ascii_character: 32, color_code });
                c = c + 1;
            }
            proof {
                assert(row@ =~= blank_row(color_code));
            }
            buffer.push(row);
            r = r + 1;
        }
        Writer { column_position: 0, color_code, buffer }
    }

    /// The glyph byte at one cell, for observation.
    pub fn char_at(&self, row: usize, col: usize) -> (b: u8)
        requires
            self.wf(),
            row < BUFFER_HEIGHT,
            col < BUFFER_WIDTH,
        ensures
            b == self.screen()[row as int][col as int].ascii_character,
    {
        self.buffer[row][col].ascii_character
    }

    /// Blanks one row in the writer's colour.
    fn clear_row(&mut self, row: usize)
        requires
            old(self).wf(),
            row < BUFFER_HEIGHT,
        ensures
            final(self).wf(),
            final(self).screen() == old(self).screen().update(
                row as int,
                blank_row(old(self).color_code),
            ),
            final(self).column_position == old(self).column_position,
            final(self).color_code == old(self).color_code,
    {
        let blank = ScreenChar { ascii_character: 32, color_code: self.color_code };
        let mut col: usize = 0;
        while col < BUFFER_WIDTH
            invariant
                0 <= col <= BUFFER_WIDTH,
                row < BUFFER_HEIGHT,
                old(self).wf(),
                self.wf(),
                blank == blank_char(old(self).color_code),
                self.color_code == old(self).color_code,
                self.column_position == old(self).column_position,
                forall|r: int|
                    0 <= r < BUFFER_HEIGHT && r != row ==> #[trigger] self.buffer@[r] == old(
                        self,
                    ).buffer@[r],
                forall|c: int|
                    0 <= c < col ==> #[trigger] self.buffer@[row as int]@[c] == blank_char(
                        old(self).color_code,
                    ),
                forall|c: int|
                    col <= c < BUFFER_WIDTH ==> #[trigger] self.buffer@[row as int]@[c] == old(
                        self,
                    ).buffer@[row as int]@[c],
            decreases BUFFER_WIDTH - col,
        {
            self.buffer[row][col] = blank;
            col = col + 1;
        }
        proof {
            assert(self.buffer@[row as int]@ =~= blank_row(old(self).color_code));
            assert(self.screen() =~~= old(self).screen().update(
                row as int,
                blank_row(old(self).color_code),
            ));
        }
    }

    /// Scrolls: every row moves up by one, the bottom row is blanked, and
    /// the cursor returns to column zero.
    fn new_line(&mut self)
        requires
            old(self).wf(),
        ensures
            final(self).wf(),
            final(self).screen() == scrolled(old(self).screen(), old(self).color_code),
            final(self).column_position == 0,
            final(self).color_code == old(self).color_code,
    {
        let mut row: usize = 1;
        while row < BUFFER_HEIGHT
            invariant
                1 <= row <= BUFFER_HEIGHT,
                old(self).wf(),
                self.wf(),
                self.color_code == old(self).color_code,
                self.column_position == old(self).column_position,
                forall|r: int|
                    0 <= r < row - 1 ==> #[trigger] self.buffer@[r]@ == old(self).buffer@[r + 1]@,
                forall|r: int|
                    row - 1 <= r < BUFFER_HEIGHT ==> #[trigger] self.buffer@[r] == old(
                        self,
                    ).buffer@[r],
            decreases BUFFER_HEIGHT - row,
        {
            let mut col: usize = 0;
            while col < BUFFER_WIDTH
                invariant
                    1 <= row < BUFFER_HEIGHT,
                    0 <= col <= BUFFER_WIDTH,
                    old(self).wf(),
                    self.wf(),
                    self.color_code == old(self).color_code,
                    self.column_position == old(self).column_position,
                    forall|r: int|
                        0 <= r < row - 1 ==> #[trigger] self.buffer@[r]@ == old(self).buffer@[r
                            + 1]@,
                    forall|r: int|
                        row <= r < BUFFER_HEIGHT ==> #[trigger] self.buffer@[r] == old(
                            self,
                        ).buffer@[r],
                    forall|c: int|
                        0 <= c < col ==> #[trigger] self.buffer@[row - 1]@[c] == old(self).buffer@[
                            row as int
                        ]@[c],
                    forall|c: int|
                        col <= c < BUFFER_WIDTH ==> #[trigger] self.buffer@[row - 1]@[c] == old(
                            self,
                        ).buffer@[row - 1]@[c],
                decreases BUFFER_WIDTH - col,
            {
                let cell = self.buffer[row][col];
                self.buffer[row - 1][col] = cell;
                col = col + 1;
            }
            proof {
                assert(self.buffer@[row - 1]@ =~= old(self).buffer@[row as int]@);
            }
            row = row + 1;
        }
        self.clear_row(BUFFER_HEIGHT - 1);
        self.column_position = 0;
        proof {
            assert(self.screen() =~~= scrolled(old(self).screen(), old(self).color_code));
        }
    }

    /// Writes one byte: a newline scrolls; any other byte lands at the
    /// cursor in the bottom row, wrapping first when the line is full.
    pub fn write_byte(&mut self, byte: u8)
        requires
            old(self).wf(),
        ensures
            final(self).wf(),
            (final(self).screen(), final(self).column_position as int) == write_byte_spec(
                old(self).screen(),
                old(self).column_position as int,
                old(self).color_code,
                byte,
            ),
            final(self).color_code == old(self).color_code,
    {
        if byte == 10 {
            self.new_line();
        } else {
            if self.column_position >= BUFFER_WIDTH {
                self.new_line();
            }
            let row = BUFFER_HEIGHT - 1;
            let col = self.column_position;
            let color_code = self.color_code;
            self.buffer[row][col] = ScreenChar { ascii_character: byte, color_code };
            self.column_position = col + 1;
            proof {
                assert(self.screen() =~~= write_byte_spec(
                    old(self).screen(),
                    old(self).column_position as int,
                    old(self).color_code,
                    byte,
                ).0);
            }
        }
    }

    /// Writes a string byte by byte: printable bytes and newlines as
    /// themselves, anything else as the replacement block.
    pub fn write_string(&mut self, s: &str)
        requires
            old(self).wf(),
        ensures
            final(self).wf(),
            (final(self).screen(), final(self).column_position as int) == write_bytes_spec(
                old(self).screen(),
                old(self).column_position as int,
                old(self).color_code,
                s.spec_bytes(),
            ),
            final(self).color_code == old(self).color_code,
    {
        let bytes = s.as_bytes();
        let n = bytes.len();
        proof {
            assert(bytes@.subrange(0, n as int) =~= bytes@);
        }
        let mut i: usize = 0;
        while i < n
            invariant
                0 <= i <= n,
                n == bytes@.len(),
                bytes@ == s.spec_bytes(),
                self.wf(),
                self.color_code == old(self).color_code,
                write_bytes_spec(
                    self.screen(),
                    self.column_position as int,
                    old(self).color_code,
                    bytes@.subrange(i as int, n as int),
                ) == write_bytes_spec(
                    old(self).screen(),
                    old(self).column_position as int,
                    old(self).color_code,
                    bytes@,
                ),
            decreases n - i,
        {
            let ghost pending = bytes@.subrange(i as int, n as int);
            let byte = bytes[i];
            proof {
                assert(pending[0] == bytes@[i as int]);
                assert(pending.subrange(1, pending.len() as int) =~= bytes@.subrange(
                    i as int + 1,
                    n as int,
                ));
            }
            if (0x20 <= byte && byte <= 0x7e) || byte == 10 {
                self.write_byte(byte);
            } else {
                self.write_byte(0xfe);
            }
            i = i + 1;
        }
        proof {
            assert(bytes@.subrange(n as int, n as int) =~= Seq::<u8>::empty());
        }
    }

    /// Blanks the whole screen in the writer's colour; the cursor column is
    /// untouched.
    pub fn clear_screen(&mut self)
        requires
            old(self).wf(),
        ensures
            final(self).wf(),
            forall|r: int|
                0 <= r < BUFFER_HEIGHT ==> final(self).screen()[r] == blank_row(
                    old(self).color_code,
                ),
            final(self).column_position == old(self).column_position,
            final(self).color_code == old(self).color_code,
    {
        let mut row: usize = 0;
        while row < BUFFER_HEIGHT
            invariant
                0 <= row <= BUFFER_HEIGHT,
                old(self).wf(),
                self.wf(),
                self.color_code == old(self).color_code,
                self.column_position == old(self).column_position,
                forall|r: int|
                    0 <= r < row ==> #[trigger] self.screen()[r] == blank_row(old(self).color_code),
            decreases BUFFER_HEIGHT - row,
        {
            self.clear_row(row);
            row = row + 1;
        }
    }
}

} // verus!
