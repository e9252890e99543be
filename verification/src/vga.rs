//! The text console: a grid of 25 rows of 80 character cells that scrolls
//! upwards, written to at the bottom row.
//!
//! The writer keeps the grid itself. Showing it is up to the caller, who
//! copies the cells to the video memory.

use vstd::prelude::*;
use vstd::string::StringSliceAdditionalSpecFns;

verus! {

/// The sixteen colors of the text mode, in the order of their codes from 0
/// to 15.
#[derive(Debug, Clone, Copy, PartialEq, Eq, Structural)]
pub enum Color {
    Black,
    Blue,
    Green,
    Cyan,
    Red,
    Magenta,
    Brown,
    LightGray,
    DarkGray,
    LightBlue,
    LightGreen,
    LightCyan,
    LightRed,
    Pink,
    Yellow,
    White,
}

impl Color {
    /// The code of the color, from 0 for black to 15 for white.
    pub open spec fn spec_code(self) -> u8 {
        match self {
            Color::Black => 0,
            Color::Blue => 1,
            Color::Green => 2,
            Color::Cyan => 3,
            Color::Red => 4,
            Color::Magenta => 5,
            Color::Brown => 6,
            Color::LightGray => 7,
            Color::DarkGray => 8,
            Color::LightBlue => 9,
            Color::LightGreen => 10,
            Color::LightCyan => 11,
            Color::LightRed => 12,
            Color::Pink => 13,
            Color::Yellow => 14,
            Color::White => 15,
        }
    }

    /// The code of the color, from 0 for black to 15 for white.
    pub fn code(&self) -> (code: u8)
        ensures
            code == self.spec_code(),
            code < 16,
    {
        match self {
            Color::Black => 0,
            Color::Blue => 1,
            Color::Green => 2,
            Color::Cyan => 3,
            Color::Red => 4,
            Color::Magenta => 5,
            Color::Brown => 6,
            Color::LightGray => 7,
            Color::DarkGray => 8,
            Color::LightBlue => 9,
            Color::LightGreen => 10,
            Color::LightCyan => 11,
            Color::LightRed => 12,
            Color::Pink => 13,
            Color::Yellow => 14,
            Color::White => 15,
        }
    }
}

/// The colors of a cell in one byte: the background in the high four bits,
/// the foreground in the low four.
#[derive(Debug, Clone, Copy, PartialEq, Eq, Structural)]
pub struct ColorCode(pub u8);

impl ColorCode {
    /// The code for `foreground` on `background`.
    pub fn new(foreground: Color, background: Color) -> (code: ColorCode)
        ensures
            code.0 == background.spec_code() * 16 + foreground.spec_code(),
    {
        let high = background.code();
        let low = foreground.code();
        assert(high << 4 | low == high * 16 + low) by (bit_vector)
            requires
                high < 16,
                low < 16,
        ;
        ColorCode(high << 4 | low)
    }
}

/// One cell of the screen: a character and its colors.
#[derive(Debug, Clone, Copy, PartialEq, Eq, Structural)]
pub struct ScreenChar {
    /// The character, as a code of the text mode's character set.
    pub ascii_character: u8,
    /// The colors of the cell.
    pub color_code: ColorCode,
}

/// The number of rows of the screen.
pub const BUFFER_HEIGHT: usize = 25;

/// The number of cells in a row.
pub const BUFFER_WIDTH: usize = 80;

/// The number of cells of the screen.
pub const BUFFER_CELLS: usize = 2000;

/// The state of the console as plain values. The cell in row `r` and
/// column `c` is `cells[r * 80 + c]`; row 0 is the top row.
pub struct Screen {
    /// The column in the bottom row that the next character goes to; 80
    /// when the row is full.
    pub column: nat,
    /// The colors that characters are written in.
    pub color: ColorCode,
    /// The cells, row after row.
    pub cells: Seq<ScreenChar>,
}

impl Screen {
    /// The screen has 2000 cells and the column lies within or just past
    /// the row.
    pub open spec fn wf(self) -> bool {
        self.cells.len() == 2000 && self.column <= 80
    }

    /// The cell in row `row` and column `col`.
    pub open spec fn at(self, row: int, col: int) -> ScreenChar {
        self.cells[row * 80 + col]
    }

    /// An empty cell: a space in the current colors.
    pub open spec fn blank(self) -> ScreenChar {
        ScreenChar { ascii_character: 0x20, color_code: self.color }
    }

    /// The screen with row `row` emptied.
    pub open spec fn row_cleared(self, row: int) -> Screen {
        Screen {
            cells: Seq::new(
                2000,
                |i: int|
                    if row * 80 <= i < row * 80 + 80 {
                        self.blank()
                    } else {
                        self.cells[i]
                    },
            ),
            ..self
        }
    }

    /// The screen after a line break: every row moves up by one, the top
    /// row is lost, the bottom row is empty, and writing goes on at its
    /// start.
    pub open spec fn scrolled(self) -> Screen {
        Screen {
            column: 0,
            cells: Seq::new(
                2000,
                |i: int|
                    if i < 1920 {
                        self.cells[i + 80]
                    } else {
                        self.blank()
                    },
            ),
            ..self
        }
    }

    /// The screen after the character `byte` was put in the bottom row. A
    /// full row breaks first.
    pub open spec fn put(self, byte: u8) -> Screen {
        let start = if self.column >= 80 {
            self.scrolled()
        } else {
            self
        };
        Screen {
            column: start.column + 1,
            cells: start.cells.update(
                1920 + start.column as int,
                ScreenChar { ascii_character: byte, color_code: self.color },
            ),
            ..start
        }
    }

    /// The screen after `byte` was written: a line break for the newline
    /// character, the character itself otherwise.
    pub open spec fn written(self, byte: u8) -> Screen {
        if byte == 0x0a {
            self.scrolled()
        } else {
            self.put(byte)
        }
    }

    /// The screen after the bytes of `bytes` were written one after the
    /// other.
    pub open spec fn written_all(self, bytes: Seq<u8>) -> Screen
        decreases bytes.len(),
    {
        if bytes.len() == 0 {
            self
        } else {
            self.written_all(bytes.drop_last()).written(bytes.last())
        }
    }

    /// The screen with every row emptied, writing at the start of the
    /// bottom row.
    pub open spec fn cleared(self) -> Screen {
        Screen { column: 0, cells: Seq::new(2000, |i: int| self.blank()), ..self }
    }
}

/// The console writer.
pub struct Writer {
    column_position: usize,
    color_code: ColorCode,
    cells: Vec<ScreenChar>,
}

impl View for Writer {
    type V = Screen;

    closed spec fn view(&self) -> Screen {
        Screen {
            column: self.column_position as nat,
            color: self.color_code,
            cells: self.cells@,
        }
    }
}

impl Writer {
    /// The writer holds a whole screen.
    #[verifier::type_invariant]
    pub open spec fn wf(self) -> bool {
        self@.wf()
    }

    /// A writer with an empty screen that writes in the colors `color_code`.
    pub fn new(color_code: ColorCode) -> (writer: Writer)
        ensures
            writer.wf(),
            writer@.column == 0,
            writer@.color == color_code,
            writer@.cells == Seq::new(
                2000,
                |i: int| ScreenChar { ascii_character: 0x20, color_code },
            ),
    {
        let blank = ScreenChar { ascii_character: 0x20, color_code };
        let mut cells: Vec<ScreenChar> = Vec::new();
        while cells.len() < BUFFER_CELLS
            invariant
                cells@.len() <= 2000,
                forall|i: int| 0 <= i < cells@.len() ==> cells@[i] == blank,
            decreases 2000 - cells@.len(),
        {
            cells.push(blank);
        }
        Writer { column_position: 0, color_code, cells }
    }

    /// The column in the bottom row that the next character goes to.
    pub fn column_position(&self) -> (column: usize)
        ensures
            column == self@.column,
            column <= 80,
    {
        proof {
            use_type_invariant(&*self);
        }
        self.column_position
    }

    /// The colors that characters are written in.
    pub fn color_code(&self) -> (color: ColorCode)
        ensures
            color == self@.color,
    {
        self.color_code
    }

    /// The cell in row `row` and column `col`.
    pub fn char_at(&self, row: usize, col: usize) -> (cell: ScreenChar)
        requires
            row < 25,
            col < 80,
        ensures
            cell == self@.at(row as int, col as int),
    {
        proof {
            use_type_invariant(&*self);
        }
        self.cells[row * BUFFER_WIDTH + col]
    }

    /// Writes one byte: the newline character breaks the line, any other
    /// byte is put at the current column of the bottom row, after a line
    /// break if the row is full.
    pub fn write_byte(&mut self, byte: u8)
        ensures
            final(self)@ == old(self)@.written(byte),
    {
        if byte == 0x0a {
            self.new_line();
        } else {
            if self.column_position >= BUFFER_WIDTH {
                self.new_line();
            }
            proof {
                use_type_invariant(&*self);
            }
            let row = BUFFER_HEIGHT - 1;
            let col = self.column_position;
            let color_code = self.color_code;
            self.cells[row * BUFFER_WIDTH + col] = ScreenChar { ascii_character: byte, color_code };
            self.column_position = col + 1;
        }
    }

    /// Breaks the line: moves every row up by one, empties the bottom row
    /// and goes to its start.
    pub fn new_line(&mut self)
        ensures
            final(self)@ == old(self)@.scrolled(),
    {
        proof {
            use_type_invariant(&*self);
        }
        let mut row: usize = 1;
        while row < BUFFER_HEIGHT
            invariant
                1 <= row <= 25,
                self.wf(),
                self@.column == old(self)@.column,
                self@.color == old(self)@.color,
                forall|i: int| 0 <= i < (row - 1) * 80 ==> self@.cells[i] == old(self)@.cells[i + 80],
                forall|i: int| (row - 1) * 80 <= i < 2000 ==> self@.cells[i] == old(self)@.cells[i],
            decreases 25 - row,
        {
            let mut col: usize = 0;
            while col < BUFFER_WIDTH
                invariant
                    1 <= row < 25,
                    col <= 80,
                    self.wf(),
                    self@.column == old(self)@.column,
                    self@.color == old(self)@.color,
                    forall|i: int|
                        0 <= i < (row - 1) * 80 + col ==> self@.cells[i] == old(self)@.cells[i
                            + 80],
                    forall|i: int|
                        (row - 1) * 80 + col <= i < 2000 ==> self@.cells[i] == old(self)@.cells[i],
                decreases 80 - col,
            {
                let cell = self.cells[row * BUFFER_WIDTH + col];
                self.cells[(row - 1) * BUFFER_WIDTH + col] = cell;
                col += 1;
            }
            row += 1;
        }
        self.clear_row(BUFFER_HEIGHT - 1);
        self.column_position = 0;
        assert(self@.cells =~= old(self)@.scrolled().cells);
    }

    /// Empties row `row`.
    fn clear_row(&mut self, row: usize)
        requires
            row < 25,
        ensures
            final(self)@ == old(self)@.row_cleared(row as int),
    {
        proof {
            use_type_invariant(&*self);
        }
        let blank = ScreenChar { ascii_character: 0x20, color_code: self.color_code };
        let mut col: usize = 0;
        while col < BUFFER_WIDTH
            invariant
                row < 25,
                col <= 80,
                self.wf(),
                blank == old(self)@.blank(),
                self@.column == old(self)@.column,
                self@.color == old(self)@.color,
                forall|i: int| row * 80 <= i < row * 80 + col ==> self@.cells[i] == blank,
                forall|i: int|
                    0 <= i < 2000 && !(row * 80 <= i < row * 80 + col) ==> self@.cells[i] == old(
                        self,
                    )@.cells[i],
            decreases 80 - col,
        {
            self.cells[row * BUFFER_WIDTH + col] = blank;
            col += 1;
        }
        assert(self@.cells =~= old(self)@.row_cleared(row as int).cells);
    }

    /// Writes the bytes of `s` one after the other.
    pub fn write_str(&mut self, s: &str)
        ensures
            final(self)@ == old(self)@.written_all(s.spec_bytes()),
    {
        let bytes = s.as_bytes();
        let mut index: usize = 0;
        while index < bytes.len()
            invariant
                index <= bytes@.len(),
                bytes@ == s.spec_bytes(),
                self@ == old(self)@.written_all(bytes@.take(index as int)),
            decreases bytes@.len() - index,
        {
            proof {
                assert(bytes@.take(index + 1).drop_last() =~= bytes@.take(index as int));
            }
            self.write_byte(bytes[index]);
            index += 1;
        }
        assert(bytes@.take(index as int) =~= bytes@);
    }
}

/// Writes `text` to the console.
pub fn print(writer: &mut Writer, text: &str)
    ensures
        final(writer)@ == old(writer)@.written_all(text.spec_bytes()),
{
    writer.write_str(text);
}

/// Empties the whole screen and goes to the start of the bottom row.
pub fn clear(writer: &mut Writer)
    ensures
        final(writer)@ == old(writer)@.cleared(),
{
    proof {
        use_type_invariant(&*writer);
    }
    let mut row: usize = 0;
    while row < BUFFER_HEIGHT
        invariant
            row <= 25,
            writer@.column == old(writer)@.column,
            writer@.color == old(writer)@.color,
            writer@.cells.len() == 2000,
            old(writer)@.cells.len() == 2000,
            forall|i: int| 0 <= i < row * 80 ==> writer@.cells[i] == old(writer)@.blank(),
            forall|i: int| row * 80 <= i < 2000 ==> writer@.cells[i] == old(writer)@.cells[i],
        decreases 25 - row,
    {
        writer.clear_row(row);
        row += 1;
    }
    writer.reset_column();
    assert(writer@.cells =~= old(writer)@.cleared().cells);
}

impl Writer {
    /// Goes to the start of the bottom row.
    fn reset_column(&mut self)
        ensures
            final(self)@ == (Screen { column: 0, ..old(self)@ }),
    {
        proof {
            use_type_invariant(&*self);
        }
        self.column_position = 0;
    }
}

} // verus!
