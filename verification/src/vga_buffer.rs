//! The text writer of the 80 by 25 character grid: cursor, line breaks and
//! scrolling, over a buffer that is read and written cell by cell.

use vstd::prelude::*;
use vstd::string::StringSliceAdditionalSpecFns;

verus! {

/// Number of columns of the grid.
pub const VGA_WIDTH: usize = 80;

/// Number of rows of the grid.
pub const VGA_HEIGHT: usize = 25;

/// First byte that is written as it is.
pub const ASCII_PRINTABLE_START: u8 = 0x20;

/// First byte after the ones that are written as they are.
pub const ASCII_PRINTABLE_END: u8 = 0x7e;

/// The byte written in place of one that cannot be shown.
pub const ASCII_UNPRINTABLE: u8 = 0xfe;

/// Physical address of the grid.
pub const VGA_ADDRESS: usize = 0xb8000;

/// The sixteen colours of the text mode.
#[derive(Debug, Clone, Copy, PartialEq, Eq, Structural)]
pub enum Color {
    Black,
    Blue,
    Green,
    Cyan,
    Red,
    Magenta,
    Brown,
    LightGray,
    DarkGray,
    LightBlue,
    LightGreen,
    LightCyan,
    LightRed,
    Pink,
    Yellow,
    White,
}

impl Color {
    /// The four-bit number of the colour.
    pub open spec fn number(self) -> u8 {
        match self {
            Color::Black => 0,
            Color::Blue => 1,
            Color::Green => 2,
            Color::Cyan => 3,
            Color::Red => 4,
            Color::Magenta => 5,
            Color::Brown => 6,
            Color::LightGray => 7,
            Color::DarkGray => 8,
            Color::LightBlue => 9,
            Color::LightGreen => 10,
            Color::LightCyan => 11,
            Color::LightRed => 12,
            Color::Pink => 13,
            Color::Yellow => 14,
            Color::White => 15,
        }
    }

    /// The four-bit number of the colour.
    pub fn as_u8(self) -> (n: u8)
        ensures
            n == self.number(),
    {
        match self {
            Color::Black => 0,
            Color::Blue => 1,
            Color::Green => 2,
            Color::Cyan => 3,
            Color::Red => 4,
            Color::Magenta => 5,
            Color::Brown => 6,
            Color::LightGray => 7,
            Color::DarkGray => 8,
            Color::LightBlue => 9,
            Color::LightGreen => 10,
            Color::LightCyan => 11,
            Color::LightRed => 12,
            Color::Pink => 13,
            Color::Yellow => 14,
            Color::White => 15,
        }
    }
}

/// Attribute byte of a cell: background colour in the high four bits,
/// foreground colour in the low four.
#[derive(Debug, Clone, Copy, PartialEq, Eq, Structural)]
pub struct ColorCode(pub u8);

impl ColorCode {
    /// The attribute byte for `fg` on `bg`.
    pub fn new(fg: Color, bg: Color) -> (code: ColorCode)
        ensures
            code.0 == bg.number() * 16 + fg.number(),
    {
        let f = fg.as_u8();
        let b = bg.as_u8();
        assert((b << 4) | f == b * 16 + f) by (bit_vector)
            requires
                f < 16,
                b < 16,
        ;
        ColorCode((b << 4) | f)
    }
}

/// One cell of the grid: a character byte and its attribute byte.
#[derive(Debug, Clone, Copy, PartialEq, Eq, Structural)]
pub struct ScreenChar {
    pub character: u8,
    pub color_code: ColorCode,
}

/// Cell-wise access to the grid of 25 rows and 80 columns.
pub trait TextBuffer {
    /// The cell at `row` and `col`.
    spec fn cell(&self, row: usize, col: usize) -> ScreenChar;

    /// Reads the cell at `row` and `col`.
    fn read(&self, row: usize, col: usize) -> (c: ScreenChar)
        requires
            row < 25,
            col < 80,
        ensures
            c == self.cell(row, col),
    ;

    /// Writes the cell at `row` and `col` and leaves every other cell as it
    /// was.
    fn write(&mut self, row: usize, col: usize, c: ScreenChar)
        requires
            row < 25,
            col < 80,
        ensures
            final(self).cell(row, col) == c,
            forall|r: usize, k: usize|
                r < 25 && k < 80 && (r != row || k != col) ==> #[trigger] final(self).cell(r, k)
                    == old(self).cell(r, k),
    ;
}

/// The cells of a buffer, row by row.
pub open spec fn grid<B: TextBuffer>(buffer: &B) -> Seq<Seq<ScreenChar>> {
    Seq::new(25, |r: int| Seq::new(80, |k: int| buffer.cell(r as usize, k as usize)))
}

/// A grid kept in ordinary memory.
pub struct Buffer {
    cells: [[ScreenChar; 80]; 25],
}

impl Buffer {
    /// A grid whose every cell is `fill`.
    pub fn new(fill: ScreenChar) -> (buffer: Buffer)
        ensures
            forall|r: usize, k: usize| r < 25 && k < 80 ==> #[trigger] buffer.cell(r, k) == fill,
    {
        Buffer { cells: [[fill;80];25] }
    }
}

impl TextBuffer for Buffer {
    closed spec fn cell(&self, row: usize, col: usize) -> ScreenChar {
        self.cells@[row as int]@[col as int]
    }

    fn read(&self, row: usize, col: usize) -> (c: ScreenChar) {
        self.cells[row][col]
    }

    fn write(&mut self, row: usize, col: usize, c: ScreenChar) {
        let mut line = self.cells[row];
        line[col] = c;
        self.cells[row] = line;
    }
}

/// A row of spaces in colour `color`.
pub open spec fn blank_row(color: ColorCode) -> Seq<ScreenChar> {
    Seq::new(80, |k: int| ScreenChar { character: 0x20, color_code: color })
}

/// The byte that is written for `byte`: itself where it is a line feed or
/// one of the bytes from `ASCII_PRINTABLE_START` up to, not including,
/// `ASCII_PRINTABLE_END`; the replacement byte otherwise.
pub open spec fn shown(byte: u8) -> u8 {
    if byte == 0x0a || (0x20 <= byte < 0x7e) {
        byte
    } else {
        0xfe
    }
}

/// What the writer has put on the grid, and where it will write next.
pub struct Screen {
    pub row: int,
    pub col: int,
    pub cells: Seq<Seq<ScreenChar>>,
}

impl Screen {
    /// The cursor is on the grid, or just past the end of its row, and the
    /// grid has 25 rows of 80 cells.
    pub open spec fn wf(self) -> bool {
        &&& 0 <= self.row < 25
        &&& 0 <= self.col <= 80
        &&& self.cells.len() == 25
        &&& forall|r: int| 0 <= r < 25 ==> (#[trigger] self.cells[r]).len() == 80
    }

    /// The screen after a line break: the cursor goes to the start of the
    /// next row; on the last row every row moves up by one instead, the top
    /// row is lost and the last row is cleared to spaces in `color`.
    pub open spec fn new_line(self, color: ColorCode) -> Screen {
        if self.row >= 24 {
            Screen {
                row: self.row,
                col: 0,
                cells: Seq::new(
                    25,
                    |r: int|
                        if r < 24 {
                            self.cells[r + 1]
                        } else {
                            blank_row(color)
                        },
                ),
            }
        } else {
            Screen { row: self.row + 1, col: 0, cells: self.cells }
        }
    }

    /// The screen after `byte` has been written in `color`: a line feed
    /// breaks the line; any other byte is put at the cursor, after a line
    /// break if the row is full, and the cursor moves one cell on.
    pub open spec fn write_byte(self, byte: u8, color: ColorCode) -> Screen {
        if byte == 0x0a {
            self.new_line(color)
        } else {
            let s = if self.col >= 80 {
                self.new_line(color)
            } else {
                self
            };
            Screen {
                row: s.row,
                col: s.col + 1,
                cells: s.cells.update(
                    s.row,
                    s.cells[s.row].update(s.col, ScreenChar { character: byte, color_code: color }),
                ),
            }
        }
    }

    /// The screen after the bytes of a string have been written in `color`,
    /// each as `shown` gives it.
    pub open spec fn write_bytes(self, bytes: Seq<u8>, color: ColorCode) -> Screen
        decreases bytes.len(),
    {
        if bytes.len() == 0 {
            self
        } else {
            self.write_bytes(bytes.drop_last(), color).write_byte(shown(bytes.last()), color)
        }
    }
}

/// Writes text to a grid, keeping track of the cursor.
pub struct Writer<B: TextBuffer> {
    row_pos: usize,
    col_pos: usize,
    color_code: ColorCode,
    buffer: B,
}

impl<B: TextBuffer> View for Writer<B> {
    type V = Screen;

    closed spec fn view(&self) -> Screen {
        Screen { row: self.row_pos as int, col: self.col_pos as int, cells: grid(&self.buffer) }
    }
}

impl<B: TextBuffer> Writer<B> {
    /// The colour the writer writes in.
    pub closed spec fn color(&self) -> ColorCode {
        self.color_code
    }

    /// The buffer the writer writes to.
    pub closed spec fn buffer(&self) -> B {
        self.buffer
    }

    /// A writer at the top left corner of `buffer`, writing in `color_code`.
    pub fn new(buffer: B, color_code: ColorCode) -> (writer: Writer<B>)
        ensures
            writer@ == (Screen { row: 0, col: 0, cells: grid(&buffer) }),
            writer@.wf(),
            writer.color() == color_code,
            writer.buffer() == buffer,
    {
        Writer { row_pos: 0, col_pos: 0, color_code, buffer }
    }

    /// Row and column at which the next byte will be written.
    pub fn position(&self) -> (p: (usize, usize))
        ensures
            p.0 == self@.row,
            p.1 == self@.col,
    {
        (self.row_pos, self.col_pos)
    }

    /// The cell at `row` and `col`.
    pub fn cell(&self, row: usize, col: usize) -> (c: ScreenChar)
        requires
            row < 25,
            col < 80,
        ensures
            c == self@.cells[row as int][col as int],
    {
        self.buffer.read(row, col)
    }

    /// Gives the buffer back.
    pub fn into_buffer(self) -> (buffer: B)
        ensures
            buffer == self.buffer(),
    {
        self.buffer
    }

    /// Writes one byte at the cursor; a line feed breaks the line.
    pub fn write_byte(&mut self, byte: u8)
        requires
            old(self)@.wf(),
        ensures
            final(self)@ == old(self)@.write_byte(byte, old(self).color()),
            final(self)@.wf(),
            final(self).color() == old(self).color(),
    {
        if byte == 0x0a {
            self.new_line();
        } else {
            if self.col_pos >= VGA_WIDTH {
                self.new_line();
            }
            let ghost before = self@;
            let row = self.row_pos;
            let col = self.col_pos;
            let c = ScreenChar { character: byte, color_code: self.color_code };
            self.buffer.write(row, col, c);
            self.col_pos = self.col_pos + 1;
            proof {
                let want = before.cells.update(row as int, before.cells[row as int].update(col as int, c));
                assert forall|r: int| 0 <= r < 25 implies #[trigger] self@.cells[r] == want[r] by {
                    assert(self@.cells[r] =~= want[r]);
                }
                assert(self@.cells =~= want);
            }
        }
    }

    /// Writes a string: each line feed and each byte that can be shown as it
    /// is, the replacement byte for every other byte.
    pub fn write_string(&mut self, string: &str)
        requires
            old(self)@.wf(),
        ensures
            final(self)@ == old(self)@.write_bytes(string.spec_bytes(), old(self).color()),
            final(self)@.wf(),
            final(self).color() == old(self).color(),
    {
        let bytes = string.as_bytes();
        let mut i: usize = 0;
        while i < bytes.len()
            invariant
                0 <= i <= bytes@.len(),
                bytes@ == string.spec_bytes(),
                self@.wf(),
                self.color() == old(self).color(),
                self@ == old(self)@.write_bytes(bytes@.take(i as int), old(self).color()),
            decreases bytes@.len() - i,
        {
            let byte = bytes[i];
            proof {
                assert(bytes@.take(i + 1).drop_last() =~= bytes@.take(i as int));
                assert(bytes@.take(i + 1).last() == byte);
            }
            if byte == 0x0a || (byte >= ASCII_PRINTABLE_START && byte < ASCII_PRINTABLE_END) {
                self.write_byte(byte);
            } else {
                self.write_byte(ASCII_UNPRINTABLE);
            }
            i = i + 1;
        }
        proof {
            assert(bytes@.take(i as int) =~= bytes@);
        }
    }

    /// Breaks the line: moves to the next row, or scrolls on the last one.
    pub fn new_line(&mut self)
        requires
            old(self)@.wf(),
        ensures
            final(self)@ == old(self)@.new_line(old(self).color()),
            final(self)@.wf(),
            final(self).color() == old(self).color(),
    {
        if self.row_pos >= VGA_HEIGHT - 1 {
            let ghost start = grid(&self.buffer);
            let mut row: usize = 1;
            while row < VGA_HEIGHT
                invariant
                    1 <= row <= 25,
                    self.row_pos == old(self).row_pos,
                    self.col_pos == old(self).col_pos,
                    self.color_code == old(self).color_code,
                    start == grid(&old(self).buffer),
                    forall|r: usize, k: usize|
                        r < row - 1 && k < 80 ==> #[trigger] self.buffer.cell(r, k)
                            == start[r + 1][k as int],
                    forall|r: usize, k: usize|
                        row - 1 <= r < 25 && k < 80 ==> #[trigger] self.buffer.cell(r, k)
                            == start[r as int][k as int],
                decreases 25 - row,
            {
                let mut col: usize = 0;
                while col < VGA_WIDTH
                    invariant
                        1 <= row < 25,
                        0 <= col <= 80,
                        self.row_pos == old(self).row_pos,
                        self.col_pos == old(self).col_pos,
                        self.color_code == old(self).color_code,
                        start == grid(&old(self).buffer),
                        forall|r: usize, k: usize|
                            r < row - 1 && k < 80 ==> #[trigger] self.buffer.cell(r, k)
                                == start[r + 1][k as int],
                        forall|k: usize|
                            k < col ==> #[trigger] self.buffer.cell((row - 1) as usize, k) == start[row as int][k as int],
                        forall|k: usize|
                            col <= k < 80 ==> #[trigger] self.buffer.cell((row - 1) as usize, k) == start[row
                                - 1][k as int],
                        forall|r: usize, k: usize|
                            row <= r < 25 && k < 80 ==> #[trigger] self.buffer.cell(r, k)
                                == start[r as int][k as int],
                    decreases 80 - col,
                {
                    let character = self.buffer.read(row, col);
                    self.buffer.write(row - 1, col, character);
                    col = col + 1;
                }
                row = row + 1;
            }
            self.clear_row(VGA_HEIGHT - 1);
            self.col_pos = 0;
            proof {
                let want = old(self)@.new_line(old(self).color()).cells;
                assert forall|r: int| 0 <= r < 25 implies #[trigger] self@.cells[r] == want[r] by {
                    assert(self@.cells[r] =~= want[r]);
                }
                assert(self@.cells =~= want);
            }
        } else {
            self.row_pos = self.row_pos + 1;
            self.col_pos = 0;
        }
    }

    /// Fills `row` with spaces in the writer's colour.
    pub fn clear_row(&mut self, row: usize)
        requires
            row < 25,
        ensures
            final(self)@.row == old(self)@.row,
            final(self)@.col == old(self)@.col,
            final(self).color() == old(self).color(),
            final(self)@.cells == old(self)@.cells.update(row as int, blank_row(old(self).color())),
    {
        let mut col: usize = 0;
        while col < VGA_WIDTH
            invariant
                row < 25,
                0 <= col <= 80,
                self.row_pos == old(self).row_pos,
                self.col_pos == old(self).col_pos,
                self.color_code == old(self).color_code,
                forall|k: usize|
                    k < col ==> #[trigger] self.buffer.cell(row, k) == (ScreenChar {
                        character: 0x20,
                        color_code: self.color_code,
                    }),
                forall|r: usize, k: usize|
                    r < 25 && k < 80 && r != row ==> #[trigger] self.buffer.cell(r, k)
                        == old(self).buffer.cell(r, k),
            decreases 80 - col,
        {
            self.buffer.write(row, col, ScreenChar { character: 0x20, color_code: self.color_code });
            col = col + 1;
        }
        proof {
            let want = old(self)@.cells.update(row as int, blank_row(old(self).color()));
            assert forall|r: int| 0 <= r < 25 implies #[trigger] self@.cells[r] == want[r] by {
                assert(self@.cells[r] =~= want[r]);
            }
            assert(self@.cells =~= want);
        }
    }
}

impl Screen {
    /// The screen after `text` and a line feed have been written in `color`.
    pub open spec fn write_line(self, text: &str, color: ColorCode) -> Screen {
        self.write_bytes(text.spec_bytes(), color).write_byte(0x0a, color)
    }
}

impl<B: TextBuffer> Writer<B> {
    /// Writes `text` and breaks the line.
    pub fn write_line(&mut self, text: &str)
        requires
            old(self)@.wf(),
        ensures
            final(self)@ == old(self)@.write_line(text, old(self).color()),
            final(self)@.wf(),
            final(self).color() == old(self).color(),
    {
        self.write_string(text);
        self.write_byte(0x0a);
    }
}

/// The screen after the welcome banner has been written in `color`.
pub open spec fn splash(screen: Screen, color: ColorCode) -> Screen {
    screen.write_line(
        " ============================================================================== ",
        color,
    ).write_line(
        "                           WELCOME TO FERRIX (v0.1.0)                           ",
        color,
    ).write_line(
        " ============================================================================== ",
        color,
    ).write_line("", color).write_line("   [OK] VGA Buffer initialized", color).write_line(
        "   [OK] Kernel loaded successfully",
        color,
    ).write_line("", color).write_line(
        " ------------------------------------------------------------------------------ ",
        color,
    )
}

/// Writes the welcome banner: eight lines, two of them empty.
pub fn splash_screen<B: TextBuffer>(writer: &mut Writer<B>)
    requires
        old(writer)@.wf(),
    ensures
        final(writer)@ == splash(old(writer)@, old(writer).color()),
        final(writer)@.wf(),
        final(writer).color() == old(writer).color(),
{
    writer.write_line(
        " ============================================================================== ",
    );
    writer.write_line(
        "                           WELCOME TO FERRIX (v0.1.0)                           ",
    );
    writer.write_line(
        " ============================================================================== ",
    );
    writer.write_line("");
    writer.write_line("   [OK] VGA Buffer initialized");
    writer.write_line("   [OK] Kernel loaded successfully");
    writer.write_line("");
    writer.write_line(
        " ------------------------------------------------------------------------------ ",
    );
}

} // verus!
