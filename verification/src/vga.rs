//! The VGA text-mode writer.
//!
//! The screen is a grid of `BUFFER_HEIGHT` rows of `BUFFER_WIDTH` cells, each a
//! character byte and a color byte. Text is always written on the bottom row;
//! a new line scrolls every row up by one and blanks the bottom row. The writer
//! keeps the contents of the grid; the caller copies them to the memory-mapped
//! buffer at `VGA_BUFFER_PTR`.

use vstd::prelude::*;
use vstd::string::StringSliceAdditionalSpecFns;

verus! {

/// Where the text buffer is mapped in memory.
pub const VGA_BUFFER_PTR: usize = 0xb8000;

pub const BUFFER_WIDTH: usize = 80;
pub const BUFFER_HEIGHT: usize = 25;

/// The number of cells of the screen.
pub const BUFFER_CELLS: usize = BUFFER_WIDTH * BUFFER_HEIGHT;

/// The sixteen colors of the text mode.
#[derive(Debug, Clone, Copy, PartialEq, Eq, Structural)]
pub enum Color {
    Black,
    Blue,
    Green,
    Cyan,
    Red,
    Magenta,
    Brown,
    LightGray,
    DarkGray,
    LightBlue,
    LightGreen,
    LightCyan,
    LightRed,
    Pink,
    Yellow,
    White,
}

impl Color {
    /// The hardware number of this color.
    pub open spec fn code(self) -> u8 {
        match self {
            Color::Black => 0,
            Color::Blue => 1,
            Color::Green => 2,
            Color::Cyan => 3,
            Color::Red => 4,
            Color::Magenta => 5,
            Color::Brown => 6,
            Color::LightGray => 7,
            Color::DarkGray => 8,
            Color::LightBlue => 9,
            Color::LightGreen => 10,
            Color::LightCyan => 11,
            Color::LightRed => 12,
            Color::Pink => 13,
            Color::Yellow => 14,
            Color::White => 15,
        }
    }

    pub fn as_u8(self) -> (c: u8)
        ensures
            c == self.code(),
            c < 16,
    {
        match self {
            Color::Black => 0,
            Color::Blue => 1,
            Color::Green => 2,
            Color::Cyan => 3,
            Color::Red => 4,
            Color::Magenta => 5,
            Color::Brown => 6,
            Color::LightGray => 7,
            Color::DarkGray => 8,
            Color::LightBlue => 9,
            Color::LightGreen => 10,
            Color::LightCyan => 11,
            Color::LightRed => 12,
            Color::Pink => 13,
            Color::Yellow => 14,
            Color::White => 15,
        }
    }
}

/// A color byte: the background color in the high four bits, the foreground
/// color in the low four bits.
#[derive(Debug, Clone, Copy, PartialEq, Eq, Structural)]
pub struct ColorCode(pub u8);

impl ColorCode {
    pub fn new(foregound: Color, background: Color) -> (code: Self)
        ensures
            code.0 == (background.code() << 4u8) | foregound.code(),
            code.0 == background.code() * 16 + foregound.code(),
            code.0 % 16 == foregound.code(),
            code.0 / 16 == background.code(),
    {
        let b = background.as_u8();
        let f = foregound.as_u8();
        proof {
            assert((b << 4u8) | f == b * 16 + f) by (bit_vector)
                requires b < 16u8, f < 16u8;
        }
        ColorCode((b << 4u8) | f)
    }
}

/// One cell of the screen.
#[derive(Debug, Clone, Copy, PartialEq, Eq, Structural)]
pub struct VGAChar {
    pub character: u8,
    pub color: ColorCode,
}

/// A cell whose two bytes are zero, as a cleared row holds.
pub open spec fn blank() -> VGAChar {
    VGAChar { character: 0, color: ColorCode(0) }
}

/// What the writer holds: the column of the next character on the bottom row,
/// the cells row by row, and the color of text written with `write_string`.
pub struct ScreenState {
    pub cursor_x: nat,
    pub cells: Seq<VGAChar>,
    pub default_color: ColorCode,
}

pub open spec fn cell_index(row: int, col: int) -> int {
    row * BUFFER_WIDTH + col
}

/// Whether `s` has a full grid and its cursor on the bottom row or just past its end.
pub open spec fn well_formed(s: ScreenState) -> bool {
    &&& s.cells.len() == BUFFER_CELLS
    &&& s.cursor_x <= BUFFER_WIDTH
}

/// The cells after every row moved up by one and the bottom row was blanked.
pub open spec fn scrolled_cells(cells: Seq<VGAChar>) -> Seq<VGAChar> {
    Seq::new(
        BUFFER_CELLS as nat,
        |i: int|
            if i < cell_index(BUFFER_HEIGHT - 1, 0) {
                cells[i + BUFFER_WIDTH]
            } else {
                blank()
            },
    )
}

/// The state after a new line: rows scrolled up, cursor at the start.
pub open spec fn new_line_state(s: ScreenState) -> ScreenState {
    ScreenState { cursor_x: 0, cells: scrolled_cells(s.cells), default_color: s.default_color }
}

/// The state after `byte` in `color` was put at the cursor, after a new line
/// first if the bottom row was full.
pub open spec fn put_byte_state(s: ScreenState, byte: u8, color: ColorCode) -> ScreenState {
    let t = if s.cursor_x >= BUFFER_WIDTH { new_line_state(s) } else { s };
    ScreenState {
        cursor_x: t.cursor_x + 1,
        cells: t.cells.update(
            cell_index(BUFFER_HEIGHT - 1, t.cursor_x as int),
            VGAChar { character: byte, color },
        ),
        default_color: t.default_color,
    }
}

/// The state after `c` was written in `color`: a new line for `'\n'`, else
/// the low byte of the character at the cursor.
pub open spec fn write_char_state(s: ScreenState, c: char, color: ColorCode) -> ScreenState {
    if c == '\n' {
        new_line_state(s)
    } else {
        put_byte_state(s, c as u8, color)
    }
}

/// Whether `b` is shown as itself: printable ASCII or a new line.
pub open spec fn shown_as_is(b: u8) -> bool {
    (0x20 <= b && b <= 0x7e) || b == 10
}

/// The byte a string byte is written as: itself where printable or a new
/// line, else the block character `0xfe`.
pub open spec fn shown_byte(b: u8) -> u8 {
    if shown_as_is(b) { b } else { 0xfe }
}

/// The state after one byte of a string was written in the default color.
pub open spec fn write_byte_state(s: ScreenState, b: u8) -> ScreenState {
    if b == 10 {
        new_line_state(s)
    } else {
        put_byte_state(s, shown_byte(b), s.default_color)
    }
}

/// The state after `bytes` were written one by one.
pub open spec fn write_bytes_state(s: ScreenState, bytes: Seq<u8>) -> ScreenState
    decreases bytes.len(),
{
    if bytes.len() == 0 {
        s
    } else {
        write_byte_state(write_bytes_state(s, bytes.drop_last()), bytes.last())
    }
}

/// Writing `a` and then `b` leaves the screen as writing `a` followed by `b` at once.
pub proof fn lemma_write_bytes_concat(s: ScreenState, a: Seq<u8>, b: Seq<u8>)
    ensures
        write_bytes_state(s, a + b) == write_bytes_state(write_bytes_state(s, a), b),
    decreases b.len(),
{
    if b.len() == 0 {
        assert(a + b =~= a);
    } else {
        lemma_write_bytes_concat(s, a, b.drop_last());
        assert((a + b).drop_last() =~= a + b.drop_last());
        assert((a + b).last() == b.last());
    }
}

/// A new line moves the contents of each row to the row above it, blanks the
/// bottom row and puts the cursor at the start of the bottom row.
pub proof fn lemma_new_line_scrolls(s: ScreenState)
    requires
        well_formed(s),
    ensures
        well_formed(new_line_state(s)),
        new_line_state(s).cursor_x == 0,
        forall|row: int, col: int| 0 <= row < BUFFER_HEIGHT - 1 && 0 <= col < BUFFER_WIDTH ==>
            #[trigger] new_line_state(s).cells[cell_index(row, col)] == s.cells[cell_index(row + 1, col)],
        forall|col: int| 0 <= col < BUFFER_WIDTH ==>
            #[trigger] new_line_state(s).cells[cell_index(BUFFER_HEIGHT - 1, col)] == (VGAChar { character: 0, color: ColorCode(0) }),
{
}

/// The sixteen colors have the numbers of the VGA palette.
pub proof fn lemma_color_numbers()
    ensures
        Color::Black.code() == 0,
        Color::Blue.code() == 1,
        Color::Green.code() == 2,
        Color::Cyan.code() == 3,
        Color::Red.code() == 4,
        Color::Magenta.code() == 5,
        Color::Brown.code() == 6,
        Color::LightGray.code() == 7,
        Color::DarkGray.code() == 8,
        Color::LightBlue.code() == 9,
        Color::LightGreen.code() == 10,
        Color::LightCyan.code() == 11,
        Color::LightRed.code() == 12,
        Color::Pink.code() == 13,
        Color::Yellow.code() == 14,
        Color::White.code() == 15,
{
}

/// A new-line character always starts a new line, wherever the cursor is:
/// every row moves up by one, the bottom row becomes zero bytes and the
/// cursor goes to its start.
pub proof fn lemma_newline_char_scrolls(s: ScreenState, color: ColorCode)
    requires
        well_formed(s),
    ensures
        write_char_state(s, '\n', color).cursor_x == 0,
        write_char_state(s, '\n', color).default_color == s.default_color,
        write_char_state(s, '\n', color).cells.len() == 2000,
        forall|i: int| 0 <= i < 1920 ==> #[trigger] write_char_state(s, '\n', color).cells[i] == s.cells[i + 80],
        forall|i: int| 1920 <= i < 2000 ==>
            #[trigger] write_char_state(s, '\n', color).cells[i] == (VGAChar { character: 0, color: ColorCode(0) }),
{
}

/// On a full bottom row, a character other than a new line first starts a
/// new line: every row moves up by one, and the character lands at the start
/// of a bottom row that is otherwise zero bytes, with the cursor after it.
pub proof fn lemma_char_on_full_row_wraps(s: ScreenState, c: char, color: ColorCode)
    requires
        well_formed(s),
        s.cursor_x == 80,
        c != '\n',
    ensures
        write_char_state(s, c, color).cursor_x == 1,
        write_char_state(s, c, color).cells.len() == 2000,
        forall|i: int| 0 <= i < 1920 ==> #[trigger] write_char_state(s, c, color).cells[i] == s.cells[i + 80],
        write_char_state(s, c, color).cells[1920] == (VGAChar { character: c as u8, color }),
        forall|i: int| 1921 <= i < 2000 ==>
            #[trigger] write_char_state(s, c, color).cells[i] == (VGAChar { character: 0, color: ColorCode(0) }),
{
}

/// Each byte of a string: a new line (byte 10) always starts a new line,
/// wherever the cursor is; any other byte is shown in the default color as
/// itself when it is printable ASCII and as the block `0xfe` otherwise, at the
/// cursor when the bottom row has room, and else at the start of a new line.
pub proof fn lemma_string_byte(s: ScreenState, b: u8)
    requires
        well_formed(s),
    ensures
        write_bytes_state(s, seq![b]).cells.len() == 2000,
        write_bytes_state(s, seq![b]).default_color == s.default_color,
        b == 10 ==> {
            &&& write_bytes_state(s, seq![b]).cursor_x == 0
            &&& forall|i: int| 0 <= i < 1920 ==> #[trigger] write_bytes_state(s, seq![b]).cells[i] == s.cells[i + 80]
            &&& forall|i: int| 1920 <= i < 2000 ==>
                #[trigger] write_bytes_state(s, seq![b]).cells[i] == (VGAChar { character: 0, color: ColorCode(0) })
        },
        b != 10 && s.cursor_x < 80 ==> {
            &&& write_bytes_state(s, seq![b]).cursor_x == s.cursor_x + 1
            &&& write_bytes_state(s, seq![b]).cells[1920 + s.cursor_x as int] == (VGAChar {
                character: if 0x20 <= b && b <= 0x7e { b } else { 0xfeu8 },
                color: s.default_color,
            })
            &&& forall|i: int| 0 <= i < 2000 && i != 1920 + s.cursor_x ==>
                #[trigger] write_bytes_state(s, seq![b]).cells[i] == s.cells[i]
        },
        b != 10 && s.cursor_x == 80 ==> {
            &&& write_bytes_state(s, seq![b]).cursor_x == 1
            &&& forall|i: int| 0 <= i < 1920 ==> #[trigger] write_bytes_state(s, seq![b]).cells[i] == s.cells[i + 80]
            &&& write_bytes_state(s, seq![b]).cells[1920] == (VGAChar {
                character: if 0x20 <= b && b <= 0x7e { b } else { 0xfeu8 },
                color: s.default_color,
            })
            &&& forall|i: int| 1921 <= i < 2000 ==>
                #[trigger] write_bytes_state(s, seq![b]).cells[i] == (VGAChar { character: 0, color: ColorCode(0) })
        },
{
    assert(seq![b].drop_last() =~= Seq::<u8>::empty());
    assert(seq![b].last() == b);
    assert(write_bytes_state(s, Seq::<u8>::empty()) == s);
    assert(write_bytes_state(s, seq![b]) == write_byte_state(s, b));
}

/// Every write keeps the grid full and the cursor within the bottom row.
pub proof fn lemma_writes_keep_well_formed(s: ScreenState, c: char, color: ColorCode, bytes: Seq<u8>)
    requires
        well_formed(s),
    ensures
        well_formed(write_char_state(s, c, color)),
        well_formed(write_bytes_state(s, bytes)),
    decreases bytes.len(),
{
    if bytes.len() > 0 {
        lemma_writes_keep_well_formed(s, c, color, bytes.drop_last());
    }
}

/// A character other than a new line, written while the bottom row has room,
/// lands at the cursor on the bottom row; the cursor moves one column on and
/// no other cell changes.
pub proof fn lemma_write_char_in_place(s: ScreenState, c: char, color: ColorCode)
    requires
        well_formed(s),
        s.cursor_x < BUFFER_WIDTH,
        c != '\n',
    ensures
        write_char_state(s, c, color).cursor_x == s.cursor_x + 1,
        write_char_state(s, c, color).cells[cell_index(BUFFER_HEIGHT - 1, s.cursor_x as int)]
            == (VGAChar { character: c as u8, color }),
        forall|i: int| 0 <= i < BUFFER_CELLS && i != cell_index(BUFFER_HEIGHT - 1, s.cursor_x as int) ==>
            #[trigger] write_char_state(s, c, color).cells[i] == s.cells[i],
{
}

/// Whether every byte of `bytes` is printable ASCII.
pub open spec fn printable(bytes: Seq<u8>) -> bool {
    forall|k: int| 0 <= k < bytes.len() ==> 0x20 <= #[trigger] bytes[k] && bytes[k] <= 0x7e
}

/// Printable text that fits in the rest of the bottom row appears there as it
/// is, from the cursor on, in the default color; the cursor moves past it and
/// no other cell changes.
pub proof fn lemma_printable_text_appears(s: ScreenState, bytes: Seq<u8>)
    requires
        well_formed(s),
        printable(bytes),
        s.cursor_x + bytes.len() <= BUFFER_WIDTH,
    ensures
        write_bytes_state(s, bytes).cursor_x == s.cursor_x + bytes.len(),
        write_bytes_state(s, bytes).default_color == s.default_color,
        write_bytes_state(s, bytes).cells.len() == BUFFER_CELLS,
        forall|k: int| 0 <= k < bytes.len() ==>
            #[trigger] write_bytes_state(s, bytes).cells[cell_index(BUFFER_HEIGHT - 1, s.cursor_x + k)]
                == (VGAChar { character: bytes[k], color: s.default_color }),
        forall|i: int| 0 <= i < BUFFER_CELLS && !(cell_index(BUFFER_HEIGHT - 1, s.cursor_x as int) <= i
            < cell_index(BUFFER_HEIGHT - 1, (s.cursor_x + bytes.len()) as int)) ==>
            #[trigger] write_bytes_state(s, bytes).cells[i] == s.cells[i],
    decreases bytes.len(),
{
    if bytes.len() > 0 {
        let prefix = bytes.drop_last();
        assert(printable(prefix)) by {
            assert forall|k: int| 0 <= k < prefix.len() implies 0x20 <= #[trigger] prefix[k] && prefix[k] <= 0x7e by {
                assert(prefix[k] == bytes[k]);
            }
        }
        lemma_printable_text_appears(s, prefix);
        let t = write_bytes_state(s, prefix);
        let b = bytes.last();
        assert(0x20 <= bytes[bytes.len() - 1] <= 0x7e);
        assert(shown_byte(b) == b);
        let u = write_bytes_state(s, bytes);
        assert(u == write_byte_state(t, b));
        assert forall|k: int| 0 <= k < bytes.len() implies
            #[trigger] u.cells[cell_index(BUFFER_HEIGHT - 1, s.cursor_x + k)]
                == (VGAChar { character: bytes[k], color: s.default_color }) by {
            if k < prefix.len() {
                assert(prefix[k] == bytes[k]);
                assert(t.cells[cell_index(BUFFER_HEIGHT - 1, s.cursor_x + k)]
                    == (VGAChar { character: prefix[k], color: s.default_color }));
            }
        }
    }
}

/// The cells of the screen, row after row.
struct VGABuffer {
    chars: Vec<VGAChar>,
}

impl VGABuffer {
    /// Moves the contents of every row but the top one up by one row; the
    /// bottom row keeps its contents.
    fn shift_rows_up(&mut self)
        requires
            old(self).chars.len() == BUFFER_CELLS,
        ensures
            final(self).chars.len() == BUFFER_CELLS,
            forall|i: int| 0 <= i < cell_index(BUFFER_HEIGHT - 1, 0) ==>
                #[trigger] final(self).chars@[i] == old(self).chars@[i + BUFFER_WIDTH],
            forall|i: int| cell_index(BUFFER_HEIGHT - 1, 0) <= i < BUFFER_CELLS ==>
                #[trigger] final(self).chars@[i] == old(self).chars@[i],
    {
        let ghost orig = self.chars@;
        let mut row: usize = 1;
        while row < BUFFER_HEIGHT
            invariant
                1 <= row <= BUFFER_HEIGHT,
                self.chars.len() == BUFFER_CELLS,
                orig.len() == BUFFER_CELLS,
                forall|i: int| 0 <= i < cell_index(row - 1, 0) ==> #[trigger] self.chars@[i] == orig[i + BUFFER_WIDTH],
                forall|i: int| cell_index(row - 1, 0) <= i < BUFFER_CELLS ==> #[trigger] self.chars@[i] == orig[i],
            decreases BUFFER_HEIGHT - row,
        {
            let mut col: usize = 0;
            while col < BUFFER_WIDTH
                invariant
                    1 <= row < BUFFER_HEIGHT,
                    col <= BUFFER_WIDTH,
                    self.chars.len() == BUFFER_CELLS,
                    orig.len() == BUFFER_CELLS,
                    forall|i: int| 0 <= i < cell_index(row - 1, col as int) ==> #[trigger] self.chars@[i] == orig[i + BUFFER_WIDTH],
                    forall|i: int| cell_index(row - 1, col as int) <= i < BUFFER_CELLS ==> #[trigger] self.chars@[i] == orig[i],
                decreases BUFFER_WIDTH - col,
            {
                let c = self.chars[row * BUFFER_WIDTH + col];
                self.chars.set((row - 1) * BUFFER_WIDTH + col, c);
                col += 1;
            }
            row += 1;
        }
    }

    /// Sets every cell of `row` to zero bytes.
    fn clear_row(&mut self, row: usize)
        requires
            old(self).chars.len() == BUFFER_CELLS,
            row < BUFFER_HEIGHT,
        ensures
            final(self).chars.len() == BUFFER_CELLS,
            forall|i: int| 0 <= i < BUFFER_CELLS ==>
                #[trigger] final(self).chars@[i] == if cell_index(row as int, 0) <= i < cell_index(row as int + 1, 0) {
                    blank()
                } else {
                    old(self).chars@[i]
                },
    {
        let ghost orig = self.chars@;
        let start = row * BUFFER_WIDTH;
        let mut col: usize = 0;
        while col < BUFFER_WIDTH
            invariant
                row < BUFFER_HEIGHT,
                start == row * BUFFER_WIDTH,
                col <= BUFFER_WIDTH,
                self.chars.len() == BUFFER_CELLS,
                orig.len() == BUFFER_CELLS,
                forall|i: int| 0 <= i < BUFFER_CELLS ==>
                    #[trigger] self.chars@[i] == if start <= i < start + col {
                        blank()
                    } else {
                        orig[i]
                    },
            decreases BUFFER_WIDTH - col,
        {
            self.chars.set(start + col, VGAChar { character: 0, color: ColorCode(0) });
            col += 1;
        }
    }
}

/// Writes text to the bottom row of the screen, scrolling as needed.
pub struct VGAWriter {
    cursor_x: usize,
    buffer: VGABuffer,
    default_color: ColorCode,
}

impl View for VGAWriter {
    type V = ScreenState;

    closed spec fn view(&self) -> ScreenState {
        ScreenState {
            cursor_x: self.cursor_x as nat,
            cells: self.buffer.chars@,
            default_color: self.default_color,
        }
    }
}

impl VGAWriter {
    /// The grid is full and the cursor is on the bottom row or just past its end.
    pub closed spec fn wf(&self) -> bool {
        &&& self.buffer.chars.len() == BUFFER_CELLS
        &&& self.cursor_x <= BUFFER_WIDTH
    }

    /// A well-formed writer is one whose view is a well-formed screen.
    pub proof fn lemma_wf_is_well_formed(&self)
        ensures
            self.wf() <==> well_formed(self@),
    {
    }

    /// A writer over the screen as it stands, `screen` being its cells row
    /// after row as read from the text buffer, with the cursor at the start of
    /// the bottom row, writing strings in `default_color`.
    pub fn new(default_color: ColorCode, screen: Vec<VGAChar>) -> (w: Self)
        requires
            screen.len() == BUFFER_CELLS,
        ensures
            w@.cursor_x == 0,
            w@.cells == screen@,
            w@.default_color == default_color,
            w.wf(),
    {
        VGAWriter { cursor_x: 0, buffer: VGABuffer { chars: screen }, default_color }
    }

    /// The cells of the screen, row after row, as they are to be shown.
    pub fn cells(&self) -> (cells: &Vec<VGAChar>)
        requires
            self.wf(),
        ensures
            cells@ == self@.cells,
            cells.len() == BUFFER_CELLS,
    {
        &self.buffer.chars
    }

    /// The column at which the next character lands on the bottom row.
    pub fn cursor_x(&self) -> (x: usize)
        requires
            self.wf(),
        ensures
            x == self@.cursor_x,
            x <= BUFFER_WIDTH,
    {
        self.cursor_x
    }

    /// The color in which `write_string` writes.
    pub fn default_color(&self) -> (c: ColorCode)
        ensures
            c == self@.default_color,
    {
        self.default_color
    }

    /// Writes `c` in `color`: a new line for `'\n'`, else the character's low
    /// byte at the cursor on the bottom row, after a new line when the row is full.
    pub fn write_char(&mut self, c: char, color: ColorCode)
        requires
            old(self).wf(),
        ensures
            final(self).wf(),
            final(self)@ == write_char_state(old(self)@, c, color),
            well_formed(final(self)@),
    {
        if c == '\n' {
            self.new_line();
        } else {
            if self.cursor_x >= BUFFER_WIDTH {
                self.new_line();
            }
            let col = self.cursor_x;
            let row = BUFFER_HEIGHT - 1;
            self.buffer.chars.set(row * BUFFER_WIDTH + col, VGAChar { character: c as u8, color });
            self.cursor_x += 1;
            assert(self@.cells =~= write_char_state(old(self)@, c, color).cells);
        }
    }

    /// Writes the bytes of `s` in the default color: printable ASCII and new
    /// lines as they are, every other byte as the block character `0xfe`.
    pub fn write_string(&mut self, s: &str)
        requires
            old(self).wf(),
        ensures
            final(self).wf(),
            final(self)@ == write_bytes_state(old(self)@, s.spec_bytes()),
            well_formed(final(self)@),
    {
        let bytes = s.as_bytes();
        let ghost start = self@;
        let mut i: usize = 0;
        while i < bytes.len()
            invariant
                i <= bytes@.len(),
                bytes@ == s.spec_bytes(),
                self@ == write_bytes_state(start, bytes@.subrange(0, i as int)),
                self.wf(),
            decreases bytes@.len() - i,
        {
            let byte = bytes[i];
            let default_color = self.default_color;
            if (0x20 <= byte && byte <= 0x7e) || byte == 10 {
                self.write_char(byte as char, default_color);
            } else {
                self.write_char(0xfe as char, default_color);
            }
            proof {
                let next = bytes@.subrange(0, i + 1);
                assert(next.drop_last() =~= bytes@.subrange(0, i as int));
                assert(next.last() == byte);
                assert((byte as char == '\n') == (byte == 10));
                assert((byte as char) as u8 == byte);
                assert((0xfeu8 as char) as u8 == 0xfeu8);
            }
            i += 1;
        }
        assert(bytes@.subrange(0, bytes@.len() as int) =~= bytes@);
    }

    /// Scrolls every row up by one, blanks the bottom row and puts the cursor at its start.
    pub fn new_line(&mut self)
        requires
            old(self).wf(),
        ensures
            final(self).wf(),
            final(self)@ == new_line_state(old(self)@),
            well_formed(final(self)@),
    {
        self.buffer.shift_rows_up();
        self.clear_row(BUFFER_HEIGHT - 1);
        self.cursor_x = 0;
        assert(self@.cells =~= scrolled_cells(old(self)@.cells));
    }

    /// Sets every cell of `row` to zero bytes.
    fn clear_row(&mut self, row: usize)
        requires
            old(self).wf(),
            row < BUFFER_HEIGHT,
        ensures
            final(self).wf(),
            final(self)@.cursor_x == old(self)@.cursor_x,
            final(self)@.default_color == old(self)@.default_color,
            final(self)@.cells.len() == BUFFER_CELLS,
            forall|i: int| 0 <= i < BUFFER_CELLS ==>
                #[trigger] final(self)@.cells[i] == if cell_index(row as int, 0) <= i < cell_index(row as int + 1, 0) {
                    blank()
                } else {
                    old(self)@.cells[i]
                },
    {
        self.buffer.clear_row(row);
    }
}

} // verus!
