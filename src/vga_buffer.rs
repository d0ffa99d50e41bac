//! The text console: a grid of character cells, each an ASCII code and a
//! packed colour attribute, written through volatile cells so that the
//! hardware observes every store.

use vstd::prelude::*;
use volatile::Volatile;
use vstd::string::StringSliceAdditionalSpecFns;

verus! {

/// The sixteen colours of the text console, in their hardware order.
#[derive(Debug, Clone, Copy, PartialEq, Eq, Structural)]
pub enum Color {
    Black,
    Blue,
    Green,
    Cyan,
    Red,
    Magenta,
    Brown,
    LightGray,
    DarkGray,
    LightBlue,
    LightGreen,
    LightCyan,
    LightRed,
    Pink,
    Yellow,
    White,
}

/// The hardware index of a colour, 0 to 15.
pub open spec fn color_index(c: Color) -> u8 {
    match c {
        Color::Black => 0,
        Color::Blue => 1,
        Color::Green => 2,
        Color::Cyan => 3,
        Color::Red => 4,
        Color::Magenta => 5,
        Color::Brown => 6,
        Color::LightGray => 7,
        Color::DarkGray => 8,
        Color::LightBlue => 9,
        Color::LightGreen => 10,
        Color::LightCyan => 11,
        Color::LightRed => 12,
        Color::Pink => 13,
        Color::Yellow => 14,
        Color::White => 15,
    }
}

impl Color {
    /// The hardware index of this colour.
    pub fn as_u8(self) -> (r: u8)
        ensures
            r == color_index(self),
            r < 16,
    {
        match self {
            Color::Black => 0,
            Color::Blue => 1,
            Color::Green => 2,
            Color::Cyan => 3,
            Color::Red => 4,
            Color::Magenta => 5,
            Color::Brown => 6,
            Color::LightGray => 7,
            Color::DarkGray => 8,
            Color::LightBlue => 9,
            Color::LightGreen => 10,
            Color::LightCyan => 11,
            Color::LightRed => 12,
            Color::Pink => 13,
            Color::Yellow => 14,
            Color::White => 15,
        }
    }
}

/// A packed colour attribute: foreground in the low nibble, background in
/// the high nibble.
#[derive(Debug, Clone, Copy, PartialEq, Eq, Structural)]
pub struct ColorCode(u8);

impl ColorCode {
    /// The attribute byte.
    pub closed spec fn byte(self) -> u8 {
        self.0
    }

    /// Packs a foreground and a background colour.
    pub fn new(foreground: Color, background: Color) -> (r: ColorCode)
        ensures
            r.byte() == color_index(background) * 16 + color_index(foreground),
    {
        let f = foreground.as_u8();
        let b = background.as_u8();
        assert((b << 4u8) | f == b * 16 + f) by (bit_vector)
            requires
                f < 16u8,
                b < 16u8,
        ;
        ColorCode((b << 4u8) | f)
    }

    /// The attribute byte.
    pub fn as_u8(self) -> (r: u8)
        ensures
            r == self.byte(),
    {
        self.0
    }
}


/// Rows of the grid.
pub const BUFFER_HEIGHT: usize = 25;

/// Columns of the grid.
pub const BUFFER_WIDTH: usize = 80;

/// The code stored in place of any byte outside printable ASCII.
pub const REPLACEMENT_BYTE: u8 = 0xfe;

/// One cell of the grid.
#[derive(Debug, Clone, Copy, PartialEq, Eq, Structural)]
pub struct ScreenChar {
    pub ascii_character: u8,
    pub color_code: ColorCode,
}

#[verifier::external_type_specification]
#[verifier::external_body]
#[verifier::reject_recursive_types(T)]
pub struct ExVolatile<T: Copy>(Volatile<T>);

/// The character code and the attribute byte that a volatile cell holds.
pub uninterp spec fn cell_contents(v: Volatile<ScreenChar>) -> (u8, u8);

/// The screen character that a volatile cell holds.
pub closed spec fn char_of(v: Volatile<ScreenChar>) -> ScreenChar {
    ScreenChar {
        ascii_character: cell_contents(v).0,
        color_code: ColorCode(cell_contents(v).1),
    }
}

/// Relies on volatile::Volatile::new: the new cell holds the value given.
#[verifier::external_body]
fn new_cell(c: ScreenChar) -> (r: Volatile<ScreenChar>)
    ensures
        cell_contents(r) == (c.ascii_character, c.color_code.0),
{
    Volatile::new(c)
}

/// Relies on volatile::Volatile::read: returns the value the cell holds.
#[verifier::external_body]
fn read_cell(v: &Volatile<ScreenChar>) -> (r: ScreenChar)
    ensures
        cell_contents(*v) == (r.ascii_character, r.color_code.0),
{
    v.read()
}

/// Relies on volatile::Volatile::write: afterwards the cell holds the value given.
#[verifier::external_body]
fn write_cell(v: &mut Volatile<ScreenChar>, c: ScreenChar)
    ensures
        cell_contents(*final(v)) == (c.ascii_character, c.color_code.0),
{
    v.write(c)
}

/// The grid, stored row by row in volatile cells.
pub struct Buffer {
    chars: Vec<Volatile<ScreenChar>>,
}

impl Buffer {
    /// The cells, row by row.
    pub closed spec fn cells(&self) -> Seq<ScreenChar> {
        self.chars@.map_values(|v: Volatile<ScreenChar>| char_of(v))
    }

    /// A grid of `BUFFER_HEIGHT * BUFFER_WIDTH` copies of `c`.
    pub fn filled(c: ScreenChar) -> (r: Buffer)
        ensures
            r.cells() == Seq::new((BUFFER_HEIGHT * BUFFER_WIDTH) as nat, |i: int| c),
    {
        let mut chars: Vec<Volatile<ScreenChar>> = Vec::new();
        let n: usize = BUFFER_HEIGHT * BUFFER_WIDTH;
        while chars.len() < n
            invariant
                n == BUFFER_HEIGHT * BUFFER_WIDTH,
                chars.len() <= n,
                forall|i: int| 0 <= i < chars.len() ==> char_of(#[trigger] chars@[i]) == c,
            decreases n - chars.len(),
        {
            chars.push(new_cell(c));
        }
        let r = Buffer { chars };
        assert(r.cells() =~= Seq::new((BUFFER_HEIGHT * BUFFER_WIDTH) as nat, |i: int| c));
        r
    }

    fn read(&self, k: usize) -> (r: ScreenChar)
        requires
            k < self.cells().len(),
        ensures
            r == self.cells()[k as int],
    {
        read_cell(&self.chars[k])
    }

    fn write(&mut self, k: usize, c: ScreenChar)
        requires
            k < old(self).cells().len(),
        ensures
            final(self).cells() == old(self).cells().update(k as int, c),
    {
        write_cell(&mut self.chars[k], c);
        assert(self.cells() =~= old(self).cells().update(k as int, c));
    }
}


/// Whether a byte is printable ASCII (space to tilde).
pub open spec fn is_printable(b: u8) -> bool {
    0x20 <= b && b <= 0x7e
}

/// The code a byte is stored as: itself if printable, else the replacement.
pub open spec fn shown_byte(b: u8) -> u8 {
    if is_printable(b) {
        b
    } else {
        REPLACEMENT_BYTE
    }
}

/// A row of blanks in the given attribute.
pub open spec fn blank_row(color: ColorCode) -> Seq<ScreenChar> {
    Seq::new(BUFFER_WIDTH as nat, |c: int| ScreenChar { ascii_character: 0x20u8, color_code: color })
}

/// A grid of blanks in the given attribute.
pub open spec fn blank_grid(color: ColorCode) -> Seq<Seq<ScreenChar>> {
    Seq::new(BUFFER_HEIGHT as nat, |r: int| blank_row(color))
}

/// The grid moved up by one row, with a blank last row.
pub open spec fn scrolled(g: Seq<Seq<ScreenChar>>, color: ColorCode) -> Seq<Seq<ScreenChar>> {
    g.drop_first().push(blank_row(color))
}

/// Grid and cursor column after writing one byte.
pub open spec fn put_byte(g: Seq<Seq<ScreenChar>>, col: nat, color: ColorCode, b: u8) -> (
    Seq<Seq<ScreenChar>>,
    nat,
) {
    if b == 0x0a {
        (scrolled(g, color), 0)
    } else {
        let g1 = if col >= BUFFER_WIDTH {
            scrolled(g, color)
        } else {
            g
        };
        let c1: nat = if col >= BUFFER_WIDTH {
            0
        } else {
            col
        };
        let last = (BUFFER_HEIGHT - 1) as int;
        let cell = ScreenChar { ascii_character: shown_byte(b), color_code: color };
        (g1.update(last, g1[last].update(c1 as int, cell)), c1 + 1)
    }
}

/// Grid and cursor column after writing a sequence of bytes in order.
pub open spec fn put_bytes(g: Seq<Seq<ScreenChar>>, col: nat, color: ColorCode, bs: Seq<u8>) -> (
    Seq<Seq<ScreenChar>>,
    nat,
)
    decreases bs.len(),
{
    if bs.len() == 0 {
        (g, col)
    } else {
        let prev = put_bytes(g, col, color, bs.drop_last());
        put_byte(prev.0, prev.1, color, bs.last())
    }
}

/// Writes to the console grid. It always writes to the last row, and moves
/// the rows up when that row is full or on a line feed.
pub struct Writer {
    column_position: usize,
    color_code: ColorCode,
    buffer: Buffer,
}

impl Writer {
    /// The grid, as rows of cells.
    pub closed spec fn screen(&self) -> Seq<Seq<ScreenChar>> {
        Writer::grid_of(self.buffer.cells())
    }

    /// The cursor column in the last row.
    pub closed spec fn column(&self) -> nat {
        self.column_position as nat
    }

    /// The attribute new cells are written with.
    pub closed spec fn color(&self) -> ColorCode {
        self.color_code
    }

    /// The grid has its full size and the cursor is within a row or just past it.
    pub closed spec fn wf(&self) -> bool {
        &&& self.buffer.cells().len() == BUFFER_HEIGHT * BUFFER_WIDTH
        &&& self.column_position <= BUFFER_WIDTH
    }

    /// A console of blanks, with the cursor at the start of the last row.
    pub fn new(foreground: Color, background: Color) -> (r: Writer)
        ensures
            r.wf(),
            r.column() == 0,
            r.color().byte() == color_index(background) * 16 + color_index(foreground),
            r.screen() == blank_grid(r.color()),
    {
        let color_code = ColorCode::new(foreground, background);
        let buffer = Buffer::filled(ScreenChar { ascii_character: 0x20u8, color_code });
        let r = Writer { column_position: 0, color_code, buffer };
        assert forall|row: int| 0 <= row < BUFFER_HEIGHT implies #[trigger] r.screen()[row]
            =~= blank_row(color_code) by {
            assert forall|c: int| 0 <= c < BUFFER_WIDTH implies #[trigger] r.screen()[row][c]
                == blank_row(color_code)[c] by {
                assert(0 <= row * BUFFER_WIDTH + c < BUFFER_HEIGHT * BUFFER_WIDTH) by (nonlinear_arith)
                    requires
                        0 <= row < BUFFER_HEIGHT,
                        0 <= c < BUFFER_WIDTH,
                ;
            }
        }
        assert(r.screen() =~= blank_grid(color_code));
        r
    }

    /// The cell at a row and column.
    pub fn read_char(&self, row: usize, col: usize) -> (r: ScreenChar)
        requires
            self.wf(),
            row < BUFFER_HEIGHT,
            col < BUFFER_WIDTH,
        ensures
            r == self.screen()[row as int][col as int],
    {
        assert(row * BUFFER_WIDTH + col < BUFFER_HEIGHT * BUFFER_WIDTH) by (nonlinear_arith)
            requires
                row < BUFFER_HEIGHT,
                col < BUFFER_WIDTH,
        ;
        self.buffer.read(row * BUFFER_WIDTH + col)
    }

    /// Moves every row up by one, clears the last row and puts the cursor at
    /// its start.
    fn new_line(&mut self)
        requires
            old(self).wf(),
        ensures
            final(self).wf(),
            final(self).column() == 0,
            final(self).color() == old(self).color(),
            final(self).screen() == scrolled(old(self).screen(), old(self).color()),
    {
        let ghost before = self.buffer.cells();
        let mut row: usize = 1;
        while row < BUFFER_HEIGHT
            invariant
                1 <= row <= BUFFER_HEIGHT,
                self.color_code == old(self).color_code,
                self.buffer.cells().len() == BUFFER_HEIGHT * BUFFER_WIDTH,
                before.len() == BUFFER_HEIGHT * BUFFER_WIDTH,
                forall|i: int|
                    0 <= i < (row - 1) * BUFFER_WIDTH ==> #[trigger] self.buffer.cells()[i]
                        == before[i + BUFFER_WIDTH],
                forall|i: int|
                    (row - 1) * BUFFER_WIDTH <= i < BUFFER_HEIGHT * BUFFER_WIDTH
                        ==> #[trigger] self.buffer.cells()[i] == before[i],
            decreases BUFFER_HEIGHT - row,
        {
            let mut col: usize = 0;
            while col < BUFFER_WIDTH
                invariant
                    1 <= row < BUFFER_HEIGHT,
                    col <= BUFFER_WIDTH,
                    self.color_code == old(self).color_code,
                    self.buffer.cells().len() == BUFFER_HEIGHT * BUFFER_WIDTH,
                    before.len() == BUFFER_HEIGHT * BUFFER_WIDTH,
                    forall|i: int|
                        0 <= i < (row - 1) * BUFFER_WIDTH + col ==> #[trigger] self.buffer.cells()[i]
                            == before[i + BUFFER_WIDTH],
                    forall|i: int|
                        (row - 1) * BUFFER_WIDTH + col <= i < BUFFER_HEIGHT * BUFFER_WIDTH
                            ==> #[trigger] self.buffer.cells()[i] == before[i],
                decreases BUFFER_WIDTH - col,
            {
                let character = self.buffer.read(row * BUFFER_WIDTH + col);
                self.buffer.write((row - 1) * BUFFER_WIDTH + col, character);
                col = col + 1;
            }
            row = row + 1;
        }
        self.clear_row(BUFFER_HEIGHT - 1);
        self.column_position = 0;
        let ghost after = self.buffer.cells();
        let ghost expect = scrolled(Writer::grid_of(before), self.color_code);
        assert forall|r: int| 0 <= r < BUFFER_HEIGHT implies #[trigger] self.screen()[r]
            =~= expect[r] by {
            assert forall|c: int| 0 <= c < BUFFER_WIDTH implies self.screen()[r][c]
                == expect[r][c] by {
                assert((r + 1) * BUFFER_WIDTH + c == r * BUFFER_WIDTH + c + BUFFER_WIDTH);
                assert(0 <= r * BUFFER_WIDTH + c < BUFFER_HEIGHT * BUFFER_WIDTH) by (nonlinear_arith)
                    requires
                        0 <= r < BUFFER_HEIGHT,
                        0 <= c < BUFFER_WIDTH,
                ;
                if r < BUFFER_HEIGHT - 1 {
                    assert(r * BUFFER_WIDTH + c < (BUFFER_HEIGHT - 1) * BUFFER_WIDTH) by (nonlinear_arith)
                        requires
                            0 <= r < BUFFER_HEIGHT - 1,
                            0 <= c < BUFFER_WIDTH,
                    ;
                }
            }
        }
        assert(self.screen() =~= expect);
    }

    /// Writes one byte at the cursor: a line feed starts a new line; any
    /// other byte is stored (printable ASCII as itself, anything else as the
    /// replacement code), after a new line if the last row is full.
    pub fn write_byte(&mut self, byte: u8)
        requires
            old(self).wf(),
        ensures
            final(self).wf(),
            final(self).color() == old(self).color(),
            (final(self).screen(), final(self).column()) == put_byte(
                old(self).screen(),
                old(self).column(),
                old(self).color(),
                byte,
            ),
    {
        if byte == 0x0a {
            self.new_line();
        } else {
            if self.column_position >= BUFFER_WIDTH {
                self.new_line();
            }
            let row = BUFFER_HEIGHT - 1;
            let col = self.column_position;
            let shown = if 0x20 <= byte && byte <= 0x7e {
                byte
            } else {
                REPLACEMENT_BYTE
            };
            let cell = ScreenChar { ascii_character: shown, color_code: self.color_code };
            let ghost cells = self.buffer.cells();
            self.buffer.write(row * BUFFER_WIDTH + col, cell);
            proof {
                Writer::lemma_grid_update(cells, row as int, col as int, cell);
            }
            self.column_position = col + 1;
        }
    }

    /// Writes each byte of `s` in order; bytes other than printable ASCII and
    /// line feed are stored as the replacement code.
    pub fn write_string(&mut self, s: &str)
        requires
            old(self).wf(),
        ensures
            final(self).wf(),
            final(self).color() == old(self).color(),
            (final(self).screen(), final(self).column()) == put_bytes(
                old(self).screen(),
                old(self).column(),
                old(self).color(),
                s.spec_bytes(),
            ),
    {
        let bytes = s.as_bytes();
        let mut i: usize = 0;
        while i < bytes.len()
            invariant
                bytes@ == s.spec_bytes(),
                i <= bytes@.len(),
                self.wf(),
                self.color() == old(self).color(),
                (self.screen(), self.column()) == put_bytes(
                    old(self).screen(),
                    old(self).column(),
                    old(self).color(),
                    bytes@.subrange(0, i as int),
                ),
            decreases bytes@.len() - i,
        {
            let byte = bytes[i];
            let ghost prev = (self.screen(), self.column());
            if (0x20 <= byte && byte <= 0x7e) || byte == 0x0a {
                self.write_byte(byte);
            } else {
                self.write_byte(REPLACEMENT_BYTE);
            }
            assert(bytes@.subrange(0, i + 1).drop_last() =~= bytes@.subrange(0, i as int));
            i = i + 1;
        }
        assert(bytes@.subrange(0, i as int) =~= bytes@);
    }

    proof fn lemma_grid_update(cells: Seq<ScreenChar>, row: int, col: int, x: ScreenChar)
        requires
            cells.len() == BUFFER_HEIGHT * BUFFER_WIDTH,
            0 <= row < BUFFER_HEIGHT,
            0 <= col < BUFFER_WIDTH,
        ensures
            Writer::grid_of(cells.update(row * BUFFER_WIDTH + col, x)) == Writer::grid_of(
                cells,
            ).update(row, Writer::grid_of(cells)[row].update(col, x)),
    {
        let g = Writer::grid_of(cells);
        let g2 = Writer::grid_of(cells.update(row * BUFFER_WIDTH + col, x));
        let e = g.update(row, g[row].update(col, x));
        assert forall|r: int| 0 <= r < BUFFER_HEIGHT implies #[trigger] g2[r] =~= e[r] by {
            assert forall|c: int| 0 <= c < BUFFER_WIDTH implies #[trigger] g2[r][c] == e[r][c] by {
                assert(0 <= r * BUFFER_WIDTH + c < BUFFER_HEIGHT * BUFFER_WIDTH) by (nonlinear_arith)
                    requires
                        0 <= r < BUFFER_HEIGHT,
                        0 <= c < BUFFER_WIDTH,
                ;
                assert((r * BUFFER_WIDTH + c == row * BUFFER_WIDTH + col) == (r == row && c == col))
                    by (nonlinear_arith)
                    requires
                        0 <= r < BUFFER_HEIGHT,
                        0 <= c < BUFFER_WIDTH,
                        0 <= row < BUFFER_HEIGHT,
                        0 <= col < BUFFER_WIDTH,
                ;
            }
        }
        assert(g2 =~= e);
    }

    /// The grid that a flat sequence of cells stands for.
    closed spec fn grid_of(cells: Seq<ScreenChar>) -> Seq<Seq<ScreenChar>> {
        Seq::new(
            BUFFER_HEIGHT as nat,
            |r: int| Seq::new(BUFFER_WIDTH as nat, |c: int| cells[r * BUFFER_WIDTH + c]),
        )
    }

    /// Fills one row with blanks in the current attribute.
    fn clear_row(&mut self, row: usize)
        requires
            old(self).buffer.cells().len() == BUFFER_HEIGHT * BUFFER_WIDTH,
            row < BUFFER_HEIGHT,
        ensures
            final(self).buffer.cells().len() == BUFFER_HEIGHT * BUFFER_WIDTH,
            final(self).color_code == old(self).color_code,
            final(self).column_position == old(self).column_position,
            forall|i: int|
                0 <= i < BUFFER_HEIGHT * BUFFER_WIDTH && !(row * BUFFER_WIDTH <= i < row
                    * BUFFER_WIDTH + BUFFER_WIDTH) ==> #[trigger] final(self).buffer.cells()[i]
                    == old(self).buffer.cells()[i],
            forall|i: int|
                row * BUFFER_WIDTH <= i < row * BUFFER_WIDTH + BUFFER_WIDTH
                    ==> #[trigger] final(self).buffer.cells()[i] == (ScreenChar {
                    ascii_character: 0x20u8,
                    color_code: old(self).color_code,
                }),
    {
        let blank = ScreenChar { ascii_character: 0x20u8, color_code: self.color_code };
        assert(row * BUFFER_WIDTH + BUFFER_WIDTH <= BUFFER_HEIGHT * BUFFER_WIDTH) by (nonlinear_arith)
            requires
                row < BUFFER_HEIGHT,
        ;
        let mut col: usize = 0;
        while col < BUFFER_WIDTH
            invariant
                row < BUFFER_HEIGHT,
                row * BUFFER_WIDTH + BUFFER_WIDTH <= BUFFER_HEIGHT * BUFFER_WIDTH,
                col <= BUFFER_WIDTH,
                blank == (ScreenChar { ascii_character: 0x20u8, color_code: old(self).color_code }),
                self.color_code == old(self).color_code,
                self.column_position == old(self).column_position,
                self.buffer.cells().len() == BUFFER_HEIGHT * BUFFER_WIDTH,
                forall|i: int|
                    0 <= i < BUFFER_HEIGHT * BUFFER_WIDTH && !(row * BUFFER_WIDTH <= i < row
                        * BUFFER_WIDTH + col) ==> #[trigger] self.buffer.cells()[i]
                        == old(self).buffer.cells()[i],
                forall|i: int|
                    row * BUFFER_WIDTH <= i < row * BUFFER_WIDTH + col
                        ==> #[trigger] self.buffer.cells()[i] == blank,
            decreases BUFFER_WIDTH - col,
        {
            self.buffer.write(row * BUFFER_WIDTH + col, blank);
            col = col + 1;
        }
    }
}


/// A grid of `BUFFER_HEIGHT` rows of `BUFFER_WIDTH` cells.
pub open spec fn grid_shaped(g: Seq<Seq<ScreenChar>>) -> bool {
    &&& g.len() == BUFFER_HEIGHT
    &&& forall|r: int| 0 <= r < BUFFER_HEIGHT ==> (#[trigger] g[r]).len() == BUFFER_WIDTH
}

/// Every character of the string is printable ASCII.
pub open spec fn is_printable_ascii(s: Seq<char>) -> bool {
    forall|i: int| 0 <= i < s.len() ==> ' ' <= #[trigger] s[i] <= '~'
}

impl Writer {
    /// The grid of a well-formed writer has its full size.
    pub proof fn lemma_screen_shaped(&self)
        requires
            self.wf(),
        ensures
            grid_shaped(self.screen()),
    {
    }
}

proof fn lemma_put_printable(g: Seq<Seq<ScreenChar>>, col: nat, color: ColorCode, bs: Seq<u8>)
    requires
        grid_shaped(g),
        col + bs.len() <= BUFFER_WIDTH,
        forall|i: int| 0 <= i < bs.len() ==> is_printable(#[trigger] bs[i]),
    ensures
        grid_shaped(put_bytes(g, col, color, bs).0),
        put_bytes(g, col, color, bs).1 == col + bs.len(),
        forall|i: int|
            0 <= i < bs.len() ==> #[trigger] put_bytes(g, col, color, bs).0[BUFFER_HEIGHT
                - 1][col + i] == (ScreenChar { ascii_character: bs[i], color_code: color }),
    decreases bs.len(),
{
    if bs.len() > 0 {
        let prev = bs.drop_last();
        lemma_put_printable(g, col, color, prev);
        let p = put_bytes(g, col, color, prev);
        let last = (BUFFER_HEIGHT - 1) as int;
        assert(p.0[last].len() == BUFFER_WIDTH);
        let r = put_bytes(g, col, color, bs);
        assert(r == put_byte(p.0, p.1, color, bs.last()));
        assert forall|i: int| 0 <= i < bs.len() implies #[trigger] r.0[last][col + i]
            == (ScreenChar { ascii_character: bs[i], color_code: color }) by {
            if i < bs.len() - 1 {
                assert(prev[i] == bs[i]);
                assert(p.0[last][col + i] == (ScreenChar { ascii_character: prev[i], color_code: color }));
            }
        }
    }
}

/// Writing a string of printable ASCII that fits in what is left of the
/// last row puts its characters, unchanged and in order, in the cells from
/// the cursor on.
pub proof fn lemma_printable_round_trip(w: &Writer, s: &str)
    requires
        w.wf(),
        is_printable_ascii(s@),
        w.column() + s@.len() <= BUFFER_WIDTH,
    ensures
        forall|i: int|
            0 <= i < s@.len() ==> (#[trigger] put_bytes(
                w.screen(),
                w.column(),
                w.color(),
                s.spec_bytes(),
            ).0[BUFFER_HEIGHT - 1][w.column() + i]).ascii_character == s@[i] as u8,
{
    broadcast use vstd::string::is_ascii_spec_bytes;

    assert(vstd::string::is_ascii(s));
    let bs = s.spec_bytes();
    assert(bs =~= Seq::new(s@.len(), |i: int| s@[i] as u8));
    assert forall|i: int| 0 <= i < bs.len() implies is_printable(#[trigger] bs[i]) by {
        assert(' ' <= s@[i] <= '~');
    }
    w.lemma_screen_shaped();
    lemma_put_printable(w.screen(), w.column(), w.color(), bs);
}

/// Bytes outside printable ASCII, other than the line feed, however many
/// are written, leave the grid and the cursor exactly as the same number of
/// replacement codes would: no raw value of theirs is ever stored.
pub proof fn lemma_replacement_stable(
    g: Seq<Seq<ScreenChar>>,
    col: nat,
    color: ColorCode,
    bs: Seq<u8>,
)
    requires
        forall|i: int| 0 <= i < bs.len() ==> !is_printable(#[trigger] bs[i]) && bs[i] != 0x0a,
    ensures
        put_bytes(g, col, color, bs) == put_bytes(
            g,
            col,
            color,
            Seq::new(bs.len(), |i: int| REPLACEMENT_BYTE),
        ),
    decreases bs.len(),
{
    let rs = Seq::new(bs.len(), |i: int| REPLACEMENT_BYTE);
    if bs.len() > 0 {
        lemma_replacement_stable(g, col, color, bs.drop_last());
        assert(rs.drop_last() =~= Seq::new(bs.drop_last().len(), |i: int| REPLACEMENT_BYTE));
    }
}


/// Rows moved up while writing `n` bytes without line feeds from column
/// `c0`: the byte at stream position `c0 + j` goes to line `(c0 + j) / W`.
pub open spec fn lines_scrolled(c0: nat, n: nat) -> int {
    if n == 0 {
        0
    } else {
        (c0 + n - 1) as int / BUFFER_WIDTH as int
    }
}

/// The cursor column after writing `n` bytes without line feeds from `c0`.
pub open spec fn column_after(c0: nat, n: nat) -> nat {
    if n == 0 {
        c0
    } else {
        ((c0 + n - 1) as int % BUFFER_WIDTH as int + 1) as nat
    }
}

/// The cell at row `r`, column `c` after writing `bs` (no line feeds) from
/// column `c0` on grid `g`: rows older than the run keep their content,
/// moved up; a written position holds its byte; the rest of the run's
/// first line keeps what it held; the rest of a later line is blank.
pub open spec fn run_cell(
    g: Seq<Seq<ScreenChar>>,
    c0: nat,
    color: ColorCode,
    bs: Seq<u8>,
    r: int,
    c: int,
) -> ScreenChar {
    let big_l = lines_scrolled(c0, bs.len());
    let l = big_l - (BUFFER_HEIGHT - 1 - r);
    if l < 0 {
        g[r + big_l][c]
    } else {
        let p = l * BUFFER_WIDTH + c;
        if c0 <= p < c0 + bs.len() {
            ScreenChar { ascii_character: shown_byte(bs[p - c0]), color_code: color }
        } else if l == 0 {
            g[BUFFER_HEIGHT - 1][c]
        } else {
            ScreenChar { ascii_character: 0x20u8, color_code: color }
        }
    }
}

proof fn lemma_put_run(g: Seq<Seq<ScreenChar>>, c0: nat, color: ColorCode, bs: Seq<u8>)
    requires
        grid_shaped(g),
        c0 <= BUFFER_WIDTH,
        forall|i: int| 0 <= i < bs.len() ==> #[trigger] bs[i] != 0x0a,
    ensures
        grid_shaped(put_bytes(g, c0, color, bs).0),
        put_bytes(g, c0, color, bs).1 == column_after(c0, bs.len()),
        forall|r: int, c: int|
            0 <= r < BUFFER_HEIGHT && 0 <= c < BUFFER_WIDTH ==> #[trigger] put_bytes(
                g,
                c0,
                color,
                bs,
            ).0[r][c] == run_cell(g, c0, color, bs, r, c),
    decreases bs.len(),
{
    let w = BUFFER_WIDTH as int;
    let h = BUFFER_HEIGHT as int;
    if bs.len() == 0 {
        assert forall|r: int, c: int| 0 <= r < h && 0 <= c < w implies #[trigger] put_bytes(
            g,
            c0,
            color,
            bs,
        ).0[r][c] == run_cell(g, c0, color, bs, r, c) by {
            let l = 0 - (h - 1 - r);
            if l >= 0 {
                assert(r == h - 1);
                assert(l * w + c == c);
            }
        }
    } else {
        let prev = bs.drop_last();
        let m = prev.len();
        lemma_put_run(g, c0, color, prev);
        let pp = put_bytes(g, c0, color, prev);
        let col = pp.1;
        let big_l = lines_scrolled(c0, m);
        let nl = lines_scrolled(c0, bs.len());
        let b = bs.last();
        let cell = ScreenChar { ascii_character: shown_byte(b), color_code: color };
        let res = put_bytes(g, c0, color, bs);
        assert(res == put_byte(pp.0, pp.1, color, b));
        assert(forall|i: int| 0 <= i < m ==> prev[i] == #[trigger] bs[i]);
        if col < BUFFER_WIDTH {
            // no scroll: same line, one column on
            if m > 0 {
                let q = (c0 + m - 1) as int;
                assert(q % w + 1 < w);
                assert((q + 1) / w == q / w && (q + 1) % w == q % w + 1) by (nonlinear_arith)
                    requires
                        q >= 0,
                        q % w + 1 < w,
                        w == 80,
                ;
                assert(c0 + m == (q + 1) / w * w + (q + 1) % w) by (nonlinear_arith)
                    requires
                        q >= 0,
                        c0 + m == q + 1,
                        w == 80,
                ;
            } else {
                let c0i = c0 as int;
                assert(c0i / w == 0 && c0i % w == c0i) by (nonlinear_arith)
                    requires
                        0 <= c0i < w,
                        w == 80,
                ;
            }
            assert(nl == big_l);
            assert(c0 + m == big_l * w + col);
            assert(res.0 == pp.0.update(h - 1, pp.0[h - 1].update(col as int, cell)));
            assert forall|r: int, c: int| 0 <= r < h && 0 <= c < w implies #[trigger] res.0[r][c]
                == run_cell(g, c0, color, bs, r, c) by {
                let l = big_l - (h - 1 - r);
                assert(pp.0[r][c] == run_cell(g, c0, color, prev, r, c));
                if r == h - 1 && c == col {
                    assert(l * w + c == c0 + m);
                } else if l >= 0 {
                    assert(l * w + c != c0 + m) by (nonlinear_arith)
                        requires
                            0 <= l <= big_l,
                            c0 + m == big_l * w + col,
                            0 <= c < w,
                            0 <= col < w,
                            !(l == big_l && c == col),
                            w == 80,
                    ;
                }
            }
        } else {
            // scroll first, then the byte starts a new line
            if m > 0 {
                let q = (c0 + m - 1) as int;
                assert(q % w + 1 == w);
                assert((q + 1) / w == q / w + 1 && (q + 1) % w == 0) by (nonlinear_arith)
                    requires
                        q >= 0,
                        q % w + 1 == w,
                        w == 80,
                ;
                assert(c0 + m == (q + 1) / w * w) by (nonlinear_arith)
                    requires
                        q >= 0,
                        c0 + m == q + 1,
                        (q + 1) % w == 0,
                        w == 80,
                ;
            } else {
                assert(c0 == w);
            }
            assert(nl == big_l + 1);
            assert(c0 + m == nl * w);
            let sg = scrolled(pp.0, color);
            assert(res.0 == sg.update(h - 1, sg[h - 1].update(0, cell)));
            assert forall|r: int, c: int| 0 <= r < h && 0 <= c < w implies #[trigger] res.0[r][c]
                == run_cell(g, c0, color, bs, r, c) by {
                let l = nl - (h - 1 - r);
                if r < h - 1 {
                    assert(sg[r] == pp.0[r + 1]);
                    assert(pp.0[r + 1][c] == run_cell(g, c0, color, prev, r + 1, c));
                    if l >= 0 {
                        assert(l * w + c < c0 + m) by (nonlinear_arith)
                            requires
                                0 <= l < nl,
                                c0 + m == nl * w,
                                0 <= c < w,
                                w == 80,
                        ;
                    }
                } else {
                    assert(l == nl);
                    assert(nl >= 1);
                    assert(nl * w + c >= c0 + m) by (nonlinear_arith)
                        requires
                            c0 + m == nl * w,
                            0 <= c,
                    ;
                    if c > 0 {
                        assert(sg[h - 1] == blank_row(color));
                    }
                }
            }
        }
    }
}

/// After a run of more than a screenful of bytes without line feeds, the
/// grid holds exactly the latest bytes of the run, line by line in the
/// order they were written, the oldest surviving line at the top and the
/// rest of the last line blank.
pub proof fn lemma_scrolling_keeps_latest(
    g: Seq<Seq<ScreenChar>>,
    c0: nat,
    color: ColorCode,
    bs: Seq<u8>,
)
    requires
        grid_shaped(g),
        c0 <= BUFFER_WIDTH,
        bs.len() > BUFFER_WIDTH * BUFFER_HEIGHT,
        forall|i: int| 0 <= i < bs.len() ==> #[trigger] bs[i] != 0x0a,
    ensures
        put_bytes(g, c0, color, bs).1 == column_after(c0, bs.len()),
        forall|r: int, c: int|
            0 <= r < BUFFER_HEIGHT && 0 <= c < BUFFER_WIDTH ==> {
                let p = (lines_scrolled(c0, bs.len()) - (BUFFER_HEIGHT - 1 - r)) * BUFFER_WIDTH + c;
                &&& c0 <= p
                &&& p < c0 + bs.len() ==> #[trigger] put_bytes(g, c0, color, bs).0[r][c] == (
                ScreenChar { ascii_character: shown_byte(bs[p - c0]), color_code: color })
                &&& p >= c0 + bs.len() ==> put_bytes(g, c0, color, bs).0[r][c] == (ScreenChar {
                    ascii_character: 0x20u8,
                    color_code: color,
                })
            },
{
    lemma_put_run(g, c0, color, bs);
    let w = BUFFER_WIDTH as int;
    let h = BUFFER_HEIGHT as int;
    let n = bs.len() as int;
    let big_l = lines_scrolled(c0, bs.len());
    assert(big_l >= h) by (nonlinear_arith)
        requires
            big_l == (c0 + n - 1) / w,
            n > w * h,
            c0 >= 0,
            w == 80,
            h == 25,
    ;
    let res = put_bytes(g, c0, color, bs);
    assert forall|r: int, c: int| 0 <= r < h && 0 <= c < w implies {
        let p = (big_l - (h - 1 - r)) * w + c;
        &&& c0 <= p
        &&& p < c0 + n ==> #[trigger] res.0[r][c] == (ScreenChar {
            ascii_character: shown_byte(bs[p - c0]),
            color_code: color,
        })
        &&& p >= c0 + n ==> res.0[r][c] == (ScreenChar {
            ascii_character: 0x20u8,
            color_code: color,
        })
    } by {
        let l = big_l - (h - 1 - r);
        assert(l >= 1);
        assert(l * w + c >= w) by (nonlinear_arith)
            requires
                l >= 1,
                c >= 0,
                w == 80,
        ;
        assert(res.0[r][c] == run_cell(g, c0, color, bs, r, c));
    }
}

} // verus!
