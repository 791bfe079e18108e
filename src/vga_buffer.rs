use vstd::prelude::*;
use volatile::Volatile;
use vstd::string::StringSliceAdditionalSpecFns;

verus! {

/// Number of rows of the text grid.
pub const BUFFER_HEIGHT: usize = 25;

/// Number of columns of the text grid.
pub const BUFFER_WIDTH: usize = 80;

/// The blank character.
pub const SPACE: u8 = 0x20;

/// The byte that ends a line.
pub const NEWLINE: u8 = 0x0a;

/// The byte shown in place of one that is neither printable ASCII nor a newline.
pub const PLACEHOLDER: u8 = 0xfe;

/// Number of cells of the text grid.
pub const BUFFER_CELLS: usize = 2000;

#[verifier::external_type_specification]
#[verifier::external_body]
#[verifier::reject_recursive_types(T)]
pub struct ExVolatile<T: Copy>(Volatile<T>);

/// The value that a volatile cell currently holds.
pub uninterp spec fn cell_value(c: Volatile<u16>) -> u16;

/// Relies on volatile::Volatile::new: the cell starts out holding `v`.
#[verifier::external_body]
fn volatile_new(v: u16) -> (r: Volatile<u16>)
    ensures
        cell_value(r) == v,
{
    Volatile::new(v)
}

/// Relies on volatile::Volatile::read: a volatile load of the held value.
#[verifier::external_body]
fn volatile_read(c: &Volatile<u16>) -> (r: u16)
    ensures
        r == cell_value(*c),
{
    c.read()
}

/// Relies on volatile::Volatile::write: a volatile store that replaces the held value.
#[verifier::external_body]
fn volatile_write(c: &mut Volatile<u16>, v: u16)
    ensures
        cell_value(*final(c)) == v,
{
    c.write(v)
}

/// The sixteen colors of the text-mode palette.
#[derive(Debug, Clone, Copy, PartialEq, Eq, Structural)]
pub enum Color {
    Black,
    Blue,
    Green,
    Cyan,
    Red,
    Magenta,
    Brown,
    LightGray,
    DarkGray,
    LightBlue,
    LightGreen,
    LightCyan,
    LightRed,
    Pink,
    Yellow,
    White,
}

impl Color {
    /// The 4-bit palette index of the color.
    pub open spec fn spec_code(self) -> u8 {
        match self {
            Color::Black => 0,
            Color::Blue => 1,
            Color::Green => 2,
            Color::Cyan => 3,
            Color::Red => 4,
            Color::Magenta => 5,
            Color::Brown => 6,
            Color::LightGray => 7,
            Color::DarkGray => 8,
            Color::LightBlue => 9,
            Color::LightGreen => 10,
            Color::LightCyan => 11,
            Color::LightRed => 12,
            Color::Pink => 13,
            Color::Yellow => 14,
            Color::White => 15,
        }
    }

    #[verifier::when_used_as_spec(spec_code)]
    pub fn code(self) -> (r: u8)
        ensures
            r == self.spec_code(),
            r < 16,
    {
        match self {
            Color::Black => 0,
            Color::Blue => 1,
            Color::Green => 2,
            Color::Cyan => 3,
            Color::Red => 4,
            Color::Magenta => 5,
            Color::Brown => 6,
            Color::LightGray => 7,
            Color::DarkGray => 8,
            Color::LightBlue => 9,
            Color::LightGreen => 10,
            Color::LightCyan => 11,
            Color::LightRed => 12,
            Color::Pink => 13,
            Color::Yellow => 14,
            Color::White => 15,
        }
    }
}

/// The packed attribute byte of a cell: background in the high nibble,
/// foreground in the low one.
pub open spec fn attribute(foreground: Color, background: Color) -> u8 {
    (background.spec_code() * 16 + foreground.spec_code()) as u8
}

#[derive(Debug, Clone, Copy, PartialEq, Eq)]
struct ColorCode(u8);

impl ColorCode {
    fn new(foreground: Color, background: Color) -> (r: ColorCode)
        ensures
            r.0 == attribute(foreground, background),
    {
        let f = foreground.code();
        let b = background.code();
        assert((b << 4u8) | f == b * 16 + f) by (bit_vector)
            requires
                b < 16,
                f < 16,
        ;
        ColorCode((b << 4u8) | f)
    }
}

/// The 16-bit value of a cell as the display hardware reads it: the character
/// in the low byte, the attribute in the high byte.
pub open spec fn cell(ch: u8, attr: u8) -> u16 {
    (attr as int * 256 + ch as int) as u16
}

fn make_cell(ch: u8, attr: u8) -> (r: u16)
    ensures
        r == cell(ch, attr),
{
    (attr as u16) * 256 + (ch as u16)
}

/// A blank cell in the given attribute.
pub open spec fn blank(attr: u8) -> u16 {
    cell(SPACE, attr)
}

/// Index of the first cell of the bottom row.
pub open spec fn bottom_start() -> int {
    ((BUFFER_HEIGHT - 1) * BUFFER_WIDTH) as int
}

/// The grid after one upward scroll: every row takes the contents of the row
/// below it, and the bottom row becomes blank in `attr`.
pub open spec fn scrolled(g: Seq<u16>, attr: u8) -> Seq<u16> {
    Seq::new(
        g.len(),
        |i: int|
            if i < bottom_start() {
                g[i + BUFFER_WIDTH as int]
            } else {
                blank(attr)
            },
    )
}

/// The grid with row `row` blank in `attr`, everything else kept.
pub open spec fn row_cleared(g: Seq<u16>, row: int, attr: u8) -> Seq<u16> {
    Seq::new(
        g.len(),
        |i: int|
            if row * BUFFER_WIDTH as int <= i < (row + 1) * BUFFER_WIDTH as int {
                blank(attr)
            } else {
                g[i]
            },
    )
}

/// Grid and cursor column after writing one byte: a newline scrolls and resets
/// the column; any other byte scrolls first when the row is full, then lands
/// at the cursor on the bottom row and advances it.
pub open spec fn put_byte(g: Seq<u16>, col: nat, attr: u8, b: u8) -> (Seq<u16>, nat) {
    if b == NEWLINE {
        (scrolled(g, attr), 0)
    } else if col >= BUFFER_WIDTH {
        (scrolled(g, attr).update(bottom_start(), cell(b, attr)), 1)
    } else {
        (g.update(bottom_start() + col, cell(b, attr)), col + 1)
    }
}

/// The byte that is shown for `b`: printable ASCII and newline stand for
/// themselves, anything else becomes the placeholder 0xfe.
pub open spec fn shown_byte(b: u8) -> u8 {
    if (0x20 <= b && b <= 0x7e) || b == NEWLINE {
        b
    } else {
        PLACEHOLDER
    }
}

/// Grid and cursor column after writing the bytes of `bs` in turn, each
/// shown as `shown_byte` says.
pub open spec fn put_bytes(g: Seq<u16>, col: nat, attr: u8, bs: Seq<u8>) -> (Seq<u16>, nat)
    decreases bs.len(),
{
    if bs.len() == 0 {
        (g, col)
    } else {
        let (g1, c1) = put_bytes(g, col, attr, bs.drop_last());
        put_byte(g1, c1, attr, shown_byte(bs.last()))
    }
}

/// The text grid: `BUFFER_HEIGHT` rows of `BUFFER_WIDTH` cells, row-major,
/// each accessed only by volatile loads and stores.
struct Buffer {
    chars: Vec<Volatile<u16>>,
}

impl Buffer {
    spec fn cells(&self) -> Seq<u16> {
        self.chars@.map_values(|c: Volatile<u16>| cell_value(c))
    }
}

/// A terminal over the text grid: it writes on the bottom row at a column
/// cursor, in one current attribute, and scrolls up when a line ends.
pub struct Writer {
    column_position: usize,
    color_code: ColorCode,
    buffer: Buffer,
}

impl Writer {
    /// The grid's cell values, row-major.
    pub closed spec fn cells(&self) -> Seq<u16> {
        self.buffer.cells()
    }

    /// The cursor column on the bottom row.
    pub closed spec fn column(&self) -> nat {
        self.column_position as nat
    }

    /// The current attribute byte.
    pub closed spec fn attr(&self) -> u8 {
        self.color_code.0
    }

    pub closed spec fn wf(&self) -> bool {
        &&& self.buffer.chars@.len() == BUFFER_CELLS
        &&& self.column_position <= BUFFER_WIDTH
    }

    /// A writer over a blank grid, white on black, with the cursor at column 0.
    pub fn new() -> (r: Writer)
        ensures
            r.wf(),
            r.column() == 0,
            r.attr() == attribute(Color::White, Color::Black),
            r.cells() == Seq::new(BUFFER_CELLS as nat, |i: int| blank(r.attr())),
    {
        let color_code = ColorCode::new(Color::White, Color::Black);
        let b = make_cell(SPACE, color_code.0);
        let mut chars: Vec<Volatile<u16>> = Vec::new();
        let mut i: usize = 0;
        while i < BUFFER_CELLS
            invariant
                i <= BUFFER_CELLS,
                chars@.len() == i,
                forall|j: int| 0 <= j < i ==> cell_value(#[trigger] chars@[j]) == b,
            decreases BUFFER_CELLS - i,
        {
            chars.push(volatile_new(b));
            i = i + 1;
        }
        let r = Writer { column_position: 0, color_code, buffer: Buffer { chars } };
        assert(r.cells() =~= Seq::new(BUFFER_CELLS as nat, |i: int| blank(r.attr())));
        r
    }

    /// The character and attribute bytes of the cell at `row`, `col`.
    pub fn read_cell(&self, row: usize, col: usize) -> (r: (u8, u8))
        requires
            self.wf(),
            row < BUFFER_HEIGHT,
            col < BUFFER_WIDTH,
        ensures
            r.0 as int == self.cells()[row * BUFFER_WIDTH + col] as int % 256,
            r.1 as int == self.cells()[row * BUFFER_WIDTH + col] as int / 256,
    {
        let v = volatile_read(&self.buffer.chars[row * BUFFER_WIDTH + col]);
        ((v % 256) as u8, (v / 256) as u8)
    }

    /// The cursor column on the bottom row.
    pub fn column_position(&self) -> (r: usize)
        ensures
            r == self.column(),
    {
        self.column_position
    }

    /// The current attribute byte.
    pub fn color_code(&self) -> (r: u8)
        ensures
            r == self.attr(),
    {
        self.color_code.0
    }

    fn store(&mut self, i: usize, v: u16)
        requires
            old(self).wf(),
            i < BUFFER_CELLS,
        ensures
            final(self).wf(),
            final(self).cells() == old(self).cells().update(i as int, v),
            final(self).column_position == old(self).column_position,
            final(self).color_code == old(self).color_code,
    {
        volatile_write(&mut self.buffer.chars[i], v);
        assert(self.cells() =~= old(self).cells().update(i as int, v));
    }

    fn load(&self, i: usize) -> (r: u16)
        requires
            self.wf(),
            i < BUFFER_CELLS,
        ensures
            r == self.cells()[i as int],
    {
        volatile_read(&self.buffer.chars[i])
    }

    /// Overwrites row `row` with blanks in the current attribute.
    fn clear_row(&mut self, row: usize)
        requires
            old(self).wf(),
            row < BUFFER_HEIGHT,
        ensures
            final(self).wf(),
            final(self).cells() == row_cleared(old(self).cells(), row as int, old(self).attr()),
            final(self).column_position == old(self).column_position,
            final(self).color_code == old(self).color_code,
    {
        let b = make_cell(SPACE, self.color_code.0);
        let mut col: usize = 0;
        while col < BUFFER_WIDTH
            invariant
                self.wf(),
                col <= BUFFER_WIDTH,
                row < BUFFER_HEIGHT,
                b == blank(old(self).attr()),
                self.column_position == old(self).column_position,
                self.color_code == old(self).color_code,
                self.cells().len() == old(self).cells().len(),
                forall|i: int|
                    0 <= i < self.cells().len() ==> #[trigger] self.cells()[i] == if row
                        * BUFFER_WIDTH <= i < row * BUFFER_WIDTH + col {
                        b
                    } else {
                        old(self).cells()[i]
                    },
            decreases BUFFER_WIDTH - col,
        {
            self.store(row * BUFFER_WIDTH + col, b);
            col = col + 1;
        }
        assert(self.cells() =~= row_cleared(old(self).cells(), row as int, old(self).attr()));
    }

    /// Scrolls the grid up by one row, blanks the bottom row in the current
    /// attribute and moves the cursor to column 0.
    fn new_line(&mut self)
        requires
            old(self).wf(),
        ensures
            final(self).wf(),
            final(self).cells() == scrolled(old(self).cells(), old(self).attr()),
            final(self).column_position == 0,
            final(self).color_code == old(self).color_code,
    {
        let mut row: usize = 1;
        while row < BUFFER_HEIGHT
            invariant
                self.wf(),
                1 <= row <= BUFFER_HEIGHT,
                self.color_code == old(self).color_code,
                self.cells().len() == old(self).cells().len(),
                forall|i: int|
                    0 <= i < self.cells().len() ==> #[trigger] self.cells()[i] == if i < (row
                        - 1) * BUFFER_WIDTH {
                        old(self).cells()[i + BUFFER_WIDTH]
                    } else {
                        old(self).cells()[i]
                    },
            decreases BUFFER_HEIGHT - row,
        {
            let mut col: usize = 0;
            while col < BUFFER_WIDTH
                invariant
                    self.wf(),
                    1 <= row < BUFFER_HEIGHT,
                    col <= BUFFER_WIDTH,
                    self.color_code == old(self).color_code,
                    self.cells().len() == old(self).cells().len(),
                    forall|i: int|
                        0 <= i < self.cells().len() ==> #[trigger] self.cells()[i] == if i < (
                        row - 1) * BUFFER_WIDTH + col {
                            old(self).cells()[i + BUFFER_WIDTH]
                        } else {
                            old(self).cells()[i]
                        },
                decreases BUFFER_WIDTH - col,
            {
                let character = self.load(row * BUFFER_WIDTH + col);
                self.store((row - 1) * BUFFER_WIDTH + col, character);
                col = col + 1;
            }
            row = row + 1;
        }
        self.clear_row(BUFFER_HEIGHT - 1);
        self.column_position = 0;
        assert(self.cells() =~= scrolled(old(self).cells(), old(self).attr()));
    }

    /// Writes one byte at the cursor on the bottom row in the current
    /// attribute; a newline scrolls instead, and a full row scrolls first.
    pub fn write_byte(&mut self, byte: u8)
        requires
            old(self).wf(),
        ensures
            final(self).wf(),
            final(self).attr() == old(self).attr(),
            (final(self).cells(), final(self).column()) == put_byte(
                old(self).cells(),
                old(self).column(),
                old(self).attr(),
                byte,
            ),
    {
        if byte == NEWLINE {
            self.new_line();
        } else {
            if self.column_position >= BUFFER_WIDTH {
                self.new_line();
            }
            let row = BUFFER_HEIGHT - 1;
            let col = self.column_position;
            let v = make_cell(byte, self.color_code.0);
            self.store(row * BUFFER_WIDTH + col, v);
            self.column_position = self.column_position + 1;
        }
    }

    /// Writes the bytes of `s` in turn; a byte that is neither printable
    /// ASCII nor a newline is written as the placeholder.
    pub fn write_string(&mut self, s: &str)
        requires
            old(self).wf(),
        ensures
            final(self).wf(),
            final(self).attr() == old(self).attr(),
            (final(self).cells(), final(self).column()) == put_bytes(
                old(self).cells(),
                old(self).column(),
                old(self).attr(),
                s.spec_bytes(),
            ),
    {
        let bytes = s.as_bytes();
        let mut i: usize = 0;
        while i < bytes.len()
            invariant
                self.wf(),
                i <= bytes@.len(),
                bytes@ == s.spec_bytes(),
                self.attr() == old(self).attr(),
                (self.cells(), self.column()) == put_bytes(
                    old(self).cells(),
                    old(self).column(),
                    old(self).attr(),
                    bytes@.take(i as int),
                ),
            decreases bytes@.len() - i,
        {
            let byte = bytes[i];
            assert(bytes@.take(i + 1).drop_last() =~= bytes@.take(i as int));
            if (0x20 <= byte && byte <= 0x7e) || byte == NEWLINE {
                self.write_byte(byte);
            } else {
                self.write_byte(PLACEHOLDER);
            }
            i = i + 1;
        }
        assert(bytes@.take(i as int) =~= bytes@);
    }
}


/// Writing `a` and then `b` leaves grid and cursor as writing `a + b` does.
pub proof fn lemma_put_bytes_append(g: Seq<u16>, col: nat, attr: u8, a: Seq<u8>, b: Seq<u8>)
    ensures
        put_bytes(g, col, attr, a + b) == ({
            let (g1, c1) = put_bytes(g, col, attr, a);
            put_bytes(g1, c1, attr, b)
        }),
    decreases b.len(),
{
    if b.len() == 0 {
        assert(a + b =~= a);
    } else {
        lemma_put_bytes_append(g, col, attr, a, b.drop_last());
        assert((a + b).drop_last() =~= a + b.drop_last());
        assert((a + b).last() == b.last());
    }
}

/// The grid `g` with the bottom row's first `bs.len()` cells showing `bs`
/// in `attr`.
pub open spec fn bottom_written(g: Seq<u16>, attr: u8, bs: Seq<u8>) -> Seq<u16> {
    Seq::new(
        g.len(),
        |i: int|
            if bottom_start() <= i < bottom_start() + bs.len() {
                cell(shown_byte(bs[i - bottom_start()]), attr)
            } else {
                g[i]
            },
    )
}

/// Up to a row's worth of bytes without a newline, written from column 0,
/// land side by side on the bottom row.
proof fn lemma_fill_bottom_row(g: Seq<u16>, attr: u8, bs: Seq<u8>)
    requires
        g.len() == BUFFER_CELLS,
        bs.len() <= BUFFER_WIDTH,
        forall|i: int| 0 <= i < bs.len() ==> #[trigger] bs[i] != NEWLINE,
    ensures
        put_bytes(g, 0, attr, bs) == (bottom_written(g, attr, bs), bs.len()),
    decreases bs.len(),
{
    if bs.len() == 0 {
        assert(bottom_written(g, attr, bs) =~= g);
    } else {
        let p = bs.drop_last();
        lemma_fill_bottom_row(g, attr, p);
        assert(bottom_written(g, attr, p).update(
            bottom_start() + p.len(),
            cell(shown_byte(bs.last()), attr),
        ) =~= bottom_written(g, attr, bs));
    }
}

/// Scrolling: from column 0, a full row of bytes without a newline and one
/// more such byte scroll the grid exactly once. Row 0's old contents are
/// gone, the other old rows move up by one, the written row sits just above
/// the bottom, the bottom row holds only the last byte, and the cursor is at
/// column 1.
pub proof fn lemma_scroll_once(g: Seq<u16>, attr: u8, bs: Seq<u8>, b: u8)
    requires
        g.len() == BUFFER_CELLS,
        bs.len() == BUFFER_WIDTH,
        forall|i: int| 0 <= i < bs.len() ==> #[trigger] bs[i] != NEWLINE,
        b != NEWLINE,
    ensures
        put_bytes(g, 0, attr, bs.push(b)) == (
            scrolled(bottom_written(g, attr, bs), attr).update(
                bottom_start(),
                cell(shown_byte(b), attr),
            ),
            1nat,
        ),
        forall|i: int|
            0 <= i < bottom_start() - BUFFER_WIDTH ==> #[trigger] put_bytes(
                g,
                0,
                attr,
                bs.push(b),
            ).0[i] == g[i + BUFFER_WIDTH],
        forall|c: int|
            0 <= c < BUFFER_WIDTH ==> #[trigger] put_bytes(g, 0, attr, bs.push(b)).0[bottom_start()
                - BUFFER_WIDTH + c] == cell(shown_byte(bs[c]), attr),
        forall|c: int|
            0 < c < BUFFER_WIDTH ==> #[trigger] put_bytes(g, 0, attr, bs.push(b)).0[bottom_start()
                + c] == blank(attr),
        put_bytes(g, 0, attr, bs.push(b)).0[bottom_start()] == cell(shown_byte(b), attr),
{
    lemma_fill_bottom_row(g, attr, bs);
    assert(bs.push(b).drop_last() =~= bs);
}

/// Writes `s` through `w`, which so far has written `done` from grid `g0`
/// and column `c0`.
fn write_part(w: &mut Writer, s: &str, Ghost(g0): Ghost<Seq<u16>>, Ghost(c0): Ghost<nat>, Ghost(done): Ghost<Seq<u8>>)
    requires
        old(w).wf(),
        (old(w).cells(), old(w).column()) == put_bytes(g0, c0, old(w).attr(), done),
    ensures
        final(w).wf(),
        final(w).attr() == old(w).attr(),
        (final(w).cells(), final(w).column()) == put_bytes(g0, c0, old(w).attr(), done + s.spec_bytes()),
{
    w.write_string(s);
    proof {
        lemma_put_bytes_append(g0, c0, old(w).attr(), done, s.spec_bytes());
    }
}

/// Blanks every row in the writer's attribute and moves the cursor to column 0.
pub fn clear_screen(writer: &mut Writer)
    requires
        old(writer).wf(),
    ensures
        final(writer).wf(),
        final(writer).attr() == old(writer).attr(),
        final(writer).column() == 0,
        final(writer).cells() == Seq::new(BUFFER_CELLS as nat, |i: int| blank(old(writer).attr())),
{
    let mut row: usize = 0;
    while row < BUFFER_HEIGHT
        invariant
            writer.wf(),
            row <= BUFFER_HEIGHT,
            writer.color_code == old(writer).color_code,
            writer.cells().len() == BUFFER_CELLS,
            forall|i: int|
                0 <= i < row * BUFFER_WIDTH ==> #[trigger] writer.cells()[i] == blank(
                    old(writer).attr(),
                ),
        decreases BUFFER_HEIGHT - row,
    {
        writer.clear_row(row);
        row = row + 1;
    }
    writer.column_position = 0;
    assert(writer.cells() =~= Seq::new(BUFFER_CELLS as nat, |i: int| blank(old(writer).attr())));
}

/// The bytes of the banner that `print_logo` writes.
pub open spec fn logo_bytes() -> Seq<u8> {
    "\n\n".spec_bytes() + "    _  _                 ___  ___ \n".spec_bytes()
        + "   (_)| |               / _ \\/ __|\n".spec_bytes()
        + "    _ | |__   ___  _ __| | | \\__ \\\n".spec_bytes()
        + "   | || '_ \\ / _ \\| '__| | | |__) |\n".spec_bytes()
        + "   | || |_) |  __/| |  | |_| / __/\n".spec_bytes()
        + "   |_||_.__/ \\___||_|   \\___/\\___|\n".spec_bytes()
        + "\n      A Rust Microkernel OS\n\n".spec_bytes()
}

/// Writes the banner in light cyan on black, then restores the attribute
/// that was current before.
pub fn print_logo(writer: &mut Writer)
    requires
        old(writer).wf(),
    ensures
        final(writer).wf(),
        final(writer).attr() == old(writer).attr(),
        (final(writer).cells(), final(writer).column()) == put_bytes(
            old(writer).cells(),
            old(writer).column(),
            attribute(Color::LightCyan, Color::Black),
            logo_bytes(),
        ),
{
    let original_color = writer.color_code;
    writer.color_code = ColorCode::new(Color::LightCyan, Color::Black);
    let ghost g0 = writer.cells();
    let ghost c0 = writer.column();
    assert(Seq::<u8>::empty() + "\n\n".spec_bytes() == "\n\n".spec_bytes());
    write_part(writer, "\n\n", Ghost(g0), Ghost(c0), Ghost(Seq::empty()));
    write_part(writer, "    _  _                 ___  ___ \n", Ghost(g0), Ghost(c0), Ghost("\n\n".spec_bytes()));
    let ghost d = "\n\n".spec_bytes() + "    _  _                 ___  ___ \n".spec_bytes();
    write_part(writer, "   (_)| |               / _ \\/ __|\n", Ghost(g0), Ghost(c0), Ghost(d));
    let ghost d = d + "   (_)| |               / _ \\/ __|\n".spec_bytes();
    write_part(writer, "    _ | |__   ___  _ __| | | \\__ \\\n", Ghost(g0), Ghost(c0), Ghost(d));
    let ghost d = d + "    _ | |__   ___  _ __| | | \\__ \\\n".spec_bytes();
    write_part(writer, "   | || '_ \\ / _ \\| '__| | | |__) |\n", Ghost(g0), Ghost(c0), Ghost(d));
    let ghost d = d + "   | || '_ \\ / _ \\| '__| | | |__) |\n".spec_bytes();
    write_part(writer, "   | || |_) |  __/| |  | |_| / __/\n", Ghost(g0), Ghost(c0), Ghost(d));
    let ghost d = d + "   | || |_) |  __/| |  | |_| / __/\n".spec_bytes();
    write_part(writer, "   |_||_.__/ \\___||_|   \\___/\\___|\n", Ghost(g0), Ghost(c0), Ghost(d));
    let ghost d = d + "   |_||_.__/ \\___||_|   \\___/\\___|\n".spec_bytes();
    write_part(writer, "\n      A Rust Microkernel OS\n\n", Ghost(g0), Ghost(c0), Ghost(d));
    writer.color_code = original_color;
}

/// Number of blanks that centre a text of `n` bytes on a row.
pub open spec fn centre_padding(n: nat) -> nat {
    if n < BUFFER_WIDTH {
        ((BUFFER_WIDTH - n) / 2) as nat
    } else {
        0
    }
}

/// The bytes that `print_centered` writes for the text bytes `t`: the
/// padding blanks, the text, and a newline.
pub open spec fn centered_line(t: Seq<u8>) -> Seq<u8> {
    Seq::new(centre_padding(t.len()), |i: int| SPACE) + t + seq![NEWLINE]
}

/// Starts at column 0 of the bottom row and writes `text` centred on it in
/// `color` on black, then a newline, then restores the attribute that was
/// current before.
pub fn print_centered(writer: &mut Writer, text: &str, color: Color)
    requires
        old(writer).wf(),
    ensures
        final(writer).wf(),
        final(writer).attr() == old(writer).attr(),
        (final(writer).cells(), final(writer).column()) == put_bytes(
            old(writer).cells(),
            0,
            attribute(color, Color::Black),
            centered_line(text.spec_bytes()),
        ),
{
    let original_color = writer.color_code;
    writer.color_code = ColorCode::new(color, Color::Black);
    let padding = BUFFER_WIDTH.saturating_sub(text.as_bytes().len()) / 2;
    assert(padding == centre_padding(text.spec_bytes().len()));
    writer.column_position = 0;
    let ghost g0 = writer.cells();
    let ghost attr = writer.attr();
    let mut i: usize = 0;
    while i < padding
        invariant
            writer.wf(),
            i <= padding,
            writer.attr() == attr,
            (writer.cells(), writer.column()) == put_bytes(
                g0,
                0,
                attr,
                Seq::new(i as nat, |k: int| SPACE),
            ),
        decreases padding - i,
    {
        assert(Seq::new((i + 1) as nat, |k: int| SPACE).drop_last() =~= Seq::new(
            i as nat,
            |k: int| SPACE,
        ));
        writer.write_byte(SPACE);
        i = i + 1;
    }
    let ghost pad = Seq::new(i as nat, |k: int| SPACE);
    write_part(writer, text, Ghost(g0), Ghost(0), Ghost(pad));
    let ghost line = pad + text.spec_bytes();
    writer.write_byte(NEWLINE);
    assert((line + seq![NEWLINE]).drop_last() =~= line);
    assert(centered_line(text.spec_bytes()) =~= line + seq![NEWLINE]);
    writer.color_code = original_color;
}

} // verus!
