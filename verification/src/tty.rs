//! The text console: four virtual consoles, each a grid of glyphs with a cursor that
//! wraps at the right edge and scrolls at the bottom, and the counters of what was written.
use vstd::prelude::*;

verus! {

pub const OUTPUT_SERIAL: u8 = 1;
pub const OUTPUT_FRAMEBUFFER: u8 = 2;
pub const VIRTUAL_CONSOLE_COUNT: usize = 4;
pub const DEFAULT_COLUMNS: usize = 80;
pub const DEFAULT_ROWS: usize = 25;
pub const MAX_COLUMNS: usize = 128;
pub const MAX_ROWS: usize = 64;
pub const MAX_CELLS: usize = 8192;

/// How a glyph is drawn; code 0 is the default style.
#[derive(Copy, Clone, Debug, PartialEq, Eq, Structural)]
pub struct ConsoleStyle {
    pub code: u8,
}

/// One cell of a console.
#[derive(Copy, Clone, Debug, PartialEq, Eq, Structural)]
pub struct ConsoleGlyph {
    pub byte: u8,
    pub style: ConsoleStyle,
}

pub open spec fn empty_glyph() -> ConsoleGlyph {
    ConsoleGlyph { byte: 0x20, style: ConsoleStyle { code: 0 } }
}

impl ConsoleGlyph {
    pub fn empty() -> (g: Self)
        ensures
            g == empty_glyph(),
    {
        ConsoleGlyph { byte: 0x20, style: ConsoleStyle { code: 0 } }
    }
}

#[derive(Copy, Clone, Debug)]
pub struct TtyBootstrap {
    pub console_id: u32,
    pub output_count: u8,
    pub framebuffer_output: bool,
    pub virtual_console_count: u32,
    pub columns: usize,
    pub rows: usize,
}

#[derive(Copy, Clone, Debug)]
pub struct TtyStats {
    pub console_id: u32,
    pub output_count: u8,
    pub bytes_written: u64,
    pub lines_written: u64,
    pub virtual_console_count: u32,
    pub columns: usize,
    pub rows: usize,
}

#[derive(Copy, Clone, Debug, PartialEq, Eq, Structural)]
pub enum TtyError {
    InvalidConsole,
}

impl TtyError {
    pub fn as_str(self) -> (s: &'static str)
        ensures
            s@ == "tty console index is out of range"@,
    {
        match self {
            TtyError::InvalidConsole => "tty console index is out of range",
        }
    }
}

/// Printable ASCII stays; anything else shows as `?`.
pub open spec fn glyph_byte(b: u8) -> u8 {
    if 0x20 <= b <= 0x7e { b } else { 0x3f }
}

pub fn normalize_glyph_byte(byte: u8) -> (b: u8)
    ensures
        b == glyph_byte(byte),
        0x20 <= byte && byte <= 0x7e ==> b == byte,
        byte < 0x20 || 0x7e < byte ==> b == 0x3f,
{
    if byte >= 0x20 && byte <= 0x7e {
        byte
    } else {
        0x3f
    }
}

/// The number of outputs in a mask: serial and framebuffer.
pub open spec fn outputs_count(outputs: u8) -> u8 {
    ((if outputs & OUTPUT_SERIAL != 0 { 1int } else { 0 }) + (if outputs & OUTPUT_FRAMEBUFFER != 0 { 1int } else { 0 })) as u8
}

/// Outputs are counted from the mask's two low bits, the serial line (bit 0) and the
/// framebuffer (bit 1): none, one or both; other bits do not count.
pub proof fn lemma_outputs_counted(outputs: u8)
    ensures
        outputs_count(outputs) == outputs_count(outputs & 3),
        outputs_count(0) == 0,
        outputs_count(1) == 1,
        outputs_count(2) == 1,
        outputs_count(3) == 2,
{
    assert((outputs & 3) & 1 == outputs & 1 && (outputs & 3) & 2 == outputs & 2) by (bit_vector);
    assert(0u8 & 1 == 0 && 0u8 & 2 == 0 && 1u8 & 1 == 1 && 1u8 & 2 == 0) by (bit_vector);
    assert(2u8 & 1 == 0 && 2u8 & 2 == 2 && 3u8 & 1 == 1 && 3u8 & 2 == 2) by (bit_vector);
}

pub fn output_count(outputs: u8) -> (n: u8)
    ensures
        n == outputs_count(outputs),
{
    (if outputs & OUTPUT_SERIAL != 0 { 1u8 } else { 0u8 }) + (if outputs & OUTPUT_FRAMEBUFFER != 0 { 1u8 } else { 0u8 })
}

/// A console's grid and cursor as the contracts see it.
pub ghost struct GridView {
    pub columns: int,
    pub rows: int,
    pub col: int,
    pub row: int,
    pub cells: Seq<ConsoleGlyph>,
}

/// The grid with row `r` blank.
pub open spec fn clear_row_spec(g: GridView, r: int) -> GridView {
    GridView {
        cells: Seq::new(g.cells.len(), |i: int| if r * g.columns <= i < (r + 1) * g.columns { empty_glyph() } else { g.cells[i] }),
        ..g
    }
}

/// The grid scrolled up one row, the cursor on the last row.
pub open spec fn scroll_spec(g: GridView) -> GridView {
    if g.rows <= 1 {
        clear_row_spec(g, 0)
    } else {
        GridView {
            cells: Seq::new(
                g.cells.len(),
                |i: int|
                    if i < (g.rows - 1) * g.columns {
                        g.cells[i + g.columns]
                    } else if i < g.rows * g.columns {
                        empty_glyph()
                    } else {
                        g.cells[i]
                    },
            ),
            row: g.rows - 1,
            ..g
        }
    }
}

/// The grid after a line break.
pub open spec fn new_line_spec(g: GridView) -> GridView {
    let g1 = GridView { col: 0, ..g };
    if g.row + 1 >= g.rows { scroll_spec(g1) } else { GridView { row: g.row + 1, ..g1 } }
}

/// The grid after one glyph: a line break first when the row is full.
pub open spec fn put_spec(g: GridView, glyph: ConsoleGlyph) -> GridView {
    let g1 = if g.col >= g.columns { new_line_spec(g) } else { g };
    let idx = g1.row * g1.columns + g1.col;
    GridView {
        cells: if 0 <= idx < g1.cells.len() { g1.cells.update(idx, glyph) } else { g1.cells },
        col: g1.col + 1,
        ..g1
    }
}

/// The grid after one byte of text: carriage returns are dropped, line feeds break the
/// line, tabs become four spaces.
pub open spec fn byte_spec(g: GridView, style: ConsoleStyle, b: u8) -> GridView {
    if b == 0x0d {
        g
    } else if b == 0x0a {
        new_line_spec(g)
    } else if b == 0x09 {
        let s = ConsoleGlyph { byte: 0x20, style };
        put_spec(put_spec(put_spec(put_spec(g, s), s), s), s)
    } else {
        put_spec(g, ConsoleGlyph { byte: glyph_byte(b), style })
    }
}

/// The grid after some text.
pub open spec fn text_spec(g: GridView, style: ConsoleStyle, text: Seq<u8>) -> GridView
    decreases text.len(),
{
    if text.len() == 0 { g } else { byte_spec(text_spec(g, style, text.drop_last()), style, text.last()) }
}

/// The number of line feeds.
pub open spec fn count_newlines(text: Seq<u8>) -> int
    decreases text.len(),
{
    if text.len() == 0 { 0 } else { count_newlines(text.drop_last()) + if text.last() == 0x0a { 1int } else { 0 } }
}

pub open spec fn sat_add(x: u64, n: int) -> u64 {
    if x + n > u64::MAX { u64::MAX } else { (x + n) as u64 }
}

/// A grid's shape is sound: its size is within limits and the cursor is on the grid.
pub open spec fn grid_ok(g: GridView) -> bool {
    &&& 1 <= g.columns <= MAX_COLUMNS
    &&& 1 <= g.rows <= MAX_ROWS
    &&& 0 <= g.row < g.rows
    &&& 0 <= g.col <= g.columns
    &&& g.cells.len() == MAX_CELLS
}

proof fn lemma_text_ok(g: GridView, style: ConsoleStyle, text: Seq<u8>)
    requires
        grid_ok(g),
    ensures
        grid_ok(text_spec(g, style, text)),
    decreases text.len(),
{
    if text.len() > 0 {
        lemma_text_ok(g, style, text.drop_last());
    }
}

/// Every printable ASCII byte (0x20 to 0x7e) written to a console is drawn as itself:
/// after any earlier text, writing such a byte leaves it, in the style of the write, in the
/// cell just before the cursor. Any other byte but a tab, line feed or carriage return is
/// drawn there as `?`.
pub proof fn lemma_printable_drawn_as_itself(g: GridView, style: ConsoleStyle, text: Seq<u8>, b: u8)
    requires
        grid_ok(g),
        b != 0x09 && b != 0x0a && b != 0x0d,
    ensures
        ({
            let h = text_spec(g, style, text.push(b));
            &&& grid_ok(h)
            &&& 1 <= h.col
            &&& 0x20 <= b && b <= 0x7e ==> h.cells[h.row * h.columns + h.col - 1] == (ConsoleGlyph { byte: b, style })
            &&& (b < 0x20 || 0x7e < b) ==> h.cells[h.row * h.columns + h.col - 1] == (ConsoleGlyph {
                byte: 0x3f,
                style,
            })
        }),
{
    lemma_text_ok(g, style, text);
    lemma_text_ok(g, style, text.push(b));
    assert(text.push(b).drop_last() =~= text);
    let g0 = text_spec(g, style, text);
    let g1 = if g0.col >= g0.columns { new_line_spec(g0) } else { g0 };
    if g0.col >= g0.columns {
        let ga = GridView { col: 0, ..g0 };
        if g0.row + 1 >= g0.rows {
            if g0.rows <= 1 {
                assert(clear_row_spec(ga, 0).cells.len() == MAX_CELLS);
            } else {
                assert(scroll_spec(ga).cells.len() == MAX_CELLS);
            }
        }
    }
    assert(grid_ok(g1) && g1.col < g1.columns);
    let idx = g1.row * g1.columns + g1.col;
    let (r, c, w, h) = (g1.row, g1.col, g1.columns, g1.rows);
    assert(0 <= r * w + c < 8192) by (nonlinear_arith)
        requires
            0 <= r < h <= 64,
            0 <= c < w <= 128,
    {
        assert(r * w <= (h - 1) * w);
        assert((h - 1) * w + w == h * w);
        assert(h * w <= 64 * w);
        assert(64 * w <= 8192);
    }
    assert(idx == r * w + c);
}

/// Control bytes: a carriage return changes nothing; a line feed moves the cursor to the
/// start of the next row, or, on the last row, scrolls every row up by one (the top row is
/// lost, the last becomes blank) and stays on the last row; a tab with room for four
/// cells draws four spaces in the style of the write and moves four cells on.
pub proof fn lemma_control_bytes(g: GridView, style: ConsoleStyle)
    requires
        grid_ok(g),
    ensures
        byte_spec(g, style, 0x0d) == g,
        ({
            let h = byte_spec(g, style, 0x0a);
            &&& h.col == 0 && h.columns == g.columns && h.rows == g.rows
            &&& g.row + 1 < g.rows ==> h.row == g.row + 1 && h.cells == g.cells
            &&& g.row + 1 >= g.rows && g.rows > 1 ==> {
                &&& h.row == g.rows - 1
                &&& forall|i: int| 0 <= i < (g.rows - 1) * g.columns ==> #[trigger] h.cells[i] == g.cells[i + g.columns]
                &&& forall|i: int| (g.rows - 1) * g.columns <= i < g.rows * g.columns ==> #[trigger] h.cells[i]
                    == empty_glyph()
            }
        }),
        g.col + 4 <= g.columns ==> ({
            let h = byte_spec(g, style, 0x09);
            &&& h.row == g.row && h.col == g.col + 4
            &&& forall|t: int| 0 <= t < 4 ==> #[trigger] h.cells[g.row * g.columns + g.col + t] == (ConsoleGlyph {
                byte: 0x20,
                style,
            })
        }),
{
    let (w0, h0) = (g.columns, g.rows);
    assert(h0 * w0 <= 8192) by (nonlinear_arith)
        requires
            1 <= h0 <= 64,
            1 <= w0 <= 128,
    {
        assert(h0 * w0 <= 64 * w0);
    }
    if g.row + 1 >= g.rows && g.rows > 1 {
        let g1 = GridView { col: 0, ..g };
        let h = scroll_spec(g1);
        assert(h == byte_spec(g, style, 0x0a));
        assert(g1.rows == g.rows && g1.columns == g.columns && g1.cells == g.cells);
        assert(h.cells.len() == g.cells.len());
        assert forall|i: int| 0 <= i < (g.rows - 1) * g.columns implies #[trigger] h.cells[i] == g.cells[i + g.columns] by {
            assert((g.rows - 1) * g.columns + g.columns == g.rows * g.columns) by (nonlinear_arith);
        }
        assert forall|i: int| (g.rows - 1) * g.columns <= i < g.rows * g.columns implies #[trigger] h.cells[i]
            == empty_glyph() by {}
    }
    if g.col + 4 <= g.columns {
        let (r, c, w, hh) = (g.row, g.col, g.columns, g.rows);
        assert(0 <= r * w + c + 3 < 8192) by (nonlinear_arith)
            requires
                0 <= r < hh <= 64,
                0 <= c,
                c + 4 <= w <= 128,
        {
            assert(r * w <= (hh - 1) * w);
            assert((hh - 1) * w + w == hh * w);
            assert(hh * w <= 64 * w);
            assert(64 * w <= 8192);
        }
    }
}

/// A printable byte goes at the cursor when the row has room, and the cursor moves one
/// cell on; on a full row it goes to the first cell of the next row (scrolling on the last
/// row), and the cursor ends one cell into that row.
pub proof fn lemma_printable_placement(g: GridView, style: ConsoleStyle, b: u8)
    requires
        grid_ok(g),
        0x20 <= b && b <= 0x7e,
    ensures
        ({
            let h = byte_spec(g, style, b);
            &&& g.col < g.columns ==> h.row == g.row && h.col == g.col + 1 && h.cells == g.cells.update(
                g.row * g.columns + g.col,
                ConsoleGlyph { byte: b, style },
            )
            &&& g.col >= g.columns ==> h.col == 1 && h.row == (if g.row + 1 < g.rows { g.row + 1 } else { g.rows - 1 })
        }),
{
    if g.col < g.columns {
        let (r, c, w, hh) = (g.row, g.col, g.columns, g.rows);
        assert(0 <= r * w + c < 8192) by (nonlinear_arith)
            requires
                0 <= r < hh <= 64,
                0 <= c < w <= 128,
        {
            assert(r * w <= (hh - 1) * w);
            assert((hh - 1) * w + w == hh * w);
            assert(hh * w <= 64 * w);
            assert(64 * w <= 8192);
        }
    }
}

/// Line feeds are counted one by one: none in no text, one in a lone line feed and none in
/// any other single byte, and those of two pieces of text add up.
pub proof fn lemma_count_newlines_adds(a: Seq<u8>, b: Seq<u8>, x: u8)
    ensures
        count_newlines(Seq::<u8>::empty()) == 0,
        count_newlines(seq![x]) == (if x == 0x0a { 1int } else { 0int }),
        count_newlines(a + b) == count_newlines(a) + count_newlines(b),
    decreases b.len(),
{
    assert(seq![x].drop_last() =~= Seq::<u8>::empty());
    if b.len() == 0 {
        assert(a + b =~= a);
    } else {
        lemma_count_newlines_adds(a, b.drop_last(), x);
        assert((a + b).drop_last() =~= a + b.drop_last());
    }
}

/// One virtual console.
pub struct VirtualConsole {
    pub columns: usize,
    pub rows: usize,
    pub cursor_column: usize,
    pub cursor_row: usize,
    pub bytes_written: u64,
    pub lines_written: u64,
    pub cells: Vec<ConsoleGlyph>,
}

impl VirtualConsole {
    pub open spec fn grid(&self) -> GridView {
        GridView {
            columns: self.columns as int,
            rows: self.rows as int,
            col: self.cursor_column as int,
            row: self.cursor_row as int,
            cells: self.cells@,
        }
    }

    pub open spec fn wf(&self) -> bool {
        grid_ok(self.grid())
    }

    pub fn new() -> (c: Self)
        ensures
            c.wf(),
            c.columns == DEFAULT_COLUMNS && c.rows == DEFAULT_ROWS,
            c.cursor_column == 0 && c.cursor_row == 0,
            c.bytes_written == 0 && c.lines_written == 0,
            c.cells@ == Seq::new(MAX_CELLS as nat, |i: int| empty_glyph()),
    {
        let mut cells: Vec<ConsoleGlyph> = Vec::new();
        let mut i: usize = 0;
        while i < MAX_CELLS
            invariant
                i <= MAX_CELLS,
                cells@ == Seq::new(i as nat, |k: int| empty_glyph()),
            decreases MAX_CELLS - i,
        {
            cells.push(ConsoleGlyph::empty());
            i = i + 1;
            assert(cells@ =~= Seq::new(i as nat, |k: int| empty_glyph()));
        }
        VirtualConsole {
            columns: DEFAULT_COLUMNS,
            rows: DEFAULT_ROWS,
            cursor_column: 0,
            cursor_row: 0,
            bytes_written: 0,
            lines_written: 0,
            cells,
        }
    }

    /// Blanks the whole grid and homes the cursor.
    pub fn clear(&mut self)
        requires
            old(self).wf(),
        ensures
            final(self).wf(),
            final(self).columns == old(self).columns && final(self).rows == old(self).rows,
            final(self).cursor_column == 0 && final(self).cursor_row == 0,
            final(self).cells@ == Seq::new(MAX_CELLS as nat, |i: int| empty_glyph()),
            final(self).bytes_written == old(self).bytes_written,
            final(self).lines_written == old(self).lines_written,
    {
        self.cursor_column = 0;
        self.cursor_row = 0;
        let mut i: usize = 0;
        while i < self.cells.len()
            invariant
                self.cells@.len() == MAX_CELLS,
                i <= MAX_CELLS,
                forall|k: int| 0 <= k < i ==> #[trigger] self.cells@[k] == empty_glyph(),
                1 <= self.columns <= MAX_COLUMNS,
                1 <= self.rows <= MAX_ROWS,
                self.cursor_column == 0 && self.cursor_row == 0,
                self.columns == old(self).columns && self.rows == old(self).rows,
                self.bytes_written == old(self).bytes_written,
                self.lines_written == old(self).lines_written,
            decreases MAX_CELLS - i,
        {
            self.cells.set(i, ConsoleGlyph::empty());
            i = i + 1;
        }
        assert(self.cells@ =~= Seq::new(MAX_CELLS as nat, |i: int| empty_glyph()));
    }

    /// Sets the size, clamped to the limits, blanks the grid and resets the counters.
    pub fn configure(&mut self, columns: usize, rows: usize)
        requires
            old(self).wf(),
        ensures
            final(self).wf(),
            final(self).columns == if columns > MAX_COLUMNS { MAX_COLUMNS } else if columns < 1 { 1 } else { columns },
            final(self).rows == if rows > MAX_ROWS { MAX_ROWS } else if rows < 1 { 1 } else { rows },
            final(self).cursor_column == 0 && final(self).cursor_row == 0,
            final(self).cells@ == Seq::new(MAX_CELLS as nat, |i: int| empty_glyph()),
            final(self).bytes_written == 0 && final(self).lines_written == 0,
    {
        self.cursor_column = 0;
        self.cursor_row = 0;
        self.columns = if columns > MAX_COLUMNS { MAX_COLUMNS } else if columns < 1 { 1 } else { columns };
        self.rows = if rows > MAX_ROWS { MAX_ROWS } else if rows < 1 { 1 } else { rows };
        self.clear();
        self.bytes_written = 0;
        self.lines_written = 0;
    }

    fn clear_row(&mut self, row: usize)
        requires
            old(self).wf(),
            row < old(self).rows,
        ensures
            final(self).wf(),
            final(self).grid() == clear_row_spec(old(self).grid(), row as int),
            final(self).bytes_written == old(self).bytes_written,
            final(self).lines_written == old(self).lines_written,
    {
        assert(row * self.columns + self.columns <= MAX_CELLS) by (nonlinear_arith)
            requires
                row < self.rows,
                self.rows <= 64,
                self.columns <= 128,
        ;
        let start = row * self.columns;
        let ghost g = self.grid();
        let mut k: usize = 0;
        while k < self.columns
            invariant
                g == old(self).grid(),
                start == row * self.columns,
                start + self.columns <= MAX_CELLS,
                k <= self.columns,
                self.columns == old(self).columns && self.rows == old(self).rows,
                self.cursor_column == old(self).cursor_column && self.cursor_row == old(self).cursor_row,
                self.bytes_written == old(self).bytes_written,
                self.lines_written == old(self).lines_written,
                self.cells@.len() == MAX_CELLS,
                forall|i: int| 0 <= i < MAX_CELLS ==> #[trigger] self.cells@[i] == if start <= i < start + k {
                    empty_glyph()
                } else {
                    g.cells[i]
                },
            decreases self.columns - k,
        {
            self.cells.set(start + k, ConsoleGlyph::empty());
            k = k + 1;
        }
        assert((row + 1) * (self.columns as int) == row * self.columns + self.columns) by (nonlinear_arith);
        assert(self.cells@ =~= clear_row_spec(g, row as int).cells);
    }

    /// Moves every row up by one, blanks the last row and puts the cursor on it.
    pub fn scroll_up(&mut self)
        requires
            old(self).wf(),
        ensures
            final(self).wf(),
            final(self).grid() == scroll_spec(old(self).grid()),
            final(self).bytes_written == old(self).bytes_written,
            final(self).lines_written == old(self).lines_written,
    {
        if self.rows <= 1 {
            self.clear_row(0);
            return;
        }
        let ghost g = self.grid();
        let cols = self.columns;
        let rows = self.rows;
        assert((rows - 1) * cols + cols <= MAX_CELLS) by (nonlinear_arith)
            requires
                rows <= 64,
                cols <= 128,
                rows >= 1,
        ;
        let limit = (rows - 1) * cols;
        let mut i: usize = 0;
        while i < limit
            invariant
                g == old(self).grid(),
                cols == self.columns && rows == self.rows,
                self.columns == old(self).columns && self.rows == old(self).rows,
                self.cursor_column == old(self).cursor_column && self.cursor_row == old(self).cursor_row,
                self.bytes_written == old(self).bytes_written,
                self.lines_written == old(self).lines_written,
                limit == (rows - 1) * cols,
                limit + cols <= MAX_CELLS,
                i <= limit,
                self.cells@.len() == MAX_CELLS,
                forall|k: int| 0 <= k < MAX_CELLS ==> #[trigger] self.cells@[k] == if k < i {
                    g.cells[k + cols]
                } else {
                    g.cells[k]
                },
            decreases limit - i,
        {
            let c = self.cells[i + cols];
            self.cells.set(i, c);
            i = i + 1;
        }
        let ghost mid = self.grid();
        self.clear_row(rows - 1);
        self.cursor_row = rows - 1;
        proof {
            assert((rows - 1) * cols == (rows - 1) * (cols as int));
            assert(rows * cols == (rows - 1) * cols + cols) by (nonlinear_arith);
        }
        assert(self.cells@ =~= scroll_spec(g).cells);
    }

    /// Breaks the line, scrolling at the bottom.
    pub fn new_line(&mut self)
        requires
            old(self).wf(),
        ensures
            final(self).wf(),
            final(self).grid() == new_line_spec(old(self).grid()),
            final(self).bytes_written == old(self).bytes_written,
            final(self).lines_written == old(self).lines_written,
    {
        self.cursor_column = 0;
        if self.cursor_row + 1 >= self.rows {
            self.scroll_up();
        } else {
            self.cursor_row = self.cursor_row + 1;
        }
    }

    /// Puts one glyph at the cursor, breaking the line first when the row is full.
    pub fn write_byte(&mut self, style: ConsoleStyle, byte: u8)
        requires
            old(self).wf(),
        ensures
            final(self).wf(),
            final(self).grid() == put_spec(old(self).grid(), ConsoleGlyph { byte, style }),
            final(self).bytes_written == old(self).bytes_written,
            final(self).lines_written == old(self).lines_written,
    {
        if self.cursor_column >= self.columns {
            self.new_line();
        }
        assert(self.cursor_row * self.columns + self.cursor_column < MAX_CELLS) by (nonlinear_arith)
            requires
                self.cursor_row < self.rows,
                self.cursor_column < self.columns,
                self.rows <= 64,
                self.columns <= 128,
        ;
        let index = self.cursor_row * self.columns + self.cursor_column;
        if index < self.cells.len() {
            self.cells.set(index, ConsoleGlyph { byte, style });
        }
        self.cursor_column = self.cursor_column + 1;
    }

    fn write_text_byte(&mut self, style: ConsoleStyle, byte: u8)
        requires
            old(self).wf(),
        ensures
            final(self).wf(),
            final(self).grid() == byte_spec(old(self).grid(), style, byte),
            final(self).bytes_written == old(self).bytes_written,
            final(self).lines_written == old(self).lines_written,
    {
        if byte == 0x0d {
        } else if byte == 0x0a {
            self.new_line();
        } else if byte == 0x09 {
            self.write_byte(style, 0x20);
            self.write_byte(style, 0x20);
            self.write_byte(style, 0x20);
            self.write_byte(style, 0x20);
        } else {
            self.write_byte(style, normalize_glyph_byte(byte));
        }
    }

    /// Writes text: counts its bytes and line feeds, then draws it.
    pub fn write_style(&mut self, style: ConsoleStyle, text: &[u8])
        requires
            old(self).wf(),
        ensures
            final(self).wf(),
            final(self).grid() == text_spec(old(self).grid(), style, text@),
            final(self).bytes_written == sat_add(old(self).bytes_written, text@.len() as int),
            final(self).lines_written == sat_add(old(self).lines_written, count_newlines(text@)),
    {
        let newlines = count_newline_bytes(text);
        self.bytes_written = self.bytes_written.saturating_add(text.len() as u64);
        self.lines_written = self.lines_written.saturating_add(newlines);
        let ghost g0 = self.grid();
        let mut i: usize = 0;
        while i < text.len()
            invariant
                i <= text@.len(),
                self.wf(),
                g0 == old(self).grid(),
                self.grid() == text_spec(g0, style, text@.subrange(0, i as int)),
                self.bytes_written == sat_add(old(self).bytes_written, text@.len() as int),
                self.lines_written == sat_add(old(self).lines_written, count_newlines(text@)),
            decreases text@.len() - i,
        {
            self.write_text_byte(style, text[i]);
            assert(text@.subrange(0, i + 1).drop_last() =~= text@.subrange(0, i as int));
            i = i + 1;
        }
        assert(text@.subrange(0, text@.len() as int) =~= text@);
    }
}

proof fn lemma_count_newlines_bound(text: Seq<u8>)
    ensures
        0 <= count_newlines(text) <= text.len(),
    decreases text.len(),
{
    if text.len() > 0 {
        lemma_count_newlines_bound(text.drop_last());
    }
}

/// The number of line feeds in `text`.
pub fn count_newline_bytes(text: &[u8]) -> (n: u64)
    ensures
        n == count_newlines(text@),
{
    let mut n: u64 = 0;
    let mut i: usize = 0;
    while i < text.len()
        invariant
            i <= text@.len(),
            n == count_newlines(text@.subrange(0, i as int)),
        decreases text@.len() - i,
    {
        proof {
            assert(text@.subrange(0, i + 1).drop_last() =~= text@.subrange(0, i as int));
            lemma_count_newlines_bound(text@.subrange(0, i as int));
            assert(i < u64::MAX) by {
                assert(text@.len() <= usize::MAX);
                vstd::layout::unsigned_int_max_values();
                assert(usize::MAX <= u64::MAX) by {
                    vstd::arithmetic::power2::lemma2_to64();
                    assert(usize::BITS == 32 || usize::BITS == 64);
                }
            }
        }
        if text[i] == 0x0a {
            n = n + 1;
        }
        i = i + 1;
    }
    assert(text@.subrange(0, text@.len() as int) =~= text@);
    n
}

/// The console set: the active console, the outputs, the totals, and the consoles.
pub struct TtyConsole {
    pub initialized: bool,
    pub active_console_id: u32,
    pub outputs: u8,
    pub bytes_written: u64,
    pub lines_written: u64,
    pub columns: usize,
    pub rows: usize,
    pub consoles: Vec<VirtualConsole>,
}

impl TtyConsole {
    pub open spec fn wf(&self) -> bool {
        &&& self.consoles@.len() == VIRTUAL_CONSOLE_COUNT
        &&& self.active_console_id < VIRTUAL_CONSOLE_COUNT
        &&& forall|i: int| 0 <= i < VIRTUAL_CONSOLE_COUNT ==> (#[trigger] self.consoles@[i]).wf()
    }

    pub fn new() -> (t: Self)
        ensures
            t.wf(),
            !t.initialized,
            t.active_console_id == 0,
            t.outputs == OUTPUT_SERIAL,
            t.bytes_written == 0 && t.lines_written == 0,
            t.columns == DEFAULT_COLUMNS && t.rows == DEFAULT_ROWS,
    {
        let mut consoles: Vec<VirtualConsole> = Vec::new();
        let mut i: usize = 0;
        while i < VIRTUAL_CONSOLE_COUNT
            invariant
                i <= VIRTUAL_CONSOLE_COUNT,
                consoles@.len() == i,
                forall|k: int| 0 <= k < i ==> (#[trigger] consoles@[k]).wf(),
            decreases VIRTUAL_CONSOLE_COUNT - i,
        {
            consoles.push(VirtualConsole::new());
            i = i + 1;
        }
        TtyConsole {
            initialized: false,
            active_console_id: 0,
            outputs: OUTPUT_SERIAL,
            bytes_written: 0,
            lines_written: 0,
            columns: DEFAULT_COLUMNS,
            rows: DEFAULT_ROWS,
            consoles,
        }
    }

    /// The outputs text goes to: serial only until initialized.
    pub open spec fn active_outputs(&self) -> u8 {
        if self.initialized { self.outputs } else { OUTPUT_SERIAL }
    }

    /// Brings the consoles up at the framebuffer's size (`fb_dimensions`) or the default.
    pub fn initialize(&mut self, framebuffer_output: bool, fb_dimensions: Option<(usize, usize)>) -> (b: TtyBootstrap)
        requires
            old(self).wf(),
        ensures
            final(self).wf(),
            final(self).initialized,
            final(self).active_console_id == 0,
            final(self).outputs == if framebuffer_output { OUTPUT_SERIAL | OUTPUT_FRAMEBUFFER } else { OUTPUT_SERIAL },
            final(self).bytes_written == 0 && final(self).lines_written == 0,
            ({
                let (c, r) = if framebuffer_output {
                    match fb_dimensions {
                        Some(d) => d,
                        None => (DEFAULT_COLUMNS, DEFAULT_ROWS),
                    }
                } else {
                    (DEFAULT_COLUMNS, DEFAULT_ROWS)
                };
                &&& final(self).columns == if c > MAX_COLUMNS { MAX_COLUMNS } else if c < 1 { 1 } else { c }
                &&& final(self).rows == if r > MAX_ROWS { MAX_ROWS } else if r < 1 { 1 } else { r }
            }),
            forall|i: int| 0 <= i < VIRTUAL_CONSOLE_COUNT ==> (#[trigger] final(self).consoles@[i]).columns
                == final(self).columns && final(self).consoles@[i].rows == final(self).rows
                && final(self).consoles@[i].cursor_column == 0 && final(self).consoles@[i].cursor_row == 0,
            b.console_id == 0,
            b.output_count == outputs_count(final(self).outputs),
            b.framebuffer_output == framebuffer_output,
            b.virtual_console_count == VIRTUAL_CONSOLE_COUNT,
            b.columns == final(self).columns,
            b.rows == final(self).rows,
    {
        self.initialized = true;
        self.active_console_id = 0;
        self.outputs = OUTPUT_SERIAL;
        if framebuffer_output {
            self.outputs = self.outputs | OUTPUT_FRAMEBUFFER;
        }
        let (columns, rows) = if framebuffer_output {
            match fb_dimensions {
                Some(d) => d,
                None => (DEFAULT_COLUMNS, DEFAULT_ROWS),
            }
        } else {
            (DEFAULT_COLUMNS, DEFAULT_ROWS)
        };
        self.columns = if columns > MAX_COLUMNS { MAX_COLUMNS } else if columns < 1 { 1 } else { columns };
        self.rows = if rows > MAX_ROWS { MAX_ROWS } else if rows < 1 { 1 } else { rows };
        self.bytes_written = 0;
        self.lines_written = 0;
        let mut i: usize = 0;
        while i < VIRTUAL_CONSOLE_COUNT
            invariant
                i <= VIRTUAL_CONSOLE_COUNT,
                self.consoles@.len() == VIRTUAL_CONSOLE_COUNT,
                self.active_console_id == 0,
                forall|k: int| 0 <= k < VIRTUAL_CONSOLE_COUNT ==> (#[trigger] self.consoles@[k]).wf(),
                forall|k: int| 0 <= k < i ==> (#[trigger] self.consoles@[k]).columns == self.columns
                    && self.consoles@[k].rows == self.rows && self.consoles@[k].cursor_column == 0
                    && self.consoles@[k].cursor_row == 0,
                1 <= self.columns <= MAX_COLUMNS,
                1 <= self.rows <= MAX_ROWS,
                self.initialized,
                self.outputs == if framebuffer_output { OUTPUT_SERIAL | OUTPUT_FRAMEBUFFER } else { OUTPUT_SERIAL },
                self.bytes_written == 0 && self.lines_written == 0,
                self.columns == if columns > MAX_COLUMNS { MAX_COLUMNS } else if columns < 1 { 1 } else { columns },
                self.rows == if rows > MAX_ROWS { MAX_ROWS } else if rows < 1 { 1 } else { rows },
            decreases VIRTUAL_CONSOLE_COUNT - i,
        {
            let mut c = self.consoles.remove(i);
            c.configure(self.columns, self.rows);
            self.consoles.insert(i, c);
            i = i + 1;
        }
        TtyBootstrap {
            console_id: self.active_console_id,
            output_count: output_count(self.outputs),
            framebuffer_output,
            virtual_console_count: VIRTUAL_CONSOLE_COUNT as u32,
            columns: self.columns,
            rows: self.rows,
        }
    }

    /// Writes to the active console and counts it; returns the outputs the text is also
    /// to be sent to (serial, framebuffer).
    pub fn write_style(&mut self, style: ConsoleStyle, text: &[u8]) -> (outputs: u8)
        requires
            old(self).wf(),
        ensures
            final(self).wf(),
            outputs == old(self).active_outputs(),
            final(self).active_console_id == old(self).active_console_id,
            final(self).consoles@[old(self).active_console_id as int].grid() == text_spec(
                old(self).consoles@[old(self).active_console_id as int].grid(),
                style,
                text@,
            ),
            forall|i: int| 0 <= i < VIRTUAL_CONSOLE_COUNT && i != old(self).active_console_id ==> #[trigger] final(self).consoles@[i] == old(self).consoles@[i],
            final(self).bytes_written == sat_add(old(self).bytes_written, text@.len() as int),
            final(self).lines_written == sat_add(old(self).lines_written, count_newlines(text@)),
            final(self).initialized == old(self).initialized && final(self).outputs == old(self).outputs,
    {
        let outputs = if self.initialized { self.outputs } else { OUTPUT_SERIAL };
        let active = self.active_console_id as usize;
        let mut c = self.consoles.remove(active);
        c.write_style(style, text);
        self.consoles.insert(active, c);
        let newlines = count_newline_bytes(text);
        self.bytes_written = self.bytes_written.saturating_add(text.len() as u64);
        self.lines_written = self.lines_written.saturating_add(newlines);
        outputs
    }

    /// Writes in the default style.
    pub fn write_str(&mut self, text: &[u8]) -> (outputs: u8)
        requires
            old(self).wf(),
        ensures
            final(self).wf(),
            outputs == old(self).active_outputs(),
            final(self).active_console_id == old(self).active_console_id,
            final(self).consoles@[old(self).active_console_id as int].grid() == text_spec(
                old(self).consoles@[old(self).active_console_id as int].grid(),
                ConsoleStyle { code: 0 },
                text@,
            ),
            forall|i: int| 0 <= i < VIRTUAL_CONSOLE_COUNT && i != old(self).active_console_id ==> #[trigger] final(self).consoles@[i] == old(self).consoles@[i],
            final(self).bytes_written == sat_add(old(self).bytes_written, text@.len() as int),
            final(self).lines_written == sat_add(old(self).lines_written, count_newlines(text@)),
            final(self).initialized == old(self).initialized && final(self).outputs == old(self).outputs,
    {
        self.write_style(ConsoleStyle { code: 0 }, text)
    }

    /// Writes to console `console_id`; returns whether the framebuffer must show the active
    /// console again.
    pub fn write_to_console(&mut self, console_id: u32, style: ConsoleStyle, text: &[u8]) -> (r: Result<bool, TtyError>)
        requires
            old(self).wf(),
        ensures
            final(self).wf(),
            console_id >= VIRTUAL_CONSOLE_COUNT ==> r == Err::<bool, TtyError>(TtyError::InvalidConsole)
                && *final(self) == *old(self),
            console_id < VIRTUAL_CONSOLE_COUNT ==> r == Ok::<bool, TtyError>(
                console_id == old(self).active_console_id && old(self).outputs & OUTPUT_FRAMEBUFFER != 0,
            ) && final(self).consoles@[console_id as int].grid() == text_spec(
                old(self).consoles@[console_id as int].grid(),
                style,
                text@,
            ) && final(self).bytes_written == old(self).bytes_written && final(self).active_console_id == old(self).active_console_id,
    {
        if console_id as usize >= VIRTUAL_CONSOLE_COUNT {
            return Err(TtyError::InvalidConsole);
        }
        let index = console_id as usize;
        let mut c = self.consoles.remove(index);
        c.write_style(style, text);
        self.consoles.insert(index, c);
        Ok(console_id == self.active_console_id && self.outputs & OUTPUT_FRAMEBUFFER != 0)
    }

    /// Makes console `console_id` active; returns whether the framebuffer must show it.
    pub fn switch_active_console(&mut self, console_id: u32) -> (r: Result<bool, TtyError>)
        requires
            old(self).wf(),
        ensures
            final(self).wf(),
            console_id >= VIRTUAL_CONSOLE_COUNT ==> r == Err::<bool, TtyError>(TtyError::InvalidConsole)
                && *final(self) == *old(self),
            console_id < VIRTUAL_CONSOLE_COUNT ==> r == Ok::<bool, TtyError>(old(self).outputs & OUTPUT_FRAMEBUFFER != 0)
                && final(self).active_console_id == console_id && final(self).consoles@ == old(self).consoles@,
    {
        if console_id as usize >= VIRTUAL_CONSOLE_COUNT {
            return Err(TtyError::InvalidConsole);
        }
        self.active_console_id = console_id;
        Ok(self.outputs & OUTPUT_FRAMEBUFFER != 0)
    }

    pub fn stats(&self) -> (s: TtyStats)
        ensures
            s.console_id == self.active_console_id,
            s.output_count == outputs_count(self.active_outputs()),
            s.bytes_written == self.bytes_written,
            s.lines_written == self.lines_written,
            s.virtual_console_count == VIRTUAL_CONSOLE_COUNT,
            s.columns == self.columns,
            s.rows == self.rows,
    {
        let outputs = if self.initialized { self.outputs } else { OUTPUT_SERIAL };
        TtyStats {
            console_id: self.active_console_id,
            output_count: output_count(outputs),
            bytes_written: self.bytes_written,
            lines_written: self.lines_written,
            virtual_console_count: VIRTUAL_CONSOLE_COUNT as u32,
            columns: self.columns,
            rows: self.rows,
        }
    }
}

} // verus!
