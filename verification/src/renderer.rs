use vstd::prelude::*;
use crate::flush::{TermCommand, commands_view, flush_plan, plan_frame};

verus! {

/// A terminal foreground colour, with the same variants as crossterm's `Color`.
#[derive(Clone, Copy, Debug, PartialEq, Eq, Structural)]
pub enum Color {
    Reset,
    Black,
    DarkGrey,
    Red,
    DarkRed,
    Green,
    DarkGreen,
    Yellow,
    DarkYellow,
    Blue,
    DarkBlue,
    Magenta,
    DarkMagenta,
    Cyan,
    DarkCyan,
    White,
    Grey,
    Rgb { r: u8, g: u8, b: u8 },
    AnsiValue(u8),
}

/// One character cell of the screen.
#[derive(Clone, Copy, Debug, PartialEq, Eq, Structural)]
pub struct Cell {
    pub ch: char,
    pub color: Color,
}

/// The cell a cleared screen holds: a space in the terminal's default colour.
pub open spec fn blank_cell() -> Cell {
    Cell { ch: ' ', color: Color::Reset }
}

impl Default for Cell {
    fn default() -> (c: Self)
        ensures
            c == blank_cell(),
    {
        Cell { ch: ' ', color: Color::Reset }
    }
}

/// A character placed at a column and row, as a drawing routine emits it.
pub ghost struct Glyph {
    pub x: int,
    pub y: int,
    pub ch: char,
    pub color: Color,
}

/// The glyph `ch` in `color` at column `x`, row `y`.
pub open spec fn glyph(x: int, y: int, ch: char, color: Color) -> Glyph {
    Glyph { x, y, ch, color }
}

/// Index of column `x`, row `y` in a row-major buffer `w` cells wide.
pub open spec fn cell_index(w: int, x: int, y: int) -> int {
    y * w + x
}

/// The buffer after writing one glyph: cells outside the `w` x `h` screen are left alone.
pub open spec fn put_cell(cells: Seq<Cell>, w: int, h: int, g: Glyph) -> Seq<Cell> {
    if 0 <= g.x < w && 0 <= g.y < h {
        cells.update(cell_index(w, g.x, g.y), Cell { ch: g.ch, color: g.color })
    } else {
        cells
    }
}

/// The buffer after writing a sequence of glyphs in order (later ones win).
pub open spec fn draw(cells: Seq<Cell>, w: int, h: int, gs: Seq<Glyph>) -> Seq<Cell>
    decreases gs.len(),
{
    if gs.len() == 0 {
        cells
    } else {
        put_cell(draw(cells, w, h, gs.drop_last()), w, h, gs.last())
    }
}

/// The glyphs `put_str` writes: the characters of `text` from column `x` on row `y`,
/// up to (not including) column `w`.
pub open spec fn text_glyphs(x: int, y: int, text: Seq<char>, color: Color, w: int) -> Seq<Glyph> {
    Seq::new(text_span(x, text.len() as int, w), |i: int| glyph(x + i, y, text[i], color))
}

/// `ch` in `color` at columns `0..count` of row `y`.
pub open spec fn row_glyphs(y: int, count: int, ch: char, color: Color) -> Seq<Glyph> {
    Seq::new(count as nat, |x: int| glyph(x, y, ch, color))
}

/// How many of `len` characters written from column `x` fit left of column `w`.
pub open spec fn text_span(x: int, len: int, w: int) -> nat {
    if x >= w || len <= 0 {
        0
    } else if len <= w - x {
        len as nat
    } else {
        (w - x) as nat
    }
}

/// A double-buffered grid of cells: `buffer` is the frame being drawn and
/// `prev_buffer` the frame the terminal shows.
pub struct Renderer {
    width: u16,
    height: u16,
    buffer: Vec<Cell>,
    prev_buffer: Vec<Cell>,
}

impl Renderer {
    pub closed spec fn w(&self) -> int {
        self.width as int
    }

    pub closed spec fn h(&self) -> int {
        self.height as int
    }

    /// The frame being drawn, row by row.
    pub closed spec fn cells(&self) -> Seq<Cell> {
        self.buffer@
    }

    /// The frame the terminal was last brought to by a flush.
    pub closed spec fn shown(&self) -> Seq<Cell> {
        self.prev_buffer@
    }

    pub open spec fn wf(&self) -> bool {
        &&& 0 <= self.w() <= u16::MAX
        &&& 0 <= self.h() <= u16::MAX
        &&& self.cells().len() == self.w() * self.h()
        &&& self.shown().len() == self.w() * self.h()
    }

    /// A renderer of `width` x `height` blank cells that writes to no terminal.
    pub fn new_headless(width: u16, height: u16) -> (r: Self)
        ensures
            r.wf(),
            r.w() == width,
            r.h() == height,
            r.cells() == Seq::new((width * height) as nat, |i: int| blank_cell()),
            r.shown() == r.cells(),
    {
        proof {
            lemma_area_bound(width as int, height as int);
        }
        let size = width as usize * height as usize;
        let buffer = vec![Cell::default(); size];
        let prev_buffer = vec![Cell::default(); size];
        let r = Renderer { width, height, buffer, prev_buffer };
        assert(r.cells() =~= Seq::new((width * height) as nat, |i: int| blank_cell()));
        assert(r.shown() =~= r.cells());
        r
    }

    pub fn width(&self) -> (w: u16)
        ensures
            w == self.w(),
    {
        self.width
    }

    pub fn height(&self) -> (h: u16)
        ensures
            h == self.h(),
    {
        self.height
    }

    /// Writes `ch` in `color` at column `x`, row `y`; positions off the screen are ignored.
    pub fn put(&mut self, x: u16, y: u16, ch: char, color: Color)
        requires
            old(self).wf(),
        ensures
            final(self).wf(),
            final(self).w() == old(self).w(),
            final(self).h() == old(self).h(),
            final(self).shown() == old(self).shown(),
            final(self).cells() == put_cell(
                old(self).cells(),
                old(self).w(),
                old(self).h(),
                Glyph { x: x as int, y: y as int, ch, color },
            ),
    {
        if x < self.width && y < self.height {
            proof {
                lemma_index_in_bounds(self.w(), self.h(), x as int, y as int);
                lemma_area_bound(self.w(), self.h());
            }
            let idx = y as usize * self.width as usize + x as usize;
            self.buffer.set(idx, Cell { ch, color });
        }
    }

    /// Fills the whole frame with blank cells.
    pub fn clear(&mut self)
        requires
            old(self).wf(),
        ensures
            final(self).wf(),
            final(self).w() == old(self).w(),
            final(self).h() == old(self).h(),
            final(self).shown() == old(self).shown(),
            final(self).cells() == Seq::new(old(self).cells().len(), |i: int| blank_cell()),
    {
        let n = self.buffer.len();
        let mut i: usize = 0;
        while i < n
            invariant
                self.wf(),
                self.w() == old(self).w(),
                self.h() == old(self).h(),
                self.shown() == old(self).shown(),
                n == self.cells().len(),
                i <= n,
                forall|k: int| 0 <= k < i ==> self.cells()[k] == blank_cell(),
            decreases n - i,
        {
            self.buffer.set(i, Cell::default());
            i += 1;
        }
        assert(self.cells() =~= Seq::new(old(self).cells().len(), |i: int| blank_cell()));
    }

    /// Changes the size of the screen; both frames become blank.
    pub fn resize(&mut self, width: u16, height: u16)
        requires
            old(self).wf(),
        ensures
            final(self).wf(),
            final(self).w() == width,
            final(self).h() == height,
            final(self).cells() == Seq::new((width * height) as nat, |i: int| blank_cell()),
            final(self).shown() == final(self).cells(),
    {
        *self = Renderer::new_headless(width, height);
    }

    /// Writes the characters of `s` from column `x` on row `y`, stopping at the right edge.
    pub fn put_str(&mut self, x: u16, y: u16, s: &str, color: Color)
        requires
            old(self).wf(),
        ensures
            final(self).wf(),
            final(self).w() == old(self).w(),
            final(self).h() == old(self).h(),
            final(self).shown() == old(self).shown(),
            final(self).cells() == draw(
                old(self).cells(),
                old(self).w(),
                old(self).h(),
                text_glyphs(x as int, y as int, s@, color, old(self).w()),
            ),
    {
        let n = s.unicode_len();
        let count: usize = if x >= self.width {
            0
        } else if n <= (self.width - x) as usize {
            n
        } else {
            (self.width - x) as usize
        };
        let ghost gs = text_glyphs(x as int, y as int, s@, color, old(self).w());
        let mut i: usize = 0;
        assert(gs.take(0) =~= Seq::<Glyph>::empty());
        assert(gs.len() == count) by {
            assert(self.w() == old(self).w());
            if x >= self.w() {
            } else if s@.len() <= self.w() - x {
                assert(count == s@.len());
            } else {
                assert(count == self.w() - x);
            }
        }
        while i < count
            invariant
                self.wf(),
                self.w() == old(self).w(),
                self.h() == old(self).h(),
                self.shown() == old(self).shown(),
                gs == text_glyphs(x as int, y as int, s@, color, old(self).w()),
                count == gs.len(),
                n == s@.len(),
                count <= n,
                count == 0 || x + count <= self.w(),
                i <= count,
                self.cells() == draw(old(self).cells(), self.w(), self.h(), gs.take(i as int)),
            decreases count - i,
        {
            let ch = s.get_char(i);
            let cx = x + i as u16;
            self.put(cx, y, ch, color);
            proof {
                lemma_draw_step(old(self).cells(), self.w(), self.h(), gs, i as int);
            }
            i += 1;
        }
        assert(gs.take(count as int) =~= gs);
    }

    /// Plans the terminal output that brings the screen from the frame last marked as
    /// shown to the drawn frame. The caller writes the commands to the terminal and,
    /// once they are written, calls `mark_shown`.
    pub fn flush(&self) -> (cmds: Vec<TermCommand>)
        requires
            self.wf(),
        ensures
            commands_view(cmds@) == flush_plan(self.cells(), self.shown(), self.w()),
    {
        plan_frame(&self.buffer, &self.prev_buffer, self.width, self.height)
    }

    /// Records the drawn frame as the one the terminal shows.
    pub fn mark_shown(&mut self)
        requires
            old(self).wf(),
        ensures
            final(self).wf(),
            final(self).w() == old(self).w(),
            final(self).h() == old(self).h(),
            final(self).cells() == old(self).cells(),
            final(self).shown() == old(self).cells(),
    {
        let n = self.buffer.len();
        let mut i: usize = 0;
        while i < n
            invariant
                self.wf(),
                self.w() == old(self).w(),
                self.h() == old(self).h(),
                self.cells() == old(self).cells(),
                n == self.cells().len(),
                i <= n,
                forall|k: int| 0 <= k < i ==> self.shown()[k] == self.cells()[k],
            decreases n - i,
        {
            let c = self.buffer[i];
            self.prev_buffer.set(i, c);
            i += 1;
        }
        assert(self.shown() =~= self.cells());
    }

    /// Writes `ch` in `color` at columns `0..count` of row `y`.
    pub fn fill_row(&mut self, y: u16, count: u16, ch: char, color: Color)
        requires
            old(self).wf(),
        ensures
            final(self).wf(),
            final(self).w() == old(self).w(),
            final(self).h() == old(self).h(),
            final(self).shown() == old(self).shown(),
            final(self).cells() == draw(
                old(self).cells(),
                old(self).w(),
                old(self).h(),
                row_glyphs(y as int, count as int, ch, color),
            ),
    {
        let ghost gs = row_glyphs(y as int, count as int, ch, color);
        let mut x: u16 = 0;
        assert(gs.take(0) =~= Seq::<Glyph>::empty());
        while x < count
            invariant
                self.wf(),
                self.w() == old(self).w(),
                self.h() == old(self).h(),
                self.shown() == old(self).shown(),
                gs == row_glyphs(y as int, count as int, ch, color),
                x <= count,
                self.cells() == draw(old(self).cells(), self.w(), self.h(), gs.take(x as int)),
            decreases count - x,
        {
            self.put(x, y, ch, color);
            proof {
                lemma_draw_step(old(self).cells(), self.w(), self.h(), gs, x as int);
            }
            x += 1;
        }
        assert(gs.take(count as int) =~= gs);
    }

    /// The cell at column `x`, row `y`.
    pub fn cell_at(&self, x: u16, y: u16) -> (c: Cell)
        requires
            self.wf(),
            cell_index(self.w(), x as int, y as int) < self.cells().len(),
        ensures
            c == self.cells()[cell_index(self.w(), x as int, y as int)],
    {
        proof {
            lemma_area_bound(self.w(), self.h());
            assert(0 <= y * self.w()) by (nonlinear_arith)
                requires
                    0 <= y,
                    0 <= self.w(),
            ;
        }
        let idx = y as usize * self.width as usize + x as usize;
        self.buffer[idx]
    }
}

/// Drawing the first `i + 1` glyphs is drawing the first `i`, then glyph `i`.
pub proof fn lemma_draw_step(cells: Seq<Cell>, w: int, h: int, gs: Seq<Glyph>, i: int)
    requires
        0 <= i < gs.len(),
    ensures
        draw(cells, w, h, gs.take(i + 1)) == put_cell(draw(cells, w, h, gs.take(i)), w, h, gs[i]),
{
    assert(gs.take(i + 1).drop_last() =~= gs.take(i));
}

/// Drawing two glyph lists one after the other is drawing their concatenation.
pub proof fn lemma_draw_append(cells: Seq<Cell>, w: int, h: int, a: Seq<Glyph>, b: Seq<Glyph>)
    ensures
        draw(cells, w, h, a + b) == draw(draw(cells, w, h, a), w, h, b),
    decreases b.len(),
{
    if b.len() == 0 {
        assert(a + b =~= a);
    } else {
        assert((a + b).drop_last() =~= a + b.drop_last());
        lemma_draw_append(cells, w, h, a, b.drop_last());
    }
}

/// What a write puts at a place of the screen is what a read there gives back, and
/// every other place keeps what it held.
pub proof fn lemma_put_then_read(
    cells: Seq<Cell>,
    w: int,
    h: int,
    x: int,
    y: int,
    ch: char,
    color: Color,
    qx: int,
    qy: int,
)
    requires
        0 <= x < w,
        0 <= y < h,
        0 <= qx < w,
        0 <= qy < h,
        cells.len() == w * h,
    ensures
        put_cell(cells, w, h, glyph(x, y, ch, color))[cell_index(w, qx, qy)] == if qx == x && qy == y {
            Cell { ch, color }
        } else {
            cells[cell_index(w, qx, qy)]
        },
{
    lemma_index_in_bounds(w, h, x, y);
    lemma_index_in_bounds(w, h, qx, qy);
    if cell_index(w, qx, qy) == cell_index(w, x, y) {
        vstd::arithmetic::div_mod::lemma_fundamental_div_mod_converse(cell_index(w, x, y), w, y, x);
        vstd::arithmetic::div_mod::lemma_fundamental_div_mod_converse(cell_index(w, qx, qy), w, qy, qx);
    }
}

/// A screen of at most `u16::MAX` x `u16::MAX` cells fits a 32-bit index.
pub proof fn lemma_area_bound(w: int, h: int)
    requires
        0 <= w <= u16::MAX,
        0 <= h <= u16::MAX,
    ensures
        0 <= w * h <= 0xFFFE_0001,
{
    assert(0 <= w * h <= 0xFFFE_0001) by (nonlinear_arith)
        requires
            0 <= w <= u16::MAX,
            0 <= h <= u16::MAX,
    ;
}

/// A position inside a `w` x `h` screen has an index inside its buffer.
pub proof fn lemma_index_in_bounds(w: int, h: int, x: int, y: int)
    requires
        0 <= x < w,
        0 <= y < h,
    ensures
        0 <= cell_index(w, x, y) < w * h,
        cell_index(w, x, y) + 1 <= w * h,
{
    assert(y * w + x < w * h) by (nonlinear_arith)
        requires
            0 <= x < w,
            0 <= y < h,
    ;
    assert(0 <= y * w) by (nonlinear_arith)
        requires
            0 <= y,
            0 <= w,
    ;
}

/// Writing one glyph changes at most the cell under it, and that cell then holds the
/// glyph.
proof fn lemma_put_read(cells: Seq<Cell>, w: int, h: int, g: Glyph, qx: int, qy: int)
    requires
        0 <= qx < w,
        0 <= qy < h,
        cells.len() == w * h,
    ensures
        put_cell(cells, w, h, g).len() == w * h,
        put_cell(cells, w, h, g)[cell_index(w, qx, qy)] == if g.x == qx && g.y == qy {
            Cell { ch: g.ch, color: g.color }
        } else {
            cells[cell_index(w, qx, qy)]
        },
{
    if 0 <= g.x < w && 0 <= g.y < h {
        lemma_index_in_bounds(w, h, g.x, g.y);
        assert(g == glyph(g.x, g.y, g.ch, g.color));
        lemma_put_then_read(cells, w, h, g.x, g.y, g.ch, g.color, qx, qy);
    }
}

/// Drawing keeps the size of the buffer.
pub proof fn lemma_draw_len(cells: Seq<Cell>, w: int, h: int, gs: Seq<Glyph>)
    requires
        cells.len() == w * h,
    ensures
        draw(cells, w, h, gs).len() == w * h,
    decreases gs.len(),
{
    if gs.len() > 0 {
        lemma_draw_len(cells, w, h, gs.drop_last());
        let g = gs.last();
        if 0 <= g.x < w && 0 <= g.y < h {
            lemma_index_in_bounds(w, h, g.x, g.y);
        }
    }
}

/// A cell that no glyph lands on keeps what it held.
pub proof fn lemma_draw_untouched(cells: Seq<Cell>, w: int, h: int, gs: Seq<Glyph>, x: int, y: int)
    requires
        cells.len() == w * h,
        0 <= x < w,
        0 <= y < h,
        forall|j: int| 0 <= j < gs.len() ==> !((#[trigger] gs[j]).x == x && gs[j].y == y),
    ensures
        draw(cells, w, h, gs)[cell_index(w, x, y)] == cells[cell_index(w, x, y)],
    decreases gs.len(),
{
    if gs.len() > 0 {
        assert forall|j: int| 0 <= j < gs.drop_last().len() implies !((#[trigger] gs.drop_last()[j]).x == x
            && gs.drop_last()[j].y == y) by {
            assert(gs.drop_last()[j] == gs[j]);
        }
        lemma_draw_untouched(cells, w, h, gs.drop_last(), x, y);
        lemma_draw_len(cells, w, h, gs.drop_last());
        lemma_put_read(draw(cells, w, h, gs.drop_last()), w, h, gs.last(), x, y);
    }
}

/// What a drawing leaves in a cell depends only on what that cell held before.
pub proof fn lemma_draw_local(c1: Seq<Cell>, c2: Seq<Cell>, w: int, h: int, gs: Seq<Glyph>, x: int, y: int)
    requires
        c1.len() == w * h,
        c2.len() == w * h,
        0 <= x < w,
        0 <= y < h,
        c1[cell_index(w, x, y)] == c2[cell_index(w, x, y)],
    ensures
        draw(c1, w, h, gs)[cell_index(w, x, y)] == draw(c2, w, h, gs)[cell_index(w, x, y)],
    decreases gs.len(),
{
    if gs.len() > 0 {
        lemma_draw_local(c1, c2, w, h, gs.drop_last(), x, y);
        lemma_draw_len(c1, w, h, gs.drop_last());
        lemma_draw_len(c2, w, h, gs.drop_last());
        lemma_put_read(draw(c1, w, h, gs.drop_last()), w, h, gs.last(), x, y);
        lemma_draw_len(c2, w, h, gs.drop_last());
        lemma_put_read(draw(c2, w, h, gs.drop_last()), w, h, gs.last(), x, y);
    }
}

/// Glyphs that run left to right along one row from column `x0` show, after drawing,
/// in the cells they cover, and every other cell keeps what it held.
pub proof fn lemma_draw_run(cells: Seq<Cell>, w: int, h: int, gs: Seq<Glyph>, x0: int, r: int, x: int, y: int)
    requires
        cells.len() == w * h,
        0 <= x < w,
        0 <= y < h,
        forall|j: int| 0 <= j < gs.len() ==> (#[trigger] gs[j]).x == x0 + j && gs[j].y == r,
    ensures
        draw(cells, w, h, gs)[cell_index(w, x, y)] == if y == r && x0 <= x < x0 + gs.len() {
            Cell { ch: gs[x - x0].ch, color: gs[x - x0].color }
        } else {
            cells[cell_index(w, x, y)]
        },
    decreases gs.len(),
{
    if gs.len() > 0 {
        let d = gs.drop_last();
        assert forall|j: int| 0 <= j < d.len() implies (#[trigger] d[j]).x == x0 + j && d[j].y == r by {
            assert(d[j] == gs[j]);
        }
        lemma_draw_run(cells, w, h, d, x0, r, x, y);
        lemma_draw_len(cells, w, h, d);
        lemma_put_read(draw(cells, w, h, d), w, h, gs.last(), x, y);
        if y == r && x0 <= x < x0 + d.len() {
            assert(d[x - x0] == gs[x - x0]);
        }
    }
}

/// Drawing rows of glyphs, row `i` of them all on screen row `y0 + i`, leaves each of
/// those screen rows as drawing its own glyphs alone would, and the other rows as they
/// were.
pub proof fn lemma_draw_rows(cells: Seq<Cell>, w: int, h: int, rows: Seq<Seq<Glyph>>, y0: int, x: int, y: int)
    requires
        cells.len() == w * h,
        0 <= x < w,
        0 <= y < h,
        forall|i: int, j: int| 0 <= i < rows.len() && 0 <= j < rows[i].len() ==> (#[trigger] rows[i][j]).y == y0 + i,
    ensures
        draw(cells, w, h, rows.flatten())[cell_index(w, x, y)] == if y0 <= y < y0 + rows.len() {
            draw(cells, w, h, rows[y - y0])[cell_index(w, x, y)]
        } else {
            cells[cell_index(w, x, y)]
        },
    decreases rows.len(),
{
    if rows.len() == 0 {
        assert(rows.flatten() =~= Seq::<Glyph>::empty());
    } else {
        let k = rows.len() - 1;
        let init = rows.drop_last();
        assert(rows =~= init.push(rows[k]));
        init.lemma_flatten_push(rows[k]);
        lemma_draw_append(cells, w, h, init.flatten(), rows[k]);
        let mid = draw(cells, w, h, init.flatten());
        lemma_draw_rows(cells, w, h, init, y0, x, y);
        lemma_draw_len(cells, w, h, init.flatten());
        if y == y0 + k {
            lemma_draw_local(mid, cells, w, h, rows[k], x, y);
        } else {
            assert forall|j: int| 0 <= j < rows[k].len() implies !((#[trigger] rows[k][j]).x == x
                && rows[k][j].y == y) by {
                assert(rows[k][j].y == y0 + k);
            }
            lemma_draw_untouched(mid, w, h, rows[k], x, y);
            if y0 <= y < y0 + k {
                assert(init[y - y0] == rows[y - y0]);
            }
        }
    }
}

} // verus!
