//! The cell buffer: a grid of glyphs, written by merging patterns into cells.
use vstd::prelude::*;

use crate::text::push_char;
use crate::codec::{glyph_code, glyph_pattern, is_glyph, lemma_codec_round_trip, plot_at};

verus! {

/// A grid of `rows` by `width` cells, each holding a glyph. Row 0 is the top.
pub struct CellBuffer {
    width: usize,
    rows: usize,
    cells: Vec<char>,
}

impl View for CellBuffer {
    /// The pattern of each cell, row after row.
    type V = Seq<u8>;

    closed spec fn view(&self) -> Seq<u8> {
        self.cells@.map_values(|c: char| glyph_pattern(c))
    }
}

/// The index of cell (`row`, `col`) in a grid `width` cells wide.
pub open spec fn cell_at(width: int, row: int, col: int) -> int {
    row * width + col
}

/// Each cell of a grid of `rows` rows of `width` cells has its own index.
pub proof fn lemma_cell_in_range(width: int, rows: int, row: int, col: int)
    requires
        0 <= row < rows,
        0 <= col < width,
    ensures
        0 <= cell_at(width, row, col) < rows * width,
{
    assert(0 <= row * width + col < rows * width) by (nonlinear_arith)
        requires
            0 <= row < rows,
            0 <= col < width,
    ;
}

/// True when `text` shows row `r` of a grid `width` cells wide with
/// patterns `cells`: one glyph per cell, left to right.
pub open spec fn shows_row(text: Seq<char>, cells: Seq<u8>, width: int, r: int) -> bool {
    &&& text.len() == width
    &&& forall|j: int| 0 <= j < width ==> (#[trigger] text[j] as u32) == glyph_code(cells[cell_at(width, r, j)])
}

impl CellBuffer {
    /// The number of cells in a row.
    pub closed spec fn width_spec(&self) -> nat {
        self.width as nat
    }

    /// The number of rows.
    pub closed spec fn rows_spec(&self) -> nat {
        self.rows as nat
    }

    /// The grid's shape matches its cells, and every cell holds a glyph.
    pub closed spec fn wf(&self) -> bool {
        &&& self.cells@.len() == self.rows * self.width
        &&& self.rows * self.width <= usize::MAX
        &&& forall|i: int| 0 <= i < self.cells@.len() ==> is_glyph(#[trigger] self.cells@[i])
    }

    /// A blank grid: `rows` rows of `width` spaces.
    pub fn new(width: usize, rows: usize) -> (r: CellBuffer)
        requires
            rows * width <= usize::MAX,
        ensures
            r.wf(),
            r.width_spec() == width,
            r.rows_spec() == rows,
            r@ == Seq::new((rows * width) as nat, |i: int| 0u8),
    {
        let n: usize = rows * width;
        let mut cells: Vec<char> = Vec::new();
        let mut i: usize = 0;
        while i < n
            invariant
                i <= n,
                cells@.len() == i,
                forall|k: int| 0 <= k < i ==> cells@[k] == ' ',
            decreases n - i,
        {
            cells.push(' ');
            i = i + 1;
        }
        let r = CellBuffer { width, rows, cells };
        assert(r@ =~= Seq::new((rows * width) as nat, |i: int| 0u8));
        r
    }

    /// The number of cells in a row.
    pub fn width(&self) -> (r: usize)
        ensures
            r == self.width_spec(),
    {
        self.width
    }

    /// The number of rows.
    pub fn rows(&self) -> (r: usize)
        ensures
            r == self.rows_spec(),
    {
        self.rows
    }

    /// Lights the sub-pixels of `pattern` in cell (`row`, `col`), keeping
    /// those already lit there.
    pub fn merge(&mut self, row: usize, col: usize, pattern: u8)
        requires
            old(self).wf(),
            row < old(self).rows_spec(),
            col < old(self).width_spec(),
        ensures
            final(self).wf(),
            final(self).width_spec() == old(self).width_spec(),
            final(self).rows_spec() == old(self).rows_spec(),
            final(self)@ == old(self)@.update(
                cell_at(old(self).width_spec() as int, row as int, col as int),
                old(self)@[cell_at(old(self).width_spec() as int, row as int, col as int)] | pattern,
            ),
    {
        proof {
            lemma_cell_in_range(self.width as int, self.rows as int, row as int, col as int);
        }
        let i: usize = row * self.width + col;
        let mut ch = self.cells[i];
        plot_at(pattern, &mut ch);
        self.cells.set(i, ch);
        proof {
            assert(self@ =~= old(self)@.update(i as int, old(self)@[i as int] | pattern));
        }
    }

    /// The glyphs of each row, top row first.
    pub fn render(&self) -> (r: Vec<String>)
        requires
            self.wf(),
        ensures
            r@.len() == self.rows_spec(),
            forall|i: int|
                0 <= i < self.rows_spec() ==> shows_row(
                    #[trigger] r@[i]@,
                    self@,
                    self.width_spec() as int,
                    i,
                ),
    {
        let mut out: Vec<String> = Vec::new();
        let mut i: usize = 0;
        while i < self.rows
            invariant
                self.wf(),
                i <= self.rows,
                out@.len() == i,
                forall|a: int| 0 <= a < i ==> (#[trigger] out@[a])@.len() == self.width,
                forall|a: int, b: int|
                    0 <= a < i && 0 <= b < self.width ==> (out@[a]@[b] as u32) == glyph_code(
                        self@[cell_at(self.width as int, a, b)],
                    ),
            decreases self.rows - i,
        {
            let mut line = String::new();
            let mut j: usize = 0;
            while j < self.width
                invariant
                    self.wf(),
                    i < self.rows,
                    j <= self.width,
                    line@.len() == j,
                    forall|b: int|
                        0 <= b < j ==> (line@[b] as u32) == glyph_code(
                            self@[cell_at(self.width as int, i as int, b)],
                        ),
                decreases self.width - j,
            {
                proof {
                    lemma_cell_in_range(self.width as int, self.rows as int, i as int, j as int);
                }
                let c = self.cells[i * self.width + j];
                proof {
                    lemma_codec_round_trip(0, c);
                }
                push_char(&mut line, c);
                j = j + 1;
            }
            out.push(line);
            i = i + 1;
        }
        assert forall|a: int| 0 <= a < self.rows implies shows_row(
            #[trigger] out@[a]@,
            self@,
            self.width as int,
            a,
        ) by {
            assert forall|b: int| 0 <= b < self.width implies (#[trigger] out@[a]@[b] as u32) == glyph_code(
                self@[cell_at(self.width as int, a, b)],
            ) by {}
        }
        out
    }
}

} // verus!
