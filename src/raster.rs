//! The line rasterizer: lights the sub-pixels of a straight segment.
//!
//! Points are given in sub-pixel coordinates: `x` counts half cells from the
//! left, `y` counts quarter cells from the bottom. A column mask is a nibble
//! over the four sub-rows of one sub-column: position `y % 4` within a cell,
//! counted up from the cell's bottom, is bit `3 - y % 4`.
use vstd::prelude::*;

use crate::grid::{cell_at, lemma_cell_in_range, CellBuffer};
use vstd::arithmetic::div_mod::{lemma_div_is_ordered, lemma_fundamental_div_mod, lemma_mod_bound};

verus! {

/// The bit of the column mask that lights sub-row position `y`.
pub open spec fn row_bit(y: int) -> u8 {
    if y % 4 == 0 {
        0b1000
    } else if y % 4 == 1 {
        0b0100
    } else if y % 4 == 2 {
        0b0010
    } else {
        0b0001
    }
}

/// A mask with a gap between two lit sub-pixels, filled in.
pub open spec fn fill_gap(p: u8) -> u8 {
    if p == 0b0101 {
        0b0111
    } else if p == 0b1010 {
        0b1110
    } else if p == 0b1001 {
        0b1111
    } else {
        p
    }
}

/// The column mask for a step of a segment from position `a` toward `b`,
/// before gaps are filled: `a`'s bit, and `b`'s bit when `b` lies in the
/// same cell, else the cell's edge that the segment leaves by.
pub open spec fn raw_column_pattern(a: int, b: int) -> u8 {
    row_bit(a) | (if b / 4 == a / 4 {
        row_bit(b)
    } else if b < a {
        0b1000u8
    } else {
        0b0001u8
    })
}

/// The column mask drawn for a step from position `a` toward `b`.
pub open spec fn column_pattern(a: int, b: int) -> u8 {
    fill_gap(raw_column_pattern(a, b))
}

/// Division of `a` by `b` rounding toward zero, as Rust's `/` does.
pub open spec fn trunc_div(a: int, b: int) -> int {
    let q = abs(a) / abs(b);
    if (a >= 0) == (b > 0) || a == 0 {
        q
    } else {
        -q
    }
}

/// The magnitude of `a`.
pub open spec fn abs(a: int) -> int {
    if a >= 0 {
        a
    } else {
        -a
    }
}

/// The row position at column `x` of the segment from `from` to `to`.
pub open spec fn y_at_spec(from: (i64, i64), to: (i64, i64), x: int) -> int {
    from.1 + trunc_div((to.1 - from.1) * (x - from.0), to.0 - from.0)
}

/// True when `v` fits in an `i64`.
pub open spec fn fits_i64(v: int) -> bool {
    i64::MIN <= v <= i64::MAX
}

/// The column-mask bit of sub-row position `y`.
fn bit_for(y: i64) -> (r: u8)
    requires
        0 <= y,
    ensures
        r == row_bit(y as int),
{
    let shift: u8 = 3 - (y % 4) as u8;
    proof {
        assert(shift <= 3 ==> 1u8 << shift == (if shift == 3 {
            8u8
        } else if shift == 2 {
            4u8
        } else if shift == 1 {
            2u8
        } else {
            1u8
        })) by (bit_vector);
    }
    1u8 << shift
}

/// The column mask for a step of a segment from sub-row position `from`
/// toward position `to`.
pub fn pattern_for(from: i64, to: i64) -> (r: u8)
    requires
        0 <= from,
        0 <= to,
    ensures
        r == column_pattern(from as int, to as int),
{
    let mut pattern: u8 = bit_for(from);
    pattern = if to / 4 == from / 4 {
        pattern | bit_for(to)
    } else if to < from {
        pattern | 0b1000
    } else {
        pattern | 0b0001
    };
    if pattern == 0b101 {
        pattern = 0b111;
    }
    if pattern == 0b1010 {
        pattern = 0b1110;
    }
    if pattern == 0b1001 {
        pattern = 0b1111;
    }
    pattern
}

/// The row position at column `x` of the segment from `from` to `to`, by
/// linear interpolation with division rounding toward zero.
pub fn y_at(from: (i64, i64), to: (i64, i64), x: i64) -> (r: i64)
    requires
        from.0 != to.0,
        fits_i64(to.0 - from.0),
        fits_i64(to.1 - from.1),
        fits_i64(x - from.0),
        fits_i64((to.1 - from.1) * (x - from.0)),
        fits_i64(y_at_spec(from, to, x as int)),
    ensures
        r == y_at_spec(from, to, x as int),
{
    let dx = to.0 - from.0;
    let dy = to.1 - from.1;
    let n = dy * (x - from.0);
    let n_abs: i128 = if n >= 0 { n as i128 } else { -(n as i128) };
    let d_abs: i128 = if dx >= 0 { dx as i128 } else { -(dx as i128) };
    let q: i128 = n_abs / d_abs;
    let t: i128 = if (n >= 0) == (dx > 0) || n == 0 { q } else { -q };
    (from.1 as i128 + t) as i64
}

/// The index, in a grid of `rows` rows of `width` cells, of the cell that
/// holds sub-pixel (`x`, `y`). Position `y` counts up from the bottom row.
pub open spec fn pixel_cell(width: int, rows: int, x: int, y: int) -> int {
    cell_at(width, rows - 1 - y / 4, x / 2)
}

/// Column mask `p` placed on the sub-column of `x`: the low nibble for an
/// even `x`, the high nibble for an odd one.
pub open spec fn on_side(x: int, p: u8) -> u8 {
    if x % 2 == 1 {
        p << 4u8
    } else {
        p
    }
}

/// Patterns `cells` with `p` merged into cell `i`.
pub open spec fn merge_pixel(cells: Seq<u8>, i: int, p: u8) -> Seq<u8> {
    cells.update(i, cells[i] | p)
}

/// Where a vertical walk goes after position `y`: the first position of the
/// next cell up (`up`), or the last position of the next cell down.
pub open spec fn next_stop(y: int, up: bool) -> int {
    if up {
        y - y % 4 + 4
    } else {
        y + 3 - y % 4 - 4
    }
}

/// A vertical walk moves strictly toward its target, one cell per step.
pub proof fn lemma_next_stop(y: int, up: bool)
    ensures
        up ==> next_stop(y, up) > y && next_stop(y, up) == 4 * (y / 4) + 4,
        !up ==> next_stop(y, up) < y && next_stop(y, up) == 4 * (y / 4) - 1,
{
    lemma_mod_bound(y, 4);
    lemma_fundamental_div_mod(y, 4);
}

/// True while a vertical walk at `y` toward `to_y` has cells left to draw.
pub open spec fn walking(y: int, to_y: int, up: bool) -> bool {
    if up {
        y <= to_y
    } else {
        y >= to_y
    }
}

/// The patterns after the vertical walk in column `x` from `y` toward
/// `to_y`: one merge per cell, then on to the next cell.
pub open spec fn draw_vertical(
    cells: Seq<u8>,
    width: int,
    rows: int,
    x: int,
    y: int,
    to_y: int,
    up: bool,
) -> Seq<u8>
    decreases (if up {
        to_y + 4 - y
    } else {
        y + 4 - to_y
    }),
{
    if walking(y, to_y, up) {
        proof {
            lemma_next_stop(y, up);
        }
        draw_vertical(
            merge_pixel(cells, pixel_cell(width, rows, x, y), on_side(x, column_pattern(y, to_y))),
            width,
            rows,
            x,
            next_stop(y, up),
            to_y,
            up,
        )
    } else {
        cells
    }
}

/// The patterns after the walk of the segment from `from` to `to`, resumed at
/// column `x` and position `y`: one merge per sub-column up to `to.0`.
pub open spec fn draw_slope(
    cells: Seq<u8>,
    width: int,
    rows: int,
    from: (i64, i64),
    to: (i64, i64),
    x: int,
    y: int,
) -> Seq<u8>
    decreases to.0 - x,
{
    if x < to.0 {
        let ny = y_at_spec(from, to, x + 1);
        draw_slope(
            merge_pixel(cells, pixel_cell(width, rows, x, y), on_side(x, column_pattern(y, ny))),
            width,
            rows,
            from,
            to,
            x + 1,
            ny,
        )
    } else {
        cells
    }
}

/// The patterns of a grid after drawing the segment from `from` to `to`.
/// A vertical segment is walked a cell at a time and draws nothing when its
/// ends coincide; any other is walked a sub-column at a time, left to right,
/// and draws nothing when `to` lies left of `from`.
pub open spec fn plot_line_spec(
    cells: Seq<u8>,
    width: int,
    rows: int,
    from: (i64, i64),
    to: (i64, i64),
) -> Seq<u8> {
    if from.0 == to.0 {
        if from.1 == to.1 {
            cells
        } else {
            draw_vertical(cells, width, rows, from.0 as int, from.1 as int, to.1 as int, from.1 < to.1)
        }
    } else {
        draw_slope(cells, width, rows, from, to, from.0 as int, from.1 as int)
    }
}

/// Between the ends of a segment, interpolation stays between the ends'
/// rows, and its product stays within the one at the far end.
proof fn lemma_y_at_between(from: (i64, i64), to: (i64, i64), x: int)
    requires
        from.0 < to.0,
        from.0 <= x <= to.0,
    ensures
        abs((to.1 - from.1) * (x - from.0)) <= abs((to.1 - from.1) * (to.0 - from.0)),
        from.1 <= to.1 ==> from.1 <= y_at_spec(from, to, x) <= to.1,
        to.1 < from.1 ==> to.1 <= y_at_spec(from, to, x) <= from.1,
{
    let d = to.0 - from.0;
    let k = x - from.0;
    let dy = to.1 - from.1;
    if dy >= 0 {
        assert(0 <= dy * k <= dy * d) by (nonlinear_arith)
            requires
                0 <= k <= d,
                0 <= dy,
        ;
        assert((dy * k) / d <= dy) by (nonlinear_arith)
            requires
                0 <= dy * k <= dy * d,
                0 < d,
        ;
        assert(0 <= (dy * k) / d) by (nonlinear_arith)
            requires
                0 <= dy * k,
                0 < d,
        ;
    } else {
        let e = -dy;
        assert(0 <= e * k <= e * d) by (nonlinear_arith)
            requires
                0 <= k <= d,
                0 <= e,
        ;
        assert(dy * k == -(e * k) && dy * d == -(e * d)) by (nonlinear_arith)
            requires
                e == -dy,
        ;
        assert((e * k) / d <= e) by (nonlinear_arith)
            requires
                0 <= e * k <= e * d,
                0 < d,
        ;
        assert(0 <= (e * k) / d) by (nonlinear_arith)
            requires
                0 <= e * k,
                0 < d,
        ;
    }
}

/// Draws the segment from `from` to `to`, given in sub-pixel coordinates,
/// into `buf`, merging with what is drawn there already.
pub fn plot_line(from: (i64, i64), to: (i64, i64), buf: &mut CellBuffer)
    requires
        old(buf).wf(),
        0 <= from.0,
        0 <= from.1,
        0 <= to.1,
        from.0 / 2 < old(buf).width_spec(),
        from.0 < to.0 ==> (to.0 - 1) / 2 < old(buf).width_spec(),
        from.1 / 4 < old(buf).rows_spec(),
        to.1 / 4 < old(buf).rows_spec(),
        4 * old(buf).rows_spec() <= i64::MAX,
        from.0 < to.0 ==> abs((to.1 - from.1) * (to.0 - from.0)) <= i64::MAX,
    ensures
        final(buf).wf(),
        final(buf).width_spec() == old(buf).width_spec(),
        final(buf).rows_spec() == old(buf).rows_spec(),
        final(buf)@ == plot_line_spec(
            old(buf)@,
            old(buf).width_spec() as int,
            old(buf).rows_spec() as int,
            from,
            to,
        ),
{
    let ghost width = buf.width_spec() as int;
    let ghost rows = buf.rows_spec() as int;
    let ghost target = plot_line_spec(buf@, width, rows, from, to);
    let n_rows = buf.rows();
    let n_cols = buf.width();
    let mut y: i64 = from.1;
    if from.0 == to.0 {
        // Vertical: one merge per cell, stepping to the next cell's edge.
        let up = from.1 < to.1;
        let down = from.1 > to.1;
        let col = (from.0 / 2) as usize;
        while (up && y <= to.1) || (down && y >= to.1)
            invariant
                buf.wf(),
                buf.width_spec() == width,
                buf.rows_spec() == rows,
                n_rows == rows,
                n_cols == width,
                col == from.0 / 2,
                col < width,
                0 <= from.0,
                0 <= from.1,
                0 <= to.1,
                from.1 / 4 < rows,
                to.1 / 4 < rows,
                4 * rows <= i64::MAX,
                up == (from.1 < to.1),
                down == (from.1 > to.1),
                !up && !down ==> buf@ == target,
                up || down ==> draw_vertical(buf@, width, rows, from.0 as int, y as int, to.1 as int, up)
                    == target,
                up ==> from.1 <= y <= to.1 + 4,
                down ==> to.1 - 4 <= y <= from.1,
            decreases (if up {
                to.1 + 4 - y
            } else {
                y - to.1 + 4
            }),
        {
            proof {
                if up {
                    lemma_div_is_ordered(y as int, to.1 as int, 4);
                } else {
                    lemma_div_is_ordered(y as int, from.1 as int, 4);
                }
                lemma_next_stop(y as int, up);
            }
            let mut pattern = pattern_for(y, to.1);
            if from.0 % 2 == 1 {
                pattern = pattern << 4u8;
            }
            let row = n_rows - 1 - (y / 4) as usize;
            buf.merge(row, col, pattern);
            if up {
                y = y - y % 4 + 4;
            } else {
                y = y - y % 4 - 1;
            }
        }
    } else {
        // Any other slope: one merge per sub-column, left to right.
        let mut x: i64 = from.0;
        proof {
            let d = abs(to.0 - from.0);
            assert((to.1 - from.1) * (from.0 - from.0) == 0);
            assert(0int / d == 0) by (nonlinear_arith)
                requires
                    d > 0,
            ;
        }
        while x < to.0
            invariant
                buf.wf(),
                buf.width_spec() == width,
                buf.rows_spec() == rows,
                n_rows == rows,
                n_cols == width,
                from.0 != to.0,
                0 <= from.0 <= x,
                from.0 < to.0 ==> x <= to.0,
                from.0 < to.0 ==> (to.0 - 1) / 2 < width,
                from.0 < to.0 ==> abs((to.1 - from.1) * (to.0 - from.0)) <= i64::MAX,
                from.1 / 4 < rows,
                to.1 / 4 < rows,
                0 <= from.1,
                0 <= to.1,
                y == y_at_spec(from, to, x as int),
                from.0 < to.0 && from.1 <= to.1 ==> from.1 <= y <= to.1,
                from.0 < to.0 && to.1 < from.1 ==> to.1 <= y <= from.1,
                draw_slope(buf@, width, rows, from, to, x as int, y as int) == target,
            decreases to.0 - x,
        {
            proof {
                lemma_y_at_between(from, to, x + 1);
                lemma_div_is_ordered(x as int, to.0 - 1, 2);
                if from.1 <= to.1 {
                    lemma_div_is_ordered(y as int, to.1 as int, 4);
                } else {
                    lemma_div_is_ordered(y as int, from.1 as int, 4);
                }
            }
            let next_y = y_at(from, to, x + 1);
            let mut pattern = pattern_for(y, next_y);
            if x % 2 == 1 {
                pattern = pattern << 4u8;
            }
            let row = n_rows - 1 - (y / 4) as usize;
            buf.merge(row, (x / 2) as usize, pattern);
            x = x + 1;
            y = next_y;
        }
    }
}

/// A step's column mask never leaves an unlit sub-pixel between two lit
/// ones: each of the three gapped masks is filled in, any other is kept.
pub proof fn lemma_gaps_filled(a: int, b: int)
    ensures
        column_pattern(a, b) != 0b0101,
        column_pattern(a, b) != 0b1010,
        column_pattern(a, b) != 0b1001,
        raw_column_pattern(a, b) == 0b0101 ==> column_pattern(a, b) == 0b0111,
        raw_column_pattern(a, b) == 0b1010 ==> column_pattern(a, b) == 0b1110,
        raw_column_pattern(a, b) == 0b1001 ==> column_pattern(a, b) == 0b1111,
        raw_column_pattern(a, b) != 0b0101 && raw_column_pattern(a, b) != 0b1010
            && raw_column_pattern(a, b) != 0b1001 ==> column_pattern(a, b) == raw_column_pattern(a, b),
{
}

/// Interpolation is exact at both ends of a segment.
pub proof fn lemma_y_at_endpoints(from: (i64, i64), to: (i64, i64))
    requires
        from.0 != to.0,
    ensures
        y_at_spec(from, to, from.0 as int) == from.1,
        y_at_spec(from, to, to.0 as int) == to.1,
{
    let d = to.0 - from.0;
    let dy = to.1 - from.1;
    assert(dy * (from.0 - from.0) == 0);
    assert(0int / abs(d) == 0) by (nonlinear_arith)
        requires
            abs(d) > 0,
    ;
    assert(abs(dy * d) == abs(dy) * abs(d)) by (nonlinear_arith);
    assert((abs(dy) * abs(d)) / abs(d) == abs(dy)) by (nonlinear_arith)
        requires
            abs(d) > 0,
    ;
    assert(dy > 0 && d > 0 ==> dy * d > 0) by (nonlinear_arith);
    assert(dy < 0 && d < 0 ==> dy * d > 0) by (nonlinear_arith);
    assert(dy > 0 && d < 0 ==> dy * d < 0) by (nonlinear_arith);
    assert(dy < 0 && d > 0 ==> dy * d < 0) by (nonlinear_arith);
    assert(dy * d == 0 ==> dy == 0) by (nonlinear_arith)
        requires
            d != 0,
    ;
}

/// The nibble of the sub-column of `x`.
pub open spec fn side_mask(x: int) -> u8 {
    on_side(x, 0b1111)
}

proof fn lemma_step_lights_side(x: int, a: int, b: int)
    ensures
        on_side(x, column_pattern(a, b)) & side_mask(x) != 0,
{
    let r = row_bit(a);
    let o: u8 = if b / 4 == a / 4 {
        row_bit(b)
    } else if b < a {
        0b1000u8
    } else {
        0b0001u8
    };
    let p = column_pattern(a, b);
    assert((r == 1 || r == 2 || r == 4 || r == 8) && (o == 1 || o == 2 || o == 4 || o == 8) ==> 1
        <= (r | o) <= 15) by (bit_vector);
    assert(1 <= p <= 15 ==> (p & 15u8) != 0 && ((p << 4u8) & (15u8 << 4u8)) != 0) by (bit_vector);
}

proof fn lemma_or_keeps(a: u8, p: u8, m: u8)
    ensures
        a & m != 0 ==> (a | p) & m != 0 && (p | a) & m != 0,
{
    assert(a & m != 0 ==> (a | p) & m != 0 && (p | a) & m != 0) by (bit_vector);
}

proof fn lemma_upward_walk_keeps(cells: Seq<u8>, width: int, rows: int, x: int, y: int, to_y: int, i: int)
    requires
        0 <= y,
        0 <= x,
        x / 2 < width,
        to_y / 4 < rows,
        cells.len() == rows * width,
        0 <= i < cells.len(),
        cells[i] & side_mask(x) != 0,
    ensures
        draw_vertical(cells, width, rows, x, y, to_y, true).len() == cells.len(),
        draw_vertical(cells, width, rows, x, y, to_y, true)[i] & side_mask(x) != 0,
    decreases to_y + 4 - y,
{
    if walking(y, to_y, true) {
        lemma_next_stop(y, true);
        let j = pixel_cell(width, rows, x, y);
        let p = on_side(x, column_pattern(y, to_y));
        let c1 = merge_pixel(cells, j, p);
        lemma_div_is_ordered(y, to_y, 4);
        lemma_cell_in_range(width, rows, rows - 1 - y / 4, x / 2);
        lemma_or_keeps(cells[i], p, side_mask(x));
        lemma_upward_walk_keeps(c1, width, rows, x, next_stop(y, true), to_y, i);
    }
}

proof fn lemma_upward_walk_covers(cells: Seq<u8>, width: int, rows: int, x: int, y: int, to_y: int)
    requires
        0 <= y <= to_y,
        to_y / 4 < rows,
        0 <= x,
        x / 2 < width,
        cells.len() == rows * width,
    ensures
        forall|k: int|
            y / 4 <= k <= to_y / 4 ==> #[trigger] draw_vertical(cells, width, rows, x, y, to_y, true)[cell_at(
                width,
                rows - 1 - k,
                x / 2,
            )] & side_mask(x) != 0,
    decreases to_y + 4 - y,
{
    lemma_next_stop(y, true);
    lemma_div_is_ordered(y, to_y, 4);
    let j = pixel_cell(width, rows, x, y);
    lemma_cell_in_range(width, rows, rows - 1 - y / 4, x / 2);
    let p = on_side(x, column_pattern(y, to_y));
    let c1 = merge_pixel(cells, j, p);
    lemma_step_lights_side(x, y, to_y);
    lemma_or_keeps(p, cells[j], side_mask(x));
    let next = next_stop(y, true);
    lemma_upward_walk_keeps(c1, width, rows, x, next, to_y, j);
    lemma_fundamental_div_mod(to_y, 4);
    lemma_mod_bound(to_y, 4);
    if next <= to_y {
        lemma_fundamental_div_mod(next, 4);
        lemma_mod_bound(next, 4);
        lemma_upward_walk_covers(c1, width, rows, x, next, to_y);
    }
}

/// A vertical segment from the bottom sub-row up to the top sub-row of
/// character row `height - 1` lights, in its sub-column, at least one
/// sub-pixel of each character row from 0 to `height - 1`, counted from
/// the bottom of the grid.
pub proof fn lemma_vertical_covers(cells: Seq<u8>, width: int, rows: int, x: i64, height: i64)
    requires
        0 <= x,
        x / 2 < width,
        1 <= height <= rows,
        4 * height <= i64::MAX,
        cells.len() == rows * width,
    ensures
        forall|k: int|
            0 <= k < height ==> #[trigger] plot_line_spec(
                cells,
                width,
                rows,
                (x, 0),
                (x, (4 * height - 1) as i64),
            )[cell_at(width, rows - 1 - k, x / 2)] & side_mask(x as int) != 0,
{
    let to_y = 4 * height - 1;
    assert(to_y / 4 == height - 1) by {
        lemma_fundamental_div_mod(to_y, 4);
        lemma_mod_bound(to_y, 4);
    }
    lemma_upward_walk_covers(cells, width, rows, x as int, 0, to_y);
}

} // verus!
