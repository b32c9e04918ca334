//! The chart renderer: a series of times of day drawn as a labelled line
//! chart of Braille glyphs.
//!
//! Sample `i` of `n` stands at sub-pixel column `2 * (i * width / n)`. A time
//! `t` stands at sub-pixel row `(t - min) * 4 * height / (max - min)`, counted
//! up from the bottom, so the earliest time is on the bottom row and the
//! latest on the second row from the top. Consecutive samples are joined by
//! straight segments. A series whose times are all equal has no scale, and
//! is refused.
use vstd::prelude::*;

use crate::grid::{shows_row, CellBuffer};
use crate::text::{append, push_char};
use crate::raster::{abs, plot_line, plot_line_spec};
use vstd::arithmetic::div_mod::{lemma_div_is_ordered, lemma_fundamental_div_mod, lemma_mod_bound};
use vstd::string::StrSliceExecFns;

verus! {

/// The number of milliseconds in a day.
pub const MILLIS_PER_DAY: u32 = 86_400_000;

/// The width of the label field in front of each row.
pub const LABEL_WIDTH: usize = 10;

/// A time of day, as milliseconds since midnight (less than a day).
#[derive(Clone, Copy, Debug, PartialEq, Eq)]
pub struct TimeOfDay {
    pub millis: u32,
}

impl TimeOfDay {
    /// The time `hour:minute:second`, if each part is in range.
    pub fn from_hms(hour: u32, minute: u32, second: u32) -> (r: Option<TimeOfDay>)
        ensures
            r is Some <==> (hour < 24 && minute < 60 && second < 60),
            r matches Some(t) ==> t.millis == ((hour * 60 + minute) * 60 + second) * 1000,
    {
        if hour < 24 && minute < 60 && second < 60 {
            Some(TimeOfDay { millis: ((hour * 60 + minute) * 60 + second) * 1000 })
        } else {
            None
        }
    }

    /// The time `millis` milliseconds after midnight, if that is within the day.
    pub fn from_millis(millis: u32) -> (r: Option<TimeOfDay>)
        ensures
            r is Some <==> millis < MILLIS_PER_DAY,
            r matches Some(t) ==> t.millis == millis,
    {
        if millis < MILLIS_PER_DAY {
            Some(TimeOfDay { millis })
        } else {
            None
        }
    }
}

/// Why a series cannot be charted.
#[derive(Clone, Copy, Debug, PartialEq, Eq)]
pub enum ChartError {
    /// Fewer than two samples: there is no segment to draw.
    TooFewSamples,
    /// A chart no cell wide.
    ZeroWidth,
    /// All samples are the same time: the vertical scale would be empty.
    FlatSeries,
}

/// True when every sample is a time within the day.
pub open spec fn valid_times(ts: Seq<TimeOfDay>) -> bool {
    forall|i: int| 0 <= i < ts.len() ==> (#[trigger] ts[i]).millis < MILLIS_PER_DAY
}

/// The earliest of the first `n` samples (`n >= 1`).
pub open spec fn earliest(ts: Seq<TimeOfDay>, n: int) -> int
    decreases n,
{
    if n <= 1 {
        ts[0].millis as int
    } else {
        let m = earliest(ts, n - 1);
        if (ts[n - 1].millis as int) < m {
            ts[n - 1].millis as int
        } else {
            m
        }
    }
}

/// The latest of the first `n` samples (`n >= 1`).
pub open spec fn latest(ts: Seq<TimeOfDay>, n: int) -> int
    decreases n,
{
    if n <= 1 {
        ts[0].millis as int
    } else {
        let m = latest(ts, n - 1);
        if (ts[n - 1].millis as int) > m {
            ts[n - 1].millis as int
        } else {
            m
        }
    }
}

/// The sub-pixel column of sample `i` of `n` on a chart `width` cells wide.
pub open spec fn sample_x(i: int, width: int, n: int) -> int {
    2 * (i * width / n)
}

/// The sub-pixel row of time `t` on a chart `height` rows high whose times
/// run from `lo` to `lo + span`.
pub open spec fn sample_y(t: int, lo: int, span: int, height: int) -> int {
    (t - lo) * (4 * height) / span
}

/// The sub-pixel point of sample `i`.
pub open spec fn sample_point(ts: Seq<TimeOfDay>, i: int, width: int, height: int, lo: int, span: int) -> (
    i64,
    i64,
) {
    (
        sample_x(i, width, ts.len() as int) as i64,
        sample_y(ts[i].millis as int, lo, span, height) as i64,
    )
}

/// The patterns after drawing the segments from sample `i` on.
pub open spec fn draw_series(
    cells: Seq<u8>,
    ts: Seq<TimeOfDay>,
    width: int,
    height: int,
    lo: int,
    span: int,
    i: int,
) -> Seq<u8>
    decreases ts.len() - i,
{
    if 0 <= i && i + 1 < ts.len() {
        draw_series(
            plot_line_spec(
                cells,
                width,
                height + 1,
                sample_point(ts, i, width, height, lo, span),
                sample_point(ts, i + 1, width, height, lo, span),
            ),
            ts,
            width,
            height,
            lo,
            span,
            i + 1,
        )
    } else {
        cells
    }
}

/// The patterns of the chart of `ts`: every segment drawn into a blank grid
/// of `height + 1` rows of `width` cells.
pub open spec fn chart_cells(ts: Seq<TimeOfDay>, width: int, height: int) -> Seq<u8> {
    let lo = earliest(ts, ts.len() as int);
    let span = latest(ts, ts.len() as int) - lo;
    draw_series(Seq::new(((height + 1) * width) as nat, |k: int| 0u8), ts, width, height, lo, span, 0)
}

/// The decimal digit `d`.
pub open spec fn digit(d: int) -> char {
    (('0' as u32) + d) as char
}

/// `v` (below 100) as two decimal digits.
pub open spec fn two_digits(v: int) -> Seq<char> {
    seq![digit(v / 10), digit(v % 10)]
}

/// The second `secs` of the day as `HH:MM:SS`.
pub open spec fn hms_text(secs: int) -> Seq<char> {
    two_digits(secs / 3600) + seq![':'] + two_digits(secs / 60 % 60) + seq![':'] + two_digits(
        secs % 60,
    )
}

/// `tag` right-aligned in a field of `LABEL_WIDTH` characters; a longer tag
/// is kept whole.
pub open spec fn label_field(tag: Seq<char>) -> Seq<char> {
    if tag.len() < LABEL_WIDTH {
        Seq::new((LABEL_WIDTH - tag.len()) as nat, |k: int| ' ') + tag
    } else {
        tag
    }
}

/// The label of row `r`: the latest time on row 1, the earliest on the last
/// row, `label` on the middle row, nothing elsewhere.
pub open spec fn row_tag(r: int, height: int, label: Seq<char>, lo: int, hi: int) -> Seq<char> {
    if r == 1 {
        hms_text(hi / 1000)
    } else if r == height {
        hms_text(lo / 1000)
    } else if r == height / 2 {
        label
    } else {
        Seq::empty()
    }
}

/// Relies on chrono's `NaiveTime::from_num_seconds_from_midnight_opt`, which
/// takes any second of the day, and on its `%H:%M:%S` format: hour, minute
/// and second, each as two zero-padded digits.
#[verifier::external_body]
fn clock_text(secs: u32) -> (r: String)
    requires
        secs < 86_400,
    ensures
        r@ == hms_text(secs as int),
{
    chrono::NaiveTime::from_num_seconds_from_midnight_opt(secs, 0).unwrap().format("%H:%M:%S").to_string()
}

/// The earliest and latest sample.
fn time_range(times: &[TimeOfDay]) -> (r: (u32, u32))
    requires
        times@.len() >= 1,
    ensures
        r.0 == earliest(times@, times@.len() as int),
        r.1 == latest(times@, times@.len() as int),
{
    let mut lo = times[0].millis;
    let mut hi = times[0].millis;
    let mut i: usize = 1;
    while i < times.len()
        invariant
            1 <= i <= times@.len(),
            lo == earliest(times@, i as int),
            hi == latest(times@, i as int),
        decreases times@.len() - i,
    {
        if times[i].millis < lo {
            lo = times[i].millis;
        }
        if times[i].millis > hi {
            hi = times[i].millis;
        }
        i = i + 1;
    }
    (lo, hi)
}

proof fn lemma_range_bounds(ts: Seq<TimeOfDay>, n: int)
    requires
        1 <= n <= ts.len(),
    ensures
        forall|j: int| 0 <= j < n ==> earliest(ts, n) <= #[trigger] ts[j].millis <= latest(ts, n),
        valid_times(ts) ==> latest(ts, n) < MILLIS_PER_DAY,
    decreases n,
{
    if n > 1 {
        lemma_range_bounds(ts, n - 1);
    }
}

/// The column of sample `i` of `n` and the row of time `t`, and the bounds
/// that keep them in a grid of `height + 1` rows of `width` cells.
proof fn lemma_sample_bounds(i: int, n: int, width: int, height: int, t: int, lo: int, span: int)
    requires
        0 <= i < n,
        1 <= width,
        0 <= height,
        8 * (height + 1) * width <= isize::MAX,
        0 < span,
        lo <= t <= lo + span,
    ensures
        0 <= i * width / n < width,
        i * width / n <= (i + 1) * width / n <= width,
        0 <= sample_x(i, width, n) <= 2 * width,
        sample_x(i, width, n) / 2 == i * width / n,
        sample_x(i + 1, width, n) >= 2 ==> (sample_x(i + 1, width, n) - 1) / 2 == (i + 1) * width / n - 1,
        0 <= sample_y(t, lo, span, height) <= 4 * height,
        sample_y(t, lo, span, height) / 4 <= height,
{
    let a = i * width;
    assert(0 <= a < n * width) by (nonlinear_arith)
        requires
            a == i * width,
            0 <= i < n,
            1 <= width,
    ;
    assert(0 <= a / n < width) by (nonlinear_arith)
        requires
            0 <= a < n * width,
            0 < n,
    ;
    assert((i + 1) * width == a + width) by (nonlinear_arith)
        requires
            a == i * width,
    ;
    assert(a + width <= n * width) by (nonlinear_arith)
        requires
            a == i * width,
            i < n,
            0 <= width,
    ;
    lemma_div_is_ordered(a, a + width, n);
    lemma_div_is_ordered(a + width, n * width, n);
    assert((n * width) / n == width) by (nonlinear_arith)
        requires
            0 < n,
    ;
    let k = (i + 1) * width / n;
    lemma_fundamental_div_mod(2 * (a / n), 2);
    lemma_mod_bound(2 * (a / n), 2);
    assert((2 * (a / n)) / 2 == a / n) by (nonlinear_arith);
    if k >= 1 {
        assert((2 * k - 1) / 2 == k - 1) by (nonlinear_arith)
            requires
                k >= 1,
        ;
    }
    let d = t - lo;
    let h4 = 4 * height;
    assert(0 <= d * h4 <= span * h4) by (nonlinear_arith)
        requires
            0 <= d <= span,
            0 <= h4,
    ;
    assert(0 <= (d * h4) / span <= h4) by (nonlinear_arith)
        requires
            0 <= d * h4 <= span * h4,
            0 < span,
    ;
    lemma_div_is_ordered((d * h4) / span, h4, 4);
    assert(h4 / 4 == height);
}

/// The sub-pixel column of sample `i` of `n`.
fn column_of(i: usize, width: usize, n: usize) -> (r: i64)
    requires
        i < n,
        1 <= width,
        8 * width <= isize::MAX,
    ensures
        r == sample_x(i as int, width as int, n as int),
{
    proof {
        lemma_sample_bounds(i as int, n as int, width as int, 0, 0, 0, 1);
    }
    proof {
        assert(i * width <= 0xffff_ffff_ffff_ffffu128 * 0xffff_ffff_ffff_ffffu128) by (nonlinear_arith)
            requires
                0 <= i <= 0xffff_ffff_ffff_ffffu128,
                0 <= width <= 0xffff_ffff_ffff_ffffu128,
        ;
    }
    let k = (i as u128 * width as u128) / n as u128;
    2 * (k as i64)
}

/// The sub-pixel row of time `t` on a chart whose times run from `lo` to
/// `lo + span`.
fn row_of(t: u32, lo: u32, span: u32, height: usize) -> (r: i64)
    requires
        lo <= t <= lo + span,
        0 < span,
        8 * (height + 1) <= isize::MAX,
    ensures
        r == sample_y(t as int, lo as int, span as int, height as int),
{
    proof {
        lemma_sample_bounds(0, 1, 1, height as int, t as int, lo as int, span as int);
    }
    let d = (t - lo) as u128;
    let h4 = 4 * height as u128;
    proof {
        assert(d * h4 <= 0xffff_ffffu128 * (4 * 0xffff_ffff_ffff_ffffu128)) by (nonlinear_arith)
            requires
                d <= 0xffff_ffff,
                h4 <= 4 * 0xffff_ffff_ffff_ffffu128,
        ;
    }
    ((d * h4) / span as u128) as i64
}

/// Row text `row` behind the label field of `tag` and a space.
fn chart_line(tag: &str, row: &str) -> (r: String)
    ensures
        r@ == label_field(tag@) + seq![' '] + row@,
{
    let mut line = String::new();
    let n = tag.unicode_len();
    if n < LABEL_WIDTH {
        let mut k: usize = 0;
        while k < LABEL_WIDTH - n
            invariant
                n == tag@.len(),
                n < LABEL_WIDTH,
                k <= LABEL_WIDTH - n,
                line@ == Seq::new(k as nat, |j: int| ' '),
            decreases LABEL_WIDTH - n - k,
        {
            push_char(&mut line, ' ');
            k = k + 1;
            assert(line@ =~= Seq::new(k as nat, |j: int| ' '));
        }
    }
    append(&mut line, tag);
    push_char(&mut line, ' ');
    append(&mut line, row);
    assert(line@ =~= label_field(tag@) + seq![' '] + row@);
    line
}

/// True when `line` is row `r` of a chart: the label field of `tag`, a
/// space, then the glyphs of row `r` of a grid `width` cells wide with
/// patterns `cells`.
pub open spec fn chart_row(line: Seq<char>, tag: Seq<char>, cells: Seq<u8>, width: int, r: int) -> bool {
    let head = label_field(tag) + seq![' '];
    &&& line.len() == head.len() + width
    &&& line.subrange(0, head.len() as int) == head
    &&& shows_row(line.subrange(head.len() as int, line.len() as int), cells, width, r)
}

/// Renders `times` as a line chart `width` cells wide and `height + 1` rows
/// high, labelled with `label`; one line of text per row, top row first.
pub fn plot_times(label: &str, width: usize, height: usize, times: &[TimeOfDay]) -> (r: Result<
    Vec<String>,
    ChartError,
>)
    requires
        valid_times(times@),
        width == 0 || 8 * (height + 1) * width <= isize::MAX,
    ensures
        times@.len() < 2 ==> r == Err::<Vec<String>, ChartError>(ChartError::TooFewSamples),
        times@.len() >= 2 && width == 0 ==> r == Err::<Vec<String>, ChartError>(ChartError::ZeroWidth),
        times@.len() >= 2 && width > 0 && earliest(times@, times@.len() as int) == latest(
            times@,
            times@.len() as int,
        ) ==> r == Err::<Vec<String>, ChartError>(ChartError::FlatSeries),
        times@.len() >= 2 && width > 0 && earliest(times@, times@.len() as int) != latest(
            times@,
            times@.len() as int,
        ) ==> r is Ok,
        r matches Ok(lines) ==> {
            &&& lines@.len() == height + 1
            &&& forall|k: int|
                0 <= k <= height ==> chart_row(
                    #[trigger] lines@[k]@,
                    row_tag(
                        k,
                        height as int,
                        label@,
                        earliest(times@, times@.len() as int),
                        latest(times@, times@.len() as int),
                    ),
                    chart_cells(times@, width as int, height as int),
                    width as int,
                    k,
                )
        },
{
    let n = times.len();
    if n < 2 {
        return Err(ChartError::TooFewSamples);
    }
    if width == 0 {
        return Err(ChartError::ZeroWidth);
    }
    let (lo, hi) = time_range(times);
    if lo == hi {
        return Err(ChartError::FlatSeries);
    }
    proof {
        lemma_range_bounds(times@, n as int);
        assert(8 * (height + 1) <= 8 * (height + 1) * width && 8 * width <= 8 * (height + 1) * width
            && (height + 1) * width <= 8 * (height + 1) * width) by (nonlinear_arith)
            requires
                width >= 1,
        ;
    }
    let span = hi - lo;
    let rows = height + 1;
    let mut buf = CellBuffer::new(width, rows);
    let ghost target = chart_cells(times@, width as int, height as int);
    let mut i: usize = 0;
    while i + 1 < n
        invariant
            n == times@.len(),
            n >= 2,
            i + 1 <= n,
            width >= 1,
            rows == height + 1,
            8 * (height + 1) * width <= isize::MAX,
            8 * (height + 1) <= isize::MAX,
            8 * width <= isize::MAX,
            0 < span,
            lo == earliest(times@, n as int),
            span == latest(times@, n as int) - lo,
            forall|j: int| 0 <= j < n ==> lo <= #[trigger] times@[j].millis <= lo + span,
            buf.wf(),
            buf.width_spec() == width,
            buf.rows_spec() == rows,
            draw_series(buf@, times@, width as int, height as int, lo as int, span as int, i as int)
                == target,
        decreases n - i,
    {
        let t1 = times[i].millis;
        let t2 = times[i + 1].millis;
        let x1 = column_of(i, width, n);
        let x2 = column_of(i + 1, width, n);
        let y1 = row_of(t1, lo, span, height);
        let y2 = row_of(t2, lo, span, height);
        proof {
            lemma_sample_bounds(i as int, n as int, width as int, height as int, t1 as int, lo as int, span as int);
            lemma_sample_bounds(
                (i + 1) as int,
                n as int,
                width as int,
                height as int,
                t2 as int,
                lo as int,
                span as int,
            );
            let dy = y2 - y1;
            let dx = x2 - x1;
            assert(abs(dy) <= 4 * height);
            assert(abs(dy * dx) <= 8 * (height + 1) * width) by (nonlinear_arith)
                requires
                    abs(dy) <= 4 * height,
                    0 <= dx <= 2 * width,
                    0 <= height,
                    0 <= width,
            ;
            assert(x1 <= x2);
        }
        plot_line((x1, y1), (x2, y2), &mut buf);
        i = i + 1;
    }
    let rendered = buf.render();
    let mut lines: Vec<String> = Vec::new();
    let mut k: usize = 0;
    while k < rows
        invariant
            rows == height + 1,
            k <= rows,
            buf.wf(),
            buf.width_spec() == width,
            buf.rows_spec() == rows,
            buf@ == target,
            lo == earliest(times@, n as int),
            hi == latest(times@, n as int),
            hi < MILLIS_PER_DAY,
            lo < MILLIS_PER_DAY,
            rendered@.len() == rows,
            forall|a: int| 0 <= a < rows ==> shows_row(#[trigger] rendered@[a]@, buf@, width as int, a),
            lines@.len() == k,
            forall|a: int|
                0 <= a < k ==> chart_row(
                    #[trigger] lines@[a]@,
                    row_tag(a, height as int, label@, lo as int, hi as int),
                    target,
                    width as int,
                    a,
                ),
        decreases rows - k,
    {
        let row = rendered[k].as_str();
        let line = if k == 1 {
            chart_line(clock_text(hi / 1000).as_str(), row)
        } else if k == height {
            chart_line(clock_text(lo / 1000).as_str(), row)
        } else if k == height / 2 {
            chart_line(label, row)
        } else {
            proof {
                reveal_strlit("");
            }
            chart_line("", row)
        };
        proof {
            let tag = row_tag(k as int, height as int, label@, lo as int, hi as int);
            let head = label_field(tag) + seq![' '];
            assert(line@ == head + rendered@[k as int]@);
            assert(line@.subrange(0, head.len() as int) =~= head);
            assert(line@.subrange(head.len() as int, line@.len() as int) =~= rendered@[k as int]@);
        }
        lines.push(line);
        k = k + 1;
    }
    Ok(lines)
}

} // verus!
