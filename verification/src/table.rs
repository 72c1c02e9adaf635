//! The layout engine: maps a header, a window of data rows, the scroll state
//! and a target drawing area onto a concrete grid of cells — column widths,
//! the row-number gutter, horizontal and vertical clipping, and the flag that
//! reports columns left undrawn beyond the right edge.

use crate::screen::Area;
use crate::screen::CellStyle;
use crate::screen::ScreenBuffer;
use crate::screen::ScreenCell;
use crate::screen::spec_write_len;
use crate::viewport::CsvTableState;
use vstd::math::max;
use vstd::math::min;
use vstd::prelude::*;
use vstd::string::StrSliceExecFns;

verus! {

/// Width added to every column on top of its longest value.
pub const COLUMN_PADDING: u16 = 4;

/// The decimal digit character for one digit value.
pub open spec fn spec_digit_char(d: int) -> char {
    if d == 0 {
        '0'
    } else if d == 1 {
        '1'
    } else if d == 2 {
        '2'
    } else if d == 3 {
        '3'
    } else if d == 4 {
        '4'
    } else if d == 5 {
        '5'
    } else if d == 6 {
        '6'
    } else if d == 7 {
        '7'
    } else if d == 8 {
        '8'
    } else {
        '9'
    }
}

/// The decimal digits of `n`, most significant first.
pub open spec fn spec_decimal(n: nat) -> Seq<char>
    decreases n,
{
    if n < 10 {
        seq![spec_digit_char(n as int)]
    } else {
        spec_decimal(n / 10).push(spec_digit_char((n % 10) as int))
    }
}

pub open spec fn spec_pow10(k: nat) -> int
    decreases k,
{
    if k == 0 {
        1
    } else {
        10 * spec_pow10((k - 1) as nat)
    }
}

/// A number below the `k`-th power of ten has at most `k` decimal digits.
proof fn lemma_decimal_len_bound(n: nat, k: nat)
    requires
        1 <= k,
        n < spec_pow10(k),
    ensures
        spec_decimal(n).len() <= k,
    decreases n,
{
    if n >= 10 {
        reveal_with_fuel(spec_pow10, 2);
        assert(spec_pow10(1) == 10);
        if k == 1 {
            assert(false);
        }
        assert(spec_pow10(k) == 10 * spec_pow10((k - 1) as nat));
        assert(n / 10 < spec_pow10((k - 1) as nat)) by (nonlinear_arith)
            requires
                n < spec_pow10(k),
                spec_pow10(k) == 10 * spec_pow10((k - 1) as nat),
                n >= 10,
        ;
        lemma_decimal_len_bound(n / 10, (k - 1) as nat);
    }
}

/// Every `u64` has at most twenty decimal digits.
proof fn lemma_decimal_len_u64(n: u64)
    ensures
        1 <= spec_decimal(n as nat).len() <= 20,
{
    reveal_with_fuel(spec_pow10, 21);
    assert(spec_pow10(20) > u64::MAX);
    lemma_decimal_len_bound(n as nat, 20);
}

fn digit_char(d: u64) -> (c: char)
    requires
        d < 10,
    ensures
        c == spec_digit_char(d as int),
{
    if d == 0 {
        '0'
    } else if d == 1 {
        '1'
    } else if d == 2 {
        '2'
    } else if d == 3 {
        '3'
    } else if d == 4 {
        '4'
    } else if d == 5 {
        '5'
    } else if d == 6 {
        '6'
    } else if d == 7 {
        '7'
    } else if d == 8 {
        '8'
    } else {
        '9'
    }
}

/// Formats `n` in decimal, most significant digit first.
pub fn format_u64(n: u64) -> (s: Vec<char>)
    ensures
        s@ == spec_decimal(n as nat),
        1 <= s@.len() <= 20,
    decreases n,
{
    proof {
        lemma_decimal_len_u64(n);
    }
    if n < 10 {
        let mut v: Vec<char> = Vec::new();
        v.push(digit_char(n));
        proof {
            assert(v@ =~= spec_decimal(n as nat));
        }
        v
    } else {
        let mut v = format_u64(n / 10);
        v.push(digit_char(n % 10));
        v
    }
}

/// The table that one render pass draws: the header and the current window
/// of data rows.
pub struct CsvTable {
    pub header: Vec<String>,
    pub rows: Vec<Vec<String>>,
}

/// The length of the field at column `i` of data row `r`, a row too short to
/// reach column `i` counting as empty.
pub open spec fn spec_cell_len(rows: Seq<Seq<Seq<char>>>, r: int, i: int) -> int {
    if i < rows[r].len() {
        rows[r][i].len() as int
    } else {
        0
    }
}

/// The longest value at column `i` among the first `upto` data rows.
pub open spec fn spec_col_max(rows: Seq<Seq<Seq<char>>>, i: int, upto: int) -> int
    decreases upto,
{
    if upto <= 0 {
        0
    } else {
        max(spec_col_max(rows, i, upto - 1), spec_cell_len(rows, upto - 1, i))
    }
}

/// The computed width of column `i`: the longest of the header name and every
/// value in the window, plus the fixed padding, saturating at the widest
/// representable column.
pub open spec fn spec_col_width(header: Seq<Seq<char>>, rows: Seq<Seq<Seq<char>>>, i: int) -> int {
    let m = max(header[i].len() as int, spec_col_max(rows, i, rows.len() as int));
    min(m + COLUMN_PADDING as int, u16::MAX as int)
}

proof fn lemma_col_max_ge(rows: Seq<Seq<Seq<char>>>, i: int, upto: int, r: int)
    requires
        0 <= r < upto,
    ensures
        spec_col_max(rows, i, upto) >= spec_cell_len(rows, r, i),
    decreases upto,
{
    if r < upto - 1 {
        lemma_col_max_ge(rows, i, upto - 1, r);
    }
}

impl CsvTable {
    pub fn new(header: &Vec<String>, rows: Vec<Vec<String>>) -> (t: Self)
        ensures
            t.header@ == header@,
            t.rows == rows,
    {
        let mut h: Vec<String> = Vec::new();
        let mut i: usize = 0;
        while i < header.len()
            invariant
                0 <= i <= header@.len(),
                h@.len() == i,
                forall|j: int| 0 <= j < i ==> h@[j] == header@[j],
            decreases header@.len() - i,
        {
            h.push(header[i].clone());
            i = i + 1;
        }
        proof {
            assert(h@ =~= header@);
        }
        Self { header: h, rows }
    }

    /// One width per header column, each the longest of the column's name and
    /// of its values across the window, plus the fixed padding. A data row
    /// shorter than the header contributes nothing at the columns it lacks;
    /// fields beyond the header's column count are ignored.
    pub fn get_column_widths(&self) -> (r: Vec<u16>)
        ensures
            r@.len() == self.header@.len(),
            forall|i: int|
                0 <= i < r@.len() ==> r@[i] as int == spec_col_width(
                    self.header.deep_view(),
                    self.rows.deep_view(),
                    i,
                ),
    {
        let ghost gh = self.header.deep_view();
        let ghost gr = self.rows.deep_view();
        let mut widths: Vec<u16> = Vec::new();
        let mut i: usize = 0;
        while i < self.header.len()
            invariant
                gh == self.header.deep_view(),
                gr == self.rows.deep_view(),
                0 <= i <= self.header@.len(),
                widths@.len() == i,
                forall|j: int| 0 <= j < i ==> widths@[j] as int == spec_col_width(gh, gr, j),
            decreases self.header@.len() - i,
        {
            let mut m: usize = self.header[i].as_str().unicode_len();
            proof {
                assert(gh[i as int] == self.header@[i as int]@);
            }
            let mut r: usize = 0;
            while r < self.rows.len()
                invariant
                    gr == self.rows.deep_view(),
                    0 <= r <= self.rows@.len(),
                    i < self.header@.len(),
                    gh == self.header.deep_view(),
                    gh[i as int] == self.header@[i as int]@,
                    m as int == max(gh[i as int].len() as int, spec_col_max(gr, i as int, r as int)),
                decreases self.rows@.len() - r,
            {
                proof {
                    assert(gr[r as int] == self.rows@[r as int].deep_view());
                }
                let row = &self.rows[r];
                if i < row.len() {
                    let l = row[i].as_str().unicode_len();
                    proof {
                        assert(self.rows@[r as int].deep_view()[i as int]
                            == self.rows@[r as int]@[i as int]@);
                    }
                    if l > m {
                        m = l;
                    }
                }
                r = r + 1;
            }
            let w = m.saturating_add(COLUMN_PADDING as usize);
            let wu: u16 = if w > (u16::MAX as usize) {
                u16::MAX
            } else {
                w as u16
            };
            widths.push(wu);
            i = i + 1;
        }
        widths
    }
}

/// Column width lower bound: whenever no saturation occurs, every computed
/// width is at least the fixed padding plus the longest of the column's
/// header name and of its values across the window.
pub proof fn lemma_column_width_lower_bound(
    header: Seq<Seq<char>>,
    rows: Seq<Seq<Seq<char>>>,
    i: int,
)
    requires
        0 <= i < header.len(),
        header[i].len() + COLUMN_PADDING as int <= u16::MAX as int,
        forall|r: int|
            0 <= r < rows.len() ==> spec_cell_len(rows, r, i) + COLUMN_PADDING as int <= u16::MAX
                as int,
    ensures
        spec_col_width(header, rows, i) >= COLUMN_PADDING as int + header[i].len(),
        forall|r: int|
            0 <= r < rows.len() ==> spec_col_width(header, rows, i) >= COLUMN_PADDING as int
                + spec_cell_len(rows, r, i),
{
    assert forall|r: int|
        0 <= r < rows.len() implies spec_col_width(header, rows, i) >= COLUMN_PADDING as int
        + spec_cell_len(rows, r, i) by {
        lemma_col_max_ge(rows, i, rows.len() as int, r);
        lemma_col_max_bounded(rows, i, rows.len() as int);
    }
}

/// The total width of columns `lo` (inclusive) to `hi` (exclusive).
pub open spec fn spec_wsum(widths: Seq<u16>, lo: int, hi: int) -> int
    decreases hi - lo,
{
    if lo >= hi {
        0
    } else {
        spec_wsum(widths, lo, hi - 1) + widths[hi - 1] as int
    }
}

proof fn lemma_wsum_mono(widths: Seq<u16>, lo: int, h1: int, h2: int)
    requires
        h1 <= h2,
    ensures
        spec_wsum(widths, lo, h1) <= spec_wsum(widths, lo, h2),
    decreases h2 - h1,
{
    if h1 < h2 {
        lemma_wsum_mono(widths, lo, h1, h2 - 1);
    }
}

/// The horizontal space left of the right edge of an `aw`-wide area for a
/// write that starts at column `x`.
pub open spec fn spec_avail(aw: int, x: int) -> int {
    if x < aw {
        aw - x
    } else {
        0
    }
}

/// The field a row shows at column `k`: its own field where it has one, and
/// the empty string where the row is shorter than the header — missing
/// trailing fields are blank on screen.
pub open spec fn spec_field(row: Seq<Seq<char>>, k: int) -> Seq<char> {
    if 0 <= k < row.len() {
        row[k]
    } else {
        Seq::empty()
    }
}

/// Whether a row pass leaves columns undrawn for lack of horizontal space.
/// Every pass walks the same `C` columns — a short row contributes blanks,
/// not a shorter walk — so this is true exactly when some column at or
/// beyond the scroll offset does not fit, which, widths being non-negative,
/// is when the total width of the columns from the offset on exceeds the
/// space.
pub open spec fn spec_row_flag(widths: Seq<u16>, off: int, avail: int) -> bool {
    off < widths.len() && spec_wsum(widths, off, widths.len() as int) > avail
}

/// The exclusive upper index of the columns that get drawn: the largest
/// `h <= m` whose columns `off..h` fit in the available space, or `off` if
/// none do.
pub open spec fn spec_drawn_hi(widths: Seq<u16>, off: int, h: int, avail: int) -> int
    decreases h - off,
{
    if h <= off {
        off
    } else if spec_wsum(widths, off, h) <= avail {
        h
    } else {
        spec_drawn_hi(widths, off, h - 1, avail)
    }
}

proof fn lemma_drawn_hi_val(widths: Seq<u16>, off: int, m: int, avail: int, j: int)
    requires
        off <= j <= m,
        spec_wsum(widths, off, j) <= avail,
        j < m ==> spec_wsum(widths, off, j + 1) > avail,
    ensures
        spec_drawn_hi(widths, off, m, avail) == j,
    decreases m - j,
{
    if m > j {
        lemma_wsum_mono(widths, off, j + 1, m);
        lemma_drawn_hi_val(widths, off, m - 1, avail, j);
    }
}

proof fn lemma_drawn_hi_bounds(widths: Seq<u16>, off: int, h: int, avail: int)
    requires
        avail >= 0,
    ensures
        off <= spec_drawn_hi(widths, off, h, avail),
        spec_drawn_hi(widths, off, h, avail) <= max(off, h),
        spec_wsum(widths, off, spec_drawn_hi(widths, off, h, avail)) <= avail,
    decreases h - off,
{
    if h > off && spec_wsum(widths, off, h) > avail {
        lemma_drawn_hi_bounds(widths, off, h - 1, avail);
    }
}

/// The exclusive upper index of the drawn columns of a render pass: the same
/// for the header and for every data row, since each pass walks all `C`
/// columns.
pub open spec fn spec_drawn_cols(widths: Seq<u16>, off: int, avail: int) -> int {
    spec_drawn_hi(widths, off, widths.len() as int, avail)
}

/// The style a row is drawn in.
pub open spec fn spec_row_style(is_header: bool) -> CellStyle {
    if is_header {
        CellStyle::Bold
    } else {
        CellStyle::Plain
    }
}

impl CsvTable {
    /// Draws one row — the header or a data row — left-aligned field by
    /// field, starting at column `x` of row `y`. Columns left of the scroll
    /// offset are skipped outright; from the first remaining column on, every
    /// header column is walked left to right until one no longer fits, a row
    /// too short for a column showing it blank, and whether one failed to fit
    /// is recorded in the state's more-columns flag.
    ///
    /// The contract pins every cell down: for each drawn column its field's
    /// characters stand at the column's position, the rest of the column's
    /// width is untouched padding, and every cell outside the drawn span of
    /// row `y` keeps its old value.
    pub fn render_row(
        &self,
        buf: &mut ScreenBuffer,
        state: &mut CsvTableState,
        column_widths: &Vec<u16>,
        area: Area,
        x: u16,
        y: u16,
        is_header: bool,
        row: &Vec<String>,
    )
        requires
            old(buf).wf(),
            area.width <= old(buf).width,
            area.height <= old(buf).height,
            y < area.height,
        ensures
            final(buf).wf(),
            final(buf).width == old(buf).width,
            final(buf).height == old(buf).height,
            final(state).rows_offset == old(state).rows_offset,
            final(state).cols_offset == old(state).cols_offset,
            final(state).filename == old(state).filename,
            final(state).more_cols_to_show == spec_row_flag(
                column_widths@,
                old(state).cols_offset as int,
                spec_avail(area.width as int, x as int),
            ),
            forall|k: int, i: int|
                #![trigger spec_field(row.deep_view(), k)[i]]
                old(state).cols_offset <= k < spec_drawn_cols(
                    column_widths@,
                    old(state).cols_offset as int,
                    spec_avail(area.width as int, x as int),
                ) && 0 <= i < min(
                    spec_field(row.deep_view(), k).len() as int,
                    column_widths@[k] as int,
                ) ==> final(buf).cell(
                    x as int + spec_wsum(column_widths@, old(state).cols_offset as int, k) + i,
                    y as int,
                ) == (ScreenCell {
                    ch: spec_field(row.deep_view(), k)[i],
                    style: spec_row_style(is_header),
                }),
            forall|k: int, i: int|
                #![trigger final(buf).cell(
                    x as int + spec_wsum(column_widths@, old(state).cols_offset as int, k) + i,
                    y as int,
                )]
                old(state).cols_offset <= k < spec_drawn_cols(
                    column_widths@,
                    old(state).cols_offset as int,
                    spec_avail(area.width as int, x as int),
                ) && min(spec_field(row.deep_view(), k).len() as int, column_widths@[k] as int)
                    <= i < column_widths@[k] as int ==> final(buf).cell(
                    x as int + spec_wsum(column_widths@, old(state).cols_offset as int, k) + i,
                    y as int,
                ) == old(buf).cell(
                    x as int + spec_wsum(column_widths@, old(state).cols_offset as int, k) + i,
                    y as int,
                ),
            forall|cx: int, cy: int|
                0 <= cx < old(buf).width && 0 <= cy < old(buf).height && (cy != y as int || cx < x
                    as int || cx >= x as int + spec_wsum(
                    column_widths@,
                    old(state).cols_offset as int,
                    spec_drawn_cols(
                        column_widths@,
                        old(state).cols_offset as int,
                        spec_avail(area.width as int, x as int),
                    ),
                )) ==> final(buf).cell(cx, cy) == old(buf).cell(cx, cy),
    {
        let ghost widths = column_widths@;
        let ghost grow = row.deep_view();
        let ghost off = old(state).cols_offset as int;
        let ghost aw = area.width as int;
        let ghost avail_s = spec_avail(aw, x as int);
        let ghost before = *buf;
        let ghost style_s = spec_row_style(is_header);
        let m: usize = column_widths.len();
        let off_u: u64 = state.cols_offset;
        let mut j: usize = if off_u >= m as u64 {
            m
        } else {
            off_u as usize
        };
        let mut x_cur: u16 = x;
        let mut remaining: u16 = if x < area.width {
            area.width - x
        } else {
            0
        };
        let mut flag: bool = false;
        let style = if is_header {
            CellStyle::Bold
        } else {
            CellStyle::Plain
        };
        while j < m && !flag
            invariant
                buf.wf(),
                buf.width == before.width,
                buf.height == before.height,
                area.width <= buf.width,
                area.height <= buf.height,
                y < area.height,
                *state == *old(state),
                widths == column_widths@,
                grow == row.deep_view(),
                grow.len() == row@.len(),
                off == old(state).cols_offset as int,
                aw == area.width as int,
                avail_s == spec_avail(aw, x as int),
                style == style_s,
                m == widths.len(),
                off <= j <= m || (off >= m && j == m),
                j <= m,
                off >= m ==> j == m,
                x_cur as int == x as int + spec_wsum(widths, off, j as int),
                !flag ==> spec_wsum(widths, off, j as int) <= avail_s,
                !flag ==> remaining as int == avail_s - spec_wsum(widths, off, j as int),
                flag ==> off <= j < m && spec_wsum(widths, off, j as int) <= avail_s
                    && spec_wsum(widths, off, j as int + 1) > avail_s,
                forall|k: int, i: int|
                    #![trigger spec_field(grow, k)[i]]
                    off <= k < j && 0 <= i < min(spec_field(grow, k).len() as int, widths[k] as int)
                        ==> buf.cell(x as int + spec_wsum(widths, off, k) + i, y as int) == (
                    ScreenCell { ch: spec_field(grow, k)[i], style: style_s }),
                forall|k: int, i: int|
                    #![trigger buf.cell(x as int + spec_wsum(widths, off, k) + i, y as int)]
                    off <= k < j && min(spec_field(grow, k).len() as int, widths[k] as int) <= i
                        < widths[k] as int ==> buf.cell(
                        x as int + spec_wsum(widths, off, k) + i,
                        y as int,
                    ) == before.cell(x as int + spec_wsum(widths, off, k) + i, y as int),
                forall|cx: int, cy: int|
                    0 <= cx < buf.width && 0 <= cy < buf.height && (cy != y as int || cx < x as int
                        || cx >= x_cur as int) ==> buf.cell(cx, cy) == before.cell(cx, cy),
            decreases m - j + (if flag {
                0int
            } else {
                1int
            }),
        {
            let w: u16 = column_widths[j];
            if remaining < w {
                flag = true;
            } else {
                if j < row.len() {
                    let ghost bmid = *buf;
                    buf.set_text(x_cur, y, row[j].as_str(), w, style);
                    proof {
                        let jj = j as int;
                        assert(spec_field(grow, jj) == row@[jj]@);
                        let n = spec_write_len(
                            row@[jj]@,
                            w as int,
                            x_cur as int,
                            y as int,
                            buf.width as int,
                            buf.height as int,
                        );
                        if w > 0 {
                            lemma_wsum_mono(widths, off, off, jj);
                            assert(avail_s > 0);
                            assert(x < area.width);
                            assert(x_cur as int + w as int <= aw);
                        }
                        assert(n == min(spec_field(grow, jj).len() as int, w as int));
                        assert(spec_wsum(widths, off, jj + 1) == spec_wsum(widths, off, jj)
                            + w as int);
                        assert forall|k: int, i: int|
                            #![trigger spec_field(grow, k)[i]]
                            off <= k < jj + 1 && 0 <= i < min(
                                spec_field(grow, k).len() as int,
                                widths[k] as int,
                            ) implies buf.cell(x as int + spec_wsum(widths, off, k) + i, y as int)
                            == (ScreenCell { ch: spec_field(grow, k)[i], style: style_s }) by {
                            let pos = x as int + spec_wsum(widths, off, k) + i;
                            assert(spec_wsum(widths, off, k + 1) == spec_wsum(widths, off, k)
                                + widths[k] as int);
                            lemma_wsum_mono(widths, off, off, k);
                            lemma_wsum_mono(widths, off, k + 1, jj + 1);
                            assert(spec_wsum(widths, off, k + 1) <= avail_s);
                            assert(0 < avail_s);
                            assert(x < area.width);
                            if k < jj {
                                lemma_wsum_mono(widths, off, k + 1, jj);
                                assert(pos < x_cur as int);
                                assert(pos < buf.width as int);
                                assert(bmid.cell(pos, y as int) == (ScreenCell {
                                    ch: spec_field(grow, k)[i],
                                    style: style_s,
                                }));
                            } else {
                                assert(x_cur as int <= pos < x_cur as int + n);
                            }
                        }
                        assert forall|k: int, i: int|
                            #![trigger buf.cell(x as int + spec_wsum(widths, off, k) + i, y as int)]
                            off <= k < jj + 1 && min(
                                spec_field(grow, k).len() as int,
                                widths[k] as int,
                            ) <= i < widths[k] as int implies buf.cell(
                            x as int + spec_wsum(widths, off, k) + i,
                            y as int,
                        ) == before.cell(x as int + spec_wsum(widths, off, k) + i, y as int) by {
                            let pos = x as int + spec_wsum(widths, off, k) + i;
                            assert(spec_wsum(widths, off, k + 1) == spec_wsum(widths, off, k)
                                + widths[k] as int);
                            lemma_wsum_mono(widths, off, off, k);
                            lemma_wsum_mono(widths, off, k + 1, jj + 1);
                            assert(spec_wsum(widths, off, k + 1) <= avail_s);
                            assert(0 < avail_s);
                            assert(x < area.width);
                            assert(pos < buf.width as int);
                            if k < jj {
                                lemma_wsum_mono(widths, off, k + 1, jj);
                                assert(pos < x_cur as int);
                                assert(bmid.cell(pos, y as int) == before.cell(pos, y as int));
                            } else {
                                assert(pos >= x_cur as int + n);
                                assert(bmid.cell(pos, y as int) == before.cell(pos, y as int));
                            }
                        }
                        assert forall|cx: int, cy: int|
                            0 <= cx < buf.width && 0 <= cy < buf.height && (cy != y as int || cx
                                < x as int || cx >= x_cur as int + w as int) implies buf.cell(
                            cx,
                            cy,
                        ) == before.cell(cx, cy) by {
                            lemma_wsum_mono(widths, off, off, jj);
                        }
                    }
                } else {
                    // the row has no field at this column: charge the
                    // column's width, draw nothing — the column shows blank
                    proof {
                        let jj = j as int;
                        assert(spec_field(grow, jj).len() == 0);
                        assert(spec_wsum(widths, off, jj + 1) == spec_wsum(widths, off, jj)
                            + w as int);
                        assert forall|k: int, i: int|
                            #![trigger buf.cell(x as int + spec_wsum(widths, off, k) + i, y as int)]
                            off <= k < jj + 1 && min(
                                spec_field(grow, k).len() as int,
                                widths[k] as int,
                            ) <= i < widths[k] as int implies buf.cell(
                            x as int + spec_wsum(widths, off, k) + i,
                            y as int,
                        ) == before.cell(x as int + spec_wsum(widths, off, k) + i, y as int) by {
                            if k == jj {
                                let pos = x as int + spec_wsum(widths, off, k) + i;
                                lemma_wsum_mono(widths, off, off, jj);
                                assert(spec_wsum(widths, off, k + 1) == spec_wsum(widths, off, k)
                                    + widths[k] as int);
                                assert(0 < avail_s);
                                assert(x < area.width);
                                assert(pos >= x_cur as int);
                            }
                        }
                    }
                }
                x_cur = x_cur + w;
                remaining = remaining - w;
                j = j + 1;
            }
        }
        state.set_more_cols_to_show(flag);
        proof {
            if flag {
                lemma_wsum_mono(widths, off, j as int + 1, m as int);
                assert(spec_row_flag(widths, off, avail_s));
                lemma_drawn_hi_val(widths, off, m as int, avail_s, j as int);
            } else {
                assert(j == m);
                if off < m as int {
                    lemma_drawn_hi_val(widths, off, m as int, avail_s, j as int);
                } else {
                    assert(spec_drawn_hi(widths, off, m as int, avail_s) == off);
                    assert(spec_wsum(widths, off, off) == 0);
                }
                assert(!spec_row_flag(widths, off, avail_s));
            }
        }
    }
}

/// The 1-based absolute number of the `i`-th row of the window, saturating
/// instead of wrapping for offsets near the top of the range.
pub open spec fn spec_row_number(off: u64, i: u64) -> u64 {
    off.saturating_add(i).saturating_add(1)
}

/// The width of the row-number gutter: the digit count of the largest row
/// number the window can show, plus the fixed margin for the separator and
/// its padding.
pub open spec fn spec_gutter_width(off: u64, num_rows: u64) -> int {
    spec_decimal(spec_row_number(off, num_rows) as nat).len() as int + 5
}

/// What one cell holds after the gutter is drawn: the vertical separator
/// column, a digit of a row number, or whatever was there before.
pub open spec fn spec_gutter_cell(
    off: u64,
    num_rows: int,
    y0: int,
    body_h: int,
    aw: int,
    prev: ScreenCell,
    cx: int,
    cy: int,
) -> ScreenCell {
    let secw = spec_decimal(spec_row_number(off, num_rows as u64) as nat).len() as int;
    let sep_x = secw + 2;
    let drawn = min(num_rows, body_h);
    if cx == sep_x && sep_x < aw && y0 <= cy < y0 + body_h {
        ScreenCell { ch: '|', style: CellStyle::Dim }
    } else if y0 <= cy < y0 + drawn && 0 <= cx < min(
        spec_decimal(spec_row_number(off, (cy - y0) as u64) as nat).len() as int,
        aw,
    ) {
        ScreenCell {
            ch: spec_decimal(spec_row_number(off, (cy - y0) as u64) as nat)[cx],
            style: CellStyle::Dim,
        }
    } else {
        prev
    }
}

/// Draws a horizontal border line across row `y`, up to `limit` cells wide.
fn draw_hline(buf: &mut ScreenBuffer, y: u16, limit: u16)
    requires
        old(buf).wf(),
    ensures
        final(buf).wf(),
        final(buf).width == old(buf).width,
        final(buf).height == old(buf).height,
        forall|cx: int, cy: int|
            0 <= cx < old(buf).width && 0 <= cy < old(buf).height ==> final(buf).cell(cx, cy) == (
            if cy == y as int && cx < limit as int {
                (ScreenCell { ch: '-', style: CellStyle::Dim })
            } else {
                old(buf).cell(cx, cy)
            }),
{
    let ghost before = *buf;
    let stop: u16 = if limit < buf.width {
        limit
    } else {
        buf.width
    };
    let mut xx: u16 = 0;
    while xx < stop
        invariant
            buf.wf(),
            buf.width == before.width,
            buf.height == before.height,
            stop == min(limit as int, buf.width as int),
            0 <= xx <= stop,
            forall|cx: int, cy: int|
                0 <= cx < buf.width && 0 <= cy < buf.height ==> buf.cell(cx, cy) == (if cy == y
                    as int && cx < xx as int {
                    (ScreenCell { ch: '-', style: CellStyle::Dim })
                } else {
                    before.cell(cx, cy)
                }),
        decreases stop - xx,
    {
        buf.set_cell(xx, y, ScreenCell { ch: '-', style: CellStyle::Dim });
        xx = xx + 1;
    }
}

impl CsvTable {
    /// Draws the top and bottom border of the header band and returns the row
    /// of the header text and the first row below the band.
    pub fn render_header_borders(&self, buf: &mut ScreenBuffer, area: Area) -> (r: (u16, u16))
        requires
            old(buf).wf(),
        ensures
            final(buf).wf(),
            final(buf).width == old(buf).width,
            final(buf).height == old(buf).height,
            r.0 == 1 && r.1 == 3,
            forall|cx: int, cy: int|
                0 <= cx < old(buf).width && 0 <= cy < old(buf).height ==> final(buf).cell(cx, cy)
                    == (if (cy == 0 || cy == 2) && cx < area.width as int {
                    (ScreenCell { ch: '-', style: CellStyle::Dim })
                } else {
                    old(buf).cell(cx, cy)
                }),
    {
        draw_hline(buf, 0, area.width);
        draw_hline(buf, 2, area.width);
        (1, 3)
    }

    /// Draws the row-number gutter at the left edge of the body band: a
    /// 1-based absolute row number per visible window row, in dim style, and
    /// a vertical separator over the band's full height. Returns the width of
    /// the gutter, where the rows' own content starts.
    pub fn render_row_numbers(
        &self,
        buf: &mut ScreenBuffer,
        state: &CsvTableState,
        area: Area,
        y0: u16,
        body_h: u16,
        num_rows: usize,
    ) -> (w: u16)
        requires
            old(buf).wf(),
            area.width <= old(buf).width,
            area.height <= old(buf).height,
            y0 + body_h <= area.height,
        ensures
            final(buf).wf(),
            final(buf).width == old(buf).width,
            final(buf).height == old(buf).height,
            w as int == spec_gutter_width(state.rows_offset, num_rows as u64),
            forall|cx: int, cy: int|
                0 <= cx < old(buf).width && 0 <= cy < old(buf).height ==> final(buf).cell(cx, cy)
                    == spec_gutter_cell(
                    state.rows_offset,
                    num_rows as int,
                    y0 as int,
                    body_h as int,
                    area.width as int,
                    old(buf).cell(cx, cy),
                    cx,
                    cy,
                ),
    {
        let ghost before = *buf;
        let ghost aw = area.width as int;
        let max_num: u64 = state.rows_offset.saturating_add(num_rows as u64).saturating_add(1);
        let digits_max = format_u64(max_num);
        let secw: u16 = digits_max.len() as u16;
        let drawn: usize = if num_rows < body_h as usize {
            num_rows
        } else {
            body_h as usize
        };
        let mut i: usize = 0;
        while i < drawn
            invariant
                buf.wf(),
                buf.width == before.width,
                buf.height == before.height,
                area.width <= buf.width,
                area.height <= buf.height,
                y0 + body_h <= area.height,
                aw == area.width as int,
                drawn as int == min(num_rows as int, body_h as int),
                0 <= i <= drawn,
                forall|cx: int, cy: int|
                    0 <= cx < buf.width && 0 <= cy < buf.height ==> buf.cell(cx, cy) == (if y0
                        as int <= cy < y0 as int + i && 0 <= cx < min(
                        spec_decimal(
                            spec_row_number(state.rows_offset, (cy - y0 as int) as u64) as nat,
                        ).len() as int,
                        aw,
                    ) {
                        (ScreenCell {
                            ch: spec_decimal(
                                spec_row_number(state.rows_offset, (cy - y0 as int) as u64) as nat,
                            )[cx],
                            style: CellStyle::Dim,
                        })
                    } else {
                        before.cell(cx, cy)
                    }),
            decreases drawn - i,
        {
            let num = state.rows_offset.saturating_add(i as u64).saturating_add(1);
            let d = format_u64(num);
            let y: u16 = y0 + (i as u16);
            buf.set_chars(0, y, &d, area.width, CellStyle::Dim);
            proof {
                let n = spec_write_len(
                    d@,
                    area.width as int,
                    0,
                    y as int,
                    buf.width as int,
                    buf.height as int,
                );
                assert(n == min(d@.len() as int, aw));
            }
            i = i + 1;
        }
        let sep_x: u16 = secw + 2;
        let ghost digits_done = *buf;
        let mut yy: u16 = 0;
        while yy < body_h
            invariant
                buf.wf(),
                buf.width == before.width,
                buf.height == before.height,
                area.width <= buf.width,
                area.height <= buf.height,
                y0 + body_h <= area.height,
                aw == area.width as int,
                sep_x as int == spec_decimal(
                    spec_row_number(state.rows_offset, num_rows as u64) as nat,
                ).len() as int + 2,
                0 <= yy <= body_h,
                forall|cx: int, cy: int|
                    0 <= cx < buf.width && 0 <= cy < buf.height ==> buf.cell(cx, cy) == (if cx
                        == sep_x as int && (sep_x as int) < aw && y0 as int <= cy < y0 as int
                        + yy as int {
                        (ScreenCell { ch: '|', style: CellStyle::Dim })
                    } else {
                        digits_done.cell(cx, cy)
                    }),
                forall|cx: int, cy: int|
                    0 <= cx < buf.width && 0 <= cy < buf.height ==> digits_done.cell(cx, cy) == (
                    if y0 as int <= cy < y0 as int + min(num_rows as int, body_h as int) && 0 <= cx
                        < min(
                        spec_decimal(
                            spec_row_number(state.rows_offset, (cy - y0 as int) as u64) as nat,
                        ).len() as int,
                        aw,
                    ) {
                        (ScreenCell {
                            ch: spec_decimal(
                                spec_row_number(state.rows_offset, (cy - y0 as int) as u64) as nat,
                            )[cx],
                            style: CellStyle::Dim,
                        })
                    } else {
                        before.cell(cx, cy)
                    }),
            decreases body_h - yy,
        {
            if sep_x < area.width {
                buf.set_cell(sep_x, y0 + yy, ScreenCell { ch: '|', style: CellStyle::Dim });
            }
            yy = yy + 1;
        }
        secw + 5
    }

    /// Draws the status band at the bottom of the area: a top border and the
    /// opened file's display name, left-aligned in dim style.
    pub fn render_status(&self, area: Area, buf: &mut ScreenBuffer, state: &CsvTableState)
        requires
            old(buf).wf(),
            area.width <= old(buf).width,
            area.height <= old(buf).height,
            area.height >= 2,
        ensures
            final(buf).wf(),
            final(buf).width == old(buf).width,
            final(buf).height == old(buf).height,
            forall|cx: int, cy: int|
                0 <= cx < old(buf).width && 0 <= cy < old(buf).height ==> final(buf).cell(cx, cy)
                    == (if cy == area.height as int - 2 && cx < area.width as int {
                    (ScreenCell { ch: '-', style: CellStyle::Dim })
                } else if cy == area.height as int - 1 && 0 <= cx < min(
                    state.filename@.len() as int,
                    area.width as int,
                ) {
                    (ScreenCell { ch: state.filename@[cx], style: CellStyle::Dim })
                } else {
                    old(buf).cell(cx, cy)
                }),
    {
        draw_hline(buf, area.height - 2, area.width);
        buf.set_text(
            0,
            area.height - 1,
            state.filename.as_str(),
            area.width,
            CellStyle::Dim,
        );
        proof {
            let n = spec_write_len(
                state.filename@,
                area.width as int,
                0,
                area.height as int - 1,
                buf.width as int,
                buf.height as int,
            );
            assert(n == min(state.filename@.len() as int, area.width as int));
        }
    }
}

proof fn lemma_drawn_pos_in_area(
    widths: Seq<u16>,
    off: int,
    m: int,
    avail: int,
    k: int,
    i: int,
    x0: int,
    aw: int,
)
    requires
        avail == spec_avail(aw, x0),
        x0 >= 0,
        off <= k < spec_drawn_hi(widths, off, m, avail),
        0 <= i < widths[k] as int,
    ensures
        0 <= x0 + spec_wsum(widths, off, k) + i < aw,
        0 <= spec_wsum(widths, off, k),
{
    lemma_drawn_hi_bounds(widths, off, m, avail);
    lemma_wsum_mono(widths, off, off, k);
    assert(spec_wsum(widths, off, k + 1) == spec_wsum(widths, off, k) + widths[k] as int);
    lemma_wsum_mono(widths, off, k + 1, spec_drawn_hi(widths, off, m, avail));
}

/// An area the engine draws nothing into: zero width, or too low to hold the
/// header band, the status band and at least one body row.
pub open spec fn spec_degenerate(area: Area) -> bool {
    area.width == 0 || area.height <= 5
}

/// The column widths a render pass computes, as a sequence.
pub open spec fn spec_widths(header: Seq<Seq<char>>, rows: Seq<Seq<Seq<char>>>) -> Seq<u16> {
    Seq::new(header.len(), |i: int| spec_col_width(header, rows, i) as u16)
}

/// How many window rows the body band shows.
pub open spec fn spec_body_rows(rows_len: int, ah: int) -> int {
    min(rows_len, ah - 5)
}

/// The column of the gutter's vertical separator.
pub open spec fn spec_sep_x(roff: u64, num_rows: u64) -> int {
    spec_decimal(spec_row_number(roff, num_rows) as nat).len() as int + 2
}

/// A larger number never has fewer decimal digits.
proof fn lemma_decimal_len_mono(a: nat, b: nat)
    requires
        a <= b,
    ensures
        spec_decimal(a).len() <= spec_decimal(b).len(),
    decreases b,
{
    if b >= 10 && a >= 10 {
        vstd::arithmetic::div_mod::lemma_div_is_ordered(a as int, b as int, 10);
        lemma_decimal_len_mono((a / 10) as nat, (b / 10) as nat);
    }
}

/// Whether a render pass writes the in-area cell `(cx, cy)`: the three
/// border rows, the status text, the gutter's separator column and digits,
/// and the drawn span of the header row and of each visible body row.
pub open spec fn spec_frame_touched(
    header: Seq<Seq<char>>,
    rows: Seq<Seq<Seq<char>>>,
    fname: Seq<char>,
    off: int,
    roff: u64,
    aw: int,
    ah: int,
    cx: int,
    cy: int,
) -> bool {
    let widths = spec_widths(header, rows);
    let x0 = spec_gutter_width(roff, rows.len() as u64);
    let avail = spec_avail(aw, x0);
    let ext = x0 + spec_wsum(widths, off, spec_drawn_cols(widths, off, avail));
    let nb = spec_body_rows(rows.len() as int, ah);
    ||| cy == 0
    ||| cy == 2
    ||| cy == ah - 2
    ||| cy == ah - 1 && cx < fname.len() as int
    ||| 3 <= cy < ah - 2 && cx == spec_sep_x(roff, rows.len() as u64)
    ||| 3 <= cy < 3 + nb && cx < spec_decimal(
        spec_row_number(roff, (cy - 3) as u64) as nat,
    ).len() as int
    ||| (cy == 1 || 3 <= cy < 3 + nb) && x0 <= cx < ext
}

impl CsvTable {
    /// One full render pass: the header band with its borders, the row-number
    /// gutter, the header and as many window rows as the body band holds, and
    /// the status band — or nothing at all into a degenerate area.
    ///
    /// The contract is a full frame map: the no-op on a degenerate area, the
    /// exact more-columns flag left in the state, the three border rows, the
    /// gutter's digits and separator, the characters and untouched padding of
    /// every drawn header and data field, the status text — and that every
    /// other cell, inside the area or out, keeps its old value.
    pub fn render(&self, area: Area, buf: &mut ScreenBuffer, state: &mut CsvTableState)
        requires
            old(buf).wf(),
            area.width <= old(buf).width,
            area.height <= old(buf).height,
        ensures
            final(buf).wf(),
            final(buf).width == old(buf).width,
            final(buf).height == old(buf).height,
            final(state).rows_offset == old(state).rows_offset,
            final(state).cols_offset == old(state).cols_offset,
            final(state).filename == old(state).filename,
            spec_degenerate(area) ==> *final(buf) == *old(buf) && *final(state) == *old(state),
            !spec_degenerate(area) ==> forall|cx: int, cy: int|
                0 <= cx < old(buf).width && 0 <= cy < old(buf).height && (cx >= area.width as int
                    || cy >= area.height as int) ==> final(buf).cell(cx, cy) == old(buf).cell(
                    cx,
                    cy,
                ),
            !spec_degenerate(area) ==> final(state).more_cols_to_show == ({
                let widths = spec_widths(self.header.deep_view(), self.rows.deep_view());
                let x0 = spec_gutter_width(old(state).rows_offset, self.rows.deep_view().len() as u64);
                spec_row_flag(widths, old(state).cols_offset as int, spec_avail(area.width as int, x0))
            }),
            !spec_degenerate(area) ==> forall|cx: int, cy: int|
                #![trigger final(buf).cell(cx, cy)]
                0 <= cx < area.width && (cy == 0 || cy == 2 || cy == area.height as int - 2)
                    ==> final(buf).cell(cx, cy) == (ScreenCell { ch: '-', style: CellStyle::Dim }),
            !spec_degenerate(area) ==> forall|cy: int|
                #![trigger final(buf).cell(spec_sep_x(old(state).rows_offset, self.rows.deep_view().len() as u64), cy)]
                3 <= cy < area.height as int - 2 && spec_sep_x(
                    old(state).rows_offset,
                    self.rows.deep_view().len() as u64,
                ) < area.width as int ==> final(buf).cell(
                    spec_sep_x(old(state).rows_offset, self.rows.deep_view().len() as u64),
                    cy,
                ) == (ScreenCell { ch: '|', style: CellStyle::Dim }),
            !spec_degenerate(area) ==> forall|cx: int, cy: int|
                #![trigger final(buf).cell(cx, cy)]
                ({
                    let d = spec_decimal(
                        spec_row_number(old(state).rows_offset, (cy - 3) as u64) as nat,
                    );
                    3 <= cy < 3 + spec_body_rows(self.rows.deep_view().len() as int, area.height as int)
                        && 0 <= cx < min(d.len() as int, area.width as int) ==> final(buf).cell(
                        cx,
                        cy,
                    ) == (ScreenCell { ch: d[cx], style: CellStyle::Dim })
                }),
            !spec_degenerate(area) ==> forall|cx: int|
                #![trigger final(buf).cell(cx, area.height as int - 1)]
                0 <= cx < min(old(state).filename@.len() as int, area.width as int)
                    ==> final(buf).cell(cx, area.height as int - 1) == (ScreenCell {
                    ch: old(state).filename@[cx],
                    style: CellStyle::Dim,
                }),
            !spec_degenerate(area) ==> forall|k: int, i: int|
                #![trigger spec_field(self.header.deep_view(), k)[i]]
                ({
                    let gh = self.header.deep_view();
                    let gr = self.rows.deep_view();
                    let widths = spec_widths(gh, gr);
                    let off = old(state).cols_offset as int;
                    let x0 = spec_gutter_width(old(state).rows_offset, gr.len() as u64);
                    let avail = spec_avail(area.width as int, x0);
                    off <= k < spec_drawn_cols(widths, off, avail) && 0 <= i < min(
                        spec_field(gh, k).len() as int,
                        widths[k] as int,
                    ) ==> final(buf).cell(x0 + spec_wsum(widths, off, k) + i, 1) == (ScreenCell {
                        ch: spec_field(gh, k)[i],
                        style: CellStyle::Bold,
                    })
                }),
            !spec_degenerate(area) ==> forall|k: int, i: int|
                #![trigger final(buf).cell(
                    spec_gutter_width(old(state).rows_offset, self.rows.deep_view().len() as u64)
                        + spec_wsum(
                        spec_widths(self.header.deep_view(), self.rows.deep_view()),
                        old(state).cols_offset as int,
                        k,
                    ) + i,
                    1,
                )]
                ({
                    let gh = self.header.deep_view();
                    let gr = self.rows.deep_view();
                    let widths = spec_widths(gh, gr);
                    let off = old(state).cols_offset as int;
                    let x0 = spec_gutter_width(old(state).rows_offset, gr.len() as u64);
                    let avail = spec_avail(area.width as int, x0);
                    off <= k < spec_drawn_cols(widths, off, avail) && min(
                        spec_field(gh, k).len() as int,
                        widths[k] as int,
                    ) <= i < widths[k] as int ==> final(buf).cell(x0 + spec_wsum(widths, off, k) + i, 1)
                        == old(buf).cell(x0 + spec_wsum(widths, off, k) + i, 1)
                }),
            !spec_degenerate(area) ==> forall|r: int, k: int, i: int|
                #![trigger spec_field(self.rows.deep_view()[r], k)[i]]
                ({
                    let gh = self.header.deep_view();
                    let gr = self.rows.deep_view();
                    let widths = spec_widths(gh, gr);
                    let off = old(state).cols_offset as int;
                    let x0 = spec_gutter_width(old(state).rows_offset, gr.len() as u64);
                    let avail = spec_avail(area.width as int, x0);
                    0 <= r < spec_body_rows(gr.len() as int, area.height as int) && off <= k
                        < spec_drawn_cols(widths, off, avail) && 0 <= i < min(
                        spec_field(gr[r], k).len() as int,
                        widths[k] as int,
                    ) ==> final(buf).cell(x0 + spec_wsum(widths, off, k) + i, 3 + r) == (
                    ScreenCell { ch: spec_field(gr[r], k)[i], style: CellStyle::Plain })
                }),
            !spec_degenerate(area) ==> forall|r: int, k: int, i: int|
                #![trigger final(buf).cell(
                    spec_gutter_width(old(state).rows_offset, self.rows.deep_view().len() as u64)
                        + spec_wsum(
                        spec_widths(self.header.deep_view(), self.rows.deep_view()),
                        old(state).cols_offset as int,
                        k,
                    ) + i,
                    3 + r,
                )]
                ({
                    let gh = self.header.deep_view();
                    let gr = self.rows.deep_view();
                    let widths = spec_widths(gh, gr);
                    let off = old(state).cols_offset as int;
                    let x0 = spec_gutter_width(old(state).rows_offset, gr.len() as u64);
                    let avail = spec_avail(area.width as int, x0);
                    0 <= r < spec_body_rows(gr.len() as int, area.height as int) && off <= k
                        < spec_drawn_cols(widths, off, avail) && min(
                        spec_field(gr[r], k).len() as int,
                        widths[k] as int,
                    ) <= i < widths[k] as int ==> final(buf).cell(
                        x0 + spec_wsum(widths, off, k) + i,
                        3 + r,
                    ) == old(buf).cell(x0 + spec_wsum(widths, off, k) + i, 3 + r)
                }),
            !spec_degenerate(area) ==> forall|cx: int, cy: int|
                #![trigger final(buf).cell(cx, cy)]
                0 <= cx < area.width && 0 <= cy < area.height && !spec_frame_touched(
                    self.header.deep_view(),
                    self.rows.deep_view(),
                    old(state).filename@,
                    old(state).cols_offset as int,
                    old(state).rows_offset,
                    area.width as int,
                    area.height as int,
                    cx,
                    cy,
                ) ==> final(buf).cell(cx, cy) == old(buf).cell(cx, cy),
    {
        if area.width == 0 || area.height <= 5 {
            return ;
        }
        let ghost gh = self.header.deep_view();
        let ghost gr = self.rows.deep_view();
        let ghost off = state.cols_offset as int;
        let ghost roff = state.rows_offset;
        let ghost fname = state.filename@;
        let ghost aw = area.width as int;
        let ghost ah = area.height as int;
        let ghost b0 = *buf;
        let column_widths = self.get_column_widths();
        proof {
            assert forall|i: int| 0 <= i < column_widths@.len() implies column_widths@[i]
                == spec_widths(gh, gr)[i] by {
                assert(column_widths@[i] as int == spec_col_width(gh, gr, i));
            }
            assert(column_widths@ =~= spec_widths(gh, gr));
        }
        let ghost widths = column_widths@;
        self.render_header_borders(buf, area);
        let body_h: u16 = area.height - 5;
        let x0 = self.render_row_numbers(buf, state, area, 3, body_h, self.rows.len());
        let ghost x0s = x0 as int;
        let ghost avail = spec_avail(aw, x0s);
        let ghost sep = spec_sep_x(roff, gr.len() as u64);
        let ghost nbs = spec_body_rows(gr.len() as int, ah);
        let ghost exts = x0s + spec_wsum(widths, off, spec_drawn_cols(widths, off, avail));
        proof {
            assert(x0s == spec_gutter_width(roff, gr.len() as u64));
            assert(sep == x0s - 3);
            assert forall|i: int|
                #![trigger spec_decimal(spec_row_number(roff, i as u64) as nat)]
                0 <= i < nbs implies spec_decimal(
                spec_row_number(roff, i as u64) as nat,
            ).len() as int <= sep - 2 by {
                assert(spec_row_number(roff, i as u64) <= spec_row_number(roff, gr.len() as u64));
                lemma_decimal_len_mono(
                    spec_row_number(roff, i as u64) as nat,
                    spec_row_number(roff, gr.len() as u64) as nat,
                );
            }
        }
        let ghost b_gutter = *buf;
        self.render_row(buf, state, &column_widths, area, x0, 1, true, &self.header);
        proof {
            assert((&self.header).deep_view() == gh);
            lemma_drawn_hi_bounds(widths, off, widths.len() as int, avail);
            lemma_wsum_mono(widths, off, off, spec_drawn_cols(widths, off, avail));
            assert forall|k: int, i: int|
                #![trigger buf.cell(x0s + spec_wsum(widths, off, k) + i, 1)]
                off <= k < spec_drawn_cols(widths, off, avail) && min(
                    spec_field(gh, k).len() as int,
                    widths[k] as int,
                ) <= i < widths[k] as int implies buf.cell(x0s + spec_wsum(widths, off, k) + i, 1)
                == b0.cell(x0s + spec_wsum(widths, off, k) + i, 1) by {
                lemma_drawn_pos_in_area(widths, off, widths.len() as int, avail, k, i, x0s, aw);
                let pos = x0s + spec_wsum(widths, off, k) + i;
                assert(buf.cell(pos, 1) == b_gutter.cell(pos, 1));
                assert(b_gutter.cell(pos, 1) == b0.cell(pos, 1));
            }
        }
        let nb: usize = if self.rows.len() < body_h as usize {
            self.rows.len()
        } else {
            body_h as usize
        };
        let mut r: usize = 0;
        while r < nb
            invariant
                buf.wf(),
                buf.width == b0.width,
                buf.height == b0.height,
                area.width <= buf.width,
                area.height <= buf.height,
                aw == area.width as int,
                ah == area.height as int,
                6 <= ah,
                body_h as int == ah - 5,
                nb as int == nbs,
                nbs == spec_body_rows(gr.len() as int, ah),
                nb <= self.rows@.len(),
                0 <= r <= nb,
                gh == self.header.deep_view(),
                gr == self.rows.deep_view(),
                widths == column_widths@,
                widths == spec_widths(gh, gr),
                state.rows_offset == old(state).rows_offset,
                state.cols_offset == old(state).cols_offset,
                state.filename == old(state).filename,
                off == old(state).cols_offset as int,
                roff == old(state).rows_offset,
                fname == old(state).filename@,
                x0s == x0 as int,
                x0s == spec_gutter_width(roff, gr.len() as u64),
                sep == x0s - 3,
                sep == spec_sep_x(roff, gr.len() as u64),
                avail == spec_avail(aw, x0s),
                exts == x0s + spec_wsum(widths, off, spec_drawn_cols(widths, off, avail)),
                x0s <= exts <= aw || (exts == x0s && x0s >= aw),
                forall|i: int|
                    #![trigger spec_decimal(spec_row_number(roff, i as u64) as nat)]
                    0 <= i < nbs ==> spec_decimal(spec_row_number(roff, i as u64) as nat).len()
                        as int <= sep - 2,
                state.more_cols_to_show == spec_row_flag(widths, off, avail),
                forall|cx: int, cy: int|
                    0 <= cx < buf.width && 0 <= cy < buf.height && (cx >= aw || cy >= ah)
                        ==> buf.cell(cx, cy) == b0.cell(cx, cy),
                forall|cx: int, cy: int|
                    #![trigger buf.cell(cx, cy)]
                    0 <= cx < aw && (cy == 0 || cy == 2) ==> buf.cell(cx, cy) == (ScreenCell {
                        ch: '-',
                        style: CellStyle::Dim,
                    }),
                sep < aw ==> forall|cy: int|
                    #![trigger buf.cell(sep, cy)]
                    3 <= cy < ah - 2 ==> buf.cell(sep, cy) == (ScreenCell {
                        ch: '|',
                        style: CellStyle::Dim,
                    }),
                forall|cx: int, cy: int|
                    #![trigger buf.cell(cx, cy)]
                    ({
                        let d = spec_decimal(spec_row_number(roff, (cy - 3) as u64) as nat);
                        3 <= cy < 3 + nbs && 0 <= cx < min(d.len() as int, aw) ==> buf.cell(cx, cy)
                            == (ScreenCell { ch: d[cx], style: CellStyle::Dim })
                    }),
                forall|k: int, i: int|
                    #![trigger spec_field(gh, k)[i]]
                    off <= k < spec_drawn_cols(widths, off, avail) && 0 <= i < min(
                        spec_field(gh, k).len() as int,
                        widths[k] as int,
                    ) ==> buf.cell(x0s + spec_wsum(widths, off, k) + i, 1) == (ScreenCell {
                        ch: spec_field(gh, k)[i],
                        style: CellStyle::Bold,
                    }),
                forall|k: int, i: int|
                    #![trigger buf.cell(x0s + spec_wsum(widths, off, k) + i, 1)]
                    off <= k < spec_drawn_cols(widths, off, avail) && min(
                        spec_field(gh, k).len() as int,
                        widths[k] as int,
                    ) <= i < widths[k] as int ==> buf.cell(x0s + spec_wsum(widths, off, k) + i, 1)
                        == b0.cell(x0s + spec_wsum(widths, off, k) + i, 1),
                forall|rr: int, k: int, i: int|
                    #![trigger spec_field(gr[rr], k)[i]]
                    0 <= rr < r && off <= k < spec_drawn_cols(widths, off, avail) && 0 <= i < min(
                        spec_field(gr[rr], k).len() as int,
                        widths[k] as int,
                    ) ==> buf.cell(x0s + spec_wsum(widths, off, k) + i, 3 + rr) == (ScreenCell {
                        ch: spec_field(gr[rr], k)[i],
                        style: CellStyle::Plain,
                    }),
                forall|rr: int, k: int, i: int|
                    #![trigger buf.cell(x0s + spec_wsum(widths, off, k) + i, 3 + rr)]
                    0 <= rr < r && off <= k < spec_drawn_cols(widths, off, avail) && min(
                        spec_field(gr[rr], k).len() as int,
                        widths[k] as int,
                    ) <= i < widths[k] as int ==> buf.cell(x0s + spec_wsum(widths, off, k) + i, 3 + rr)
                        == b0.cell(x0s + spec_wsum(widths, off, k) + i, 3 + rr),
                forall|cx: int, cy: int|
                    #![trigger buf.cell(cx, cy)]
                    0 <= cx < aw && 0 <= cy < ah && !(cy == 0 || cy == 2) && !(3 <= cy < ah - 2
                        && cx == sep) && !(3 <= cy < 3 + nbs && cx < spec_decimal(
                        spec_row_number(roff, (cy - 3) as u64) as nat,
                    ).len() as int) && !((cy == 1 || 3 <= cy < 3 + r) && x0s <= cx < exts)
                        ==> buf.cell(cx, cy) == b0.cell(cx, cy),
            decreases nb - r,
        {
            let y: u16 = 3 + (r as u16);
            let ghost bprev = *buf;
            self.render_row(buf, state, &column_widths, area, x0, y, false, &self.rows[r]);
            proof {
                let rr0 = r as int;
                assert(self.rows@[rr0].deep_view() == gr[rr0]);
                lemma_drawn_hi_bounds(widths, off, widths.len() as int, avail);
                assert forall|k: int, i: int|
                    #![trigger spec_field(gh, k)[i]]
                    off <= k < spec_drawn_cols(widths, off, avail) && 0 <= i < min(
                        spec_field(gh, k).len() as int,
                        widths[k] as int,
                    ) implies buf.cell(x0s + spec_wsum(widths, off, k) + i, 1) == (ScreenCell {
                    ch: spec_field(gh, k)[i],
                    style: CellStyle::Bold,
                }) by {
                    lemma_drawn_pos_in_area(widths, off, widths.len() as int, avail, k, i, x0s, aw);
                    assert(bprev.cell(x0s + spec_wsum(widths, off, k) + i, 1) == (ScreenCell {
                        ch: spec_field(gh, k)[i],
                        style: CellStyle::Bold,
                    }));
                }
                assert forall|k: int, i: int|
                    #![trigger buf.cell(x0s + spec_wsum(widths, off, k) + i, 1)]
                    off <= k < spec_drawn_cols(widths, off, avail) && min(
                        spec_field(gh, k).len() as int,
                        widths[k] as int,
                    ) <= i < widths[k] as int implies buf.cell(
                    x0s + spec_wsum(widths, off, k) + i,
                    1,
                ) == b0.cell(x0s + spec_wsum(widths, off, k) + i, 1) by {
                    lemma_drawn_pos_in_area(widths, off, widths.len() as int, avail, k, i, x0s, aw);
                    assert(bprev.cell(x0s + spec_wsum(widths, off, k) + i, 1) == b0.cell(
                        x0s + spec_wsum(widths, off, k) + i,
                        1,
                    ));
                }
                assert forall|rr: int, k: int, i: int|
                    #![trigger spec_field(gr[rr], k)[i]]
                    0 <= rr < rr0 + 1 && off <= k < spec_drawn_cols(widths, off, avail) && 0 <= i
                        < min(spec_field(gr[rr], k).len() as int, widths[k] as int) implies buf.cell(
                    x0s + spec_wsum(widths, off, k) + i,
                    3 + rr,
                ) == (ScreenCell { ch: spec_field(gr[rr], k)[i], style: CellStyle::Plain }) by {
                    lemma_drawn_pos_in_area(widths, off, widths.len() as int, avail, k, i, x0s, aw);
                    if rr == rr0 {
                        assert(spec_field(self.rows@[rr0].deep_view(), k)[i] == spec_field(
                            gr[rr],
                            k,
                        )[i]);
                    } else {
                        assert(bprev.cell(x0s + spec_wsum(widths, off, k) + i, 3 + rr) == (
                        ScreenCell { ch: spec_field(gr[rr], k)[i], style: CellStyle::Plain }));
                    }
                }
                assert forall|rr: int, k: int, i: int|
                    #![trigger buf.cell(x0s + spec_wsum(widths, off, k) + i, 3 + rr)]
                    0 <= rr < rr0 + 1 && off <= k < spec_drawn_cols(widths, off, avail) && min(
                        spec_field(gr[rr], k).len() as int,
                        widths[k] as int,
                    ) <= i < widths[k] as int implies buf.cell(
                    x0s + spec_wsum(widths, off, k) + i,
                    3 + rr,
                ) == b0.cell(x0s + spec_wsum(widths, off, k) + i, 3 + rr) by {
                    lemma_drawn_pos_in_area(widths, off, widths.len() as int, avail, k, i, x0s, aw);
                    let pos = x0s + spec_wsum(widths, off, k) + i;
                    if rr == rr0 {
                        assert(spec_field(self.rows@[rr0].deep_view(), k)
                            == spec_field(gr[rr], k));
                        assert(bprev.cell(pos, 3 + rr) == b0.cell(pos, 3 + rr));
                    } else {
                        assert(bprev.cell(pos, 3 + rr) == b0.cell(pos, 3 + rr));
                    }
                }
            }
            r = r + 1;
        }
        let ghost bdone = *buf;
        self.render_status(area, buf, state);
        proof {
            assert forall|k: int, i: int|
                #![trigger spec_field(gh, k)[i]]
                off <= k < spec_drawn_cols(widths, off, avail) && 0 <= i < min(
                    spec_field(gh, k).len() as int,
                    widths[k] as int,
                ) implies buf.cell(x0s + spec_wsum(widths, off, k) + i, 1) == (ScreenCell {
                ch: spec_field(gh, k)[i],
                style: CellStyle::Bold,
            }) by {
                lemma_drawn_pos_in_area(widths, off, widths.len() as int, avail, k, i, x0s, aw);
                assert(bdone.cell(x0s + spec_wsum(widths, off, k) + i, 1) == (ScreenCell {
                    ch: spec_field(gh, k)[i],
                    style: CellStyle::Bold,
                }));
            }
            assert forall|k: int, i: int|
                #![trigger buf.cell(x0s + spec_wsum(widths, off, k) + i, 1)]
                off <= k < spec_drawn_cols(widths, off, avail) && min(
                    spec_field(gh, k).len() as int,
                    widths[k] as int,
                ) <= i < widths[k] as int implies buf.cell(x0s + spec_wsum(widths, off, k) + i, 1)
                == b0.cell(x0s + spec_wsum(widths, off, k) + i, 1) by {
                lemma_drawn_pos_in_area(widths, off, widths.len() as int, avail, k, i, x0s, aw);
                assert(bdone.cell(x0s + spec_wsum(widths, off, k) + i, 1) == b0.cell(
                    x0s + spec_wsum(widths, off, k) + i,
                    1,
                ));
            }
            assert forall|rr: int, k: int, i: int|
                #![trigger spec_field(gr[rr], k)[i]]
                0 <= rr < nbs && off <= k < spec_drawn_cols(widths, off, avail) && 0 <= i < min(
                    spec_field(gr[rr], k).len() as int,
                    widths[k] as int,
                ) implies buf.cell(x0s + spec_wsum(widths, off, k) + i, 3 + rr) == (ScreenCell {
                ch: spec_field(gr[rr], k)[i],
                style: CellStyle::Plain,
            }) by {
                lemma_drawn_pos_in_area(widths, off, widths.len() as int, avail, k, i, x0s, aw);
                assert(bdone.cell(x0s + spec_wsum(widths, off, k) + i, 3 + rr) == (ScreenCell {
                    ch: spec_field(gr[rr], k)[i],
                    style: CellStyle::Plain,
                }));
            }
            assert forall|rr: int, k: int, i: int|
                #![trigger buf.cell(x0s + spec_wsum(widths, off, k) + i, 3 + rr)]
                0 <= rr < nbs && off <= k < spec_drawn_cols(widths, off, avail) && min(
                    spec_field(gr[rr], k).len() as int,
                    widths[k] as int,
                ) <= i < widths[k] as int implies buf.cell(x0s + spec_wsum(widths, off, k) + i, 3 + rr)
                == b0.cell(x0s + spec_wsum(widths, off, k) + i, 3 + rr) by {
                lemma_drawn_pos_in_area(widths, off, widths.len() as int, avail, k, i, x0s, aw);
                assert(bdone.cell(x0s + spec_wsum(widths, off, k) + i, 3 + rr) == b0.cell(
                    x0s + spec_wsum(widths, off, k) + i,
                    3 + rr,
                ));
            }
            assert forall|cx: int, cy: int|
                #![trigger buf.cell(cx, cy)]
                0 <= cx < aw && 0 <= cy < ah && !spec_frame_touched(
                    gh,
                    gr,
                    fname,
                    off,
                    roff,
                    aw,
                    ah,
                    cx,
                    cy,
                ) implies buf.cell(cx, cy) == b0.cell(cx, cy) by {
                assert(bdone.cell(cx, cy) == b0.cell(cx, cy));
            }
        }
    }
}

proof fn lemma_col_max_bounded(rows: Seq<Seq<Seq<char>>>, i: int, upto: int)
    requires
        forall|r: int|
            0 <= r < rows.len() ==> spec_cell_len(rows, r, i) + COLUMN_PADDING as int <= u16::MAX
                as int,
        upto <= rows.len(),
    ensures
        spec_col_max(rows, i, upto) + COLUMN_PADDING as int <= u16::MAX as int,
    decreases upto,
{
    if upto > 0 {
        lemma_col_max_bounded(rows, i, upto - 1);
    }
}

} // verus!
