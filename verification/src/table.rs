//! The table renderer: column widths, gutter, header and data rows, status
//! line and borders, painted as one frame.

use vstd::prelude::*;
use vstd::string::StrSliceExecFns;
use crate::style::{Cell, Style, mk_cell, border_style, bold_style, plain_style, status_style,
    highlight_style, highlight_current_style};
use crate::grid::{Grid, Region, overlay, text_patch, hline_patch, vline_patch, cell_patch,
    lemma_overlay_overlay, lemma_overlay_empty, lemma_union_assoc, lemma_overlay_idempotent};
use crate::text::{styled, styled_cells, chars_of, dec_of, u64_dec, lemma_dec_of_len_u64, hl_cells,
    contains_seq, contains_chars, highlight_cells, cell_chars};
use crate::finder::{FinderState, FinderActiveState};
use crate::state::{CsvTableState, BordersState, status_content, status_text};

verus! {

/// The header and the window of rows visible this frame.
pub struct CsvTable<'a> {
    pub header: Vec<String>,
    pub rows: &'a [Vec<String>],
}

impl<'a> CsvTable<'a> {
    pub fn new(header: &[String], rows: &'a [Vec<String>]) -> (r: CsvTable<'a>)
        ensures
            r.header@ == header@,
            r.header.deep_view() == header.deep_view(),
            r.rows.deep_view() == rows.deep_view(),
            r.rows@ == rows@,
    {
        let mut h: Vec<String> = Vec::new();
        let n = header.len();
        let mut i: usize = 0;
        while i < n
            invariant
                i <= n,
                n == header@.len(),
                h@.len() == i,
                forall|k: int| 0 <= k < i ==> h@[k] == header@[k],
            decreases n - i,
        {
            h.push(header[i].clone());
            i = i + 1;
        }
        proof {
            assert(h@ =~= header@);
            assert(h.deep_view() =~~= header.deep_view());
        }
        CsvTable { header: h, rows }
    }
}

/// The widest cell of column `i` over the visible rows; rows too short to
/// reach column `i` do not count.
pub open spec fn col_max(rows: Seq<Seq<Seq<char>>>, i: int) -> int
    decreases rows.len(),
{
    if rows.len() == 0 {
        0
    } else {
        let prev = col_max(rows.drop_last(), i);
        let last = rows.last();
        if 0 <= i < last.len() && last[i].len() > prev {
            last[i].len() as int
        } else {
            prev
        }
    }
}

/// The rendering width of column `i`: the longest of the header cell and
/// every visible cell, plus 4 cells of padding.
pub open spec fn width_spec(header: Seq<Seq<char>>, rows: Seq<Seq<Seq<char>>>, i: int) -> int {
    let m = col_max(rows, i);
    if header[i].len() >= m {
        header[i].len() as int + 4
    } else {
        m + 4
    }
}

/// All widths at once.
pub open spec fn widths_seq(header: Seq<Seq<char>>, rows: Seq<Seq<Seq<char>>>) -> Seq<u16> {
    Seq::new(header.len(), |i: int| width_spec(header, rows, i) as u16)
}

/// Machine limit: every rendered width must fit a 16-bit coordinate.
pub open spec fn widths_fit(header: Seq<Seq<char>>, rows: Seq<Seq<Seq<char>>>) -> bool {
    (forall|i: int| 0 <= i < header.len() ==> #[trigger] header[i].len() + 4 <= u16::MAX)
        && (forall|j: int, i: int|
        0 <= j < rows.len() && 0 <= i < rows[j].len() && i < header.len()
            ==> #[trigger] rows[j][i].len() + 4 <= u16::MAX)
}

/// A column's running maximum never exceeds a bound that every counted cell
/// respects.
proof fn lemma_col_max_bound(rows: Seq<Seq<Seq<char>>>, i: int, b: int)
    requires
        b >= 0,
        forall|j: int| 0 <= j < rows.len() && 0 <= i < rows[j].len() ==> #[trigger] rows[j][i].len() <= b,
    ensures
        0 <= col_max(rows, i) <= b,
    decreases rows.len(),
{
    if rows.len() > 0 {
        assert(rows.last() == rows[rows.len() - 1]);
        lemma_col_max_bound(rows.drop_last(), i, b);
    }
}

/// The running maximum is at least every counted cell.
proof fn lemma_col_max_ge(rows: Seq<Seq<Seq<char>>>, i: int, j: int)
    requires
        0 <= j < rows.len(),
        0 <= i < rows[j].len(),
    ensures
        col_max(rows, i) >= rows[j][i].len(),
    decreases rows.len(),
{
    if j == rows.len() - 1 {
        assert(rows.last() == rows[j]);
    } else {
        lemma_col_max_ge(rows.drop_last(), i, j);
        assert(rows.drop_last()[j] == rows[j]);
    }
}

/// Law: each computed width covers the header cell and every visible cell
/// of its column, with 4 cells of padding on top.
pub proof fn lemma_width_lower_bound(header: Seq<Seq<char>>, rows: Seq<Seq<Seq<char>>>, i: int)
    requires
        0 <= i < header.len(),
    ensures
        width_spec(header, rows, i) >= header[i].len() + 4,
        forall|j: int|
            0 <= j < rows.len() && 0 <= i < rows[j].len() ==> width_spec(header, rows, i)
                >= #[trigger] rows[j][i].len() + 4,
{
    assert forall|j: int| 0 <= j < rows.len() && 0 <= i < rows[j].len() implies width_spec(
        header,
        rows,
        i,
    ) >= rows[j][i].len() + 4 by {
        lemma_col_max_ge(rows, i, j);
    }
}

impl<'a> CsvTable<'a> {
    /// One rendering width per header column, from the header and the
    /// visible rows alone.
    pub fn get_column_widths(&self) -> (r: Vec<u16>)
        requires
            widths_fit(self.header.deep_view(), self.rows.deep_view()),
        ensures
            r@ == widths_seq(self.header.deep_view(), self.rows.deep_view()),
            r@.len() == self.header@.len(),
    {
        let ghost hd = self.header.deep_view();
        let ghost rd = self.rows.deep_view();
        let nw = self.header.len();
        let mut widths: Vec<u16> = Vec::new();
        let mut i: usize = 0;
        while i < nw
            invariant
                i <= nw,
                nw == hd.len(),
                hd == self.header.deep_view(),
                widths@.len() == i,
                forall|k: int| 0 <= k < i ==> widths@[k] == hd[k].len(),
                widths_fit(hd, rd),
            decreases nw - i,
        {
            proof {
                assert(hd[i as int] == self.header@[i as int]@);
            }
            let len = self.header[i].as_str().unicode_len();
            widths.push(len as u16);
            i = i + 1;
        }
        let nr = self.rows.len();
        let mut j: usize = 0;
        while j < nr
            invariant
                j <= nr,
                nr == rd.len(),
                nw == hd.len(),
                hd == self.header.deep_view(),
                rd == self.rows.deep_view(),
                widths@.len() == nw,
                widths_fit(hd, rd),
                forall|k: int|
                    0 <= k < nw ==> #[trigger] widths@[k] == (if hd[k].len() >= col_max(
                        rd.take(j as int),
                        k,
                    ) {
                        hd[k].len() as int
                    } else {
                        col_max(rd.take(j as int), k)
                    }),
            decreases nr - j,
        {
            let row = &self.rows[j];
            let rl = row.len();
            let cap = if rl < nw {
                rl
            } else {
                nw
            };
            let mut i2: usize = 0;
            while i2 < cap
                invariant
                    i2 <= cap,
                    0 <= j < nr,
                    cap == (if rl < nw { rl as int } else { nw as int }),
                    rl == rd[j as int].len(),
                    row.deep_view() == rd[j as int],
                    row@.len() == rl,
                    nr == rd.len(),
                    nw == hd.len(),
                    hd == self.header.deep_view(),
                    rd == self.rows.deep_view(),
                    widths@.len() == nw,
                    widths_fit(hd, rd),
                    forall|k: int|
                        i2 <= k < nw ==> #[trigger] widths@[k] == (if hd[k].len() >= col_max(
                            rd.take(j as int),
                            k,
                        ) {
                            hd[k].len() as int
                        } else {
                            col_max(rd.take(j as int), k)
                        }),
                    forall|k: int|
                        0 <= k < i2 ==> #[trigger] widths@[k] == (if hd[k].len() >= col_max(
                            rd.take(j + 1),
                            k,
                        ) {
                            hd[k].len() as int
                        } else {
                            col_max(rd.take(j + 1), k)
                        }),
                decreases cap - i2,
            {
                proof {
                    assert(rd[j as int][i2 as int] == row@[i2 as int]@);
                    assert(rd.take(j + 1).drop_last() =~= rd.take(j as int));
                    assert(rd.take(j + 1).last() == rd[j as int]);
                    lemma_col_max_bound(rd.take(j as int), i2 as int, u16::MAX - 4);
                }
                let value_len_usize = row[i2].as_str().unicode_len();
                let value_len = value_len_usize as u16;
                if widths[i2] < value_len {
                    widths.set(i2, value_len);
                }
                i2 = i2 + 1;
            }
            proof {
                assert(rd.take(j + 1).drop_last() =~= rd.take(j as int));
                assert(rd.take(j + 1).last() == rd[j as int]);
                assert forall|k: int| cap <= k < nw implies col_max(rd.take(j + 1), k) == col_max(
                    rd.take(j as int),
                    k,
                ) by {}
            }
            j = j + 1;
        }
        proof {
            assert(rd.take(nr as int) =~= rd);
        }
        let mut i3: usize = 0;
        while i3 < nw
            invariant
                i3 <= nw,
                nw == hd.len(),
                hd == self.header.deep_view(),
                rd == self.rows.deep_view(),
                widths@.len() == nw,
                widths_fit(hd, rd),
                forall|k: int|
                    i3 <= k < nw ==> #[trigger] widths@[k] == (if hd[k].len() >= col_max(rd, k) {
                        hd[k].len() as int
                    } else {
                        col_max(rd, k)
                    }),
                forall|k: int| 0 <= k < i3 ==> #[trigger] widths@[k] == width_spec(hd, rd, k),
            decreases nw - i3,
        {
            proof {
                lemma_col_max_bound(rd, i3 as int, u16::MAX - 4);
            }
            let w0 = widths[i3];
            widths.set(i3, w0 + 4);
            i3 = i3 + 1;
        }
        proof {
            assert(widths@ =~= widths_seq(hd, rd));
        }
        widths
    }
}

/// The muted horizontal-rule cell.
pub open spec fn border_hcell() -> Cell {
    mk_cell('\u{2500}', border_style())
}

/// The muted vertical-rule cell.
pub open spec fn border_vcell() -> Cell {
    mk_cell('\u{2502}', border_style())
}

/// The patch of the two horizontal rules around the header band.
pub open spec fn header_borders_patch(w: int, h: int, aw: int) -> Map<int, Cell> {
    hline_patch(w, h, 0, 0, aw, border_hcell()).union_prefer_right(
        hline_patch(w, h, 0, 2, aw, border_hcell()),
    )
}

/// How many of `len` rows get a gutter number and a painted row: always the
/// first one, then one per grid row down to the area's bottom.
pub open spec fn rows_shown(area: Region, len: int) -> int {
    let cap = area.spec_bottom() - area.y;
    if len <= 0 {
        0
    } else if cap < 1 {
        1
    } else if len <= cap {
        len
    } else {
        cap
    }
}

/// The number of decimal digits of the largest row number this window could
/// show; the gutter's text width.
pub open spec fn gutter_digits(off: u64, len: int) -> int {
    dec_of((off + len + 1) as nat).len() as int
}

/// The patch of the first `k` gutter numbers, each at most `sw` cells wide.
pub open spec fn gutter_patch(w: int, h: int, ay: int, off: u64, sw: int, k: int) -> Map<int, Cell>
    decreases k,
{
    if k <= 0 {
        Map::empty()
    } else {
        gutter_patch(w, h, ay, off, sw, k - 1).union_prefer_right(
            text_patch(w, h, 0, ay + (k - 1), styled(dec_of((off + k) as nat), border_style()), sw),
        )
    }
}

impl<'a> CsvTable<'a> {
    /// Draw the horizontal rules above and below the header band; return the
    /// y-coordinates of the header text row and of the first data row.
    pub fn render_header_borders(&self, grid: &mut Grid, area: Region) -> (r: (u16, u16))
        requires
            old(grid).wf(),
        ensures
            final(grid).wf(),
            final(grid).width == old(grid).width,
            final(grid).height == old(grid).height,
            final(grid).cells@ == overlay(
                old(grid).cells@,
                header_borders_patch(
                    old(grid).width as int,
                    old(grid).height as int,
                    area.width as int,
                ),
            ),
            r == (1u16, 3u16),
    {
        let ghost s0 = grid.cells@;
        let ghost w = grid.width as int;
        let ghost h = grid.height as int;
        let c = Cell { ch: '\u{2500}', style: Style::border() };
        grid.paint_hline(0, 0, area.width, c);
        grid.paint_hline(0, 2, area.width, c);
        proof {
            lemma_overlay_overlay(
                s0,
                hline_patch(w, h, 0, 0, area.width as int, border_hcell()),
                hline_patch(w, h, 0, 2, area.width as int, border_hcell()),
            );
        }
        (1, 3)
    }

    /// Draw the 1-based row numbers of the visible window into the left
    /// gutter, record the border anchor, and return the x-coordinate where
    /// the first column begins.
    pub fn render_row_numbers(
        &self,
        grid: &mut Grid,
        state: &mut CsvTableState,
        area: Region,
        num_rows: usize,
    ) -> (r: u16)
        requires
            old(grid).wf(),
            old(state).rows_offset + num_rows + 1 <= u64::MAX,
        ensures
            final(grid).wf(),
            final(grid).width == old(grid).width,
            final(grid).height == old(grid).height,
            final(grid).cells@ == overlay(
                old(grid).cells@,
                gutter_patch(
                    old(grid).width as int,
                    old(grid).height as int,
                    area.y as int,
                    old(state).rows_offset,
                    gutter_digits(old(state).rows_offset, num_rows as int),
                    rows_shown(area, num_rows as int),
                ),
            ),
            (*final(state) == CsvTableState {
                borders_state: Some(
                    BordersState {
                        x_row_separator: (gutter_digits(old(state).rows_offset, num_rows as int)
                            + 3) as u16,
                        y_first_record: area.y,
                    },
                ),
                ..*old(state)
            }),
            r == gutter_digits(old(state).rows_offset, num_rows as int) + 5,
    {
        let ghost s0 = grid.cells@;
        let ghost w = grid.width as int;
        let ghost h = grid.height as int;
        let off = state.rows_offset;
        let max_row_num: u64 = off + num_rows as u64 + 1;
        let maxstr = u64_dec(max_row_num);
        proof {
            lemma_dec_of_len_u64(max_row_num);
        }
        let dc_usize = maxstr.as_str().unicode_len();
        let dc: u16 = dc_usize as u16;
        let bottomv = area.bottom();
        let cap: u16 = if bottomv > area.y {
            bottomv - area.y
        } else {
            0
        };
        let n_shown: usize = if num_rows == 0 {
            0
        } else if cap < 1 {
            1
        } else if num_rows <= cap as usize {
            num_rows
        } else {
            cap as usize
        };
        proof {
            assert(n_shown == rows_shown(area, num_rows as int));
        }
        let mut i: usize = 0;
        while i < n_shown
            invariant
                i <= n_shown,
                n_shown == rows_shown(area, num_rows as int),
                n_shown <= num_rows,
                n_shown >= 1 ==> area.y + n_shown - 1 <= u16::MAX,
                dc as int == gutter_digits(off, num_rows as int),
                off == state.rows_offset,
                off + num_rows + 1 <= u64::MAX,
                grid.wf(),
                grid.width == w,
                grid.height == h,
                grid.cells@ == overlay(s0, gutter_patch(w, h, area.y as int, off, dc as int, i as int)),
            decreases n_shown - i,
        {
            let row_num: u64 = off + i as u64 + 1;
            let numstr = u64_dec(row_num);
            let cells = styled_cells(numstr.as_str(), Style::border());
            let y: u16 = area.y + i as u16;
            let ghost acc = gutter_patch(w, h, area.y as int, off, dc as int, i as int);
            grid.paint_text(0, y, &cells, dc);
            proof {
                lemma_overlay_overlay(
                    s0,
                    acc,
                    text_patch(w, h, 0, y as int, cells@, dc as int),
                );
            }
            i = i + 1;
        }
        state.borders_state = Some(BordersState { x_row_separator: dc + 3, y_first_record: area.y });
        dc + 5
    }
}

/// The smaller of two counts: how many (cell, width) pairs a row walk sees.
pub open spec fn pair_count(a: int, b: int) -> int {
    if a <= b {
        a
    } else {
        b
    }
}

/// The horizontal space left of `aw` after column `x`.
pub open spec fn avail_of(aw: int, x: int) -> int {
    if x <= aw {
        aw - x
    } else {
        0
    }
}

/// The total width of `k` columns starting at `c0`.
pub open spec fn sum_widths(widths: Seq<u16>, c0: int, k: int) -> int
    decreases k,
{
    if k <= 0 {
        0
    } else {
        sum_widths(widths, c0, k - 1) + widths[c0 + k - 1]
    }
}

/// How many columns, walking right from `c0` among the first `n`, fit whole
/// into `avail` cells: painting stops at the first column that does not fit.
pub open spec fn painted_cols(widths: Seq<u16>, n: int, c0: int, avail: int) -> int
    decreases n - c0,
{
    if c0 < 0 || c0 >= n {
        0
    } else if widths[c0] > avail {
        0
    } else {
        1 + painted_cols(widths, n, c0 + 1, avail - widths[c0])
    }
}

proof fn lemma_sum_widths_shift(widths: Seq<u16>, c0: int, k: int)
    requires
        k >= 0,
    ensures
        sum_widths(widths, c0, k + 1) == widths[c0] + sum_widths(widths, c0 + 1, k),
    decreases k,
{
    if k == 0 {
        assert(sum_widths(widths, c0, 1) == sum_widths(widths, c0, 0) + widths[c0]);
        assert(sum_widths(widths, c0 + 1, 0) == 0);
    } else {
        lemma_sum_widths_shift(widths, c0, k - 1);
        assert(sum_widths(widths, c0, k + 1) == sum_widths(widths, c0, k) + widths[c0 + k]);
        assert(sum_widths(widths, c0 + 1, k) == sum_widths(widths, c0 + 1, k - 1) + widths[c0 + 1
            + k - 1]);
    }
}

/// Law: the columns actually painted always fit the available space whole,
/// and painting stops for want of width exactly when a wider column is next.
pub proof fn lemma_no_overflow_painting(widths: Seq<u16>, n: int, c0: int, avail: int)
    requires
        avail >= 0,
    ensures
        0 <= painted_cols(widths, n, c0, avail),
        c0 >= 0 ==> c0 + painted_cols(widths, n, c0, avail) <= (if c0 <= n { n } else { c0 }),
        sum_widths(widths, c0, painted_cols(widths, n, c0, avail)) <= avail,
        c0 >= 0 && c0 + painted_cols(widths, n, c0, avail) < n ==> widths[c0 + painted_cols(
            widths,
            n,
            c0,
            avail,
        )] > avail - sum_widths(widths, c0, painted_cols(widths, n, c0, avail)),
    decreases n - c0,
{
    let p = painted_cols(widths, n, c0, avail);
    if c0 < 0 || c0 >= n {
    } else if widths[c0] > avail {
    } else {
        lemma_no_overflow_painting(widths, n, c0 + 1, avail - widths[c0]);
        lemma_sum_widths_shift(widths, c0, p - 1);
    }
}

/// Is `(row_index, col)` the search engine's currently focused match?
pub open spec fn is_current_match(a: FinderActiveState, row_index: Option<usize>, col: usize) -> bool {
    match a.found_record {
        Some(fr) => match row_index {
            Some(r) => fr.row_index == r && (exists|k: int|
                0 <= k < fr.column_indices@.len() && fr.column_indices@[k] == col),
            None => false,
        },
        None => false,
    }
}

/// How one cell's text is rendered: bold for the header; highlighted spans
/// when a search is active and the text contains its target, with the
/// focused match's background when this is the focused cell; plain
/// otherwise.
pub open spec fn rendered_cell_text(
    text: Seq<char>,
    fs: FinderState,
    row_index: Option<usize>,
    col: usize,
    is_header: bool,
) -> Seq<Cell> {
    let base = if is_header {
        bold_style()
    } else {
        plain_style()
    };
    match fs {
        FinderState::FinderActive(a) => {
            if a.target@.len() > 0 && contains_seq(text, a.target@) {
                let hl = if is_current_match(a, row_index, col) {
                    highlight_current_style()
                } else {
                    highlight_style()
                };
                hl_cells(text, a.target@, base, hl)
            } else {
                styled(text, base)
            }
        },
        FinderState::FinderInactive => styled(text, base),
    }
}

/// The patch of the first `k` painted columns of one row, walking right
/// from column `c0` with the row text starting at `x`.
pub open spec fn row_patch(
    w: int,
    h: int,
    widths: Seq<u16>,
    row: Seq<Seq<char>>,
    fs: FinderState,
    row_index: Option<usize>,
    is_header: bool,
    c0: int,
    x: int,
    y: int,
    k: int,
) -> Map<int, Cell>
    decreases k,
{
    if k <= 0 {
        Map::empty()
    } else {
        row_patch(w, h, widths, row, fs, row_index, is_header, c0, x, y, k - 1).union_prefer_right(
            text_patch(
                w,
                h,
                x + sum_widths(widths, c0, k - 1),
                y,
                rendered_cell_text(row[c0 + k - 1], fs, row_index, (c0 + k - 1) as usize, is_header),
                widths[c0 + k - 1] as int,
            ),
        )
    }
}

fn vec_contains_usize(v: &Vec<usize>, x: usize) -> (r: bool)
    ensures
        r == (exists|k: int| 0 <= k < v@.len() && v@[k] == x),
{
    let n = v.len();
    let mut i: usize = 0;
    while i < n
        invariant
            i <= n,
            n == v@.len(),
            forall|k: int| 0 <= k < i ==> v@[k] != x,
        decreases n - i,
    {
        if v[i] == x {
            return true;
        }
        i = i + 1;
    }
    false
}

/// Render one cell's text as styled grid cells, as `rendered_cell_text`
/// says.
fn render_cell_text(
    text: &String,
    fs: &FinderState,
    row_index: Option<usize>,
    col: usize,
    is_header: bool,
) -> (r: Vec<Cell>)
    ensures
        r@ == rendered_cell_text(text@, *fs, row_index, col, is_header),
{
    let base = if is_header {
        Style::bold()
    } else {
        Style::plain()
    };
    match fs {
        FinderState::FinderInactive => styled_cells(text.as_str(), base),
        FinderState::FinderActive(a) => {
            let tv = chars_of(text.as_str());
            let pv = chars_of(a.target.as_str());
            if pv.len() > 0 && contains_chars(&tv, &pv) {
                let mut hl = Style::highlight();
                let mut current = false;
                match &a.found_record {
                    Some(fr) => {
                        match row_index {
                            Some(ri) => {
                                if ri == fr.row_index && vec_contains_usize(&fr.column_indices, col)
                                {
                                    current = true;
                                }
                            },
                            None => {},
                        }
                    },
                    None => {},
                }
                if current {
                    hl = Style::highlight_current();
                }
                proof {
                    assert(current == is_current_match(*a, row_index, col));
                }
                highlight_cells(&tv, &pv, base, hl)
            } else {
                styled_cells(text.as_str(), base)
            }
        },
    }
}

impl<'a> CsvTable<'a> {
    /// Paint one row (the header or a data row): whole columns left to
    /// right from the column offset, stopping at the first that does not
    /// fit; record how many fit and whether one was left over.
    pub fn render_row(
        &self,
        grid: &mut Grid,
        state: &mut CsvTableState,
        column_widths: &Vec<u16>,
        area: Region,
        x: u16,
        y: u16,
        is_header: bool,
        row: &Vec<String>,
        row_index: Option<usize>,
    )
        requires
            old(grid).wf(),
            old(state).cols_offset <= usize::MAX,
        ensures
            final(grid).wf(),
            final(grid).width == old(grid).width,
            final(grid).height == old(grid).height,
            final(grid).cells@ == overlay(
                old(grid).cells@,
                row_patch(
                    old(grid).width as int,
                    old(grid).height as int,
                    column_widths@,
                    row.deep_view(),
                    old(state).finder_state,
                    row_index,
                    is_header,
                    old(state).cols_offset as int,
                    x as int,
                    y as int,
                    painted_cols(
                        column_widths@,
                        pair_count(row.deep_view().len() as int, column_widths@.len() as int),
                        old(state).cols_offset as int,
                        avail_of(area.width as int, x as int),
                    ),
                ),
            ),
            (*final(state) == CsvTableState {
                num_cols_rendered: painted_cols(
                    column_widths@,
                    pair_count(row.deep_view().len() as int, column_widths@.len() as int),
                    old(state).cols_offset as int,
                    avail_of(area.width as int, x as int),
                ) as u64,
                more_cols_to_show: old(state).cols_offset + painted_cols(
                    column_widths@,
                    pair_count(row.deep_view().len() as int, column_widths@.len() as int),
                    old(state).cols_offset as int,
                    avail_of(area.width as int, x as int),
                ) < pair_count(row.deep_view().len() as int, column_widths@.len() as int),
                ..*old(state)
            }),
            sum_widths(
                column_widths@,
                old(state).cols_offset as int,
                painted_cols(
                    column_widths@,
                    pair_count(row.deep_view().len() as int, column_widths@.len() as int),
                    old(state).cols_offset as int,
                    avail_of(area.width as int, x as int),
                ),
            ) <= avail_of(area.width as int, x as int),
    {
        let ghost s0 = grid.cells@;
        let ghost w = grid.width as int;
        let ghost h = grid.height as int;
        let ghost widths = column_widths@;
        let ghost rowv = row.deep_view();
        let ghost fs = old(state).finder_state;
        let c0: usize = state.cols_offset as usize;
        let rl = row.len();
        let wl = column_widths.len();
        let n: usize = if rl <= wl {
            rl
        } else {
            wl
        };
        let aw = area.width;
        let avail: u16 = if x <= aw {
            aw - x
        } else {
            0
        };
        let mut remaining: u16 = avail;
        let mut x_off: u16 = x;
        let mut stopped = false;
        let mut k: usize = 0;
        let mut ci: usize = c0;
        proof {
            assert(rowv.len() == row@.len());
        }
        while ci < n && !stopped
            invariant
                ci == c0 + k,
                c0 == old(state).cols_offset,
                n == pair_count(rowv.len() as int, widths.len() as int),
                n <= rl <= row@.len(),
                n <= wl == widths.len(),
                rowv == row.deep_view(),
                widths == column_widths@,
                avail == avail_of(area.width as int, x as int),
                remaining as int == avail - sum_widths(widths, c0 as int, k as int),
                x_off as int == x + sum_widths(widths, c0 as int, k as int),
                x_off as int <= (if x <= area.width { area.width as int } else { x as int }),
                painted_cols(widths, n as int, c0 as int, avail as int) == k + painted_cols(
                    widths,
                    n as int,
                    ci as int,
                    remaining as int,
                ),
                stopped ==> ci < n && widths[ci as int] > remaining,
                *state == *old(state),
                fs == state.finder_state,
                grid.wf(),
                grid.width == w,
                grid.height == h,
                grid.cells@ == overlay(
                    s0,
                    row_patch(
                        w,
                        h,
                        widths,
                        rowv,
                        fs,
                        row_index,
                        is_header,
                        c0 as int,
                        x as int,
                        y as int,
                        k as int,
                    ),
                ),
            decreases n - ci, (if stopped { 0int } else { 1int }),
        {
            let hlen = column_widths[ci];
            if remaining < hlen {
                stopped = true;
            } else {
                proof {
                    assert(rowv[ci as int] == row@[ci as int]@);
                }
                let cells = render_cell_text(&row[ci], &state.finder_state, row_index, ci, is_header);
                let ghost acc = row_patch(
                    w,
                    h,
                    widths,
                    rowv,
                    fs,
                    row_index,
                    is_header,
                    c0 as int,
                    x as int,
                    y as int,
                    k as int,
                );
                grid.paint_text(x_off, y, &cells, hlen);
                proof {
                    lemma_overlay_overlay(
                        s0,
                        acc,
                        text_patch(w, h, x_off as int, y as int, cells@, hlen as int),
                    );
                }
                x_off = x_off + hlen;
                remaining = remaining - hlen;
                k = k + 1;
                ci = ci + 1;
            }
        }
        proof {
            if stopped {
                assert(painted_cols(widths, n as int, ci as int, remaining as int) == 0);
            } else {
                assert(ci >= n);
                assert(painted_cols(widths, n as int, ci as int, remaining as int) == 0);
            }
            assert(painted_cols(widths, n as int, c0 as int, avail as int) == k as int);
        }
        state.set_num_cols_rendered(k as u64);
        state.set_more_cols_to_show(stopped);
    }
}

/// The y-coordinate of the status text: the last row of its band.
pub open spec fn status_y(area: Region) -> int {
    if area.spec_bottom() >= 1 {
        area.spec_bottom() - 1
    } else {
        0
    }
}

/// The patch the status line makes.
pub open spec fn status_patch(w: int, h: int, area: Region, st: CsvTableState) -> Map<int, Cell> {
    text_patch(
        w,
        h,
        area.x as int,
        status_y(area),
        styled(status_content(st), status_style()),
        area.width as int,
    )
}

/// The patch of the gutter rule, the status separator, and their two
/// intersection glyphs; empty when no border anchor was recorded.
pub open spec fn other_borders_patch(w: int, h: int, area: Region, bs: Option<BordersState>) -> Map<
    int,
    Cell,
> {
    match bs {
        None => Map::empty(),
        Some(b) => {
            let sw = b.x_row_separator as int;
            let yf = b.y_first_record as int;
            let ys = if yf + area.height <= u16::MAX {
                yf + area.height
            } else {
                u16::MAX as int
            };
            vline_patch(w, h, sw - 1, yf, area.height as int, border_vcell()).union_prefer_right(
                cell_patch(w, h, sw - 1, yf - 1, mk_cell('\u{252C}', border_style())),
            ).union_prefer_right(
                hline_patch(w, h, 0, ys, area.width as int, border_hcell()),
            ).union_prefer_right(cell_patch(w, h, sw - 1, ys, mk_cell('\u{2534}', border_style())))
        },
    }
}

impl<'a> CsvTable<'a> {
    /// Paint the status text into the last row of the status band; the
    /// state is only read.
    pub fn render_status(&self, area: Region, grid: &mut Grid, state: &mut CsvTableState)
        requires
            old(grid).wf(),
            old(state).wf(),
        ensures
            final(grid).wf(),
            final(grid).width == old(grid).width,
            final(grid).height == old(grid).height,
            *final(state) == *old(state),
            final(grid).cells@ == overlay(
                old(grid).cells@,
                status_patch(old(grid).width as int, old(grid).height as int, area, *old(state)),
            ),
    {
        let content = status_text(state);
        let cells = styled_cells(content.as_str(), Style::status());
        let yb = area.bottom();
        let y: u16 = if yb >= 1 {
            yb - 1
        } else {
            0
        };
        grid.paint_text(area.x, y, &cells, area.width);
    }

    /// Paint the vertical gutter rule, the status separator, and the two
    /// glyphs where they meet the horizontal rules; a no-op when the gutter
    /// was never rendered this frame.
    pub fn render_other_borders(&self, grid: &mut Grid, area: Region, state: &CsvTableState)
        requires
            old(grid).wf(),
        ensures
            final(grid).wf(),
            final(grid).width == old(grid).width,
            final(grid).height == old(grid).height,
            final(grid).cells@ == overlay(
                old(grid).cells@,
                other_borders_patch(
                    old(grid).width as int,
                    old(grid).height as int,
                    area,
                    state.borders_state,
                ),
            ),
    {
        let ghost s0 = grid.cells@;
        let ghost w = grid.width as int;
        let ghost h = grid.height as int;
        match &state.borders_state {
            None => {
                proof {
                    lemma_overlay_empty(s0);
                }
            },
            Some(b) => {
                let sw = b.x_row_separator;
                let yf = b.y_first_record;
                let ghost p1 = vline_patch(w, h, sw - 1, yf as int, area.height as int, border_vcell());
                let ghost p2 = cell_patch(
                    w,
                    h,
                    sw - 1,
                    yf - 1,
                    mk_cell('\u{252C}', border_style()),
                );
                if sw >= 1 {
                    grid.paint_vline(sw - 1, yf, area.height, Cell { ch: '\u{2502}', style: Style::border() });
                } else {
                    proof {
                        assert(grid.cells@ =~= overlay(s0, p1));
                    }
                }
                let ghost s1 = grid.cells@;
                if sw >= 1 && yf >= 1 {
                    grid.paint_cell(sw - 1, yf - 1, Cell { ch: '\u{252C}', style: Style::border() });
                } else {
                    proof {
                        assert(grid.cells@ =~= overlay(s1, p2));
                    }
                }
                proof {
                    lemma_overlay_overlay(s0, p1, p2);
                }
                let ys: u16 = if area.height <= u16::MAX - yf {
                    yf + area.height
                } else {
                    u16::MAX
                };
                let ghost p3 = hline_patch(w, h, 0, ys as int, area.width as int, border_hcell());
                let ghost p4 = cell_patch(w, h, sw - 1, ys as int, mk_cell('\u{2534}', border_style()));
                let ghost s2 = grid.cells@;
                grid.paint_hline(0, ys, area.width, Cell { ch: '\u{2500}', style: Style::border() });
                proof {
                    lemma_overlay_overlay(s0, p1.union_prefer_right(p2), p3);
                }
                let ghost s3 = grid.cells@;
                if sw >= 1 {
                    grid.paint_cell(sw - 1, ys, Cell { ch: '\u{2534}', style: Style::border() });
                } else {
                    proof {
                        assert(grid.cells@ =~= overlay(s3, p4));
                    }
                }
                proof {
                    lemma_overlay_overlay(s0, p1.union_prefer_right(p2).union_prefer_right(p3), p4);
                }
            },
        }
    }
}

/// The band of the viewport the gutter and data rows share.
pub open spec fn spec_rows_area(area: Region) -> Region {
    Region {
        x: area.x,
        y: 3,
        width: area.width,
        height: (if area.height >= 5 {
            area.height - 5
        } else {
            0
        }) as u16,
    }
}

/// The status band: the bottom two rows of the viewport.
pub open spec fn spec_status_area(area: Region) -> Region {
    Region {
        x: area.x,
        y: (if area.spec_bottom() >= 2 {
            area.spec_bottom() - 2
        } else {
            0
        }) as u16,
        width: area.width,
        height: 2,
    }
}

/// The patch of the first `k` painted data rows.
pub open spec fn data_rows_patch(
    w: int,
    h: int,
    widths: Seq<u16>,
    rows: Seq<Seq<Seq<char>>>,
    fs: FinderState,
    off: u64,
    c0: int,
    x: int,
    avail: int,
    k: int,
) -> Map<int, Cell>
    decreases k,
{
    if k <= 0 {
        Map::empty()
    } else {
        data_rows_patch(w, h, widths, rows, fs, off, c0, x, avail, k - 1).union_prefer_right(
            row_patch(
                w,
                h,
                widths,
                rows[k - 1],
                fs,
                Some((off + k - 1) as usize),
                false,
                c0,
                x,
                3 + (k - 1),
                painted_cols(
                    widths,
                    pair_count(rows[k - 1].len() as int, widths.len() as int),
                    c0,
                    avail,
                ),
            ),
        )
    }
}

/// The row whose walk decided the frame's column outputs: the last painted
/// data row, or the header when no data row was painted.
pub open spec fn frame_last_row(
    header: Seq<Seq<char>>,
    rows: Seq<Seq<Seq<char>>>,
    area: Region,
) -> Seq<Seq<char>> {
    let nsh = rows_shown(spec_rows_area(area), rows.len() as int);
    if nsh == 0 {
        header
    } else {
        rows[nsh - 1]
    }
}

/// How many columns the frame reports as rendered.
pub open spec fn frame_num_cols(
    header: Seq<Seq<char>>,
    rows: Seq<Seq<Seq<char>>>,
    area: Region,
    st: CsvTableState,
) -> int {
    let widths = widths_seq(header, rows);
    painted_cols(
        widths,
        pair_count(frame_last_row(header, rows, area).len() as int, widths.len() as int),
        st.cols_offset as int,
        avail_of(area.width as int, gutter_digits(st.rows_offset, rows.len() as int) + 5),
    )
}

/// Whether the frame reports more columns off-screen to the right.
pub open spec fn frame_more_cols(
    header: Seq<Seq<char>>,
    rows: Seq<Seq<Seq<char>>>,
    area: Region,
    st: CsvTableState,
) -> bool {
    let widths = widths_seq(header, rows);
    st.cols_offset + frame_num_cols(header, rows, area, st) < pair_count(
        frame_last_row(header, rows, area).len() as int,
        widths.len() as int,
    )
}

/// The border anchor a frame records.
pub open spec fn frame_borders(rows_len: int, st: CsvTableState) -> BordersState {
    BordersState {
        x_row_separator: (gutter_digits(st.rows_offset, rows_len) + 3) as u16,
        y_first_record: 3,
    }
}

/// One whole frame as a single patch of the inputs: header borders, gutter
/// numbers, header row, data rows, status line, then the remaining borders.
pub open spec fn frame_patch(
    w: int,
    h: int,
    area: Region,
    header: Seq<Seq<char>>,
    rows: Seq<Seq<Seq<char>>>,
    st: CsvTableState,
) -> Map<int, Cell> {
    let widths = widths_seq(header, rows);
    let ra = spec_rows_area(area);
    let gd = gutter_digits(st.rows_offset, rows.len() as int);
    let xcol = gd + 5;
    let c0 = st.cols_offset as int;
    let nsh = rows_shown(ra, rows.len() as int);
    let avail = avail_of(area.width as int, xcol);
    let p1 = header_borders_patch(w, h, area.width as int);
    let p2 = gutter_patch(w, h, 3, st.rows_offset, gd, nsh);
    let p3 = row_patch(
        w,
        h,
        widths,
        header,
        st.finder_state,
        None,
        true,
        c0,
        xcol,
        1,
        painted_cols(widths, pair_count(header.len() as int, widths.len() as int), c0, avail),
    );
    let p4 = data_rows_patch(w, h, widths, rows, st.finder_state, st.rows_offset, c0, xcol, avail, nsh);
    let p5 = status_patch(w, h, spec_status_area(area), st);
    let p6 = other_borders_patch(w, h, ra, Some(frame_borders(rows.len() as int, st)));
    p1.union_prefer_right(p2).union_prefer_right(p3).union_prefer_right(p4).union_prefer_right(
        p5,
    ).union_prefer_right(p6)
}

impl<'a> CsvTable<'a> {
    /// Render one complete frame: a no-op on a zero-area viewport, and
    /// otherwise exactly the frame patch of the inputs, with the state's
    /// output fields set from the last row walked.
    pub fn render(self, area: Region, grid: &mut Grid, state: &mut CsvTableState)
        requires
            old(grid).wf(),
            old(state).wf(),
            widths_fit(self.header.deep_view(), self.rows.deep_view()),
            old(state).rows_offset + self.rows@.len() + 1 <= u64::MAX,
            old(state).rows_offset + self.rows@.len() <= usize::MAX,
            old(state).cols_offset <= usize::MAX,
        ensures
            final(grid).wf(),
            final(grid).width == old(grid).width,
            final(grid).height == old(grid).height,
            area.width == 0 || area.height == 0 ==> final(grid).cells@ == old(grid).cells@
                && *final(state) == *old(state),
            area.width > 0 && area.height > 0 ==> final(grid).cells@ == overlay(
                old(grid).cells@,
                frame_patch(
                    old(grid).width as int,
                    old(grid).height as int,
                    area,
                    self.header.deep_view(),
                    self.rows.deep_view(),
                    *old(state),
                ),
            ),
            area.width > 0 && area.height > 0 ==> (*final(state) == CsvTableState {
                num_cols_rendered: frame_num_cols(
                    self.header.deep_view(),
                    self.rows.deep_view(),
                    area,
                    *old(state),
                ) as u64,
                more_cols_to_show: frame_more_cols(
                    self.header.deep_view(),
                    self.rows.deep_view(),
                    area,
                    *old(state),
                ),
                borders_state: Some(frame_borders(self.rows@.len() as int, *old(state))),
                ..*old(state)
            }),
    {
        if area.width == 0 || area.height == 0 {
            return ;
        }
        let ghost s0 = grid.cells@;
        let ghost w = grid.width as int;
        let ghost h = grid.height as int;
        let ghost hd = self.header.deep_view();
        let ghost rd = self.rows.deep_view();
        let ghost st0 = *old(state);
        let ghost widths_g = widths_seq(hd, rd);

        let column_widths = self.get_column_widths();
        let pair = self.render_header_borders(grid, area);
        let y_header = pair.0;
        let y_first_record = pair.1;
        let ghost p1 = header_borders_patch(w, h, area.width as int);

        let rah: u16 = if area.height >= 5 {
            area.height - 5
        } else {
            0
        };
        let rows_area = Region::new(area.x, y_first_record, area.width, rah);
        proof {
            assert(rows_area == spec_rows_area(area));
        }

        let nrows = self.rows.len();
        let row_num_section_width = self.render_row_numbers(grid, state, rows_area, nrows);
        let ghost gd = gutter_digits(st0.rows_offset, nrows as int);
        let ghost nsh = rows_shown(rows_area, nrows as int);
        let ghost p2 = gutter_patch(w, h, 3, st0.rows_offset, gd, nsh);
        proof {
            lemma_overlay_overlay(s0, p1, p2);
        }

        let ghost c0 = st0.cols_offset as int;
        let ghost xcol = gd + 5;
        let ghost avail = avail_of(area.width as int, xcol);
        let ghost bs = frame_borders(nrows as int, st0);

        self.render_row(
            grid,
            state,
            &column_widths,
            rows_area,
            row_num_section_width,
            y_header,
            true,
            &self.header,
            None,
        );
        let ghost p3 = row_patch(
            w,
            h,
            widths_g,
            hd,
            st0.finder_state,
            None,
            true,
            c0,
            xcol,
            1,
            painted_cols(widths_g, pair_count(hd.len() as int, widths_g.len() as int), c0, avail),
        );
        proof {
            lemma_overlay_overlay(s0, p1.union_prefer_right(p2), p3);
        }

        let bottomv = rows_area.bottom();
        let cap: u16 = if bottomv > rows_area.y {
            bottomv - rows_area.y
        } else {
            0
        };
        let n_shown: usize = if nrows == 0 {
            0
        } else if cap < 1 {
            1
        } else if nrows <= cap as usize {
            nrows
        } else {
            cap as usize
        };
        proof {
            assert(n_shown == nsh);
        }
        let ghost acc3 = p1.union_prefer_right(p2).union_prefer_right(p3);
        let off_usize: usize = state.rows_offset as usize;
        let mut rel: usize = 0;
        while rel < n_shown
            invariant
                rel <= n_shown,
                n_shown == nsh,
                nsh == rows_shown(spec_rows_area(area), rd.len() as int),
                n_shown <= nrows,
                nrows == rd.len(),
                nrows == self.rows@.len(),
                rd == self.rows.deep_view(),
                hd == self.header.deep_view(),
                widths_g == column_widths@,
                st0.rows_offset + nrows <= usize::MAX,
                off_usize == st0.rows_offset,
                n_shown >= 1 ==> 3 + n_shown - 1 <= u16::MAX,
                c0 == st0.cols_offset as int,
                st0.cols_offset <= usize::MAX,
                xcol == gd + 5,
                row_num_section_width as int == xcol,
                avail == avail_of(area.width as int, xcol),
                rows_area == spec_rows_area(area),
                grid.wf(),
                grid.width == w,
                grid.height == h,
                grid.cells@ == overlay(
                    s0,
                    acc3.union_prefer_right(
                        data_rows_patch(
                            w,
                            h,
                            widths_g,
                            rd,
                            st0.finder_state,
                            st0.rows_offset,
                            c0,
                            xcol,
                            avail,
                            rel as int,
                        ),
                    ),
                ),
                (*state == CsvTableState {
                    num_cols_rendered: state.num_cols_rendered,
                    more_cols_to_show: state.more_cols_to_show,
                    borders_state: Some(bs),
                    ..st0
                }),
                rel == 0 ==> state.num_cols_rendered == painted_cols(
                    widths_g,
                    pair_count(hd.len() as int, widths_g.len() as int),
                    c0,
                    avail,
                ) as u64 && state.more_cols_to_show == (c0 + painted_cols(
                    widths_g,
                    pair_count(hd.len() as int, widths_g.len() as int),
                    c0,
                    avail,
                ) < pair_count(hd.len() as int, widths_g.len() as int)),
                rel >= 1 ==> state.num_cols_rendered == painted_cols(
                    widths_g,
                    pair_count(rd[rel - 1].len() as int, widths_g.len() as int),
                    c0,
                    avail,
                ) as u64 && state.more_cols_to_show == (c0 + painted_cols(
                    widths_g,
                    pair_count(rd[rel - 1].len() as int, widths_g.len() as int),
                    c0,
                    avail,
                ) < pair_count(rd[rel - 1].len() as int, widths_g.len() as int)),
            decreases n_shown - rel,
        {
            let row_index: usize = rel + off_usize;
            let y_offset: u16 = 3 + rel as u16;
            let ghost acc_d = acc3.union_prefer_right(
                data_rows_patch(
                    w,
                    h,
                    widths_g,
                    rd,
                    st0.finder_state,
                    st0.rows_offset,
                    c0,
                    xcol,
                    avail,
                    rel as int,
                ),
            );
            proof {
                assert(self.rows[rel as int].deep_view() == rd[rel as int]);
            }
            self.render_row(
                grid,
                state,
                &column_widths,
                rows_area,
                row_num_section_width,
                y_offset,
                false,
                &self.rows[rel],
                Some(row_index),
            );
            proof {
                let rp = row_patch(
                    w,
                    h,
                    widths_g,
                    rd[rel as int],
                    st0.finder_state,
                    Some((st0.rows_offset + rel) as usize),
                    false,
                    c0,
                    xcol,
                    3 + rel as int,
                    painted_cols(
                        widths_g,
                        pair_count(rd[rel as int].len() as int, widths_g.len() as int),
                        c0,
                        avail,
                    ),
                );
                lemma_overlay_overlay(s0, acc_d, rp);
                lemma_union_assoc(
                    acc3,
                    data_rows_patch(
                        w,
                        h,
                        widths_g,
                        rd,
                        st0.finder_state,
                        st0.rows_offset,
                        c0,
                        xcol,
                        avail,
                        rel as int,
                    ),
                    rp,
                );
            }
            rel = rel + 1;
        }
        let ab = area.bottom();
        let sy: u16 = if ab >= 2 {
            ab - 2
        } else {
            0
        };
        let status_area = Region::new(area.x, sy, area.width, 2);
        proof {
            assert(status_area == spec_status_area(area));
        }
        let ghost acc4 = acc3.union_prefer_right(
            data_rows_patch(w, h, widths_g, rd, st0.finder_state, st0.rows_offset, c0, xcol, avail, nsh),
        );
        proof {
            assert(state.wf());
            assert(status_content(*state) == status_content(st0));
        }
        self.render_status(status_area, grid, state);
        let ghost p5 = status_patch(w, h, spec_status_area(area), st0);
        proof {
            assert(status_patch(w, h, spec_status_area(area), *state) == p5);
            lemma_overlay_overlay(s0, acc4, p5);
        }
        self.render_other_borders(grid, rows_area, state);
        proof {
            let p6 = other_borders_patch(w, h, spec_rows_area(area), Some(bs));
            lemma_overlay_overlay(s0, acc4.union_prefer_right(p5), p6);
            assert(grid.cells@ == overlay(s0, frame_patch(w, h, area, hd, rd, st0)));
        }
    }
}

/// A search-highlight style: the match foreground, with or without the
/// focused-match background.
pub open spec fn is_highlight(st: Style) -> bool {
    st == highlight_style() || st == highlight_current_style()
}

/// Law: a rendered cell keeps its text's characters exactly; it carries
/// highlight styling iff the text contains the search target, and the
/// focused-match background iff its coordinates are the engine's current
/// match.
pub proof fn lemma_highlight_correctness(
    text: Seq<char>,
    a: FinderActiveState,
    row_index: Option<usize>,
    col: usize,
    is_header: bool,
)
    requires
        a.target@.len() >= 1,
    ensures
        cell_chars(
            rendered_cell_text(text, FinderState::FinderActive(a), row_index, col, is_header),
        ) == text,
        (exists|k: int|
            0 <= k < rendered_cell_text(
                text,
                FinderState::FinderActive(a),
                row_index,
                col,
                is_header,
            ).len() && is_highlight(
                #[trigger] rendered_cell_text(
                    text,
                    FinderState::FinderActive(a),
                    row_index,
                    col,
                    is_header,
                )[k].style,
            )) <==> contains_seq(text, a.target@),
        (exists|k: int|
            0 <= k < rendered_cell_text(
                text,
                FinderState::FinderActive(a),
                row_index,
                col,
                is_header,
            ).len() && #[trigger] rendered_cell_text(
                text,
                FinderState::FinderActive(a),
                row_index,
                col,
                is_header,
            )[k].style == highlight_current_style()) <==> (contains_seq(text, a.target@)
            && is_current_match(a, row_index, col)),
{
    let r = rendered_cell_text(text, FinderState::FinderActive(a), row_index, col, is_header);
    let base = if is_header {
        bold_style()
    } else {
        plain_style()
    };
    let p = a.target@;
    if contains_seq(text, p) {
        let hl = if is_current_match(a, row_index, col) {
            highlight_current_style()
        } else {
            highlight_style()
        };
        crate::text::lemma_highlight_cells(text, p, base, hl);
        let k0 = choose|k: int| 0 <= k < r.len() && r[k].style == hl;
        assert(is_highlight(r[k0].style));
        if is_current_match(a, row_index, col) {
            assert(r[k0].style == highlight_current_style());
        } else {
            assert forall|k: int|
                0 <= k < r.len() implies #[trigger] r[k].style != highlight_current_style() by {
                assert(r[k].style == base || r[k].style == hl);
            }
        }
    } else {
        crate::text::lemma_styled_chars(text, base);
        assert forall|k: int| 0 <= k < r.len() implies !is_highlight(#[trigger] r[k].style)
            && r[k].style != highlight_current_style() by {
            assert(r[k] == mk_cell(text[k], base));
        }
    }
}

/// Law: rendering is idempotent. A frame is one patch of its inputs alone,
/// so painting it again onto its own result changes nothing: two renders
/// with identical inputs and the same fresh state leave identical grids.
pub proof fn lemma_render_idempotent(
    s: Seq<Cell>,
    w: int,
    h: int,
    area: Region,
    header: Seq<Seq<char>>,
    rows: Seq<Seq<Seq<char>>>,
    st: CsvTableState,
)
    ensures
        overlay(
            overlay(s, frame_patch(w, h, area, header, rows, st)),
            frame_patch(w, h, area, header, rows, st),
        ) == overlay(s, frame_patch(w, h, area, header, rows, st)),
{
    lemma_overlay_idempotent(s, frame_patch(w, h, area, header, rows, st));
}

} // verus!
