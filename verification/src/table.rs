//! The table and its renderer.
//!
//! A table owns an ordered list of columns, fixed at construction, and a
//! growable ordered list of rows. Rendering resolves all sizes once, then
//! walks the rows top to bottom: a border row becomes one line of border
//! glyphs; a content row becomes exactly its resolved height in lines, each
//! the concatenation, column by column, of border fills and formatted cell
//! text.

use vstd::prelude::*;

use crate::Align;
use crate::Border;
use crate::Column;
use crate::Row;
use crate::RowView;
use crate::border::adjacency_mask;
use crate::border::border_glyph;
use crate::border::junction_mapped;
use crate::border::resolve;
use crate::border::vline_char;
use crate::format::format_content;
use crate::layout::cell_at;
use crate::layout::cell_fits;
use crate::layout::cell_lines;
use crate::layout::col_width;
use crate::layout::content_index;
use crate::layout::resolve_row_height;
use crate::layout::row_height;
use crate::layout::rows_view;
use crate::layout::solve_widths;
use crate::style::TextStyle;
use crate::text::repeat_char;
use crate::text::str_columns;
use crate::wrap::char_vec_views;

verus! {

/// A table: an ordered list of columns, fixed at construction, and a
/// growable ordered list of rows.
#[derive(Debug, Clone, PartialEq)]
pub struct Table {
    cols: Vec<Column>,
    rows: Vec<Row>,
}

/// The mathematical content of a [`Table`].
pub ghost struct TableView {
    pub cols: Seq<Column>,
    pub rows: Seq<RowView>,
}

impl View for Table {
    type V = TableView;

    closed spec fn view(&self) -> TableView {
        TableView { cols: self.cols@, rows: rows_view(self.rows@) }
    }
}

/// One piece of a border row's line: the resolved glyph at column `ci`,
/// filled to the column's width.
pub open spec fn border_piece(tv: TableView, ri: int, ci: int, h: Border) -> Seq<char> {
    repeat_char(
        border_glyph(
            ri,
            ci,
            tv.rows.len() as int,
            tv.cols.len() as int,
            Some(h),
            tv.cols[ci].border_of(),
        ),
        col_width(tv.cols, tv.rows, ci),
    )
}

/// A border row's line over the first `ci` columns.
pub open spec fn border_line_upto(tv: TableView, ri: int, h: Border, ci: int) -> Seq<char>
    decreases ci,
{
    if ci <= 0 {
        Seq::empty()
    } else {
        border_line_upto(tv, ri, h, ci - 1) + border_piece(tv, ri, ci - 1, h)
    }
}

/// One piece of line `k` of a content row: a vertical border's glyph filled
/// to the column's width (border separators inside content rows are never
/// styled), or the matched cell's formatted text for that line.
pub open spec fn content_piece(tv: TableView, ri: int, ci: int, k: int) -> Seq<char> {
    match tv.cols[ci] {
        Column::VerticalBorder(b) => repeat_char(vline_char(b), col_width(tv.cols, tv.rows, ci)),
        Column::Cells { .. } => {
            let cell = cell_at(tv.rows[ri], content_index(tv.cols, ci));
            let width = col_width(tv.cols, tv.rows, ci);
            let lines = cell_lines(cell, width);
            let line = if 0 <= k < lines.len() {
                lines[k]
            } else {
                Seq::<char>::empty()
            };
            format_content(line, cell.align, cell.style, width)
        },
    }
}

/// Line `k` of a content row, over the first `ci` columns.
pub open spec fn content_line_upto(tv: TableView, ri: int, k: int, ci: int) -> Seq<char>
    decreases ci,
{
    if ci <= 0 {
        Seq::empty()
    } else {
        content_line_upto(tv, ri, k, ci - 1) + content_piece(tv, ri, ci - 1, k)
    }
}

/// The first `k` rendered lines of a content row, each newline-terminated.
pub open spec fn content_block_upto(tv: TableView, ri: int, k: int) -> Seq<char>
    decreases k,
{
    if k <= 0 {
        Seq::empty()
    } else {
        content_block_upto(tv, ri, k - 1) + content_line_upto(
            tv,
            ri,
            k - 1,
            tv.cols.len() as int,
        ) + seq!['\n']
    }
}

/// The rendered lines of row `ri`: one line of border glyphs, or exactly the
/// row's resolved height in content lines.
pub open spec fn row_block(tv: TableView, ri: int) -> Seq<char> {
    match tv.rows[ri] {
        RowView::HorizontalBorder(h) => border_line_upto(tv, ri, h, tv.cols.len() as int)
            + seq!['\n'],
        RowView::Cells { .. } => content_block_upto(tv, ri, row_height(tv.cols, tv.rows, ri)),
    }
}

/// The rendering of the first `ri` rows.
pub open spec fn render_upto(tv: TableView, ri: int) -> Seq<char>
    decreases ri,
{
    if ri <= 0 {
        Seq::empty()
    } else {
        render_upto(tv, ri - 1) + row_block(tv, ri - 1)
    }
}

/// The full rendering of a table: each row's lines in order, every line
/// newline-terminated; a table with no rows renders to the empty text.
pub open spec fn render_spec(tv: TableView) -> Seq<char> {
    render_upto(tv, tv.rows.len() as int)
}

/// The bounds under which a table renders: every cell's display width
/// together with its reserved padding fits the machine's word, and every
/// junction of a border row with a border column has a box-drawing glyph.
pub open spec fn renderable(tv: TableView) -> bool {
    &&& forall|ri: int, ci: int|
        0 <= ri < tv.rows.len() && 0 <= ci < tv.rows[ri].cells_of().len() ==> cell_fits(
            #[trigger] tv.rows[ri].cells_of()[ci],
        )
    &&& forall|ri: int, ci: int|
        0 <= ri < tv.rows.len() && 0 <= ci < tv.cols.len() && tv.rows[ri] is HorizontalBorder
            && tv.cols[ci] is VerticalBorder ==> junction_mapped(
            #[trigger] adjacency_mask(ri, ci, tv.rows.len() as int, tv.cols.len() as int),
        )
}

/// The reserved padding of `a`, or `None` where the sum overflows the
/// machine's word.
fn try_padding(a: &Align) -> (r: Option<usize>)
    ensures
        (match r {
            Some(p) => a.spec_padding() <= usize::MAX && p == a.spec_padding(),
            None => a.spec_padding() > usize::MAX,
        }),
{
    match a {
        Align::Center => Some(0),
        Align::Left => Some(0),
        Align::Right => Some(0),
        Align::CenterPadded { padl, padr } => {
            if *padl > usize::MAX - *padr {
                None
            } else {
                Some(*padl + *padr)
            }
        },
        Align::LeftPadded { padl } => Some(*padl),
        Align::RightPadded { padr } => Some(*padr),
    }
}

impl Table {
    /// A table over the given columns, with no rows yet.
    pub fn new(columns: Vec<Column>) -> (t: Self)
        ensures
            t@.cols == columns@,
            t@.rows == Seq::<RowView>::empty(),
    {
        let t = Table { cols: columns, rows: Vec::new() };
        proof {
            assert(rows_view(t.rows@) =~= Seq::<RowView>::empty());
        }
        t
    }

    /// Appends one row at the bottom; rows are never removed or reordered.
    pub fn append_row(&mut self, row: Row)
        ensures
            final(self)@.cols == old(self)@.cols,
            final(self)@.rows == old(self)@.rows.push(row@),
    {
        let ghost old_rows = self.rows@;
        self.rows.push(row);
        proof {
            assert(rows_view(self.rows@) =~= rows_view(old_rows).push(self.rows@.last()@));
        }
    }

    /// Renders the table into one newline-terminated block of text.
    ///
    /// Rendering is pure: the result is a function of the table's current
    /// state alone, so rendering again without appending further rows yields
    /// identical text, and rendering never changes the table.
    pub fn render(&self) -> (out: String)
        requires
            renderable(self@),
        ensures
            out@ == render_spec(self@),
    {
        let ghost tv = self@;
        let widths: Vec<usize> = solve_widths(&self.cols, &self.rows);
        let nrows: usize = self.rows.len();
        let ncols: usize = self.cols.len();
        let mut out: String = String::new();
        let mut ri: usize = 0;
        while ri < nrows
            invariant
                ri <= nrows,
                nrows == self.rows@.len(),
                ncols == self.cols@.len(),
                tv == self@,
                renderable(tv),
                widths@.len() == ncols,
                forall|cj: int|
                    0 <= cj < ncols ==> widths@[cj] == col_width(tv.cols, tv.rows, cj),
                out@ == render_upto(tv, ri as int),
            decreases nrows - ri,
        {
            let row = &self.rows[ri];
            proof {
                assert(tv.rows[ri as int] == row@);
            }
            match row {
                Row::HorizontalBorder(hb) => {
                    let h: Border = *hb;
                    let ghost line_start = out@;
                    let mut ci: usize = 0;
                    proof {
                        assert(out@ =~= line_start + border_line_upto(tv, ri as int, h, 0));
                    }
                    while ci < ncols
                        invariant
                            ci <= ncols,
                            nrows == self.rows@.len(),
                            ncols == self.cols@.len(),
                            tv == self@,
                            renderable(tv),
                            ri < nrows,
                            tv.rows[ri as int] == RowView::HorizontalBorder(h),
                            widths@.len() == ncols,
                            forall|cj: int|
                                0 <= cj < ncols ==> widths@[cj] == col_width(
                                    tv.cols,
                                    tv.rows,
                                    cj,
                                ),
                            out@ == line_start + border_line_upto(tv, ri as int, h, ci as int),
                        decreases ncols - ci,
                    {
                        let col = &self.cols[ci];
                        let vb: Option<Border> = col.border();
                        proof {
                            assert(tv.cols[ci as int] == *col);
                            if vb is Some {
                                assert(tv.cols[ci as int] is VerticalBorder);
                                assert(junction_mapped(
                                    adjacency_mask(
                                        ri as int,
                                        ci as int,
                                        nrows as int,
                                        ncols as int,
                                    ),
                                ));
                            }
                        }
                        let g: char = resolve(ri, ci, nrows, ncols, Some(h), vb);
                        let ghost before = out@;
                        crate::text::push_fill(&mut out, g, widths[ci]);
                        proof {
                            assert(out@ =~= line_start + border_line_upto(
                                tv,
                                ri as int,
                                h,
                                ci as int + 1,
                            ));
                        }
                        ci = ci + 1;
                    }
                    out.push('\n');
                    proof {
                        assert(row_block(tv, ri as int) == border_line_upto(
                            tv,
                            ri as int,
                            h,
                            ncols as int,
                        ) + seq!['\n']);
                        assert(out@ =~= render_upto(tv, ri as int + 1));
                    }
                },
                Row::Cells { cells, .. } => {
                    proof {
                        assert forall|cj: int| 0 <= cj < row@.cells_of().len() implies cell_fits(
                            #[trigger] row@.cells_of()[cj],
                        ) by {
                            assert(row@.cells_of()[cj] == tv.rows[ri as int].cells_of()[cj]);
                        }
                    }
                    let height: usize = resolve_row_height(
                        &self.cols,
                        row,
                        &widths,
                        Ghost(tv.rows),
                    );
                    proof {
                        assert(height == row_height(tv.cols, tv.rows, ri as int));
                    }
                    let ghost block_start = out@;
                    let mut k: usize = 0;
                    proof {
                        assert(out@ =~= block_start + content_block_upto(tv, ri as int, 0));
                    }
                    while k < height
                        invariant
                            k <= height,
                            nrows == self.rows@.len(),
                            ncols == self.cols@.len(),
                            tv == self@,
                            renderable(tv),
                            ri < nrows,
                            tv.rows[ri as int] == row@,
                            row@ is Cells,
                            cells@.map_values(|c: crate::Cell| c@) == row@.cells_of(),
                            widths@.len() == ncols,
                            forall|cj: int|
                                0 <= cj < ncols ==> widths@[cj] == col_width(
                                    tv.cols,
                                    tv.rows,
                                    cj,
                                ),
                            out@ == block_start + content_block_upto(tv, ri as int, k as int),
                        decreases height - k,
                    {
                        let ghost line_start = out@;
                        let mut ci: usize = 0;
                        let mut cidx: usize = 0;
                        proof {
                            assert(out@ =~= line_start + content_line_upto(
                                tv,
                                ri as int,
                                k as int,
                                0,
                            ));
                        }
                        while ci < ncols
                            invariant
                                ci <= ncols,
                                cidx <= ci,
                                nrows == self.rows@.len(),
                                ncols == self.cols@.len(),
                                tv == self@,
                                renderable(tv),
                                ri < nrows,
                                tv.rows[ri as int] == row@,
                                row@ is Cells,
                                cells@.map_values(|c: crate::Cell| c@) == row@.cells_of(),
                                widths@.len() == ncols,
                                forall|cj: int|
                                    0 <= cj < ncols ==> widths@[cj] == col_width(
                                        tv.cols,
                                        tv.rows,
                                        cj,
                                    ),
                                cidx == content_index(tv.cols, ci as int),
                                out@ == line_start + content_line_upto(
                                    tv,
                                    ri as int,
                                    k as int,
                                    ci as int,
                                ),
                            decreases ncols - ci,
                        {
                            let col = &self.cols[ci];
                            proof {
                                assert(tv.cols[ci as int] == *col);
                            }
                            match col {
                                Column::VerticalBorder(vb) => {
                                    let g: char = resolve(ri, ci, nrows, ncols, None, Some(*vb));
                                    crate::text::push_fill(&mut out, g, widths[ci]);
                                    proof {
                                        assert(out@ =~= line_start + content_line_upto(
                                            tv,
                                            ri as int,
                                            k as int,
                                            ci as int + 1,
                                        ));
                                    }
                                },
                                Column::Cells { .. } => {
                                    let width: usize = widths[ci];
                                    if cidx < cells.len() {
                                        let cell = &cells[cidx];
                                        proof {
                                            assert(row@.cells_of()[cidx as int] == cell@);
                                            assert(cell_at(tv.rows[ri as int], cidx as int)
                                                == cell@);
                                            assert(cell_fits(cell@));
                                            crate::text::lemma_str_columns_nonneg(cell@.value);
                                        }
                                        let chars: Vec<char> = crate::text::chars_of(
                                            cell.value.as_str(),
                                        );
                                        let pad: usize = cell.align.padding_size();
                                        let avail: usize = if pad >= width {
                                            0
                                        } else {
                                            width - pad
                                        };
                                        proof {
                                            assert(avail == crate::layout::avail_width(
                                                width as int,
                                                cell@.align.spec_padding(),
                                            ));
                                        }
                                        let lines: Vec<Vec<char>> = crate::wrap::wrap_text(
                                            &chars,
                                            avail,
                                        );
                                        proof {
                                            assert(char_vec_views(lines@) == cell_lines(
                                                cell_at(tv.rows[ri as int], cidx as int),
                                                width as int,
                                            ));
                                        }
                                        if k < lines.len() {
                                            proof {
                                                assert(lines@[k as int]@ == char_vec_views(
                                                    lines@,
                                                )[k as int]);
                                            }
                                            crate::format::push_content(
                                                &mut out,
                                                &lines[k],
                                                cell.align,
                                                &cell.style,
                                                width,
                                            );
                                        } else {
                                            let empty_line: Vec<char> = Vec::new();
                                            proof {
                                                assert(str_columns(Seq::<char>::empty()) == 0);
                                            }
                                            crate::format::push_content(
                                                &mut out,
                                                &empty_line,
                                                cell.align,
                                                &cell.style,
                                                width,
                                            );
                                        }
                                    } else {
                                        proof {
                                            assert(row@.cells_of().len() == cells@.len());
                                            assert(cell_at(tv.rows[ri as int], cidx as int)
                                                == crate::empty_cell());
                                            crate::layout::lemma_wrap_empty(
                                                crate::layout::avail_width(width as int, 0),
                                            );
                                            assert(str_columns(Seq::<char>::empty()) == 0);
                                        }
                                        let empty_line: Vec<char> = Vec::new();
                                        let st: TextStyle = TextStyle::plain();
                                        crate::format::push_content(
                                            &mut out,
                                            &empty_line,
                                            Align::Left,
                                            &st,
                                            width,
                                        );
                                    }
                                    proof {
                                        assert(out@ =~= line_start + content_line_upto(
                                            tv,
                                            ri as int,
                                            k as int,
                                            ci as int + 1,
                                        ));
                                    }
                                    cidx = cidx + 1;
                                },
                            }
                            ci = ci + 1;
                        }
                        out.push('\n');
                        k = k + 1;
                        proof {
                            assert(out@ =~= block_start + content_block_upto(
                                tv,
                                ri as int,
                                k as int,
                            ));
                        }
                    }
                    proof {
                        assert(row_block(tv, ri as int) == content_block_upto(
                            tv,
                            ri as int,
                            height as int,
                        ));
                        assert(out@ =~= render_upto(tv, ri as int + 1));
                    }
                },
            }
            ri = ri + 1;
        }
        out
    }

    /// Renders the table if every cell is within machine bounds and every
    /// border junction has a glyph, and reports which: `Some` carries
    /// exactly what [`Table::render`] returns, `None` says the table is not
    /// renderable.
    pub fn try_render(&self) -> (r: Option<String>)
        ensures
            (match r {
                Some(s) => renderable(self@) && s@ == render_spec(self@),
                None => !renderable(self@),
            }),
    {
        let ghost tv = self@;
        let nrows: usize = self.rows.len();
        let ncols: usize = self.cols.len();
        let mut ri: usize = 0;
        while ri < nrows
            invariant
                ri <= nrows,
                nrows == self.rows@.len(),
                tv == self@,
                forall|rj: int, cj: int|
                    0 <= rj < ri && 0 <= cj < tv.rows[rj].cells_of().len() ==> cell_fits(
                        #[trigger] tv.rows[rj].cells_of()[cj],
                    ),
            decreases nrows - ri,
        {
            let row = &self.rows[ri];
            proof {
                assert(tv.rows[ri as int] == row@);
            }
            match row {
                Row::HorizontalBorder(_) => {
                    proof {
                        assert(row@.cells_of().len() == 0);
                    }
                },
                Row::Cells { cells, .. } => {
                    let m: usize = cells.len();
                    let mut cj: usize = 0;
                    while cj < m
                        invariant
                            cj <= m,
                            tv == self@,
                            nrows == self.rows@.len(),
                            ri < nrows,
                            tv.rows[ri as int] == row@,
                            row@ is Cells,
                            cells@.map_values(|c: crate::Cell| c@) == row@.cells_of(),
                            m == cells@.len(),
                            forall|j: int|
                                0 <= j < cj ==> cell_fits(#[trigger] row@.cells_of()[j]),
                            forall|rj: int, j: int|
                                0 <= rj < ri && 0 <= j < tv.rows[rj].cells_of().len()
                                    ==> cell_fits(#[trigger] tv.rows[rj].cells_of()[j]),
                        decreases m - cj,
                    {
                        let cell = &cells[cj];
                        proof {
                            assert(row@.cells_of()[cj as int] == cell@);
                            crate::text::lemma_str_columns_nonneg(cell@.value);
                        }
                        let chars: Vec<char> = crate::text::chars_of(cell.value.as_str());
                        let ok: bool = match crate::text::try_display_width(&chars) {
                            None => false,
                            Some(dw) => match try_padding(&cell.align) {
                                None => false,
                                Some(p) => dw <= usize::MAX - p,
                            },
                        };
                        if !ok {
                            proof {
                                assert(!cell_fits(cell@));
                                assert(renderable(tv) ==> cell_fits(
                                    tv.rows[ri as int].cells_of()[cj as int],
                                ));
                                assert(!renderable(tv));
                            }
                            return None;
                        }
                        cj = cj + 1;
                    }
                    proof {
                        assert(forall|j: int|
                            0 <= j < tv.rows[ri as int].cells_of().len() ==> cell_fits(
                                #[trigger] tv.rows[ri as int].cells_of()[j],
                            ));
                    }
                },
            }
            ri = ri + 1;
        }
        let mut bi: usize = 0;
        while bi < nrows
            invariant
                bi <= nrows,
                nrows == self.rows@.len(),
                ncols == self.cols@.len(),
                tv == self@,
                forall|rj: int, cj: int|
                    0 <= rj < nrows && 0 <= cj < tv.rows[rj].cells_of().len() ==> cell_fits(
                        #[trigger] tv.rows[rj].cells_of()[cj],
                    ),
                forall|rj: int, cj: int|
                    0 <= rj < bi && 0 <= cj < ncols && tv.rows[rj] is HorizontalBorder
                        && tv.cols[cj] is VerticalBorder ==> junction_mapped(
                        #[trigger] adjacency_mask(rj, cj, nrows as int, ncols as int),
                    ),
            decreases nrows - bi,
        {
            let row = &self.rows[bi];
            proof {
                assert(tv.rows[bi as int] == row@);
            }
            match row {
                Row::Cells { .. } => {},
                Row::HorizontalBorder(_) => {
                    let mut ci: usize = 0;
                    while ci < ncols
                        invariant
                            ci <= ncols,
                            nrows == self.rows@.len(),
                            ncols == self.cols@.len(),
                            tv == self@,
                            bi < nrows,
                            tv.rows[bi as int] == row@,
                            row@ is HorizontalBorder,
                            forall|cj: int|
                                0 <= cj < ci && tv.cols[cj] is VerticalBorder
                                    ==> junction_mapped(
                                    #[trigger] adjacency_mask(
                                        bi as int,
                                        cj,
                                        nrows as int,
                                        ncols as int,
                                    ),
                                ),
                        decreases ncols - ci,
                    {
                        let col = &self.cols[ci];
                        proof {
                            assert(tv.cols[ci as int] == *col);
                        }
                        match col {
                            Column::Cells { .. } => {},
                            Column::VerticalBorder(_) => {
                                let mut mask: usize = 0;
                                if bi > 0 {
                                    mask = mask + 1;
                                }
                                if ci + 1 < ncols {
                                    mask = mask + 2;
                                }
                                if bi + 1 < nrows {
                                    mask = mask + 4;
                                }
                                if ci > 0 {
                                    mask = mask + 8;
                                }
                                proof {
                                    assert(mask == adjacency_mask(
                                        bi as int,
                                        ci as int,
                                        nrows as int,
                                        ncols as int,
                                    ));
                                }
                                if mask == 0 || mask == 5 || mask == 10 {
                                    proof {
                                        assert(tv.rows.len() == self.rows@.len());
                                        assert(tv.cols.len() == self.cols@.len());
                                        assert(tv.cols[ci as int] is VerticalBorder);
                                        assert(tv.rows[bi as int] is HorizontalBorder);
                                        assert(!junction_mapped(
                                            adjacency_mask(
                                                bi as int,
                                                ci as int,
                                                nrows as int,
                                                ncols as int,
                                            ),
                                        ));
                                        assert(renderable(tv) ==> junction_mapped(
                                            adjacency_mask(
                                                bi as int,
                                                ci as int,
                                                nrows as int,
                                                ncols as int,
                                            ),
                                        ));
                                        assert(!renderable(tv));
                                    }
                                    return None;
                                }
                            },
                        }
                        ci = ci + 1;
                    }
                },
            }
            bi = bi + 1;
        }
        proof {
            assert(renderable(tv));
        }
        Some(self.render())
    }
}

} // verus!
