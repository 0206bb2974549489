//! The size solver: the effective width of every column and height of every
//! row, resolving flexible entries from the cells' content.

use vstd::prelude::*;

use crate::CellSize;
use crate::CellView;
use crate::Column;
use crate::Row;
use crate::RowView;
use crate::empty_cell;
use crate::text::str_columns;
use crate::text::str_display_width;
use crate::wrap::char_vec_views;
use crate::wrap::wrap_lines;

verus! {

/// The views of a sequence of rows.
pub open spec fn rows_view(rs: Seq<Row>) -> Seq<RowView> {
    rs.map_values(|r: Row| r@)
}

/// The number of content columns among the first `ci` columns: the content
/// index that column `ci` would have if it were one.
pub open spec fn content_index(cols: Seq<Column>, ci: int) -> int
    decreases ci,
{
    if ci <= 0 {
        0
    } else {
        content_index(cols, ci - 1) + (if cols[ci - 1] is Cells {
            1int
        } else {
            0int
        })
    }
}

/// Whether a cell's display width together with its reserved padding fits
/// the machine's word: the bound under which sizes can be computed.
pub open spec fn cell_fits(c: CellView) -> bool {
    str_columns(c.value) + c.align.spec_padding() <= usize::MAX
}

/// The width a row demands of content column `cidx`: the display width of
/// its cell there plus that cell's reserved padding; the floor of one column
/// for a row without a cell there.
pub open spec fn cell_demand(r: RowView, cidx: int) -> int {
    match r {
        RowView::Cells { cells, .. } => if 0 <= cidx < cells.len() {
            str_columns(cells[cidx].value) + cells[cidx].align.spec_padding()
        } else {
            1
        },
        RowView::HorizontalBorder(_) => 1,
    }
}

/// The resolved width of a flexible content column: the maximum demand over
/// all rows, floored at one column.
pub open spec fn flex_width(rows: Seq<RowView>, cidx: int) -> int
    decreases rows.len(),
{
    if rows.len() == 0 {
        1
    } else {
        let prev = flex_width(rows.drop_last(), cidx);
        let d = cell_demand(rows.last(), cidx);
        if d > prev {
            d
        } else {
            prev
        }
    }
}

/// The resolved width of column `ci`: one column for a vertical border, the
/// given width for a fixed content column, the maximum demand for a flexible
/// one.
pub open spec fn col_width(cols: Seq<Column>, rows: Seq<RowView>, ci: int) -> int {
    match cols[ci] {
        Column::VerticalBorder(_) => 1,
        Column::Cells { width } => match width {
            CellSize::Fixed(w) => w as int,
            CellSize::Flexible => flex_width(rows, content_index(cols, ci)),
        },
    }
}

/// The cell of `row` at content index `cidx`: the supplied cell, or the
/// default empty cell where the row supplies fewer cells than there are
/// content columns. A row supplying more cells than content columns has the
/// excess silently dropped: no content index ever reaches them.
pub open spec fn cell_at(row: RowView, cidx: int) -> CellView {
    if 0 <= cidx < row.cells_of().len() {
        row.cells_of()[cidx]
    } else {
        empty_cell()
    }
}

/// The wrap width available to text in a column `width` columns wide whose
/// alignment reserves `reserved` columns, floored at zero.
pub open spec fn avail_width(width: int, reserved: int) -> int {
    if width - reserved >= 0 {
        width - reserved
    } else {
        0
    }
}

/// The wrapped lines of `cell` laid in a column `width` columns wide.
pub open spec fn cell_lines(cell: CellView, width: int) -> Seq<Seq<char>> {
    wrap_lines(cell.value, avail_width(width, cell.align.spec_padding()))
}

/// An empty text wraps to no lines at all.
pub proof fn lemma_wrap_empty(w: int)
    ensures
        wrap_lines(Seq::empty(), w) == Seq::<Seq<char>>::empty(),
{
    assert(crate::wrap::tokens_of(Seq::empty()) == Seq::<Seq<char>>::empty());
    assert(crate::wrap::fragments_of_tokens(Seq::empty(), w) == Seq::<Seq<char>>::empty());
    assert(crate::wrap::pack(Seq::empty(), w, Seq::empty()) == Seq::<Seq<Seq<char>>>::empty());
    assert(wrap_lines(Seq::empty(), w) =~= Seq::<Seq<char>>::empty());
}

/// The largest wrapped line count over the content cells of `row` among the
/// first `ci` columns, floored at one line.
pub open spec fn flex_height_upto(
    cols: Seq<Column>,
    rows: Seq<RowView>,
    row: RowView,
    ci: int,
) -> int
    decreases ci,
{
    if ci <= 0 {
        1
    } else {
        let prev = flex_height_upto(cols, rows, row, ci - 1);
        if cols[ci - 1] is Cells {
            let n = cell_lines(
                cell_at(row, content_index(cols, ci - 1)),
                col_width(cols, rows, ci - 1),
            ).len() as int;
            if n > prev {
                n
            } else {
                prev
            }
        } else {
            prev
        }
    }
}

/// The resolved height of a row: one line for a horizontal border, the given
/// height for a fixed content row, the maximum wrapped line count for a
/// flexible one.
pub open spec fn row_height_of(cols: Seq<Column>, rows: Seq<RowView>, row: RowView) -> int {
    match row {
        RowView::HorizontalBorder(_) => 1,
        RowView::Cells { height, .. } => match height {
            CellSize::Fixed(h) => h as int,
            CellSize::Flexible => flex_height_upto(cols, rows, row, cols.len() as int),
        },
    }
}

/// The resolved height of row `ri`.
pub open spec fn row_height(cols: Seq<Column>, rows: Seq<RowView>, ri: int) -> int {
    row_height_of(cols, rows, rows[ri])
}

/// Resolves the width of every column, border columns included.
pub(crate) fn solve_widths(cols: &Vec<Column>, rows: &Vec<Row>) -> (ws: Vec<usize>)
    requires
        forall|ri: int, ci: int|
            0 <= ri < rows@.len() && 0 <= ci < rows_view(rows@)[ri].cells_of().len()
                ==> cell_fits(#[trigger] rows_view(rows@)[ri].cells_of()[ci]),
    ensures
        ws@.len() == cols@.len(),
        forall|ci: int|
            0 <= ci < cols@.len() ==> ws@[ci] == col_width(cols@, rows_view(rows@), ci),
{
    let ncols: usize = cols.len();
    let nrows: usize = rows.len();
    let ghost rv = rows_view(rows@);
    let mut ws: Vec<usize> = Vec::new();
    let mut cidx: usize = 0;
    let mut ci: usize = 0;
    while ci < ncols
        invariant
            ci <= ncols,
            ncols == cols@.len(),
            nrows == rows@.len(),
            rv == rows_view(rows@),
            forall|ri: int, cj: int|
                0 <= ri < rows@.len() && 0 <= cj < rv[ri].cells_of().len() ==> cell_fits(
                    #[trigger] rv[ri].cells_of()[cj],
                ),
            cidx <= ci,
            cidx == content_index(cols@, ci as int),
            ws@.len() == ci,
            forall|cj: int| 0 <= cj < ci ==> ws@[cj] == col_width(cols@, rv, cj),
        decreases ncols - ci,
    {
        let col = &cols[ci];
        match col {
            Column::VerticalBorder(_) => {
                ws.push(1);
            },
            Column::Cells { width } => {
                match width {
                    CellSize::Fixed(w) => {
                        ws.push(*w);
                    },
                    CellSize::Flexible => {
                        let mut m: usize = 1;
                        let mut ri: usize = 0;
                        while ri < nrows
                            invariant
                                ri <= nrows,
                                nrows == rows@.len(),
                                rv == rows_view(rows@),
                                forall|rj: int, cj: int|
                                    0 <= rj < rows@.len() && 0 <= cj < rv[rj].cells_of().len()
                                        ==> cell_fits(#[trigger] rv[rj].cells_of()[cj]),
                                cidx == content_index(cols@, ci as int),
                                m >= 1,
                                m == flex_width(rv.take(ri as int), cidx as int),
                            decreases nrows - ri,
                        {
                            proof {
                                assert(rv.take(ri as int + 1).drop_last() =~= rv.take(ri as int));
                                assert(rv.take(ri as int + 1).last() == rv[ri as int]);
                                assert(rv[ri as int] == rows@[ri as int]@);
                            }
                            let row = &rows[ri];
                            match row {
                                Row::Cells { cells, .. } => {
                                    if cidx < cells.len() {
                                        let cell = &cells[cidx];
                                        proof {
                                            assert(rv[ri as int].cells_of()[cidx as int]
                                                == cell@);
                                            assert(cell_fits(cell@));
                                            crate::text::lemma_str_columns_nonneg(cell@.value);
                                        }
                                        let dw: usize = str_display_width(cell.value.as_str());
                                        let pad: usize = cell.align.padding_size();
                                        let d: usize = dw + pad;
                                        proof {
                                            assert(cell_demand(rv[ri as int], cidx as int)
                                                == d);
                                        }
                                        if d > m {
                                            m = d;
                                        }
                                    } else {
                                        proof {
                                            assert(rv[ri as int].cells_of().len()
                                                == cells@.len());
                                            assert(cell_demand(rv[ri as int], cidx as int)
                                                == 1);
                                        }
                                    }
                                },
                                Row::HorizontalBorder(_) => {
                                    proof {
                                        assert(cell_demand(rv[ri as int], cidx as int) == 1);
                                    }
                                },
                            }
                            ri = ri + 1;
                        }
                        proof {
                            assert(rv.take(nrows as int) =~= rv);
                        }
                        ws.push(m);
                    },
                }
                cidx = cidx + 1;
            },
        }
        ci = ci + 1;
    }
    ws
}

/// Resolves the height of one row, given the resolved column widths.
pub(crate) fn resolve_row_height(
    cols: &Vec<Column>,
    row: &Row,
    widths: &Vec<usize>,
    Ghost(rows): Ghost<Seq<RowView>>,
) -> (h: usize)
    requires
        widths@.len() == cols@.len(),
        forall|ci: int| 0 <= ci < cols@.len() ==> widths@[ci] == col_width(cols@, rows, ci),
        forall|ci: int|
            0 <= ci < row@.cells_of().len() ==> cell_fits(#[trigger] row@.cells_of()[ci]),
    ensures
        h == row_height_of(cols@, rows, row@),
{
    match row {
        Row::HorizontalBorder(_) => 1,
        Row::Cells { height, cells } => {
            match height {
                CellSize::Fixed(hh) => *hh,
                CellSize::Flexible => {
                    let ncols: usize = cols.len();
                    let mut m: usize = 1;
                    let mut cidx: usize = 0;
                    let mut ci: usize = 0;
                    while ci < ncols
                        invariant
                            ci <= ncols,
                            ncols == cols@.len(),
                            widths@.len() == cols@.len(),
                            forall|cj: int|
                                0 <= cj < cols@.len() ==> widths@[cj] == col_width(
                                    cols@,
                                    rows,
                                    cj,
                                ),
                            forall|cj: int|
                                0 <= cj < row@.cells_of().len() ==> cell_fits(
                                    #[trigger] row@.cells_of()[cj],
                                ),
                            row@ is Cells,
                            cells@.map_values(|c: crate::Cell| c@) == row@.cells_of(),
                            cidx <= ci,
                            cidx == content_index(cols@, ci as int),
                            m >= 1,
                            m == flex_height_upto(cols@, rows, row@, ci as int),
                        decreases ncols - ci,
                    {
                        let col = &cols[ci];
                        match col {
                            Column::VerticalBorder(_) => {},
                            Column::Cells { .. } => {
                                let width: usize = widths[ci];
                                let n: usize = if cidx < cells.len() {
                                    let cell = &cells[cidx];
                                    proof {
                                        assert(row@.cells_of()[cidx as int] == cell@);
                                        assert(cell_fits(cell@));
                                        crate::text::lemma_str_columns_nonneg(cell@.value);
                                        assert(cell_at(row@, cidx as int) == cell@);
                                    }
                                    let chars = crate::text::chars_of(cell.value.as_str());
                                    let pad: usize = cell.align.padding_size();
                                    let avail: usize = if pad >= width {
                                        0
                                    } else {
                                        width - pad
                                    };
                                    proof {
                                        assert(avail == avail_width(
                                            width as int,
                                            cell@.align.spec_padding(),
                                        ));
                                    }
                                    let lines = crate::wrap::wrap_text(&chars, avail);
                                    proof {
                                        assert(char_vec_views(lines@) == cell_lines(
                                            cell_at(row@, cidx as int),
                                            width as int,
                                        ));
                                    }
                                    lines.len()
                                } else {
                                    proof {
                                        assert(cell_at(row@, cidx as int) == empty_cell());
                                        lemma_wrap_empty(
                                            avail_width(
                                                width as int,
                                                empty_cell().align.spec_padding(),
                                            ),
                                        );
                                    }
                                    0
                                };
                                if n > m {
                                    m = n;
                                }
                                cidx = cidx + 1;
                            },
                        }
                        ci = ci + 1;
                    }
                    m
                },
            }
        },
    }
}

} // verus!
