//! The border resolver: the box-drawing glyph for every grid position that
//! lies on a border.
//!
//! At a true junction, where a horizontal-border row crosses a
//! vertical-border column, the shape (corner, tee, cross, or a straight
//! segment in a degenerate one-line table) is chosen by a four-bit adjacency
//! mask saying on which sides the grid continues, and the exact glyph by the
//! pair of border styles, since single and double strokes combine
//! asymmetrically.

use vstd::prelude::*;
use vstd::pervasive::unreached;

use crate::Border;

verus! {

/// The straight-line glyph of a horizontal border.
pub open spec fn hline_char(b: Border) -> char {
    match b {
        Border::Single => '─',
        Border::Double => '═',
    }
}

/// The straight-line glyph of a vertical border.
pub open spec fn vline_char(b: Border) -> char {
    match b {
        Border::Single => '│',
        Border::Double => '║',
    }
}

/// The adjacency mask of a grid position: bit 1 when a row lies above, bit 2
/// when a column follows to the right, bit 4 when a row follows below, bit 8
/// when a column lies to the left.
pub open spec fn adjacency_mask(ri: int, ci: int, nrows: int, ncols: int) -> int {
    (if ri > 0 { 1int } else { 0int }) + (if ci + 1 < ncols { 2int } else { 0int })
        + (if ri + 1 < nrows { 4int } else { 0int }) + (if ci > 0 { 8int } else { 0int })
}

/// Whether a junction's adjacency mask has a box-drawing glyph. The three
/// masks without one (no neighbours at all, or only above and below, or only
/// left and right) arise only in tables whose border rows and columns have no
/// junction shape to draw; asking for their glyph is an internal-invariant
/// failure.
pub open spec fn junction_mapped(mask: int) -> bool {
    mask != 0 && mask != 5 && mask != 10
}

/// The glyph at a junction of a horizontal border styled `h` and a vertical
/// border styled `v`, for a given adjacency mask: one of the nine junction
/// shapes in each of the four style pairings, or a straight segment where
/// only one neighbour exists.
pub open spec fn junction_char(mask: int, h: Border, v: Border) -> char {
    if mask == 6 {
        match (h, v) {
            (Border::Single, Border::Single) => '┌',
            (Border::Double, Border::Double) => '╔',
            (Border::Single, Border::Double) => '╓',
            (Border::Double, Border::Single) => '╒',
        }
    } else if mask == 14 {
        match (h, v) {
            (Border::Single, Border::Single) => '┬',
            (Border::Double, Border::Double) => '╦',
            (Border::Single, Border::Double) => '╥',
            (Border::Double, Border::Single) => '╤',
        }
    } else if mask == 12 {
        match (h, v) {
            (Border::Single, Border::Single) => '┐',
            (Border::Double, Border::Double) => '╗',
            (Border::Single, Border::Double) => '╖',
            (Border::Double, Border::Single) => '╕',
        }
    } else if mask == 7 {
        match (h, v) {
            (Border::Single, Border::Single) => '├',
            (Border::Double, Border::Double) => '╠',
            (Border::Single, Border::Double) => '╟',
            (Border::Double, Border::Single) => '╞',
        }
    } else if mask == 15 {
        match (h, v) {
            (Border::Single, Border::Single) => '┼',
            (Border::Double, Border::Double) => '╬',
            (Border::Single, Border::Double) => '╫',
            (Border::Double, Border::Single) => '╪',
        }
    } else if mask == 13 {
        match (h, v) {
            (Border::Single, Border::Single) => '┤',
            (Border::Double, Border::Double) => '╣',
            (Border::Single, Border::Double) => '╢',
            (Border::Double, Border::Single) => '╡',
        }
    } else if mask == 3 {
        match (h, v) {
            (Border::Single, Border::Single) => '└',
            (Border::Double, Border::Double) => '╚',
            (Border::Single, Border::Double) => '╙',
            (Border::Double, Border::Single) => '╘',
        }
    } else if mask == 11 {
        match (h, v) {
            (Border::Single, Border::Single) => '┴',
            (Border::Double, Border::Double) => '╩',
            (Border::Single, Border::Double) => '╨',
            (Border::Double, Border::Single) => '╧',
        }
    } else if mask == 9 {
        match (h, v) {
            (Border::Single, Border::Single) => '┘',
            (Border::Double, Border::Double) => '╝',
            (Border::Single, Border::Double) => '╜',
            (Border::Double, Border::Single) => '╛',
        }
    } else if mask == 2 || mask == 8 {
        hline_char(h)
    } else if mask == 1 || mask == 4 {
        vline_char(v)
    } else {
        ' '
    }
}

/// The glyph at any border position: the junction glyph where a border row
/// and a border column cross, the plain straight-line glyph where only one
/// of the two is present.
pub open spec fn border_glyph(
    ri: int,
    ci: int,
    nrows: int,
    ncols: int,
    horizontal: Option<Border>,
    vertical: Option<Border>,
) -> char {
    match (horizontal, vertical) {
        (Some(h), Some(v)) => junction_char(adjacency_mask(ri, ci, nrows, ncols), h, v),
        (Some(h), None) => hline_char(h),
        (None, Some(v)) => vline_char(v),
        (None, None) => ' ',
    }
}

/// Border merging is positional only through the adjacency mask: two
/// junctions with the same mask and the same pair of styles are drawn with
/// the same glyph, wherever they stand in their tables.
pub proof fn lemma_junction_depends_on_mask_only(
    r1: int,
    c1: int,
    nr1: int,
    nc1: int,
    r2: int,
    c2: int,
    nr2: int,
    nc2: int,
    h: Border,
    v: Border,
)
    requires
        adjacency_mask(r1, c1, nr1, nc1) == adjacency_mask(r2, c2, nr2, nc2),
    ensures
        junction_char(adjacency_mask(r1, c1, nr1, nc1), h, v) == junction_char(
            adjacency_mask(r2, c2, nr2, nc2),
            h,
            v,
        ),
{
}

/// Resolves the glyph at the border position `(row_idx, col_idx)` of a grid
/// of `total_rows` by `total_cols`. `horizontal` is the style of the row when
/// it is a horizontal-border row, `vertical` that of the column when it is a
/// vertical-border column; at least one must be present, and a junction's
/// adjacency mask must have a glyph.
pub fn resolve(
    row_idx: usize,
    col_idx: usize,
    total_rows: usize,
    total_cols: usize,
    horizontal: Option<Border>,
    vertical: Option<Border>,
) -> (g: char)
    requires
        row_idx < total_rows,
        col_idx < total_cols,
        horizontal is Some || vertical is Some,
        (horizontal is Some && vertical is Some) ==> junction_mapped(
            adjacency_mask(row_idx as int, col_idx as int, total_rows as int, total_cols as int),
        ),
    ensures
        g == border_glyph(
            row_idx as int,
            col_idx as int,
            total_rows as int,
            total_cols as int,
            horizontal,
            vertical,
        ),
{
    match (horizontal, vertical) {
        (None, None) => unreached(),
        (None, Some(v)) => match v {
            Border::Single => '│',
            Border::Double => '║',
        },
        (Some(h), None) => match h {
            Border::Single => '─',
            Border::Double => '═',
        },
        (Some(h), Some(v)) => {
            let mut mask: usize = 0;
            if row_idx > 0 {
                mask = mask + 1;
            }
            if col_idx + 1 < total_cols {
                mask = mask + 2;
            }
            if row_idx + 1 < total_rows {
                mask = mask + 4;
            }
            if col_idx > 0 {
                mask = mask + 8;
            }
            if mask == 6 {
                match (h, v) {
                    (Border::Single, Border::Single) => '┌',
                    (Border::Double, Border::Double) => '╔',
                    (Border::Single, Border::Double) => '╓',
                    (Border::Double, Border::Single) => '╒',
                }
            } else if mask == 14 {
                match (h, v) {
                    (Border::Single, Border::Single) => '┬',
                    (Border::Double, Border::Double) => '╦',
                    (Border::Single, Border::Double) => '╥',
                    (Border::Double, Border::Single) => '╤',
                }
            } else if mask == 12 {
                match (h, v) {
                    (Border::Single, Border::Single) => '┐',
                    (Border::Double, Border::Double) => '╗',
                    (Border::Single, Border::Double) => '╖',
                    (Border::Double, Border::Single) => '╕',
                }
            } else if mask == 7 {
                match (h, v) {
                    (Border::Single, Border::Single) => '├',
                    (Border::Double, Border::Double) => '╠',
                    (Border::Single, Border::Double) => '╟',
                    (Border::Double, Border::Single) => '╞',
                }
            } else if mask == 15 {
                match (h, v) {
                    (Border::Single, Border::Single) => '┼',
                    (Border::Double, Border::Double) => '╬',
                    (Border::Single, Border::Double) => '╫',
                    (Border::Double, Border::Single) => '╪',
                }
            } else if mask == 13 {
                match (h, v) {
                    (Border::Single, Border::Single) => '┤',
                    (Border::Double, Border::Double) => '╣',
                    (Border::Single, Border::Double) => '╢',
                    (Border::Double, Border::Single) => '╡',
                }
            } else if mask == 3 {
                match (h, v) {
                    (Border::Single, Border::Single) => '└',
                    (Border::Double, Border::Double) => '╚',
                    (Border::Single, Border::Double) => '╙',
                    (Border::Double, Border::Single) => '╘',
                }
            } else if mask == 11 {
                match (h, v) {
                    (Border::Single, Border::Single) => '┴',
                    (Border::Double, Border::Double) => '╩',
                    (Border::Single, Border::Double) => '╨',
                    (Border::Double, Border::Single) => '╧',
                }
            } else if mask == 9 {
                match (h, v) {
                    (Border::Single, Border::Single) => '┘',
                    (Border::Double, Border::Double) => '╝',
                    (Border::Single, Border::Double) => '╜',
                    (Border::Double, Border::Single) => '╛',
                }
            } else if mask == 2 || mask == 8 {
                match h {
                    Border::Single => '─',
                    Border::Double => '═',
                }
            } else if mask == 1 || mask == 4 {
                match v {
                    Border::Single => '│',
                    Border::Double => '║',
                }
            } else {
                unreached()
            }
        },
    }
}

} // verus!
