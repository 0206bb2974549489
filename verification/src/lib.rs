//! A box-drawing table formatter for the terminal.
//!
//! A table is described as an ordered list of columns (vertical borders or
//! content slots) and an ordered list of rows (horizontal borders or content
//! slots holding cells). Rendering resolves flexible column widths and row
//! heights from the cells, word-wraps and aligns each cell's text, picks the
//! box-drawing glyph for every border junction, and composes the result line
//! by line into one newline-terminated block of text.

use vstd::prelude::*;

pub mod border;
pub mod format;
pub mod layout;
pub mod style;
pub mod table;
pub mod wrap;
pub mod text;

pub use table::Table;
pub use style::TextColour;
pub use style::TextStyle;
use style::plain_style;

verus! {

/// Horizontal placement of a cell's text within its column, together with any
/// fixed padding the cell reserves beside the text.
#[derive(Debug, Clone, Copy, Hash, PartialEq, Eq)]
pub enum Align {
    Center,
    CenterPadded { padl: usize, padr: usize },
    Left,
    LeftPadded { padl: usize },
    Right,
    RightPadded { padr: usize },
}

impl Align {
    /// The padding this alignment reserves beyond the text itself. It is
    /// added to a flexible column's measured content width, so the padding
    /// has room even when the content is short.
    pub open spec fn spec_padding(self) -> int {
        match self {
            Align::Center => 0,
            Align::Left => 0,
            Align::Right => 0,
            Align::CenterPadded { padl, padr } => padl + padr,
            Align::LeftPadded { padl } => padl as int,
            Align::RightPadded { padr } => padr as int,
        }
    }

    /// The reserved padding of this alignment, in display columns.
    pub fn padding_size(&self) -> (n: usize)
        requires
            self.spec_padding() <= usize::MAX,
        ensures
            n == self.spec_padding(),
    {
        match self {
            Align::Center => 0,
            Align::Left => 0,
            Align::Right => 0,
            Align::CenterPadded { padl, padr } => *padl + *padr,
            Align::LeftPadded { padl } => *padl,
            Align::RightPadded { padr } => *padr,
        }
    }
}

impl Default for Align {
    /// The default alignment: flush left, no reserved padding.
    fn default() -> (a: Self)
        ensures
            a == Align::Left,
    {
        Align::Left
    }
}

/// The style of a border line: a single or a double stroke.
#[derive(Debug, Clone, Copy, Hash, PartialEq, Eq)]
pub enum Border {
    Single,
    Double,
}

/// How a column width or a row height is determined: derived from content,
/// or a caller-given number of display columns or lines.
#[derive(Debug, Clone, Copy, Hash, PartialEq, Eq)]
pub enum CellSize {
    Flexible,
    Fixed(usize),
}

/// One cell: its text, its alignment, and the style its text is painted with.
#[derive(Debug, Clone, PartialEq)]
pub struct Cell {
    pub value: String,
    pub align: Align,
    pub style: TextStyle,
}

/// The mathematical content of a [`Cell`].
pub ghost struct CellView {
    pub value: Seq<char>,
    pub align: Align,
    pub style: TextStyle,
}

impl View for Cell {
    type V = CellView;

    open spec fn view(&self) -> CellView {
        CellView { value: self.value@, align: self.align, style: self.style }
    }
}

/// The cell used for a content column that a row does not fill: empty text,
/// default alignment, no styling.
pub open spec fn empty_cell() -> CellView {
    CellView { value: Seq::empty(), align: Align::Left, style: plain_style() }
}

impl Cell {
    /// A left-aligned, unstyled cell holding `val`.
    pub fn left(val: &str) -> (c: Cell)
        ensures
            c@ == (CellView { value: val@, align: Align::Left, style: plain_style() }),
    {
        Cell { value: val.to_owned(), align: Align::Left, style: TextStyle::plain() }
    }

    /// A left-aligned cell holding `val`, painted with `style`.
    pub fn left_with_style(val: &str, style: TextStyle) -> (c: Cell)
        ensures
            c@ == (CellView { value: val@, align: Align::Left, style: style }),
    {
        Cell { value: val.to_owned(), align: Align::Left, style }
    }

    /// A right-aligned, unstyled cell holding `val`.
    pub fn right(val: &str) -> (c: Cell)
        ensures
            c@ == (CellView { value: val@, align: Align::Right, style: plain_style() }),
    {
        Cell { value: val.to_owned(), align: Align::Right, style: TextStyle::plain() }
    }

    /// A right-aligned cell holding `val`, painted with `style`.
    pub fn right_with_style(val: &str, style: TextStyle) -> (c: Cell)
        ensures
            c@ == (CellView { value: val@, align: Align::Right, style: style }),
    {
        Cell { value: val.to_owned(), align: Align::Right, style }
    }

    /// A centered, unstyled cell holding `val`.
    pub fn center(val: &str) -> (c: Cell)
        ensures
            c@ == (CellView { value: val@, align: Align::Center, style: plain_style() }),
    {
        Cell { value: val.to_owned(), align: Align::Center, style: TextStyle::plain() }
    }

    /// A centered cell holding `val`, painted with `style`.
    pub fn center_with_style(val: &str, style: TextStyle) -> (c: Cell)
        ensures
            c@ == (CellView { value: val@, align: Align::Center, style: style }),
    {
        Cell { value: val.to_owned(), align: Align::Center, style }
    }
}

/// One row of the table: a horizontal border line, or a slot of cells with a
/// height.
#[derive(Debug, Clone, PartialEq)]
pub enum Row {
    HorizontalBorder(Border),
    Cells { height: CellSize, cells: Vec<Cell> },
}

/// The mathematical content of a [`Row`].
pub ghost enum RowView {
    HorizontalBorder(Border),
    Cells { height: CellSize, cells: Seq<CellView> },
}

impl View for Row {
    type V = RowView;

    open spec fn view(&self) -> RowView {
        match self {
            Row::HorizontalBorder(b) => RowView::HorizontalBorder(*b),
            Row::Cells { height, cells } => RowView::Cells {
                height: *height,
                cells: cells@.map_values(|c: Cell| c@),
            },
        }
    }
}

impl RowView {
    /// The border style of a horizontal-border row, `None` for a content row.
    pub open spec fn border_of(self) -> Option<Border> {
        match self {
            RowView::HorizontalBorder(b) => Some(b),
            RowView::Cells { .. } => None,
        }
    }

    /// The cells of a content row, the empty sequence for a border row.
    pub open spec fn cells_of(self) -> Seq<CellView> {
        match self {
            RowView::HorizontalBorder(_) => Seq::empty(),
            RowView::Cells { cells, .. } => cells,
        }
    }
}

impl Row {
    /// A content row whose height is derived from its cells' wrapped text.
    pub fn flexible_height(cells: Vec<Cell>) -> (r: Self)
        ensures
            r@ == (RowView::Cells {
                height: CellSize::Flexible,
                cells: cells@.map_values(|c: Cell| c@),
            }),
    {
        Self::Cells { height: CellSize::Flexible, cells }
    }

    /// A content row with a fixed height in lines.
    pub fn fixed_height(height: usize, cells: Vec<Cell>) -> (r: Self)
        ensures
            r@ == (RowView::Cells {
                height: CellSize::Fixed(height),
                cells: cells@.map_values(|c: Cell| c@),
            }),
    {
        Self::Cells { height: CellSize::Fixed(height), cells }
    }

    /// The border style of a horizontal-border row, `None` for a content row.
    pub fn border(&self) -> (r: Option<Border>)
        ensures
            r == self@.border_of(),
    {
        match self {
            Row::HorizontalBorder(b) => Some(*b),
            Row::Cells { .. } => None,
        }
    }

    /// The cells of a content row, `None` for a border row.
    pub fn cells(&self) -> (r: Option<&Vec<Cell>>)
        ensures
            (r is Some) == (self@ is Cells),
            r is Some ==> r->0@.map_values(|c: Cell| c@) == self@.cells_of(),
    {
        match self {
            Row::Cells { cells, .. } => Some(cells),
            Row::HorizontalBorder(_) => None,
        }
    }
}

impl From<Border> for Row {
    /// A border style used as a row is a horizontal border line.
    fn from(b: Border) -> (r: Self) {
        Row::HorizontalBorder(b)
    }
}

impl vstd::std_specs::convert::FromSpecImpl<Border> for Row {
    open spec fn obeys_from_spec() -> bool {
        true
    }

    open spec fn from_spec(b: Border) -> Row {
        Row::HorizontalBorder(b)
    }
}

/// One column of the table: a vertical border line, or a content slot with a
/// width.
#[derive(Debug, Clone, Hash, PartialEq, Eq)]
pub enum Column {
    VerticalBorder(Border),
    Cells { width: CellSize },
}

impl Column {
    /// A content column whose width is derived from its cells' text.
    pub fn flexible_width() -> (c: Self)
        ensures
            c == (Column::Cells { width: CellSize::Flexible }),
    {
        Self::Cells { width: CellSize::Flexible }
    }

    /// A content column with a fixed width in display columns.
    pub fn fixed_width(width: usize) -> (c: Self)
        ensures
            c == (Column::Cells { width: CellSize::Fixed(width) }),
    {
        Self::Cells { width: CellSize::Fixed(width) }
    }

    /// The border style of a vertical-border column, `None` for a content
    /// column.
    pub open spec fn border_of(self) -> Option<Border> {
        match self {
            Column::VerticalBorder(b) => Some(b),
            Column::Cells { .. } => None,
        }
    }

    /// The border style of a vertical-border column, `None` for a content
    /// column.
    pub fn border(&self) -> (r: Option<Border>)
        ensures
            r == self.border_of(),
    {
        match self {
            Column::VerticalBorder(b) => Some(*b),
            Column::Cells { .. } => None,
        }
    }
}

impl From<Border> for Column {
    /// A border style used as a column is a vertical border line.
    fn from(b: Border) -> (c: Self) {
        Column::VerticalBorder(b)
    }
}

impl vstd::std_specs::convert::FromSpecImpl<Border> for Column {
    open spec fn obeys_from_spec() -> bool {
        true
    }

    open spec fn from_spec(b: Border) -> Column {
        Column::VerticalBorder(b)
    }
}

} // verus!
