//! The cell formatter: aligning and padding one wrapped line of cell text to
//! its column's width, painting only the visible text.

use vstd::prelude::*;
use vstd::string::StringExecFns;

use crate::Align;
use crate::style::TextStyle;
use crate::style::paint;
use crate::style::paint_of;
use crate::text::display_width;
use crate::text::push_chars;
use crate::text::push_fill;
use crate::text::repeat_char;
use crate::text::str_columns;

verus! {

/// The padding left over when text of display width `dw` is laid in a column
/// `width` columns wide whose alignment reserves `reserved` columns: floored
/// at zero, since text wider than its space overflows instead of being cut.
pub open spec fn slack_of(width: int, dw: int, reserved: int) -> int {
    if width - dw - reserved >= 0 {
        width - dw - reserved
    } else {
        0
    }
}

/// How an alignment lays out its reserved padding and the leftover slack:
/// the pair of left and right padding column counts. Centering splits the
/// slack evenly, the odd column going right; a fixed centre padding keeps
/// its configured right padding and gives all slack to the left.
pub open spec fn split_padding(a: Align, slack: int) -> (int, int) {
    match a {
        Align::Center => (slack / 2, slack - slack / 2),
        Align::Left => (0int, slack),
        Align::Right => (slack, 0int),
        Align::CenterPadded { padl, padr } => (padl + slack, padr as int),
        Align::LeftPadded { padl } => (padl as int, slack),
        Align::RightPadded { padr } => (slack, padr as int),
    }
}

/// Padding conservation: whenever the text and the alignment's reserved
/// padding fit within the column, the left and the right padding together
/// make up exactly the column width less the display width of the text, and
/// neither is negative.
pub proof fn lemma_padding_conservation(a: Align, width: int, dw: int)
    requires
        0 <= dw,
        width - dw >= a.spec_padding(),
    ensures
        ({
            let (l, r) = split_padding(a, slack_of(width, dw, a.spec_padding()));
            l + r == width - dw && l >= 0 && r >= 0
        }),
{
}

/// One rendered line of a content cell: left padding, the painted text,
/// right padding.
pub open spec fn format_content(line: Seq<char>, a: Align, st: TextStyle, width: int) -> Seq<
    char,
> {
    let slack = slack_of(width, str_columns(line), a.spec_padding());
    let l = split_padding(a, slack).0;
    let r = split_padding(a, slack).1;
    repeat_char(' ', l) + paint_of(st, line) + repeat_char(' ', r)
}

/// Appends one formatted content line to `out`.
pub(crate) fn push_content(
    out: &mut String,
    line: &Vec<char>,
    a: Align,
    st: &TextStyle,
    width: usize,
)
    requires
        str_columns(line@) <= usize::MAX,
        a.spec_padding() <= usize::MAX,
    ensures
        final(out)@ == old(out)@ + format_content(line@, a, *st, width as int),
{
    let dw: usize = display_width(line);
    let reserved: usize = a.padding_size();
    let slack: usize = if dw >= width {
        0
    } else if reserved >= width - dw {
        0
    } else {
        width - dw - reserved
    };
    proof {
        crate::text::lemma_str_columns_nonneg(line@);
        assert(slack == slack_of(width as int, str_columns(line@), a.spec_padding()));
    }
    let pads: (usize, usize) = match a {
        Align::Center => (slack / 2, slack - slack / 2),
        Align::Left => (0, slack),
        Align::Right => (slack, 0),
        Align::CenterPadded { padl, padr } => (padl + slack, padr),
        Align::LeftPadded { padl } => (padl, slack),
        Align::RightPadded { padr } => (slack, padr),
    };
    let ghost mid = old(out)@ + repeat_char(' ', pads.0 as int);
    push_fill(out, ' ', pads.0);
    let mut text: String = String::new();
    push_chars(&mut text, line);
    proof {
        assert(Seq::<char>::empty() + line@ =~= line@);
    }
    let painted: String = paint(st, text.as_str());
    out.append(painted.as_str());
    push_fill(out, ' ', pads.1);
    proof {
        assert(out@ =~= old(out)@ + format_content(line@, a, *st, width as int));
    }
}

} // verus!
