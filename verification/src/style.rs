//! The styling capability: plain data describing how a span of text is to be
//! drawn, and the one operation the rest of the crate needs from it, painting
//! a string. Painting itself is delegated to the `ansi_term` crate.

use vstd::prelude::*;

verus! {

/// A terminal colour, as the styling backend understands it.
#[derive(Debug, Clone, Copy, PartialEq, Eq)]
pub enum TextColour {
    Black,
    Red,
    Green,
    Yellow,
    Blue,
    Purple,
    Cyan,
    White,
    Fixed(u8),
    Rgb(u8, u8, u8),
}

/// Visual attributes applied to a cell's text when it is rendered.
///
/// The layout engine never inspects a style; it only hands it, together with
/// the visible text of a rendered line, to [`paint`].
#[derive(Debug, Clone, Copy, PartialEq, Eq)]
pub struct TextStyle {
    pub foreground: Option<TextColour>,
    pub background: Option<TextColour>,
    pub is_bold: bool,
    pub is_dimmed: bool,
    pub is_italic: bool,
    pub is_underline: bool,
    pub is_blink: bool,
    pub is_reverse: bool,
    pub is_hidden: bool,
    pub is_strikethrough: bool,
}

/// The style with no attributes set: text painted with it is unchanged.
pub open spec fn plain_style() -> TextStyle {
    TextStyle {
        foreground: None,
        background: None,
        is_bold: false,
        is_dimmed: false,
        is_italic: false,
        is_underline: false,
        is_blink: false,
        is_reverse: false,
        is_hidden: false,
        is_strikethrough: false,
    }
}

impl TextStyle {
    pub open spec fn is_plain(self) -> bool {
        self == plain_style()
    }

    /// The style with no attributes set.
    pub fn plain() -> (s: TextStyle)
        ensures
            s == plain_style(),
    {
        TextStyle {
            foreground: None,
            background: None,
            is_bold: false,
            is_dimmed: false,
            is_italic: false,
            is_underline: false,
            is_blink: false,
            is_reverse: false,
            is_hidden: false,
            is_strikethrough: false,
        }
    }
}

impl Default for TextStyle {
    fn default() -> (s: Self)
        ensures
            s == plain_style(),
    {
        TextStyle::plain()
    }
}

/// The text that the styling backend produces for `text` drawn with `style`:
/// the escape-coded span. It depends on the style and the characters alone.
pub uninterp spec fn paint_of(style: TextStyle, text: Seq<char>) -> Seq<char>;

#[verifier::external_type_specification]
#[verifier::external_body]
pub struct ExAnsiColour(ansi_term::Colour);

#[verifier::external_type_specification]
#[verifier::external_body]
pub struct ExAnsiStyle(ansi_term::Style);

/// Carries a [`TextColour`] over to `ansi_term`, variant for variant.
#[verifier::external_body]
fn colour_to_ansi(c: &TextColour) -> ansi_term::Colour {
    match *c {
        TextColour::Black => ansi_term::Colour::Black,
        TextColour::Red => ansi_term::Colour::Red,
        TextColour::Green => ansi_term::Colour::Green,
        TextColour::Yellow => ansi_term::Colour::Yellow,
        TextColour::Blue => ansi_term::Colour::Blue,
        TextColour::Purple => ansi_term::Colour::Purple,
        TextColour::Cyan => ansi_term::Colour::Cyan,
        TextColour::White => ansi_term::Colour::White,
        TextColour::Fixed(n) => ansi_term::Colour::Fixed(n),
        TextColour::Rgb(r, g, b) => ansi_term::Colour::RGB(r, g, b),
    }
}

/// Carries a [`TextStyle`] over to `ansi_term`, field for field.
#[verifier::external_body]
fn style_to_ansi(st: &TextStyle) -> ansi_term::Style {
    ansi_term::Style {
        foreground: st.foreground.map(|c| colour_to_ansi(&c)),
        background: st.background.map(|c| colour_to_ansi(&c)),
        is_bold: st.is_bold,
        is_dimmed: st.is_dimmed,
        is_italic: st.is_italic,
        is_underline: st.is_underline,
        is_blink: st.is_blink,
        is_reverse: st.is_reverse,
        is_hidden: st.is_hidden,
        is_strikethrough: st.is_strikethrough,
    }
}

/// Relies on `ansi_term::Style::paint` (with `ANSIString`'s `Display`): the
/// result is the text between the style's escape prefix and suffix, both
/// functions of the style alone, and both empty for the plain style.
#[verifier::external_body]
pub(crate) fn paint(st: &TextStyle, s: &str) -> (r: String)
    ensures
        r@ == paint_of(*st, s@),
        st.is_plain() ==> r@ == s@,
{
    style_to_ansi(st).paint(s).to_string()
}

} // verus!
