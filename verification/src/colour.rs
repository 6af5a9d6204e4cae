//! Colours and styles as the terminal names them.

use vstd::prelude::*;

use ratatui::style::Color as Tone;
use std::str::FromStr;

verus! {

/// A terminal colour.
#[derive(Debug, Clone, Copy, PartialEq, Eq, Structural)]
pub enum Color {
    Reset,
    Black,
    Red,
    Green,
    Yellow,
    Blue,
    Magenta,
    Cyan,
    Gray,
    DarkGray,
    LightRed,
    LightGreen,
    LightYellow,
    LightBlue,
    LightMagenta,
    LightCyan,
    White,
    Rgb(u8, u8, u8),
    Indexed(u8),
}

/// The colour that a spelling stands for, where it stands for one: a name, a
/// hex triple or an index.
pub uninterp spec fn spelled_colour(spelling: Seq<char>) -> Option<Color>;

/// The colour that `ratatui`'s `Color::from_str` reads from a spelling, and
/// `None` where it refuses it.
#[verifier::external_body]
pub(crate) fn read_colour(spelling: &str) -> (colour: Option<Color>)
    ensures
        colour == spelled_colour(spelling@),
{
    Some(match Tone::from_str(spelling).ok()? {
        Tone::Reset => Color::Reset, Tone::Black => Color::Black, Tone::Red => Color::Red,
        Tone::Green => Color::Green, Tone::Yellow => Color::Yellow, Tone::Blue => Color::Blue,
        Tone::Magenta => Color::Magenta, Tone::Cyan => Color::Cyan, Tone::Gray => Color::Gray,
        Tone::DarkGray => Color::DarkGray, Tone::LightRed => Color::LightRed,
        Tone::LightGreen => Color::LightGreen, Tone::LightYellow => Color::LightYellow,
        Tone::LightBlue => Color::LightBlue, Tone::LightMagenta => Color::LightMagenta,
        Tone::LightCyan => Color::LightCyan, Tone::White => Color::White,
        Tone::Rgb(r, g, b) => Color::Rgb(r, g, b), Tone::Indexed(i) => Color::Indexed(i),
    })
}

/// The colours of an optional list.
pub open spec fn option_colours(colours: Option<Vec<Color>>) -> Option<Seq<Color>> {
    match colours {
        Some(colours) => Some(colours@),
        None => None,
    }
}

/// How a piece of text is drawn.
#[derive(Debug, Clone, Copy, PartialEq, Eq, Structural)]
pub struct Style {
    /// The colour of the text, where it is not the terminal's own.
    pub fg: Option<Color>,
    /// Whether the terminal is asked to draw the text faintly.
    pub dim: bool,
}

/// The style that leaves text as the terminal draws it.
pub open spec fn plain_style() -> Style {
    Style { fg: None, dim: false }
}

/// The style that colours text and does nothing else.
pub open spec fn coloured_style(colour: Color) -> Style {
    Style { fg: Some(colour), dim: false }
}

impl Default for Style {
    /// The style that leaves text as the terminal draws it.
    fn default() -> (style: Self)
        ensures
            style == plain_style(),
    {
        Style { fg: None, dim: false }
    }
}

impl Style {
    /// The style that colours text with `colour` and does nothing else.
    pub fn of(colour: Color) -> (style: Self)
        ensures
            style == coloured_style(colour),
    {
        Style { fg: Some(colour), dim: false }
    }
}

} // verus!
