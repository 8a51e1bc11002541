//! Colors, character styles, and the styled cell a grid is made of.

use vstd::prelude::*;

verus! {

/// A terminal color; `Reset` is the terminal's default.
#[derive(Clone, Copy, PartialEq, Eq, Structural, Debug)]
pub enum Color {
    Reset,
    Rgb(u8, u8, u8),
    LightYellow,
}

/// Character styling: foreground and background color, and bold.
#[derive(Clone, Copy, PartialEq, Eq, Structural, Debug)]
pub struct Style {
    pub fg: Color,
    pub bg: Color,
    pub bold: bool,
}

/// One character cell of the grid.
#[derive(Clone, Copy, PartialEq, Eq, Structural, Debug)]
pub struct Cell {
    pub ch: char,
    pub style: Style,
}

/// The default style: terminal colors, not bold.
pub open spec fn plain_style() -> Style {
    Style { fg: Color::Reset, bg: Color::Reset, bold: false }
}

/// The bold variant of the default style, used for the header row.
pub open spec fn bold_style() -> Style {
    Style { fg: Color::Reset, bg: Color::Reset, bold: true }
}

/// The muted gray used for borders and row numbers.
pub open spec fn border_style() -> Style {
    Style { fg: Color::Rgb(64, 64, 64), bg: Color::Reset, bold: false }
}

/// The gray used for the status line text.
pub open spec fn status_style() -> Style {
    Style { fg: Color::Rgb(128, 128, 128), bg: Color::Reset, bold: false }
}

/// The red used for search matches.
pub open spec fn highlight_style() -> Style {
    Style { fg: Color::Rgb(200, 0, 0), bg: Color::Reset, bold: false }
}

/// The search-match style with the focused-match background added.
pub open spec fn highlight_current_style() -> Style {
    Style { fg: Color::Rgb(200, 0, 0), bg: Color::LightYellow, bold: false }
}

/// A cell holding `c` in style `st`.
pub open spec fn mk_cell(c: char, st: Style) -> Cell {
    Cell { ch: c, style: st }
}

/// A blank cell: a space in the default style.
pub open spec fn default_cell() -> Cell {
    Cell { ch: ' ', style: plain_style() }
}

impl Style {
    pub fn plain() -> (r: Style)
        ensures
            r == plain_style(),
    {
        Style { fg: Color::Reset, bg: Color::Reset, bold: false }
    }

    pub fn bold() -> (r: Style)
        ensures
            r == bold_style(),
    {
        Style { fg: Color::Reset, bg: Color::Reset, bold: true }
    }

    pub fn border() -> (r: Style)
        ensures
            r == border_style(),
    {
        Style { fg: Color::Rgb(64, 64, 64), bg: Color::Reset, bold: false }
    }

    pub fn status() -> (r: Style)
        ensures
            r == status_style(),
    {
        Style { fg: Color::Rgb(128, 128, 128), bg: Color::Reset, bold: false }
    }

    pub fn highlight() -> (r: Style)
        ensures
            r == highlight_style(),
    {
        Style { fg: Color::Rgb(200, 0, 0), bg: Color::Reset, bold: false }
    }

    pub fn highlight_current() -> (r: Style)
        ensures
            r == highlight_current_style(),
    {
        Style { fg: Color::Rgb(200, 0, 0), bg: Color::LightYellow, bold: false }
    }
}

impl Cell {
    pub fn blank() -> (r: Cell)
        ensures
            r == default_cell(),
    {
        Cell { ch: ' ', style: Style::plain() }
    }
}

} // verus!
