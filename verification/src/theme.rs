//! The colour scheme (Tokyo Night) and the text styles built from it.
use vstd::prelude::*;

verus! {

/// A colour given by its red, green and blue parts.
#[derive(Clone, Copy, Debug, PartialEq, Eq, Structural)]
pub struct Rgb {
    pub r: u8,
    pub g: u8,
    pub b: u8,
}

/// A text style: the foreground and background colours it sets, if any.
#[derive(Clone, Copy, Debug, PartialEq, Eq, Structural)]
pub struct Style {
    pub fg: Option<Rgb>,
    pub bg: Option<Rgb>,
}

/// The palette and the styles the screens use.
pub struct Theme;

/// A colour from its parts.
pub open spec fn rgb(r: u8, g: u8, b: u8) -> Rgb {
    Rgb { r, g, b }
}

/// The background.
pub open spec fn bg_color() -> Rgb { rgb(26, 27, 38) }

/// The background of panels and pop-ups.
pub open spec fn bg_dark_color() -> Rgb { rgb(22, 22, 30) }

/// The background of the selected row.
pub open spec fn bg_highlight_color() -> Rgb { rgb(38, 40, 59) }

/// The text colour.
pub open spec fn fg_color() -> Rgb { rgb(192, 202, 245) }

/// The colour of secondary text.
pub open spec fn fg_dim_color() -> Rgb { rgb(86, 95, 137) }

/// The accent purple.
pub open spec fn purple_color() -> Rgb { rgb(187, 154, 247) }

/// The accent pink.
pub open spec fn pink_color() -> Rgb { rgb(255, 121, 198) }

/// The colour of borders.
pub open spec fn border_color() -> Rgb { rgb(59, 66, 97) }

fn color(r: u8, g: u8, b: u8) -> (c: Rgb)
    ensures
        c == rgb(r, g, b),
{
    Rgb { r, g, b }
}

impl Theme {
    /// The plain background.
    pub fn bg() -> (s: Style)
        ensures
            s == (Style { fg: None, bg: Some(bg_color()) }),
    {
        Style { fg: None, bg: Some(color(26, 27, 38)) }
    }

    /// The background of panels and pop-ups.
    pub fn bg_dark() -> (s: Style)
        ensures
            s == (Style { fg: None, bg: Some(bg_dark_color()) }),
    {
        Style { fg: None, bg: Some(color(22, 22, 30)) }
    }

    /// Ordinary text.
    pub fn text() -> (s: Style)
        ensures
            s == (Style { fg: Some(fg_color()), bg: None }),
    {
        Style { fg: Some(color(192, 202, 245)), bg: None }
    }

    /// Secondary text.
    pub fn dim() -> (s: Style)
        ensures
            s == (Style { fg: Some(fg_dim_color()), bg: None }),
    {
        Style { fg: Some(color(86, 95, 137)), bg: None }
    }

    /// The title.
    pub fn purple() -> (s: Style)
        ensures
            s == (Style { fg: Some(purple_color()), bg: None }),
    {
        Style { fg: Some(color(187, 154, 247)), bg: None }
    }

    /// Warnings.
    pub fn pink() -> (s: Style)
        ensures
            s == (Style { fg: Some(pink_color()), bg: None }),
    {
        Style { fg: Some(color(255, 121, 198)), bg: None }
    }

    /// The selected row.
    pub fn selected() -> (s: Style)
        ensures
            s == (Style { fg: Some(fg_color()), bg: Some(bg_highlight_color()) }),
    {
        Style { fg: Some(color(192, 202, 245)), bg: Some(color(38, 40, 59)) }
    }

    /// Borders.
    pub fn border() -> (s: Style)
        ensures
            s == (Style { fg: Some(border_color()), bg: None }),
    {
        Style { fg: Some(color(59, 66, 97)), bg: None }
    }
}

} // verus!
