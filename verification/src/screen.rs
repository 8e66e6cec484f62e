//! Reading the screen of a vt100 parser: its size, its cursor, and what each
//! cell shows.
use vstd::prelude::*;

use crate::color::VtColor;

verus! {

/// What a screen cell shows: its colours, its text attributes, and its text.
#[derive(Clone, Debug, PartialEq, Eq)]
pub struct CellInfo {
    pub fg: VtColor,
    pub bg: VtColor,
    pub bold: bool,
    pub dim: bool,
    pub italic: bool,
    pub underline: bool,
    pub inverse: bool,
    /// The cell holds text.
    pub has_contents: bool,
    /// The cell is the second half of a wide character to its left.
    pub wide_continuation: bool,
    /// The text of the cell (empty when it holds none).
    pub contents: String,
}

#[verifier::external_type_specification]
#[verifier::external_body]
pub struct ExScreen(vt100::Screen);

/// The (rows, cols) size that `vt100::Screen::size` reports.
pub uninterp spec fn screen_size(screen: vt100::Screen) -> (u16, u16);

/// What `vt100::Screen::cell` reports at (`row`, `col`), as plain values.
pub uninterp spec fn screen_cell(screen: vt100::Screen, row: u16, col: u16) -> Option<CellInfo>;

/// The (row, col) cursor position that `vt100::Screen::cursor_position`
/// reports.
pub uninterp spec fn screen_cursor_position(screen: vt100::Screen) -> (u16, u16);

/// Whether `vt100::Screen::hide_cursor` reports the cursor hidden.
pub uninterp spec fn screen_hides_cursor(screen: vt100::Screen) -> bool;

/// Calls `vt100::Screen::size`; its (rows, cols) result is named
/// `screen_size`.
#[verifier::external_body]
pub(crate) fn vt_size(screen: &vt100::Screen) -> (size: (u16, u16))
    ensures
        size == screen_size(*screen),
{
    screen.size()
}

/// Calls `vt100::Screen::cell` and copies the cell's colours, attributes
/// and text into a `CellInfo`; the result is named `screen_cell`.
#[verifier::external_body]
pub(crate) fn vt_cell(screen: &vt100::Screen, row: u16, col: u16) -> (cell: Option<CellInfo>)
    ensures
        cell == screen_cell(*screen, row, col),
{
    let color = |c: vt100::Color| match c {
        vt100::Color::Default => VtColor::Default,
        vt100::Color::Idx(i) => VtColor::Idx(i),
        vt100::Color::Rgb(r, g, b) => VtColor::Rgb(r, g, b),
    };
    let c = screen.cell(row, col)?;
    Some(CellInfo {
        fg: color(c.fgcolor()), bg: color(c.bgcolor()), bold: c.bold(), dim: c.dim(),
        italic: c.italic(), underline: c.underline(), inverse: c.inverse(),
        has_contents: c.has_contents(), wide_continuation: c.is_wide_continuation(),
        contents: c.contents().to_string(),
    })
}

/// Calls `vt100::Screen::cursor_position`; its (row, col) result is named
/// `screen_cursor_position`.
#[verifier::external_body]
pub(crate) fn vt_cursor_position(screen: &vt100::Screen) -> (pos: (u16, u16))
    ensures
        pos == screen_cursor_position(*screen),
{
    screen.cursor_position()
}

/// Calls `vt100::Screen::hide_cursor`; its result is named
/// `screen_hides_cursor`.
#[verifier::external_body]
pub(crate) fn vt_hide_cursor(screen: &vt100::Screen) -> (hidden: bool)
    ensures
        hidden == screen_hides_cursor(*screen),
{
    screen.hide_cursor()
}

} // verus!
