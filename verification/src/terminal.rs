//! The terminal surface: when to redraw, its grid and font size, the text
//! buffer cells drawn from a vt100 screen, and the RGBA pixels of a
//! rendered frame.
use vstd::prelude::*;

use crate::color::{
    theme_bg, theme_bg_color, theme_fg, theme_fg_color, vt100_color_to_tui, vt_to_tui, Modifier,
    Style, TuiColor, MODIFIER_BOLD, MODIFIER_DIM, MODIFIER_ITALIC, MODIFIER_REVERSED,
    MODIFIER_UNDERLINED,
};
use crate::rendering::resized;
use crate::screen::{screen_cell, screen_size, vt_cell, vt_size, CellInfo};

verus! {

/// The font size a surface starts with.
pub const TERMINAL_FONT_SIZE: i32 = 14;

/// Whether the terminal image must be drawn again.
pub struct TerminalRedrawState {
    needs_redraw: bool,
}

impl View for TerminalRedrawState {
    type V = bool;

    closed spec fn view(&self) -> bool {
        self.needs_redraw
    }
}

impl Default for TerminalRedrawState {
    /// A new surface needs a first draw.
    fn default() -> (s: TerminalRedrawState)
        ensures
            s@,
    {
        TerminalRedrawState { needs_redraw: true }
    }
}

impl TerminalRedrawState {
    /// Asks for a redraw.
    pub fn request(&mut self)
        ensures
            final(self)@,
    {
        self.needs_redraw = true;
    }

    /// Whether a redraw was asked for since the last `take`; clears the
    /// request.
    pub fn take(&mut self) -> (needed: bool)
        ensures
            needed == old(self)@,
            !final(self)@,
    {
        let needed = self.needs_redraw;
        self.needs_redraw = false;
        needed
    }
}

/// The grid and font size of the terminal surface.
pub struct TerminalSurface {
    cols: u16,
    rows: u16,
    font_size: i32,
}

/// The abstract state of a surface: columns, rows, font size.
pub struct SurfaceView {
    pub cols: u16,
    pub rows: u16,
    pub font_size: i32,
}

impl View for TerminalSurface {
    type V = SurfaceView;

    closed spec fn view(&self) -> SurfaceView {
        SurfaceView { cols: self.cols, rows: self.rows, font_size: self.font_size }
    }
}

impl TerminalSurface {
    /// A surface of `cols` by `rows` cells at the starting font size.
    pub fn new(cols: u16, rows: u16) -> (s: TerminalSurface)
        ensures
            s@ == (SurfaceView { cols, rows, font_size: TERMINAL_FONT_SIZE }),
    {
        TerminalSurface { cols, rows, font_size: TERMINAL_FONT_SIZE }
    }

    /// The number of columns.
    pub fn cols(&self) -> (c: u16)
        ensures
            c == self@.cols,
    {
        self.cols
    }

    /// The number of rows.
    pub fn rows(&self) -> (r: u16)
        ensures
            r == self@.rows,
    {
        self.rows
    }

    /// The font size.
    pub fn font_size(&self) -> (size: i32)
        ensures
            size == self@.font_size,
    {
        self.font_size
    }

    /// Changes the font size by `delta`; `true` when it changed (the
    /// renderer must then be rebuilt).
    pub fn adjust_font_size(&mut self, delta: i32) -> (changed: bool)
        requires
            i32::MIN <= old(self)@.font_size + delta <= i32::MAX,
        ensures
            changed == (delta != 0),
            final(self)@ == (SurfaceView { font_size: (old(self)@.font_size + delta) as i32, ..old(self)@ }),
    {
        let new_size = self.font_size + delta;
        if new_size == self.font_size {
            return false;
        }
        self.font_size = new_size;
        true
    }

    /// Takes the new grid size `cols` by `rows`, unless one of them is zero;
    /// `true` when it was taken (the text buffer and image must then follow).
    pub fn resize(&mut self, cols: u16, rows: u16) -> (resized: bool)
        ensures
            resized == (cols != 0 && rows != 0),
            final(self)@ == if resized { SurfaceView { cols, rows, ..old(self)@ } } else { old(self)@ },
    {
        if cols == 0 || rows == 0 {
            return false;
        }
        self.cols = cols;
        self.rows = rows;
        true
    }
}

/// The pixels of a rendered frame in the image buffer: `data` is cut or
/// padded with zeros to `width * height` RGBA pixels, and receives `rgba`
/// when that is exactly the size of the frame.
pub open spec fn frame_pixels(old: Seq<u8>, rgba: Seq<u8>, len: nat) -> Seq<u8> {
    if rgba.len() == len {
        rgba
    } else {
        resized(old, len)
    }
}

/// Fits the image buffer `data` to a `width` by `height` frame and copies
/// the rendered pixels `rgba` into it when they fill the frame exactly.
pub fn sync_image_data(data: &mut Vec<u8>, rgba: &[u8], width: u32, height: u32)
    requires
        width as int * height as int * 4 <= usize::MAX,
    ensures
        final(data)@ == frame_pixels(old(data)@, rgba@, (width as int * height as int * 4) as nat),
{
    let ghost start = data@;
    proof {
        vstd::arithmetic::mul::lemma_mul_nonnegative(width as int, height as int);
    }
    let target_len = width as usize * height as usize * 4;
    if data.len() != target_len {
        data.resize(target_len, 0);
    }
    assert forall|i: int| 0 <= i < target_len implies data@[i] == (if i < start.len() { start[i] } else { 0u8 }) by {
        if start.len() < target_len && i >= start.len() {
            assert(vstd::pervasive::cloned::<u8>(0u8, data@[i]));
        }
    }
    if rgba.len() == target_len {
        let mut i: usize = 0;
        while i < target_len
            invariant
                i <= target_len,
                rgba@.len() == target_len,
                data@.len() == target_len,
                forall|j: int| 0 <= j < i ==> #[trigger] data@[j] == rgba@[j],
            decreases target_len - i,
        {
            data.set(i, rgba[i]);
            i += 1;
        }
        assert(data@ =~= rgba@);
    } else {
        assert(data@ =~= resized(start, target_len as nat));
    }
}

/// The modifiers a cell's attributes ask for: bold, dim, italic,
/// underlined, and reversed for inverse video.
pub open spec fn cell_modifier_bits(cell: CellInfo) -> u16 {
    (if cell.bold { MODIFIER_BOLD } else { 0u16 }) | (if cell.dim { MODIFIER_DIM } else { 0u16 }) | (
    if cell.italic { MODIFIER_ITALIC } else { 0u16 }) | (if cell.underline {
        MODIFIER_UNDERLINED
    } else {
        0u16
    }) | (if cell.inverse { MODIFIER_REVERSED } else { 0u16 })
}

/// The text buffer style of a cell: its colours (the theme's for the
/// default colour) and the modifiers of its attributes.
pub open spec fn cell_style(cell: CellInfo) -> Style {
    Style {
        fg: Some(
            match vt_to_tui(cell.fg) {
                Some(c) => c,
                None => theme_fg(),
            },
        ),
        bg: Some(
            match vt_to_tui(cell.bg) {
                Some(c) => c,
                None => theme_bg(),
            },
        ),
        add_modifier: Modifier { bits: cell_modifier_bits(cell) },
        sub_modifier: Modifier { bits: 0 },
    }
}

/// The text buffer style of a screen cell.
pub fn vt100_cell_style(cell: &CellInfo) -> (style: Style)
    ensures
        style == cell_style(*cell),
{
    let fg = match vt100_color_to_tui(cell.fg) {
        Some(c) => c,
        None => theme_fg_color(),
    };
    let bg = match vt100_color_to_tui(cell.bg) {
        Some(c) => c,
        None => theme_bg_color(),
    };
    let style = Style::new().fg(fg).bg(bg);
    let bold = Modifier { bits: if cell.bold { MODIFIER_BOLD } else { 0 } };
    let dim = Modifier { bits: if cell.dim { MODIFIER_DIM } else { 0 } };
    let italic = Modifier { bits: if cell.italic { MODIFIER_ITALIC } else { 0 } };
    let underlined = Modifier { bits: if cell.underline { MODIFIER_UNDERLINED } else { 0 } };
    let reversed = Modifier { bits: if cell.inverse { MODIFIER_REVERSED } else { 0 } };
    let modifiers = bold.union(dim).union(italic).union(underlined).union(reversed);
    let out = style.add_modifier(modifiers);
    let m = modifiers.bits;
    assert(0u16 | m == m) by (bit_vector);
    assert(0u16 & !m == 0u16) by (bit_vector);
    out
}

/// A rectangle of text buffer cells.
#[derive(Clone, Copy, Debug, PartialEq, Eq, Structural)]
pub struct Rect {
    pub x: u16,
    pub y: u16,
    pub width: u16,
    pub height: u16,
}

/// A selection of screen cells from `start` to `end` (row, column), both
/// included, in reading order.
#[derive(Clone, Copy, Debug, PartialEq, Eq, Structural)]
pub struct SelectionBounds {
    pub start_row: u16,
    pub start_col: u16,
    pub end_row: u16,
    pub end_col: u16,
}

pub open spec fn pos_le(a: (u16, u16), b: (u16, u16)) -> bool {
    a.0 < b.0 || (a.0 == b.0 && a.1 <= b.1)
}

impl SelectionBounds {
    pub open spec fn spec_contains(self, row: u16, col: u16) -> bool {
        pos_le((self.start_row, self.start_col), (row, col)) && pos_le((row, col), (self.end_row, self.end_col))
    }

    /// Whether the selection holds the cell (`row`, `col`).
    pub fn contains(&self, row: u16, col: u16) -> (c: bool)
        ensures
            c == self.spec_contains(row, col),
    {
        let after_start = self.start_row < row || (self.start_row == row && self.start_col <= col);
        let before_end = row < self.end_row || (row == self.end_row && col <= self.end_col);
        after_start && before_end
    }
}

/// A text buffer cell to set: its position, its text and its style.
#[derive(Clone, Debug)]
pub struct PlacedCell {
    pub x: u16,
    pub y: u16,
    pub symbol: String,
    pub style: Style,
}

/// The view of a placed cell: position, text, style.
pub open spec fn placed_view(p: PlacedCell) -> (u16, u16, Seq<char>, Style) {
    (p.x, p.y, p.symbol@, p.style)
}

/// What the terminal widget draws: `base` over the whole area, then each of
/// `cells`.
pub struct WidgetFrame {
    pub base: Style,
    pub cells: Vec<PlacedCell>,
}

/// Draws a vt100 screen, with a selection shown in reverse video, into a
/// text buffer.
pub struct TerminalWidget<'a> {
    pub screen: &'a vt100::Screen,
    pub selection: Option<SelectionBounds>,
}

pub open spec fn min_u16(a: u16, b: u16) -> u16 {
    if a <= b { a } else { b }
}

impl<'a> TerminalWidget<'a> {
    /// The rows and columns drawn: the screen's, cut to the area.
    pub open spec fn draw_size(&self, area: Rect) -> (u16, u16) {
        let (rows, cols) = screen_size(*self.screen);
        (min_u16(rows, area.height), min_u16(cols, area.width))
    }

    pub open spec fn selected(&self, row: u16, col: u16) -> bool {
        match self.selection {
            Some(b) => b.spec_contains(row, col),
            None => false,
        }
    }

    /// The cell drawn for screen cell (`row`, `col`): none where the screen
    /// has no cell or the cell continues a wide character; else its text
    /// (a blank when it has none) in its style, reversed when selected.
    pub open spec fn cell_entry(&self, area: Rect, row: u16, col: u16) -> Seq<(u16, u16, Seq<char>, Style)> {
        match screen_cell(*self.screen, row, col) {
            None => Seq::empty(),
            Some(cell) => if cell.wide_continuation {
                Seq::empty()
            } else {
                let style = cell_style(cell);
                seq![(
                    (area.x + col) as u16,
                    (area.y + row) as u16,
                    if cell.has_contents { cell.contents@ } else { seq![' '] },
                    if self.selected(row, col) { style.with_modifier(Modifier { bits: MODIFIER_REVERSED }) } else { style },
                )]
            },
        }
    }

    /// The cells drawn for the first `n` positions of the drawn rows and
    /// columns, in row-major order.
    pub open spec fn entries(&self, area: Rect, n: nat) -> Seq<(u16, u16, Seq<char>, Style)>
        decreases n,
    {
        let cols = self.draw_size(area).1 as int;
        if n == 0 || cols == 0 {
            Seq::empty()
        } else {
            let k = n - 1;
            self.entries(area, k as nat) + self.cell_entry(area, (k / cols) as u16, (k % cols) as u16)
        }
    }

    /// What the widget draws into `area`: the theme colours over the whole
    /// area, then the cells of the screen that fit in it.
    pub fn render_cells(&self, area: Rect) -> (frame: WidgetFrame)
        requires
            area.x + area.width <= u16::MAX,
            area.y + area.height <= u16::MAX,
        ensures
            frame.base == (Style { fg: Some(theme_fg()), bg: Some(theme_bg()), ..Style::plain() }),
            frame.cells@.map_values(|p: PlacedCell| placed_view(p)) == self.entries(
                area,
                (self.draw_size(area).0 * self.draw_size(area).1) as nat,
            ),
    {
        broadcast use vstd::string::group_string_axioms;

        let base = Style::new().fg(theme_fg_color()).bg(theme_bg_color());
        let (rows, cols) = vt_size(self.screen);
        let draw_rows = if rows < area.height { rows } else { area.height };
        let draw_cols = if cols < area.width { cols } else { area.width };
        let mut cells: Vec<PlacedCell> = Vec::new();
        let mut row: u16 = 0;
        while row < draw_rows
            invariant
                row <= draw_rows,
                (draw_rows, draw_cols) == self.draw_size(area),
                draw_rows <= area.height,
                draw_cols <= area.width,
                area.x + area.width <= u16::MAX,
                area.y + area.height <= u16::MAX,
                cells@.map_values(|p: PlacedCell| placed_view(p)) == self.entries(area, (row * draw_cols) as nat),
            decreases draw_rows - row,
        {
            let mut col: u16 = 0;
            while col < draw_cols
                invariant
                    row < draw_rows,
                    col <= draw_cols,
                    (draw_rows, draw_cols) == self.draw_size(area),
                    draw_rows <= area.height,
                    draw_cols <= area.width,
                    area.x + area.width <= u16::MAX,
                    area.y + area.height <= u16::MAX,
                    cells@.map_values(|p: PlacedCell| placed_view(p)) == self.entries(area, (row * draw_cols + col) as nat),
                decreases draw_cols - col,
            {
                let ghost n = (row * draw_cols + col) as int;
                let ghost before = cells@.map_values(|p: PlacedCell| placed_view(p));
                proof {
                    vstd::arithmetic::div_mod::lemma_fundamental_div_mod_converse(n, draw_cols as int, row as int, col as int);
                    assert(self.entries(area, (n + 1) as nat) == before + self.cell_entry(area, row, col));
                }
                match vt_cell(self.screen, row, col) {
                    None => {
                        assert(cells@.map_values(|p: PlacedCell| placed_view(p)) =~= before + self.cell_entry(area, row, col));
                    },
                    Some(cell) => {
                        if cell.wide_continuation {
                            assert(cells@.map_values(|p: PlacedCell| placed_view(p)) =~= before + self.cell_entry(area, row, col));
                        } else {
                            let mut style = vt100_cell_style(&cell);
                            let symbol = if cell.has_contents {
                                cell.contents
                            } else {
                                proof {
                                    reveal_strlit(" ");
                                }
                                " ".to_string()
                            };
                            let selected = match &self.selection {
                                Some(bounds) => bounds.contains(row, col),
                                None => false,
                            };
                            if selected {
                                style = style.add_modifier(Modifier { bits: MODIFIER_REVERSED });
                            }
                            assert(symbol@ == if cell.has_contents { cell.contents@ } else { seq![' '] });
                            cells.push(PlacedCell { x: area.x + col, y: area.y + row, symbol, style });
                            assert(cells@.map_values(|p: PlacedCell| placed_view(p)) =~= before + self.cell_entry(area, row, col));
                        }
                    },
                }
                col += 1;
            }
            assert((row + 1) * draw_cols == row * draw_cols + draw_cols) by (nonlinear_arith);
            row += 1;
        }
        WidgetFrame { base, cells }
    }
}

/// Changing the font size by `delta` and then by `-delta` gives back the
/// surface as it was.
pub proof fn lemma_font_size_round_trip(v: SurfaceView, delta: i32)
    requires
        i32::MIN <= v.font_size + delta <= i32::MAX,
        delta != i32::MIN,
    ensures
        ({
            let grown = SurfaceView { font_size: (v.font_size + delta) as i32, ..v };
            SurfaceView { font_size: (grown.font_size - delta) as i32, ..grown } == v
        }),
{
}

/// Each attribute of a cell turns on its own modifier of the style and
/// nothing else: bold 0x01, dim 0x02, italic 0x04, underlined 0x08 and
/// reversed (for inverse video) 0x40; no modifier is removed.
pub proof fn lemma_cell_modifiers(cell: CellInfo)
    ensures
        ({
            let bits = cell_style(cell).add_modifier.bits;
            &&& (bits & 0x01 != 0) == cell.bold
            &&& (bits & 0x02 != 0) == cell.dim
            &&& (bits & 0x04 != 0) == cell.italic
            &&& (bits & 0x08 != 0) == cell.underline
            &&& (bits & 0x40 != 0) == cell.inverse
            &&& bits & !0x4fu16 == 0
        }),
        cell_style(cell).sub_modifier.bits == 0,
{
    let a: u16 = if cell.bold { 0x01 } else { 0 };
    let b: u16 = if cell.dim { 0x02 } else { 0 };
    let c: u16 = if cell.italic { 0x04 } else { 0 };
    let d: u16 = if cell.underline { 0x08 } else { 0 };
    let e: u16 = if cell.inverse { 0x40 } else { 0 };
    let bits = cell_style(cell).add_modifier.bits;
    assert(bits == a | b | c | d | e);
    assert({
        &&& ((a | b | c | d | e) & 0x01 != 0) == (a != 0)
        &&& ((a | b | c | d | e) & 0x02 != 0) == (b != 0)
        &&& ((a | b | c | d | e) & 0x04 != 0) == (c != 0)
        &&& ((a | b | c | d | e) & 0x08 != 0) == (d != 0)
        &&& ((a | b | c | d | e) & 0x40 != 0) == (e != 0)
        &&& (a | b | c | d | e) & !0x4fu16 == 0
    }) by (bit_vector)
        requires
            a == 0 || a == 0x01,
            b == 0 || b == 0x02,
            c == 0 || c == 0x04,
            d == 0 || d == 0x08,
            e == 0 || e == 0x40,
    ;
}

/// The colours of a cell's style: the palette colour of an indexed colour,
/// a true colour as it is, and for the default colour the theme's
/// foreground (220, 215, 186) and background (31, 31, 40).
pub proof fn lemma_cell_colors(cell: CellInfo)
    ensures
        cell_style(cell).fg == Some(match cell.fg {
            crate::color::VtColor::Default => TuiColor::Rgb(220, 215, 186),
            crate::color::VtColor::Idx(i) => crate::color::palette_color(i),
            crate::color::VtColor::Rgb(r, g, b) => TuiColor::Rgb(r, g, b),
        }),
        cell_style(cell).bg == Some(match cell.bg {
            crate::color::VtColor::Default => TuiColor::Rgb(31, 31, 40),
            crate::color::VtColor::Idx(i) => crate::color::palette_color(i),
            crate::color::VtColor::Rgb(r, g, b) => TuiColor::Rgb(r, g, b),
        }),
{
}

/// A selection in reading order holds its two ends (when the start comes
/// first) and every cell of the rows strictly between them, and no cell of
/// a row before its start or after its end.
pub proof fn lemma_selection_reading_order(b: SelectionBounds, row: u16, col: u16)
    ensures
        (b.start_row < b.end_row || (b.start_row == b.end_row && b.start_col <= b.end_col)) ==> b.spec_contains(
            b.start_row,
            b.start_col,
        ) && b.spec_contains(b.end_row, b.end_col),
        b.start_row < row < b.end_row ==> b.spec_contains(row, col),
        row < b.start_row || row > b.end_row ==> !b.spec_contains(row, col),
{
}

/// The widget draws a screen cell that is not the second half of a wide
/// character at its column and row offset by the area's corner, with its
/// text (a blank when it has none), in reverse video exactly when the cell
/// is inverse or selected.
pub proof fn lemma_widget_cell(w: TerminalWidget, area: Rect, row: u16, col: u16, cell: CellInfo)
    requires
        screen_cell(*w.screen, row, col) == Some(cell),
        !cell.wide_continuation,
        area.x + col <= u16::MAX,
        area.y + row <= u16::MAX,
    ensures
        w.cell_entry(area, row, col).len() == 1,
        w.cell_entry(area, row, col)[0].0 == area.x + col,
        w.cell_entry(area, row, col)[0].1 == area.y + row,
        w.cell_entry(area, row, col)[0].2 == if cell.has_contents { cell.contents@ } else { seq![' '] },
        (w.cell_entry(area, row, col)[0].3.add_modifier.bits & 0x40 != 0) == (cell.inverse || w.selected(row, col)),
{
    lemma_cell_modifiers(cell);
    let bits = cell_style(cell).add_modifier.bits;
    assert((bits | 0x40u16) & 0x40 != 0) by (bit_vector);
}

} // verus!
