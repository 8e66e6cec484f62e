//! Terminal colours: the xterm 256-colour palette, the colours a vt100
//! screen reports, the styles drawn into a text buffer, and the RGBA values
//! used by the debug image.
use vstd::prelude::*;

verus! {

/// A four-channel colour, red, green, blue and alpha.
pub type Rgba = [u8; 4];

/// The colours of a text buffer cell (the sixteen named ANSI colours, a true
/// colour, an index into the 256-colour palette, or the terminal's default).
#[derive(Clone, Copy, Debug, PartialEq, Eq, Structural)]
pub enum TuiColor {
    Reset,
    Black,
    Red,
    Green,
    Yellow,
    Blue,
    Magenta,
    Cyan,
    Gray,
    DarkGray,
    LightRed,
    LightGreen,
    LightYellow,
    LightBlue,
    LightMagenta,
    LightCyan,
    White,
    Rgb(u8, u8, u8),
    Indexed(u8),
}

/// The colour of a vt100 screen cell: the default colour, a palette index,
/// or a true colour.
#[derive(Clone, Copy, Debug, PartialEq, Eq, Structural)]
pub enum VtColor {
    Default,
    Idx(u8),
    Rgb(u8, u8, u8),
}

/// A set of text modifiers, one bit each.
#[derive(Clone, Copy, Debug, PartialEq, Eq, Structural)]
pub struct Modifier {
    pub bits: u16,
}

pub const MODIFIER_BOLD: u16 = 0x0001;
pub const MODIFIER_DIM: u16 = 0x0002;
pub const MODIFIER_ITALIC: u16 = 0x0004;
pub const MODIFIER_UNDERLINED: u16 = 0x0008;
pub const MODIFIER_REVERSED: u16 = 0x0040;

impl Modifier {
    pub open spec fn contains_bits(self, bits: u16) -> bool {
        self.bits & bits == bits
    }

    /// The empty set of modifiers.
    pub fn empty() -> (m: Modifier)
        ensures
            m.bits == 0,
    {
        Modifier { bits: 0 }
    }

    /// The union of two sets of modifiers.
    pub fn union(self, other: Modifier) -> (m: Modifier)
        ensures
            m.bits == self.bits | other.bits,
    {
        Modifier { bits: self.bits | other.bits }
    }

    /// The modifiers of `self` that `other` does not hold.
    pub fn difference(self, other: Modifier) -> (m: Modifier)
        ensures
            m.bits == self.bits & !other.bits,
    {
        Modifier { bits: self.bits & !other.bits }
    }
}

/// The style of a text buffer cell: its colours, and the modifiers that it
/// adds to and removes from the style beneath it.
#[derive(Clone, Copy, Debug, PartialEq, Eq, Structural)]
pub struct Style {
    pub fg: Option<TuiColor>,
    pub bg: Option<TuiColor>,
    pub add_modifier: Modifier,
    pub sub_modifier: Modifier,
}

impl Style {
    /// The style that changes nothing.
    pub fn new() -> (s: Style)
        ensures
            s == Style::plain(),
    {
        Style { fg: None, bg: None, add_modifier: Modifier::empty(), sub_modifier: Modifier::empty() }
    }

    pub open spec fn plain() -> Style {
        Style {
            fg: None,
            bg: None,
            add_modifier: Modifier { bits: 0 },
            sub_modifier: Modifier { bits: 0 },
        }
    }

    /// Sets the foreground colour.
    pub fn fg(self, color: TuiColor) -> (s: Style)
        ensures
            s == (Style { fg: Some(color), ..self }),
    {
        Style { fg: Some(color), ..self }
    }

    /// Sets the background colour.
    pub fn bg(self, color: TuiColor) -> (s: Style)
        ensures
            s == (Style { bg: Some(color), ..self }),
    {
        Style { bg: Some(color), ..self }
    }

    pub open spec fn with_modifier(self, m: Modifier) -> Style {
        Style {
            add_modifier: Modifier { bits: self.add_modifier.bits | m.bits },
            sub_modifier: Modifier { bits: self.sub_modifier.bits & !m.bits },
            ..self
        }
    }

    /// Adds the modifiers `m` (and stops removing them).
    pub fn add_modifier(self, m: Modifier) -> (s: Style)
        ensures
            s == self.with_modifier(m),
    {
        Style {
            sub_modifier: self.sub_modifier.difference(m),
            add_modifier: self.add_modifier.union(m),
            ..self
        }
    }
}

/// The foreground of the terminal theme.
pub const THEME_FG_RGB: (u8, u8, u8) = (220, 215, 186);

/// The background of the terminal theme.
pub const THEME_BG_RGB: (u8, u8, u8) = (31, 31, 40);

/// The cursor colour of the terminal theme.
pub const THEME_CURSOR_RGB: (u8, u8, u8) = (126, 156, 216);

pub open spec fn theme_fg() -> TuiColor {
    TuiColor::Rgb(220, 215, 186)
}

pub open spec fn theme_bg() -> TuiColor {
    TuiColor::Rgb(31, 31, 40)
}

/// The foreground of the terminal theme as a text buffer colour.
pub fn theme_fg_color() -> (c: TuiColor)
    ensures
        c == theme_fg(),
{
    TuiColor::Rgb(THEME_FG_RGB.0, THEME_FG_RGB.1, THEME_FG_RGB.2)
}

/// The background of the terminal theme as a text buffer colour.
pub fn theme_bg_color() -> (c: TuiColor)
    ensures
        c == theme_bg(),
{
    TuiColor::Rgb(THEME_BG_RGB.0, THEME_BG_RGB.1, THEME_BG_RGB.2)
}

/// The level of one channel of the 6x6x6 colour cube: 0, then 95 to 255 in
/// steps of 40.
pub open spec fn cube_level(step: int) -> int {
    if step == 0 {
        0
    } else {
        55 + 40 * step
    }
}

/// The sixteen named colours of the palette, in index order.
pub open spec fn named_color(index: int) -> TuiColor {
    if index == 0 {
        TuiColor::Black
    } else if index == 1 {
        TuiColor::Red
    } else if index == 2 {
        TuiColor::Green
    } else if index == 3 {
        TuiColor::Yellow
    } else if index == 4 {
        TuiColor::Blue
    } else if index == 5 {
        TuiColor::Magenta
    } else if index == 6 {
        TuiColor::Cyan
    } else if index == 7 {
        TuiColor::Gray
    } else if index == 8 {
        TuiColor::DarkGray
    } else if index == 9 {
        TuiColor::LightRed
    } else if index == 10 {
        TuiColor::LightGreen
    } else if index == 11 {
        TuiColor::LightYellow
    } else if index == 12 {
        TuiColor::LightBlue
    } else if index == 13 {
        TuiColor::LightMagenta
    } else if index == 14 {
        TuiColor::LightCyan
    } else {
        TuiColor::White
    }
}

/// The xterm 256-colour palette: sixteen named colours, a 6x6x6 colour cube
/// (index 16 + 36 r + 6 g + b), and a 24-step grey ramp from 8 to 238.
pub open spec fn palette_color(index: u8) -> TuiColor {
    if index < 16 {
        named_color(index as int)
    } else if index < 232 {
        let i = index - 16;
        TuiColor::Rgb(
            cube_level(i / 36) as u8,
            cube_level((i % 36) / 6) as u8,
            cube_level(i % 6) as u8,
        )
    } else {
        let shade = (8 + 10 * (index - 232)) as u8;
        TuiColor::Rgb(shade, shade, shade)
    }
}

fn cube_component(step: u8) -> (v: u8)
    requires
        step < 6,
    ensures
        v == cube_level(step as int),
{
    if step == 0 {
        0
    } else {
        55 + step * 40
    }
}

/// The text buffer colour of a palette index.
pub fn ansi_index_to_tui(index: u8) -> (c: TuiColor)
    ensures
        c == palette_color(index),
{
    match index {
        0 => TuiColor::Black,
        1 => TuiColor::Red,
        2 => TuiColor::Green,
        3 => TuiColor::Yellow,
        4 => TuiColor::Blue,
        5 => TuiColor::Magenta,
        6 => TuiColor::Cyan,
        7 => TuiColor::Gray,
        8 => TuiColor::DarkGray,
        9 => TuiColor::LightRed,
        10 => TuiColor::LightGreen,
        11 => TuiColor::LightYellow,
        12 => TuiColor::LightBlue,
        13 => TuiColor::LightMagenta,
        14 => TuiColor::LightCyan,
        15 => TuiColor::White,
        16..=231 => {
            let index = index - 16;
            let r = index / 36;
            let g = (index % 36) / 6;
            let b = index % 6;
            TuiColor::Rgb(cube_component(r), cube_component(g), cube_component(b))
        },
        232..=255 => {
            let shade = 8 + (index - 232) * 10;
            TuiColor::Rgb(shade, shade, shade)
        },
    }
}

/// What a vt100 colour is in a text buffer: nothing for the default colour.
pub open spec fn vt_to_tui(color: VtColor) -> Option<TuiColor> {
    match color {
        VtColor::Default => None,
        VtColor::Idx(index) => Some(palette_color(index)),
        VtColor::Rgb(r, g, b) => Some(TuiColor::Rgb(r, g, b)),
    }
}

/// The text buffer colour of a vt100 colour, or `None` for the default.
pub fn vt100_color_to_tui(color: VtColor) -> (c: Option<TuiColor>)
    ensures
        c == vt_to_tui(color),
{
    match color {
        VtColor::Default => None,
        VtColor::Idx(index) => Some(ansi_index_to_tui(index)),
        VtColor::Rgb(r, g, b) => Some(TuiColor::Rgb(r, g, b)),
    }
}

/// The RGBA value that the debug image gives a text buffer colour: the VGA
/// values for the named colours, the colour itself for a true colour, and
/// the theme foreground for the rest.
pub open spec fn tui_rgba(color: TuiColor) -> Rgba {
    match color {
        TuiColor::Black => [0, 0, 0, 255],
        TuiColor::Red => [128, 0, 0, 255],
        TuiColor::Green => [0, 128, 0, 255],
        TuiColor::Yellow => [128, 128, 0, 255],
        TuiColor::Blue => [0, 0, 128, 255],
        TuiColor::Magenta => [128, 0, 128, 255],
        TuiColor::Cyan => [0, 128, 128, 255],
        TuiColor::Gray => [192, 192, 192, 255],
        TuiColor::DarkGray => [128, 128, 128, 255],
        TuiColor::LightRed => [255, 0, 0, 255],
        TuiColor::LightGreen => [0, 255, 0, 255],
        TuiColor::LightYellow => [255, 255, 0, 255],
        TuiColor::LightBlue => [0, 0, 255, 255],
        TuiColor::LightMagenta => [255, 0, 255, 255],
        TuiColor::LightCyan => [0, 255, 255, 255],
        TuiColor::White => [255, 255, 255, 255],
        TuiColor::Rgb(r, g, b) => [r, g, b, 255],
        _ => [220, 215, 186, 255],
    }
}

/// The RGBA value of a text buffer colour in the debug image.
pub fn tui_color_to_rgba(color: TuiColor) -> (c: Rgba)
    ensures
        c == tui_rgba(color),
{
    match color {
        TuiColor::Black => [0, 0, 0, 255],
        TuiColor::Red => [128, 0, 0, 255],
        TuiColor::Green => [0, 128, 0, 255],
        TuiColor::Yellow => [128, 128, 0, 255],
        TuiColor::Blue => [0, 0, 128, 255],
        TuiColor::Magenta => [128, 0, 128, 255],
        TuiColor::Cyan => [0, 128, 128, 255],
        TuiColor::Gray => [192, 192, 192, 255],
        TuiColor::DarkGray => [128, 128, 128, 255],
        TuiColor::LightRed => [255, 0, 0, 255],
        TuiColor::LightGreen => [0, 255, 0, 255],
        TuiColor::LightYellow => [255, 255, 0, 255],
        TuiColor::LightBlue => [0, 0, 255, 255],
        TuiColor::LightMagenta => [255, 0, 255, 255],
        TuiColor::LightCyan => [0, 255, 255, 255],
        TuiColor::White => [255, 255, 255, 255],
        TuiColor::Rgb(r, g, b) => [r, g, b, 255],
        _ => [220, 215, 186, 255],
    }
}

/// What a vt100 colour is in the debug image: nothing for the default colour.
pub open spec fn vt_rgba(color: VtColor) -> Option<Rgba> {
    match color {
        VtColor::Default => None,
        VtColor::Idx(index) => Some(tui_rgba(palette_color(index))),
        VtColor::Rgb(r, g, b) => Some([r, g, b, 255]),
    }
}

/// The RGBA value of a vt100 colour in the debug image, or `None` for the
/// default colour.
pub fn vt100_debug_color(color: VtColor) -> (c: Option<Rgba>)
    ensures
        c == vt_rgba(color),
{
    match color {
        VtColor::Default => None,
        VtColor::Idx(index) => Some(tui_color_to_rgba(ansi_index_to_tui(index))),
        VtColor::Rgb(r, g, b) => Some([r, g, b, 255]),
    }
}

/// Every colour of the cube part of the palette has channels among
/// 0, 95, 135, 175, 215 and 255, and its index is 16 + 36 r + 6 g + b for
/// the steps r, g, b of its channels.
pub proof fn lemma_cube_index(r: u8, g: u8, b: u8)
    requires
        r < 6,
        g < 6,
        b < 6,
    ensures
        palette_color((16 + 36 * r + 6 * g + b) as u8) == TuiColor::Rgb(
            cube_level(r as int) as u8,
            cube_level(g as int) as u8,
            cube_level(b as int) as u8,
        ),
{
    let i: int = 36 * r + 6 * g + b;
    assert(i / 36 == r as int);
    assert(i % 36 == 6 * g + b);
    assert((6 * g + b) / 6 == g as int);
    assert((6 * g + b) % 6 == b as int);
}

/// The grey ramp rises by ten from 8 at index 232 to 238 at index 255.
pub proof fn lemma_grey_ramp(index: u8)
    requires
        232 <= index,
    ensures
        palette_color(index) == TuiColor::Rgb(
            (8 + 10 * (index - 232)) as u8,
            (8 + 10 * (index - 232)) as u8,
            (8 + 10 * (index - 232)) as u8,
        ),
        8 <= 8 + 10 * (index - 232) <= 238,
{
}

/// The debug image colour of a vt100 colour is the RGBA value of its text
/// buffer colour: both views of a cell agree.
pub proof fn lemma_debug_color_agrees(color: VtColor)
    ensures
        vt_rgba(color) == match vt_to_tui(color) {
            Some(c) => Some(tui_rgba(c)),
            None => None,
        },
{
}

/// The sixteen named entries of the palette come in the ANSI order:
/// black, red, green, yellow, blue, magenta, cyan, grey, then the bright
/// versions of each.
pub proof fn lemma_named_palette()
    ensures
        palette_color(0) == TuiColor::Black,
        palette_color(1) == TuiColor::Red,
        palette_color(2) == TuiColor::Green,
        palette_color(3) == TuiColor::Yellow,
        palette_color(4) == TuiColor::Blue,
        palette_color(5) == TuiColor::Magenta,
        palette_color(6) == TuiColor::Cyan,
        palette_color(7) == TuiColor::Gray,
        palette_color(8) == TuiColor::DarkGray,
        palette_color(9) == TuiColor::LightRed,
        palette_color(10) == TuiColor::LightGreen,
        palette_color(11) == TuiColor::LightYellow,
        palette_color(12) == TuiColor::LightBlue,
        palette_color(13) == TuiColor::LightMagenta,
        palette_color(14) == TuiColor::LightCyan,
        palette_color(15) == TuiColor::White,
{
}

/// The level of a VGA channel: off, half on for a normal colour, fully on
/// for a bright one.
pub open spec fn vga_level(on: bool, bright: bool) -> u8 {
    if !on {
        0
    } else if bright {
        255
    } else {
        128
    }
}

/// The debug image gives the named palette entries the VGA colours: bit 0
/// of the index (counted within each group of eight) turns on red, bit 1
/// green and bit 2 blue, at half level for indexes 1 to 6 and full level
/// for 9 to 15; index 0 is black, 7 light grey and 8 dark grey.
pub proof fn lemma_named_palette_rgba(index: u8)
    requires
        index < 16,
    ensures
        ({
            let base: int = if index < 8 { index as int } else { index - 8 };
            let bright = index >= 8;
            &&& index != 7 && index != 8 ==> tui_rgba(palette_color(index)) == [
                vga_level(base % 2 == 1, bright),
                vga_level((base / 2) % 2 == 1, bright),
                vga_level((base / 4) % 2 == 1, bright),
                255u8,
            ]
            &&& index == 7 ==> tui_rgba(palette_color(index)) == [192u8, 192, 192, 255]
            &&& index == 8 ==> tui_rgba(palette_color(index)) == [128u8, 128, 128, 255]
        }),
{
    lemma_named_palette();
    assert(index == 0 || index == 1 || index == 2 || index == 3 || index == 4 || index == 5 || index == 6
        || index == 7 || index == 8 || index == 9 || index == 10 || index == 11 || index == 12 || index == 13
        || index == 14 || index == 15);
}

/// The six levels of a channel of the colour cube are 0, 95, 135, 175,
/// 215 and 255; the cube runs from black at index 16 to white at 231, and
/// the grey ramp from 8 at index 232 to 238 at 255.
pub proof fn lemma_palette_levels()
    ensures
        cube_level(0) == 0,
        cube_level(1) == 95,
        cube_level(2) == 135,
        cube_level(3) == 175,
        cube_level(4) == 215,
        cube_level(5) == 255,
        palette_color(16) == TuiColor::Rgb(0, 0, 0),
        palette_color(231) == TuiColor::Rgb(255, 255, 255),
        palette_color(196) == TuiColor::Rgb(255, 0, 0),
        palette_color(232) == TuiColor::Rgb(8, 8, 8),
        palette_color(255) == TuiColor::Rgb(238, 238, 238),
{
    assert((196u8 - 16) as int / 36 == 5);
    assert(((196u8 - 16) as int % 36) / 6 == 0);
    assert((196u8 - 16) as int % 6 == 0);
    assert((231u8 - 16) as int / 36 == 5);
    assert(((231u8 - 16) as int % 36) / 6 == 5);
    assert((231u8 - 16) as int % 6 == 5);
}

} // verus!
