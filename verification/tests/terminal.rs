use ratty::color::{Modifier, Style, TuiColor};
use ratty::terminal::{
    sync_image_data, vt100_cell_style, Rect, SelectionBounds, TerminalRedrawState, TerminalSurface,
    TerminalWidget,
};
use ratty::screen::CellInfo;
use ratty::color::VtColor;

#[test]
fn redraw_is_taken_once() {
    let mut state = TerminalRedrawState::default();
    assert!(state.take());
    assert!(!state.take());
    state.request();
    state.request();
    assert!(state.take());
    assert!(!state.take());
}

#[test]
fn font_size_changes_and_changes_back() {
    let mut surface = TerminalSurface::new(80, 24);
    assert_eq!(surface.font_size(), 14);
    assert!(!surface.adjust_font_size(0));
    assert!(surface.adjust_font_size(3));
    assert_eq!(surface.font_size(), 17);
    assert!(surface.adjust_font_size(-3));
    assert_eq!(surface.font_size(), 14);
}

#[test]
fn resize_skips_zero_sizes() {
    let mut surface = TerminalSurface::new(80, 24);
    assert!(!surface.resize(0, 10));
    assert!(!surface.resize(10, 0));
    assert_eq!((surface.cols(), surface.rows()), (80, 24));
    assert!(surface.resize(100, 30));
    assert_eq!((surface.cols(), surface.rows()), (100, 30));
}

#[test]
fn frame_pixels_copied_when_sizes_match() {
    let mut data = vec![5u8; 2];
    sync_image_data(&mut data, &[1, 2, 3, 4], 1, 1);
    assert_eq!(data, vec![1, 2, 3, 4]);
    let mut data = vec![5u8; 2];
    sync_image_data(&mut data, &[1, 2, 3], 1, 1);
    assert_eq!(data, vec![5, 5, 0, 0]);
    let mut data = vec![5u8; 10];
    sync_image_data(&mut data, &[], 1, 1);
    assert_eq!(data, vec![5, 5, 5, 5]);
}

fn cell(fg: VtColor, bg: VtColor, bold: bool, inverse: bool) -> CellInfo {
    CellInfo {
        fg,
        bg,
        bold,
        dim: false,
        italic: false,
        underline: false,
        inverse,
        has_contents: true,
        wide_continuation: false,
        contents: "x".to_string(),
    }
}

#[test]
fn cell_styles() {
    let style = vt100_cell_style(&cell(VtColor::Default, VtColor::Idx(4), true, true));
    assert_eq!(style.fg, Some(TuiColor::Rgb(220, 215, 186)));
    assert_eq!(style.bg, Some(TuiColor::Blue));
    assert_eq!(style.add_modifier, Modifier { bits: 0x41 });
    assert_eq!(style.sub_modifier, Modifier { bits: 0 });
    let plain = vt100_cell_style(&cell(VtColor::Rgb(1, 2, 3), VtColor::Default, false, false));
    assert_eq!(plain.fg, Some(TuiColor::Rgb(1, 2, 3)));
    assert_eq!(plain.bg, Some(TuiColor::Rgb(31, 31, 40)));
    assert_eq!(plain.add_modifier.bits, 0);
    let mut all = cell(VtColor::Default, VtColor::Default, true, true);
    all.dim = true;
    all.italic = true;
    all.underline = true;
    assert_eq!(vt100_cell_style(&all).add_modifier.bits, 0x4f);
}

#[test]
fn selection_is_a_reading_order_range() {
    let sel = SelectionBounds { start_row: 1, start_col: 3, end_row: 2, end_col: 1 };
    assert!(!sel.contains(1, 2));
    assert!(sel.contains(1, 3));
    assert!(sel.contains(1, 9));
    assert!(sel.contains(2, 0));
    assert!(sel.contains(2, 1));
    assert!(!sel.contains(2, 2));
    assert!(!sel.contains(0, 5));
}

#[test]
fn widget_draws_screen_cells_into_area() {
    let mut parser = vt100::Parser::new(2, 3, 0);
    parser.process(b"\x1b[1mhi");
    let widget = TerminalWidget {
        screen: parser.screen(),
        selection: Some(SelectionBounds { start_row: 0, start_col: 1, end_row: 1, end_col: 0 }),
    };
    let frame = widget.render_cells(Rect { x: 1, y: 2, width: 2, height: 5 });
    assert_eq!(frame.base.fg, Some(TuiColor::Rgb(220, 215, 186)));
    assert_eq!(frame.base.bg, Some(TuiColor::Rgb(31, 31, 40)));
    let placed: Vec<(u16, u16, String, u16)> = frame
        .cells
        .iter()
        .map(|c| (c.x, c.y, c.symbol.clone(), c.style.add_modifier.bits))
        .collect();
    assert_eq!(
        placed,
        vec![
            (1, 2, "h".to_string(), 0x01),
            (2, 2, "i".to_string(), 0x41),
            (1, 3, " ".to_string(), 0x40),
            (2, 3, " ".to_string(), 0x00),
        ]
    );
    let _ = Style::new();
}

#[test]
fn widget_skips_wide_continuations() {
    let mut parser = vt100::Parser::new(1, 4, 0);
    parser.process("語a".as_bytes());
    let widget = TerminalWidget { screen: parser.screen(), selection: None };
    let frame = widget.render_cells(Rect { x: 0, y: 0, width: 4, height: 1 });
    let symbols: Vec<String> = frame.cells.iter().map(|c| c.symbol.clone()).collect();
    assert_eq!(symbols, vec!["語".to_string(), "a".to_string(), " ".to_string()]);
}
