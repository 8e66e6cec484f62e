use ratty::rendering::{
    sync_terminal_debug_image, sync_terminal_image, CellDebugImageRenderer, CellRect, FadeTable,
    DEBUG_CURSOR, DEBUG_FG_FALLBACK, DEBUG_GRID_OUTLINE,
};

fn halving_fade() -> FadeTable {
    let table: Vec<u8> = (0..=255u8).map(|v| v / 2).collect();
    FadeTable { red: table.clone(), green: table.clone(), blue: table }
}

fn pixel(data: &[u8], width: usize, x: usize, y: usize) -> [u8; 4] {
    let i = (y * width + x) * 4;
    [data[i], data[i + 1], data[i + 2], data[i + 3]]
}

#[test]
fn rgb_pixmap_becomes_opaque_rgba() {
    let mut data = vec![9u8; 3];
    let rgb = [1u8, 2, 3, 4, 5, 6];
    sync_terminal_image(&mut data, &rgb, 2, 1);
    assert_eq!(data, vec![1, 2, 3, 255, 4, 5, 6, 255]);
}

#[test]
fn short_pixmap_leaves_rest_of_buffer() {
    let mut data = vec![7u8; 12];
    let rgb = [10u8, 20, 30];
    sync_terminal_image(&mut data, &rgb, 2, 1);
    assert_eq!(data, vec![10, 20, 30, 255, 7, 7, 7, 7]);
}

#[test]
fn rect_helpers() {
    let r = CellRect { x0: 4, y0: 2, x1: 12, y1: 8 };
    assert_eq!(r.width(), 8);
    assert_eq!(r.height(), 6);
    assert_eq!(r.inset(1), CellRect { x0: 5, y0: 3, x1: 11, y1: 7 });
    assert_eq!(r.inset(5), CellRect { x0: 9, y0: 7, x1: 7, y1: 3 });
    assert_eq!(r.centered_subrect(4, 2), CellRect { x0: 6, y0: 4, x1: 10, y1: 6 });
    assert_eq!(r.centered_subrect(20, 20), CellRect { x0: 4, y0: 2, x1: 12, y1: 8 });
    let empty = CellRect { x0: 5, y0: 5, x1: 3, y1: 3 };
    assert_eq!(empty.width(), 0);
    assert_eq!(empty.height(), 0);
    assert_eq!(CellRect { x0: u32::MAX, y0: 0, x1: 0, y1: 0 }.inset(1).x0, u32::MAX);
}

#[test]
fn renderer_cells_cover_the_image() {
    let r = CellDebugImageRenderer::new(10, 7, 3, 2);
    assert_eq!((r.cols, r.rows, r.cell_width, r.cell_height), (3, 2, 3, 3));
    let r = CellDebugImageRenderer::new(2, 2, 0, 0);
    assert_eq!((r.cols, r.rows, r.cell_width, r.cell_height), (1, 1, 2, 2));
    let r = CellDebugImageRenderer::new(2, 2, 5, 5);
    assert_eq!((r.cell_width, r.cell_height), (1, 1));
}

#[test]
fn debug_image_of_a_small_screen() {
    let mut parser = vt100::Parser::new(1, 2, 0);
    parser.process(b"A");
    let screen = parser.screen();
    let mut data = Vec::new();
    let drawn = sync_terminal_debug_image(&mut data, 8, 4, 2, 1, screen, &halving_fade());
    assert!(drawn);
    assert_eq!(data.len(), 8 * 4 * 4);
    // Column 0 is drawn on the right: its edge is grid outline, its middle
    // the foreground block of the letter.
    assert_eq!(pixel(&data, 8, 4, 0), DEBUG_GRID_OUTLINE);
    assert_eq!(pixel(&data, 8, 5, 1), DEBUG_FG_FALLBACK);
    assert_eq!(pixel(&data, 8, 6, 2), DEBUG_FG_FALLBACK);
    // Column 1 is empty: faded background inside, cursor outline round it.
    assert_eq!(pixel(&data, 8, 1, 1), [15, 15, 20, 255]);
    assert_eq!(pixel(&data, 8, 0, 0), DEBUG_CURSOR);
    assert_eq!(pixel(&data, 8, 3, 3), DEBUG_CURSOR);
}

#[test]
fn hidden_cursor_draws_no_outline() {
    let mut parser = vt100::Parser::new(1, 2, 0);
    parser.process(b"A\x1b[?25l");
    let mut data = Vec::new();
    assert!(sync_terminal_debug_image(&mut data, 8, 4, 2, 1, parser.screen(), &halving_fade()));
    assert_eq!(pixel(&data, 8, 0, 0), DEBUG_GRID_OUTLINE);
}

#[test]
fn cursor_outside_the_grid_is_not_drawn() {
    let mut parser = vt100::Parser::new(3, 5, 0);
    parser.process(b"\x1b[3;5H");
    let mut data = vec![1u8; 4];
    let drawn = sync_terminal_debug_image(&mut data, 4, 4, 2, 1, parser.screen(), &halving_fade());
    assert!(!drawn);
    let mut expected = vec![1u8; 4];
    expected.resize(64, 0);
    assert_eq!(data, expected);
}

#[test]
fn cursor_below_the_grid_still_draws_the_grid() {
    let mut parser = vt100::Parser::new(2, 1, 0);
    parser.process(b"\x1b[2;1H");
    let mut data = vec![0u8; 4];
    let drawn = sync_terminal_debug_image(&mut data, 1, 1, 1, 1, parser.screen(), &halving_fade());
    assert!(drawn);
    assert_eq!(data, DEBUG_GRID_OUTLINE.to_vec());
}

#[test]
fn cursor_below_the_grid_outlines_what_is_left_of_its_cell() {
    let mut parser = vt100::Parser::new(5, 1, 0);
    parser.process(b"\x1b[4;1H");
    let mut data = Vec::new();
    let drawn = sync_terminal_debug_image(&mut data, 2, 10, 1, 3, parser.screen(), &halving_fade());
    assert!(drawn);
    assert_eq!(pixel(&data, 2, 0, 9), DEBUG_CURSOR);
    assert_eq!(pixel(&data, 2, 1, 9), DEBUG_CURSOR);
    assert_eq!(pixel(&data, 2, 0, 8), DEBUG_GRID_OUTLINE);
}

#[test]
fn renderer_takes_any_size() {
    let r = CellDebugImageRenderer::new(u32::MAX, u32::MAX, 7, 0);
    assert_eq!((r.cols, r.rows), (7, 1));
    assert_eq!((r.cell_width, r.cell_height), (u32::MAX / 7, u32::MAX));
}

#[test]
fn cursor_far_below_the_grid_draws_the_grid() {
    let mut parser = vt100::Parser::new(40_001, 1, 0);
    parser.process(b"\x1b[40001;1H");
    assert_eq!(parser.screen().cursor_position(), (40_000, 0));
    let height: u32 = 1 << 17;
    let mut data = Vec::new();
    let drawn = sync_terminal_debug_image(&mut data, 1, height, 1, 1, parser.screen(), &halving_fade());
    assert!(drawn);
    assert_eq!(data.len(), height as usize * 4);
    assert_eq!(pixel(&data, 1, 0, 0), DEBUG_GRID_OUTLINE);
    assert_eq!(pixel(&data, 1, 0, height as usize - 1), DEBUG_GRID_OUTLINE);
    assert!(data.chunks(4).all(|p| p != DEBUG_CURSOR));
}

#[test]
fn narrow_image_keeps_one_pixel_per_drawn_column() {
    let mut parser = vt100::Parser::new(1, 5, 0);
    parser.process(b"\x1b[?25l");
    let mut data = Vec::new();
    assert!(sync_terminal_debug_image(&mut data, 2, 1, 5, 1, parser.screen(), &halving_fade()));
    assert_eq!(data.len(), 8);
    assert_eq!(pixel(&data, 2, 0, 0), DEBUG_GRID_OUTLINE);
    assert_eq!(pixel(&data, 2, 1, 0), DEBUG_GRID_OUTLINE);
}
