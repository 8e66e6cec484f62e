use ratty::emulator::{param, TerminalState};

fn text(s: &TerminalState) -> String {
    s.to_multiline_string()
}

fn feed(s: &mut TerminalState, input: &str) {
    for ch in input.chars() {
        s.print(ch);
    }
}

#[test]
fn new_grid_is_blank() {
    let s = TerminalState::new(3, 2);
    assert_eq!(text(&s), "   \n   ");
    assert_eq!((s.cursor_x(), s.cursor_y()), (0, 0));
    assert_eq!((s.cols(), s.rows()), (3, 2));
}

#[test]
fn text_has_rows_times_cols_plus_one_minus_one_chars() {
    let s = TerminalState::new(5, 4);
    assert_eq!(text(&s).chars().count(), 4 * (5 + 1) - 1);
}

#[test]
fn print_writes_and_advances() {
    let mut s = TerminalState::new(4, 2);
    feed(&mut s, "ab");
    assert_eq!(text(&s), "ab  \n    ");
    assert_eq!((s.cursor_x(), s.cursor_y()), (2, 0));
    assert_eq!(s.cell(0, 1), 'b');
}

#[test]
fn print_wraps_at_last_column() {
    let mut s = TerminalState::new(3, 2);
    feed(&mut s, "abc");
    assert_eq!((s.cursor_x(), s.cursor_y()), (0, 1));
    feed(&mut s, "de");
    assert_eq!(text(&s), "abc\nde ");
}

#[test]
fn print_on_last_row_scrolls() {
    let mut s = TerminalState::new(2, 2);
    feed(&mut s, "abcdef");
    assert_eq!(text(&s), "ef\n  ");
    assert_eq!((s.cursor_x(), s.cursor_y()), (0, 1));
}

#[test]
fn print_on_empty_grid_does_nothing() {
    let mut s = TerminalState::new(0, 3);
    s.print('x');
    assert_eq!(text(&s), "\n\n");
    let mut t = TerminalState::new(3, 0);
    t.print('x');
    assert_eq!(text(&t), "");
}

#[test]
fn newline_and_carriage_return() {
    let mut s = TerminalState::new(3, 3);
    feed(&mut s, "ab");
    s.execute(b'\n');
    assert_eq!((s.cursor_x(), s.cursor_y()), (0, 1));
    feed(&mut s, "c");
    s.execute(b'\r');
    assert_eq!((s.cursor_x(), s.cursor_y()), (0, 1));
    s.execute(0x08);
    assert_eq!(s.cursor_x(), 0);
    feed(&mut s, "xy");
    s.execute(0x08);
    assert_eq!(s.cursor_x(), 1);
    s.execute(0x07);
    assert_eq!(text(&s), "ab \nxy \n   ");
}

#[test]
fn scroll_up_shifts_rows() {
    let mut s = TerminalState::new(2, 3);
    feed(&mut s, "aabbcc");
    assert_eq!(text(&s), "bb\ncc\n  ");
    s.scroll_up();
    assert_eq!(text(&s), "cc\n  \n  ");
}

#[test]
fn tab_moves_to_next_stop() {
    let mut s = TerminalState::new(20, 1);
    feed(&mut s, "ab");
    s.execute(b'\t');
    assert_eq!(s.cursor_x(), 8);
    feed(&mut s, "c");
    s.tab();
    assert_eq!(s.cursor_x(), 16);
    assert_eq!(text(&s), "ab      c           ");
}

#[test]
fn move_cursor_clamps() {
    let mut s = TerminalState::new(4, 3);
    s.move_cursor(10, 10);
    assert_eq!((s.cursor_x(), s.cursor_y()), (3, 2));
    s.move_cursor(1, 2);
    assert_eq!((s.cursor_x(), s.cursor_y()), (2, 1));
}

#[test]
fn csi_cursor_moves() {
    let mut s = TerminalState::new(10, 10);
    s.csi_dispatch(&vec![vec![3], vec![4]], 'H');
    assert_eq!((s.cursor_x(), s.cursor_y()), (3, 2));
    s.csi_dispatch(&vec![], 'A');
    assert_eq!(s.cursor_y(), 1);
    s.csi_dispatch(&vec![vec![5]], 'A');
    assert_eq!(s.cursor_y(), 0);
    s.csi_dispatch(&vec![vec![2]], 'B');
    assert_eq!(s.cursor_y(), 2);
    s.csi_dispatch(&vec![vec![100]], 'C');
    assert_eq!(s.cursor_x(), 9);
    s.csi_dispatch(&vec![vec![0]], 'D');
    assert_eq!(s.cursor_x(), 8);
    s.csi_dispatch(&vec![], 'f');
    assert_eq!((s.cursor_x(), s.cursor_y()), (0, 0));
    s.csi_dispatch(&vec![vec![1]], 'm');
    assert_eq!((s.cursor_x(), s.cursor_y()), (0, 0));
}

#[test]
fn erase_line_modes() {
    let mut s = TerminalState::new(5, 1);
    feed(&mut s, "abcd");
    s.move_cursor(0, 2);
    s.erase_line_from_cursor(0);
    assert_eq!(text(&s), "ab   ");
    let mut t = TerminalState::new(5, 1);
    feed(&mut t, "abcd");
    t.move_cursor(0, 2);
    t.csi_dispatch(&vec![vec![1]], 'K');
    assert_eq!(text(&t), "   d ");
    t.erase_line_from_cursor(2);
    assert_eq!(text(&t), "     ");
    t.erase_line_from_cursor(7);
    assert_eq!(text(&t), "     ");
}

#[test]
fn erase_display_modes() {
    let make = || {
        let mut s = TerminalState::new(3, 3);
        feed(&mut s, "abcdefgh");
        s.move_cursor(1, 1);
        s
    };
    let mut s = make();
    s.erase_display(0);
    assert_eq!(text(&s), "abc\nd  \n   ");
    let mut s = make();
    s.csi_dispatch(&vec![vec![1]], 'J');
    assert_eq!(text(&s), "   \n  f\ngh ");
    let mut s = make();
    s.erase_display(2);
    assert_eq!(text(&s), "   \n   \n   ");
    assert_eq!((s.cursor_x(), s.cursor_y()), (0, 0));
    let mut s = make();
    s.erase_display(3);
    assert_eq!(text(&s), "abc\ndef\ngh ");
}

#[test]
fn clear_screen_blanks_all() {
    let mut s = TerminalState::new(2, 2);
    feed(&mut s, "xyz");
    s.clear_screen();
    assert_eq!(text(&s), "  \n  ");
    assert_eq!((s.cursor_x(), s.cursor_y()), (0, 0));
}

#[test]
fn params_take_first_value_of_group() {
    let params = vec![vec![7, 9], vec![], vec![3]];
    assert_eq!(param(&params, 0), Some(7));
    assert_eq!(param(&params, 1), None);
    assert_eq!(param(&params, 2), Some(3));
    assert_eq!(param(&params, 3), None);
}

#[test]
fn cursor_in_grid_clamps_to_grid() {
    let mut s = TerminalState::new(10, 10);
    s.move_cursor(7, 8);
    assert_eq!(s.cursor_in_grid(5, 20), (4, 7));
    assert_eq!(s.cursor_in_grid(0, 0), (0, 0));
}
