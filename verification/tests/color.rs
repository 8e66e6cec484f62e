use ratty::color::{
    ansi_index_to_tui, tui_color_to_rgba, vt100_color_to_tui, vt100_debug_color, Modifier, Style,
    TuiColor, VtColor,
};

#[test]
fn named_colors_come_first() {
    assert_eq!(ansi_index_to_tui(0), TuiColor::Black);
    assert_eq!(ansi_index_to_tui(1), TuiColor::Red);
    assert_eq!(ansi_index_to_tui(7), TuiColor::Gray);
    assert_eq!(ansi_index_to_tui(8), TuiColor::DarkGray);
    assert_eq!(ansi_index_to_tui(15), TuiColor::White);
}

#[test]
fn color_cube_corners() {
    assert_eq!(ansi_index_to_tui(16), TuiColor::Rgb(0, 0, 0));
    assert_eq!(ansi_index_to_tui(21), TuiColor::Rgb(0, 0, 255));
    assert_eq!(ansi_index_to_tui(196), TuiColor::Rgb(255, 0, 0));
    assert_eq!(ansi_index_to_tui(231), TuiColor::Rgb(255, 255, 255));
}

#[test]
fn color_cube_index_law() {
    let levels = [0u8, 95, 135, 175, 215, 255];
    for r in 0..6u8 {
        for g in 0..6u8 {
            for b in 0..6u8 {
                let index = 16 + 36 * r + 6 * g + b;
                assert_eq!(
                    ansi_index_to_tui(index),
                    TuiColor::Rgb(levels[r as usize], levels[g as usize], levels[b as usize])
                );
            }
        }
    }
    assert_eq!(ansi_index_to_tui(67), TuiColor::Rgb(95, 135, 175));
}

#[test]
fn grey_ramp() {
    assert_eq!(ansi_index_to_tui(232), TuiColor::Rgb(8, 8, 8));
    assert_eq!(ansi_index_to_tui(244), TuiColor::Rgb(128, 128, 128));
    assert_eq!(ansi_index_to_tui(255), TuiColor::Rgb(238, 238, 238));
}

#[test]
fn vt_colors_in_text_buffer() {
    assert_eq!(vt100_color_to_tui(VtColor::Default), None);
    assert_eq!(vt100_color_to_tui(VtColor::Idx(2)), Some(TuiColor::Green));
    assert_eq!(vt100_color_to_tui(VtColor::Rgb(1, 2, 3)), Some(TuiColor::Rgb(1, 2, 3)));
}

#[test]
fn rgba_of_text_buffer_colors() {
    assert_eq!(tui_color_to_rgba(TuiColor::Black), [0, 0, 0, 255]);
    assert_eq!(tui_color_to_rgba(TuiColor::Gray), [192, 192, 192, 255]);
    assert_eq!(tui_color_to_rgba(TuiColor::LightMagenta), [255, 0, 255, 255]);
    assert_eq!(tui_color_to_rgba(TuiColor::Rgb(9, 8, 7)), [9, 8, 7, 255]);
    assert_eq!(tui_color_to_rgba(TuiColor::Reset), [220, 215, 186, 255]);
    assert_eq!(tui_color_to_rgba(TuiColor::Indexed(3)), [220, 215, 186, 255]);
}

#[test]
fn debug_colors_agree_with_text_buffer_colors() {
    assert_eq!(vt100_debug_color(VtColor::Default), None);
    assert_eq!(vt100_debug_color(VtColor::Idx(1)), Some([128, 0, 0, 255]));
    for i in 0..=255u8 {
        let c = VtColor::Idx(i);
        assert_eq!(
            vt100_debug_color(c),
            vt100_color_to_tui(c).map(tui_color_to_rgba)
        );
    }
    assert_eq!(vt100_debug_color(VtColor::Rgb(4, 5, 6)), Some([4, 5, 6, 255]));
}

#[test]
fn add_modifier_stops_removing_it() {
    let style = Style {
        fg: None,
        bg: None,
        add_modifier: Modifier { bits: 0x01 },
        sub_modifier: Modifier { bits: 0x44 },
    };
    let out = style.add_modifier(Modifier { bits: 0x40 });
    assert_eq!(out.add_modifier.bits, 0x41);
    assert_eq!(out.sub_modifier.bits, 0x04);
    let plain = Style::new().fg(TuiColor::Red).bg(TuiColor::Blue);
    assert_eq!(plain.fg, Some(TuiColor::Red));
    assert_eq!(plain.bg, Some(TuiColor::Blue));
    assert_eq!(plain.add_modifier.bits, 0);
}
