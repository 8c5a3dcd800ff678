use gos_kernel::desk_ui::{
    cmdr_rect, color_command_fits, desktop_graph, node_edge_count, parse_desk_cmd, popup_origin, taskbar_button_at, DeskCmd, Desktop, KeyEffect,
};
use gos_kernel::desktop::{
    bar_base, draw_button, draw_close_button, draw_cursor, draw_glyph, draw_num, draw_str, fill_circ, fill_rect,
    pci_config_address, pci_is_display, pci_vendor_present, DPIXELS, DW,
};

fn font() -> Vec<[u8; 16]> {
    // Every glyph: the leftmost pixel of each row, plus a full top row.
    let mut g = [0x80u8; 16];
    g[0] = 0xFF;
    vec![g; 96]
}

fn px(fb: &[u32], x: usize, y: usize) -> u32 {
    fb[y * DW + x]
}

#[test]
fn glyphs_and_strings() {
    let f = font();
    let mut fb = vec![0u32; DPIXELS];
    draw_glyph(&mut fb, &f, 1915, 0, b'A', 7);
    assert_eq!(px(&fb, 1915, 0), 7);
    assert_eq!(px(&fb, 1919, 0), 7);
    assert_eq!(px(&fb, 1915, 5), 7);
    assert_eq!(px(&fb, 1916, 5), 0);
    let end = draw_str(&mut fb, &f, 10, 20, "A B", 9);
    assert_eq!(end, 34);
    assert_eq!(px(&fb, 10, 25), 9);
    assert_eq!(px(&fb, 18, 25), 0);
    assert_eq!(px(&fb, 26, 25), 9);
    let end = draw_num(&mut fb, &f, 100, 100, 305, 3);
    assert_eq!(end, 124);
    assert_eq!(px(&fb, 116, 110), 3);
}

#[test]
fn rects_clip_to_the_screen() {
    let mut fb = vec![0u32; DPIXELS + 4];
    fill_rect(&mut fb, -5, -5, 10, 10, 1);
    assert_eq!(px(&fb, 0, 0), 1);
    assert_eq!(px(&fb, 4, 4), 1);
    assert_eq!(px(&fb, 5, 4), 0);
    fill_rect(&mut fb, 1915, 1075, 100, 100, 2);
    assert_eq!(px(&fb, 1919, 1079), 2);
    assert_eq!(&fb[DPIXELS..], &[0, 0, 0, 0]);
    fill_rect(&mut fb, 50, 50, -3, 10, 5);
    assert_eq!(px(&fb, 49, 50), 0);
}

#[test]
fn discs_are_filled() {
    let mut fb = vec![0u32; DPIXELS];
    fill_circ(&mut fb, 100, 100, 3, 4);
    assert_eq!(px(&fb, 103, 100), 4);
    assert_eq!(px(&fb, 102, 102), 4);
    assert_eq!(px(&fb, 103, 102), 0);
    assert_eq!(px(&fb, 104, 100), 0);
    fill_circ(&mut fb, 0, 0, 2, 6);
    assert_eq!(px(&fb, 0, 0), 6);
    fill_circ(&mut fb, 500, 500, -1, 6);
    assert_eq!(px(&fb, 500, 500), 0);
}

#[test]
fn cursor_arrow_shape() {
    let mut fb = vec![0u32; DPIXELS];
    draw_cursor(&mut fb, 10, 10);
    assert_eq!(px(&fb, 10, 10), 0x0010_1014);
    assert_eq!(px(&fb, 10, 15), 0x0010_1014);
    assert_eq!(px(&fb, 12, 15), 0x00ff_ffff);
    assert_eq!(px(&fb, 15, 15), 0x0010_1014);
    assert_eq!(px(&fb, 16, 15), 0);
    assert_eq!(px(&fb, 10, 27), 0);
    draw_cursor(&mut fb, 1915, 1075);
    assert_eq!(px(&fb, 1915, 1075), 0x0010_1014);
}

#[test]
fn close_button_and_taskbar_button() {
    let f = font();
    let mut fb = vec![0u32; DPIXELS];
    draw_close_button(&mut fb, &f);
    assert_eq!(px(&fb, 1874, 12), 0x00aa_5060);
    assert_eq!(px(&fb, 1874, 37), 0x00aa_5060);
    assert_eq!(px(&fb, 1875, 20), 0x002a_1418);
    assert_eq!(px(&fb, 1885, 20), 0x00ff_8080);
    assert_eq!(px(&fb, 1908, 20), 0);
    draw_button(&mut fb, &f, 100, 200, "OK");
    assert_eq!(px(&fb, 100, 200), 0x003a_6090);
    assert_eq!(px(&fb, 100, 210), 0x001e_3048);
    // "OK" is 16 pixels wide, centred: it starts at 100 + 38.
    assert_eq!(px(&fb, 138, 210), 0x00cf_e8ff);
    assert_eq!(px(&fb, 137, 210), 0x001e_3048);
}

#[test]
fn pci_helpers() {
    assert_eq!(pci_config_address(0, 3, 0, 0x13), 0x8000_1810);
    assert!(pci_vendor_present(0x1111_1234));
    assert!(!pci_vendor_present(0x0000_FFFF));
    assert!(pci_is_display(0x0300_0000));
    assert!(!pci_is_display(0x0200_0000));
    assert_eq!(bar_base(0xFD00_0008, 0x1), 0xFD00_0000);
    assert_eq!(bar_base(0xE000_000C, 0x2), 0x2_E000_0000);
}

#[test]
fn desk_commands_parse() {
    assert_eq!(parse_desk_cmd(b"reset", 3), DeskCmd::Reset);
    assert_eq!(parse_desk_cmd(b"relayout", 3), DeskCmd::Layout);
    assert_eq!(parse_desk_cmd(b"savecolors", 3), DeskCmd::SaveColors);
    assert_eq!(parse_desk_cmd(b"color 2 3", 3), DeskCmd::Color { node: 2, color: 3 });
    assert_eq!(parse_desk_cmd(b"color 12 1", 20), DeskCmd::Color { node: 12, color: 1 });
    assert_eq!(parse_desk_cmd(b"color 5 1", 3), DeskCmd::Unknown);
    assert_eq!(parse_desk_cmd(b"color 1 7", 3), DeskCmd::Unknown);
    assert_eq!(parse_desk_cmd(b"color 1x2", 3), DeskCmd::Unknown);
    assert_eq!(parse_desk_cmd(b"colour", 3), DeskCmd::Unknown);
}

#[test]
fn keyboard_edits_and_runs_commands() {
    let mut d = Desktop::new(4);
    for k in b"colr" {
        assert_eq!(d.on_key(*k), KeyEffect::Edited);
    }
    d.on_key(0x08);
    for k in b"or 1 2" {
        d.on_key(*k);
    }
    assert_eq!(d.cmd, b"color 1 2".to_vec());
    assert_eq!(d.on_key(b'\n'), KeyEffect::Ran(DeskCmd::Color { node: 1, color: 2 }));
    assert_eq!(d.node_color[1], 2);
    assert_eq!(d.cmd_result, b"color 1 2".to_vec());
    assert!(d.cmd_result_ok && d.cmd_result_vis && !d.cmd_result_open);
    assert_eq!(d.on_key(b'\r'), KeyEffect::EmptyLine);
    for k in b"console" {
        d.on_key(*k);
    }
    d.on_key(b'\n');
    assert!(d.console);
    assert_eq!(d.on_key(0x1B), KeyEffect::Escaped);
    assert!(!d.console);
    for k in b"bogus" {
        d.on_key(*k);
    }
    assert_eq!(d.on_key(b'\n'), KeyEffect::Ran(DeskCmd::Unknown));
    assert!(!d.cmd_result_ok);
    for _ in 0..60 {
        d.on_key(b'a');
    }
    assert_eq!(d.cmd.len(), 47);
}

#[test]
fn right_button_debounce_and_left_edges() {
    let mut d = Desktop::new(0);
    d.popup_vis = true;
    d.on_buttons(2);
    assert!(!d.console);
    d.on_buttons(2);
    assert!(d.console && !d.popup_vis);
    d.on_buttons(2);
    assert!(d.console);
    d.on_buttons(0);
    let e = d.on_buttons(1);
    assert!(e.just_pressed && e.held && !e.just_released);
    let e = d.on_buttons(1);
    assert!(!e.just_pressed && e.held);
    let e = d.on_buttons(0);
    assert!(e.just_released && !e.held);
}

#[test]
fn panels_buttons_and_popups() {
    assert_eq!(cmdr_rect(false), (8, 1080 - 36 - 24 - 6, 24));
    assert_eq!(cmdr_rect(true), (8, 1080 - 36 - 72 - 6, 72));
    let mut d = Desktop::new(0);
    assert!(!d.cmd_result_click(10, 1020));
    d.show_cmd_result(b"x", true);
    assert!(d.cmd_result_click(10, 1020));
    assert!(d.cmd_result_open);
    assert!(!d.cmd_result_click(400, 1020));
    // Buttons at x = 1618, 1716, 1814, y = 1050..1074.
    assert_eq!(taskbar_button_at(1618, 1050), Some(0));
    assert_eq!(taskbar_button_at(1815, 1073), Some(2));
    assert_eq!(taskbar_button_at(1710, 1060), None);
    assert_eq!(taskbar_button_at(1618, 1074), None);
    assert_eq!(popup_origin(100, 500), (120, 435));
    assert_eq!(popup_origin(1800, 10), (1800 - 224 - 20, 4));
    assert_eq!(popup_origin(100, 2000), (120, 1080 - 130 - 36 - 4));
    assert_eq!(node_edge_count(&[(0, 1), (1, 2), (3, 3), (1, 1)], 1), 3);
    assert_eq!(node_edge_count(&[], 1), 0);
}

#[test]
fn color_commands_the_reader_can_take() {
    assert!(color_command_fits(b"color 1 2"));
    assert!(color_command_fits(b"reset"));
    assert!(color_command_fits(b"color x 1"));
    assert!(color_command_fits(b"color 18446744073709551615 1"));
    assert!(!color_command_fits(b"color 18446744073709551616 1"));
    assert!(!color_command_fits(b"color 1 !x"));
    assert!(color_command_fits(b"color 1 9"));
}

#[test]
fn desktop_graph_keeps_known_distinct_edges() {
    let nodes = [10u64, 20, 30, 20];
    let ends = [(10u64, 20u64), (20, 20), (10, 99), (30, 10)];
    let (n, edges, colors) = desktop_graph(&nodes, &ends);
    assert_eq!(n, 4);
    // The last node with a vector is the one an edge end names.
    assert_eq!(edges, vec![(0, 3), (2, 0)]);
    assert_eq!(colors.len(), 128);
    assert_eq!(&colors[..5], &[0, 1, 0, 1, 0]);
    let many: Vec<u64> = (0..200).collect();
    let (n, edges, colors) = desktop_graph(&many, &[(150, 1), (0, 1)]);
    assert_eq!(n, 128);
    assert_eq!(edges, vec![(0, 1)]);
    assert_eq!(colors[127], 1);
}
