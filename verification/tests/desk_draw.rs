use gos_kernel::desk_draw::{
    draw_cmd_result, draw_console, draw_glyphs, draw_popup, draw_taskbar, CLOSE_HINT_COLOR, CONSOLE_BG, CONSOLE_DIM,
    CONSOLE_GREEN, CONSOLE_TEXT, CONSOLE_TITLE, ERR_COLOR, HINT_COLOR, INPUT_COLOR, OK_COLOR, PANEL_BORDER,
    PANEL_FILL, POPUP_ID_COLOR, POPUP_TITLE_BAR, POPUP_VALUE, PROMPT_COLOR, RULE_COLOR, SWATCH_SELECT,
    TASKBAR_EDGE, TASKBAR_FILL,
};
use gos_kernel::desk_ui::Desktop;
use gos_kernel::desktop::{DPIXELS, DW};

fn font() -> Vec<[u8; 16]> {
    // Every glyph: the leftmost pixel of each row, plus a full top row.
    let mut g = [0x80u8; 16];
    g[0] = 0xFF;
    vec![g; 96]
}

fn px(fb: &[u32], x: usize, y: usize) -> u32 {
    fb[y * DW + x]
}

#[test]
fn glyph_runs_draw_only_the_first_n_bytes() {
    let f = font();
    let mut fb = vec![0u32; DPIXELS];
    let end = draw_glyphs(&mut fb, &f, 10, 10, b"ab c", 3, 5);
    assert_eq!(end, 34);
    assert_eq!(px(&fb, 10, 10), 5);
    assert_eq!(px(&fb, 18, 12), 5);
    // A space is drawn too: its glyph here is the same marker.
    assert_eq!(px(&fb, 26, 10), 5);
    assert_eq!(px(&fb, 34, 10), 0);
}

#[test]
fn taskbar_prompt_command_cursor_and_buttons() {
    let f = font();
    let mut d = Desktop::new(0);
    let mut fb = vec![0u32; DPIXELS];
    draw_taskbar(&mut fb, &f, &d, 0);
    assert_eq!(px(&fb, 0, 1044), TASKBAR_EDGE);
    assert_eq!(px(&fb, 0, 1045), TASKBAR_EDGE);
    assert_eq!(px(&fb, 0, 1050), TASKBAR_FILL);
    assert_eq!(px(&fb, 0, 1043), 0);
    assert_eq!(px(&fb, 12, 1054), PROMPT_COLOR);
    assert_eq!(px(&fb, 12, 1060), PROMPT_COLOR);
    assert_eq!(px(&fb, 13, 1060), TASKBAR_FILL);
    // The cursor sits where the command starts.
    assert_eq!(px(&fb, 50, 1054), PROMPT_COLOR);
    // Quick-action buttons: the top edge of `Reset`.
    assert_eq!(px(&fb, 1618, 1050), 0x003a_6090);

    let mut fb = vec![0u32; DPIXELS];
    draw_taskbar(&mut fb, &f, &d, 45);
    assert_eq!(px(&fb, 50, 1054), TASKBAR_FILL);

    d.on_key(b'a');
    d.on_key(b'b');
    let mut fb = vec![0u32; DPIXELS];
    draw_taskbar(&mut fb, &f, &d, 61);
    assert_eq!(px(&fb, 50, 1054), INPUT_COLOR);
    assert_eq!(px(&fb, 58, 1054), INPUT_COLOR);
    assert_eq!(px(&fb, 66, 1054), PROMPT_COLOR);
}

#[test]
fn cmd_result_panel_collapsed_and_open() {
    let f = font();
    let mut d = Desktop::new(0);
    let mut fb = vec![0u32; DPIXELS];
    draw_cmd_result(&mut fb, &f, &d);
    assert!(fb.iter().all(|&p| p == 0));

    d.show_cmd_result(b"ab", false);
    draw_cmd_result(&mut fb, &f, &d);
    assert_eq!(px(&fb, 7, 1013), PANEL_BORDER);
    assert_eq!(px(&fb, 9, 1020), PANEL_FILL);
    assert_eq!(px(&fb, 16, 1018), PROMPT_COLOR);
    assert_eq!(px(&fb, 24, 1018), PANEL_FILL);
    assert_eq!(px(&fb, 32, 1018), INPUT_COLOR);
    assert_eq!(px(&fb, 40, 1018), INPUT_COLOR);
    assert_eq!(px(&fb, 276, 1018), ERR_COLOR);
    assert_eq!(px(&fb, 6, 1013), 0);

    d.show_cmd_result(b"ok", true);
    d.cmd_result_open = true;
    let mut fb = vec![0u32; DPIXELS];
    draw_cmd_result(&mut fb, &f, &d);
    assert_eq!(px(&fb, 7, 965), PANEL_BORDER);
    assert_eq!(px(&fb, 284, 970), OK_COLOR);
    assert_eq!(px(&fb, 8, 988), RULE_COLOR);
    assert_eq!(px(&fb, 16, 996), HINT_COLOR);
    assert_eq!(px(&fb, 188, 1016), CLOSE_HINT_COLOR);
}

#[test]
fn console_counts_prompt_and_text_screen() {
    let f = font();
    let mut cells = vec![0x0741u16; 22 * 80];
    cells[1] = 0x0720;
    let mut fb = vec![0u32; DPIXELS];
    draw_console(&mut fb, &f, 5, 12, &cells);
    assert_eq!(px(&fb, 0, 1000), CONSOLE_BG);
    assert_eq!(px(&fb, 44, 56), CONSOLE_TITLE);
    assert_eq!(px(&fb, 44, 84), CONSOLE_DIM);
    assert_eq!(px(&fb, 148, 84), CONSOLE_GREEN);
    assert_eq!(px(&fb, 156, 84), CONSOLE_BG);
    assert_eq!(px(&fb, 164, 84), CONSOLE_DIM);
    assert_eq!(px(&fb, 228, 84), CONSOLE_GREEN);
    assert_eq!(px(&fb, 236, 84), CONSOLE_GREEN);
    assert_eq!(px(&fb, 252, 84), CONSOLE_DIM);
    assert_eq!(px(&fb, 44, 108), CONSOLE_DIM);
    assert_eq!(px(&fb, 44, 142), CONSOLE_GREEN);
    assert_eq!(px(&fb, 44, 174), CONSOLE_TEXT);
    assert_eq!(px(&fb, 52, 174), CONSOLE_BG);
    assert_eq!(px(&fb, 676, 510), CONSOLE_TEXT);
    assert_eq!(px(&fb, 1874, 12), 0x00aa_5060);
}

#[test]
fn node_and_edge_popups() {
    let f = font();
    let pal = [1u32, 2, 3, 4];
    let edges = [(1u16, 2u16), (0, 1), (3, 1)];
    let mut d = Desktop::new(4);
    let mut fb = vec![0u32; DPIXELS];
    draw_popup(&mut fb, &f, &d, true, 1, 100, 500, &edges, &pal);
    assert!(fb.iter().all(|&p| p == 0));

    d.popup_vis = true;
    d.node_color[1] = 2;
    draw_popup(&mut fb, &f, &d, true, 1, 100, 500, &edges, &pal);
    assert_eq!(px(&fb, 119, 434), PANEL_BORDER);
    assert_eq!(px(&fb, 121, 440), POPUP_TITLE_BAR);
    assert_eq!(px(&fb, 121, 460), PANEL_FILL);
    assert_eq!(px(&fb, 128, 437), PROMPT_COLOR);
    assert_eq!(px(&fb, 184, 437), POPUP_ID_COLOR);
    assert_eq!(px(&fb, 120, 453), RULE_COLOR);
    assert_eq!(px(&fb, 128, 457), HINT_COLOR);
    assert_eq!(px(&fb, 176, 457), POPUP_VALUE);
    assert_eq!(px(&fb, 176, 473), POPUP_VALUE);
    assert_eq!(px(&fb, 176, 489), POPUP_VALUE);
    assert_eq!(px(&fb, 120, 505), RULE_COLOR);
    assert_eq!(px(&fb, 128, 511), HINT_COLOR);
    assert_eq!(px(&fb, 180, 515), 1);
    assert_eq!(px(&fb, 250, 515), 3);
    assert_eq!(px(&fb, 247, 510), SWATCH_SELECT);
    assert_eq!(px(&fb, 211, 510), PANEL_FILL);
    assert_eq!(px(&fb, 120, 533), RULE_COLOR);
    assert_eq!(px(&fb, 128, 537), HINT_COLOR);

    let mut fb = vec![0u32; DPIXELS];
    draw_popup(&mut fb, &f, &d, false, 2, 100, 500, &edges, &pal);
    assert_eq!(px(&fb, 128, 457), HINT_COLOR);
    assert_eq!(px(&fb, 168, 457), POPUP_VALUE);
    assert_eq!(px(&fb, 168, 473), POPUP_VALUE);
    assert_eq!(px(&fb, 176, 489), POPUP_VALUE);
    assert_eq!(px(&fb, 128, 513), HINT_COLOR);
    assert_eq!(px(&fb, 180, 515), PANEL_FILL);
}

#[test]
fn popup_swatch_click_recolors_and_sector_round_trips() {
    let mut d = Desktop::new(4);
    d.popup_vis = true;
    assert!(d.handle_popup_click(true, 1, 100, 500, 10, 10).is_none());
    assert!(d.handle_popup_click(false, 1, 100, 500, 290, 515).is_none());
    let sec = d.handle_popup_click(true, 1, 100, 500, 290, 515).unwrap();
    assert_eq!(d.node_color[1], 3);
    assert_eq!(&sec[0..6], &[0x47, 0x4F, 0x53, 0, 1, 4]);
    assert_eq!(&sec[6..10], &[0, 3, 0, 0]);
    assert!(sec[10..].iter().all(|&b| b == 0));

    let mut e = Desktop::new(4);
    assert!(e.load_colors(&sec));
    assert_eq!(e.node_color[1], 3);
    assert_eq!(e.save_colors(), sec);

    let mut other = Desktop::new(5);
    assert!(!other.load_colors(&sec));
    assert_eq!(other.node_color[1], 0);

    let mut wild = sec;
    wild[7] = 9;
    assert!(e.load_colors(&wild));
    assert_eq!(e.node_color[1], 3);
}
