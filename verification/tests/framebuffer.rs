use gos_kernel::assets::FontAtlas;
use gos_kernel::fb::aa_text::{draw_text_aa, draw_text_aa_rgb};
use gos_kernel::fb::{
    add_pixel_rgb, blend_pixel_rgb, clear_gradient_vertical, build_palette_lookup, clear, color_bgrx, draw_glyph, draw_text, fill_rect,
    fill_rect_alpha, get_pixel_raw, get_pixel_rgb, hd_lfb_phys, hline, init, is_hd, lerp_bgrx, native_height, native_width,
    pop_typed_char, present_row_13h, push_typed_char, put_pixel, put_pixel_rgb, quantize_13h, ready,
    saturating_add_bgrx, stroke_rect, text_width, vline, Color, Framebuffer, TypedRing,
};

fn hd() -> Framebuffer {
    let mut fb = Framebuffer::new();
    init(&mut fb, 0xFFFF_8000_0000_0000, Some(0xFD00_0000));
    fb
}

#[test]
fn lerp_endpoints_and_midpoint() {
    assert_eq!(lerp_bgrx(0x123456, 0xABCDEF, 0), 0x123456);
    assert_eq!(lerp_bgrx(0x123456, 0xABCDEF, 255), 0xABCDEF);
    assert_eq!(lerp_bgrx(0x000000, 0xFFFFFF, 128), 0x808080);
    assert_eq!(lerp_bgrx(0xFF0000, 0x0000FF, 51), 0xCC0033);
}

#[test]
fn saturating_add_clamps_each_channel() {
    assert_eq!(saturating_add_bgrx(0x10F0FF, 0x102010), 0x20FFFF);
    assert_eq!(saturating_add_bgrx(0, 0x010203), 0x010203);
}

#[test]
fn palette_entries_from_the_dac_program() {
    let mut fb = Framebuffer::new();
    build_palette_lookup(&mut fb);
    assert_eq!(fb.palette[0], 0x081028);
    assert_eq!(fb.palette[2], 0xDFEBF3);
    assert_eq!(fb.palette[12], 0);
    assert!(!ready(&fb));
}

#[test]
fn init_picks_hd_or_legacy() {
    let fb = hd();
    assert!(ready(&fb) && is_hd(&fb));
    assert_eq!((native_width(&fb), native_height(&fb)), (1920, 1200));
    let mut legacy = Framebuffer::new();
    init(&mut legacy, 0x1000, None);
    assert!(ready(&legacy) && !is_hd(&legacy));
    assert_eq!(legacy.fb_virt, 0xA1000);
    assert_eq!((native_width(&legacy), native_height(&legacy)), (320, 200));
    assert_eq!(color_bgrx(&legacy, Color::Foreground), 0xDFEBF3);
}

#[test]
fn text_before_init_draws_nothing() {
    let mut fb = Framebuffer::new();
    build_palette_lookup(&mut fb);
    draw_text(&mut fb, 0, 0, "AAAA", Color::Foreground);
    draw_glyph(&mut fb, 0, 0, 'A', Color::Foreground);
    assert_eq!(get_pixel_rgb(&fb, 2, 0), 0);
    fill_rect(&mut fb, 0, 0, 2, 2, Color::Foreground);
    assert_eq!(get_pixel_rgb(&fb, 1, 1), 0xDFEBF3);
}

#[test]
fn pixels_rects_and_lines() {
    let mut fb = hd();
    clear(&mut fb, Color::Background);
    assert_eq!(get_pixel_rgb(&fb, 319, 199), 0x081028);
    put_pixel(&mut fb, 5, 5, Color::Foreground);
    assert_eq!(get_pixel_rgb(&fb, 5, 5), 0xDFEBF3);
    assert_eq!(get_pixel_raw(&fb, 5, 5), 7);
    assert_eq!(get_pixel_raw(&fb, 0, 0), 0);
    put_pixel_rgb(&mut fb, 400, 5, 0x123456);
    assert_eq!(get_pixel_rgb(&fb, 400, 5), 0);
    fill_rect(&mut fb, 310, 190, 50, 50, Color::Foreground);
    assert_eq!(get_pixel_rgb(&fb, 319, 199), 0xDFEBF3);
    assert_eq!(get_pixel_rgb(&fb, 309, 199), 0x081028);
    hline(&mut fb, 0, 100, 3, Color::Error);
    vline(&mut fb, 50, 0, 2, Color::Error);
    let err = color_bgrx(&fb, Color::Error);
    assert_eq!(get_pixel_rgb(&fb, 2, 100), err);
    assert_eq!(get_pixel_rgb(&fb, 3, 100), 0x081028);
    assert_eq!(get_pixel_rgb(&fb, 50, 1), err);
    assert_eq!(get_pixel_rgb(&fb, 50, 2), 0x081028);
    stroke_rect(&mut fb, 20, 20, 4, 4, Color::Highlight);
    let hl = color_bgrx(&fb, Color::Highlight);
    assert_eq!(get_pixel_rgb(&fb, 20, 23), hl);
    assert_eq!(get_pixel_rgb(&fb, 21, 21), 0x081028);
}

#[test]
fn blending_and_adding() {
    let mut fb = hd();
    put_pixel_rgb(&mut fb, 0, 0, 0x000000);
    blend_pixel_rgb(&mut fb, 0, 0, 0xFFFFFF, 128);
    assert_eq!(get_pixel_rgb(&fb, 0, 0), 0x808080);
    blend_pixel_rgb(&mut fb, 0, 0, 0x000000, 0);
    assert_eq!(get_pixel_rgb(&fb, 0, 0), 0x808080);
    add_pixel_rgb(&mut fb, 0, 0, 0x90_0010);
    assert_eq!(get_pixel_rgb(&fb, 0, 0), 0xFF8090);
    fill_rect_alpha(&mut fb, 10, 10, 2, 2, 0xFFFFFF, 255);
    assert_eq!(get_pixel_rgb(&fb, 11, 11), 0xFFFFFF);
}

#[test]
fn glyph_a_comes_from_the_basic_font() {
    let mut fb = hd();
    clear(&mut fb, Color::Background);
    draw_glyph(&mut fb, 8, 8, 'A', Color::Foreground);
    // Row 0 of 'A' is 0x0C: bits 2 and 3, the third and fourth pixels.
    assert_eq!(get_pixel_rgb(&fb, 10, 8), 0xDFEBF3);
    assert_eq!(get_pixel_rgb(&fb, 11, 8), 0xDFEBF3);
    assert_eq!(get_pixel_rgb(&fb, 8, 8), 0x081028);
    assert_eq!(get_pixel_rgb(&fb, 12, 8), 0x081028);
    // Row 7 of 'A' is empty.
    assert_eq!(get_pixel_rgb(&fb, 10, 15), 0x081028);
    draw_text(&mut fb, 0, 100, "AA", Color::Foreground);
    assert_eq!(get_pixel_rgb(&fb, 10, 100), 0xDFEBF3);
}

#[test]
fn typed_ring_is_fifo_and_bounded() {
    let mut r = TypedRing::new();
    assert!(r.push(1));
    assert!(r.push(2));
    assert_eq!(r.pop(), Some(1));
    assert!(r.push(3));
    assert_eq!(r.pop(), Some(2));
    assert_eq!(r.pop(), Some(3));
    assert_eq!(r.pop(), None);
    for i in 0..64u8 {
        assert!(r.push(i));
    }
    assert!(!r.push(99));
    for i in 0..64u8 {
        assert_eq!(r.pop(), Some(i));
    }
    assert_eq!(r.pop(), None);
    let mut fb = Framebuffer::new();
    push_typed_char(&mut fb, b'x');
    push_typed_char(&mut fb, b'y');
    assert_eq!(pop_typed_char(&mut fb), Some(b'x'));
    assert_eq!(pop_typed_char(&mut fb), Some(b'y'));
    assert_eq!(pop_typed_char(&mut fb), None);
}

#[test]
fn mode_13h_quantisation() {
    assert_eq!(quantize_13h(0x000000), 0);
    assert_eq!(quantize_13h(0xFFFFFF), 23);
    assert_eq!(quantize_13h(0x404040), 18);
    let mut fb = hd();
    clear(&mut fb, Color::Background);
    put_pixel_rgb(&mut fb, 3, 7, 0xFFFFFF);
    let row = present_row_13h(&fb, 7);
    assert_eq!(row.len(), 320);
    assert_eq!(row[3], 23);
    assert_eq!(row[4], quantize_13h(0x081028));
}

fn atlas() -> FontAtlas {
    // Two 2x2 cells for 'A' and 'B' side by side in a 4-wide atlas.
    let mut blob = vec![b'F', b'A', 2, 2, b'A', 2, 4, 0];
    blob.extend_from_slice(&[255, 0, 128, 0, 0, 255, 0, 0]);
    FontAtlas::from_blob(&blob)
}

#[test]
fn text_width_counts_cells() {
    assert_eq!(text_width("abc", &atlas()), 6);
    assert_eq!(text_width("", &atlas()), 0);
}

#[test]
fn anti_aliased_text_blends_by_coverage() {
    let mut fb = hd();
    clear(&mut fb, Color::Background);
    for y in 0..4 {
        for x in 0..8 {
            put_pixel_rgb(&mut fb, x, y, 0);
        }
    }
    draw_text_aa_rgb(&mut fb, 0, 0, "AB?", 0xFFFFFF, &atlas());
    // 'A' (atlas cell at 0,0): coverage 255, 0 / 0, 255.
    assert_eq!(get_pixel_rgb(&fb, 0, 0), 0xFFFFFF);
    assert_eq!(get_pixel_rgb(&fb, 1, 0), 0);
    assert_eq!(get_pixel_rgb(&fb, 0, 1), 0);
    assert_eq!(get_pixel_rgb(&fb, 1, 1), 0xFFFFFF);
    // 'B' in the next screen cell (atlas cell at 2,0): coverage 128, 0 / 0, 0.
    assert_eq!(get_pixel_rgb(&fb, 2, 0), 0x808080);
    assert_eq!(get_pixel_rgb(&fb, 3, 0), 0);
    assert_eq!(get_pixel_rgb(&fb, 3, 1), 0);
    // '?' has no glyph: its cell stays.
    assert_eq!(get_pixel_rgb(&fb, 4, 0), 0);
    // A character outside ASCII only moves the cursor.
    for y in 0..4 {
        for x in 0..8 {
            put_pixel_rgb(&mut fb, x, y, 0);
        }
    }
    draw_text_aa_rgb(&mut fb, 0, 0, "A\u{e9}B", 0xFFFFFF, &atlas());
    assert_eq!(get_pixel_rgb(&fb, 2, 0), 0);
    assert_eq!(get_pixel_rgb(&fb, 4, 0), 0x808080);
    draw_text_aa(&mut fb, 0, 250, "A", Color::Foreground, &atlas());
    draw_text_aa(&mut fb, 6, 2, "A", Color::Foreground, &atlas());
    assert_eq!(get_pixel_rgb(&fb, 6, 2), 0xDFEBF3);
}

#[test]
fn vertical_gradient_runs_from_top_to_bottom() {
    let mut fb = hd();
    clear_gradient_vertical(&mut fb, 0xAA00_0000, 0xFFFF_FFFF);
    assert_eq!(get_pixel_rgb(&fb, 5, 0), 0);
    assert_eq!(get_pixel_rgb(&fb, 319, 199), 0xFF_FFFF);
    // Row 100: t = 100 * 255 / 199 = 128.
    assert_eq!(get_pixel_rgb(&fb, 7, 100), lerp_bgrx(0, 0xFF_FFFF, 128));
}

#[test]
fn hd_lfb_address_comes_from_first_nonzero_bar() {
    assert_eq!(hd_lfb_phys(&[]), 0xfd00_0000);
    assert_eq!(hd_lfb_phys(&[0x0000_0008, 0xC000_0008, 0xE000_0000]), 0xC000_0000);
    assert_eq!(hd_lfb_phys(&[0x0000_000F]), 0xfd00_0000);
    let mut fb = Framebuffer::new();
    init(&mut fb, 0x1000, Some(hd_lfb_phys(&[0xC000_0008])));
    assert_eq!(gos_kernel::fb::lfb_physical_address(&fb), 0xC000_0000);
}
