//! The desktop's composed pictures — taskbar, command-result panel, console
//! overlay and node/edge popup — stated as the ordered layers they paint
//! over the frame that was there.

use vstd::prelude::*;
use vstd::string::StringSliceAdditionalSpecFns;
use crate::bytebuf::{dec_digits, lemma_dec_digits_u64};
use crate::desktop::{
    button_pixel, close_button_pixel, desk_map, desk_set, dpix, draw_button, draw_bytes, draw_close_button, draw_glyph, draw_num, draw_str, fill_rect, glyph16_on, keeps_tail,
    label_x, on_desk, text16_on, BTN_H, BTN_W, DH, DPIXELS, DW,
};
use crate::desk_ui::{
    cmdr_rect, edge_count, node_edge_count, popup_origin, spec_popup_origin, Desktop, BAR_H, CMDR_H_MAX, CMDR_H_MIN,
    CMDR_W, MAXN, POP_H, POP_W,
};

verus! {

/// One layer: the new colour of pixel `(x, y)` given the colour under it.
pub type Layer = spec_fn(int, int, u32) -> u32;

/// The colour after painting `ls` in order over `p`.
pub open spec fn apply_layers(ls: Seq<Layer>, x: int, y: int, p: u32) -> u32
    decreases ls.len(),
{
    if ls.len() == 0 { p } else { (ls.last())(x, y, apply_layers(ls.drop_last(), x, y, p)) }
}

/// `new` is `old` with `ls` painted over it.
pub open spec fn painted(new: Seq<u32>, old: Seq<u32>, ls: Seq<Layer>) -> bool {
    &&& keeps_tail(new, old)
    &&& forall|x: int, y: int| #![trigger dpix(new, x, y)] on_desk(x, y) ==>
        dpix(new, x, y) == apply_layers(ls, x, y, dpix(old, x, y))
}

/// Pixels where `lit` holds take `c`.
pub open spec fn fill_layer(lit: spec_fn(int, int) -> bool, c: u32) -> Layer {
    |x: int, y: int, p: u32| if lit(x, y) { c } else { p }
}

pub open spec fn rect_layer(x: int, y: int, w: int, h: int, c: u32) -> Layer {
    fill_layer(|qx: int, qy: int| x <= qx < x + w && y <= qy < y + h, c)
}

/// Text drawn with `draw_str`: bytes from `!` to DEL get their glyph.
pub open spec fn text_layer(font: Seq<[u8; 16]>, s: Seq<u8>, x0: int, y0: int, c: u32) -> Layer {
    fill_layer(|qx: int, qy: int| text16_on(font, s, s.len() as int, qx, qy, x0, y0), c)
}

/// Pixel `(x, y)` is lit by the glyph of one of the first `n` bytes of
/// `s`, every byte drawn, in 8-pixel cells from `(x0, y0)`.
pub open spec fn glyphs_on(font: Seq<[u8; 16]>, s: Seq<u8>, n: int, x: int, y: int, x0: int, y0: int) -> bool {
    exists|i: int| 0 <= i < n && #[trigger] glyph16_on(font[s[i] - 0x20]@, x, y, x0 + 8 * i, y0)
}

/// The first `n` bytes of `s`, each drawn as its glyph.
pub open spec fn glyphs_layer(font: Seq<[u8; 16]>, s: Seq<u8>, n: int, x0: int, y0: int, c: u32) -> Layer {
    fill_layer(|qx: int, qy: int| glyphs_on(font, s, n, qx, qy, x0, y0), c)
}

pub open spec fn button_layer(font: Seq<[u8; 16]>, bx: int, by: int, label: Seq<u8>) -> Layer {
    |x: int, y: int, p: u32| button_pixel(font, bx, by, label, x, y, p)
}

pub proof fn lemma_paint_start(old: Seq<u32>)
    ensures
        painted(old, old, Seq::empty()),
{
}

pub proof fn lemma_paint_set(a: Seq<u32>, old: Seq<u32>, ls: Seq<Layer>, b: Seq<u32>, lit: spec_fn(int, int) -> bool,
    c: u32, layer: Layer)
    requires
        painted(a, old, ls),
        desk_set(b, a, lit, c),
        forall|x: int, y: int, p: u32| #[trigger] layer(x, y, p) == (if lit(x, y) { c } else { p }),
    ensures
        painted(b, old, ls.push(layer)),
{
    assert forall|x: int, y: int| #![trigger dpix(b, x, y)] on_desk(x, y) implies
        dpix(b, x, y) == apply_layers(ls.push(layer), x, y, dpix(old, x, y)) by {
        assert(ls.push(layer).drop_last() =~= ls);
        assert(dpix(a, x, y) == apply_layers(ls, x, y, dpix(old, x, y)));
    }
}

pub proof fn lemma_paint_map(a: Seq<u32>, old: Seq<u32>, ls: Seq<Layer>, b: Seq<u32>, f: spec_fn(int, int, u32) -> u32,
    layer: Layer)
    requires
        painted(a, old, ls),
        desk_map(b, a, f),
        forall|x: int, y: int, p: u32| #[trigger] layer(x, y, p) == f(x, y, p),
    ensures
        painted(b, old, ls.push(layer)),
{
    assert forall|x: int, y: int| #![trigger dpix(b, x, y)] on_desk(x, y) implies
        dpix(b, x, y) == apply_layers(ls.push(layer), x, y, dpix(old, x, y)) by {
        assert(ls.push(layer).drop_last() =~= ls);
        assert(dpix(a, x, y) == apply_layers(ls, x, y, dpix(old, x, y)));
    }
}

/// Draw each of the first `n` bytes of `s` as a glyph in 8-pixel cells
/// from `(x, y)`.
pub fn draw_glyphs(fb: &mut [u32], font: &[[u8; 16]], x: usize, y: usize, s: &[u8], n: usize, color: u32) -> (r: usize)
    requires
        old(fb)@.len() >= DPIXELS,
        font@.len() >= 96,
        n <= s@.len(),
        forall|i: int| 0 <= i < n ==> 0x20 <= #[trigger] s@[i] < 0x80,
        x + 8 * n + 8 <= usize::MAX,
        y + 16 <= usize::MAX,
    ensures
        r == x + 8 * n,
        desk_set(final(fb)@, old(fb)@, |qx: int, qy: int| glyphs_on(font@, s@, n as int, qx, qy, x as int, y as int), color),
{
    let ghost orig = fb@;
    let mut cx = x;
    let mut i: usize = 0;
    while i < n
        invariant
            orig == old(fb)@,
            orig.len() >= DPIXELS,
            font@.len() >= 96,
            n <= s@.len(),
            forall|j: int| 0 <= j < n ==> 0x20 <= #[trigger] s@[j] < 0x80,
            keeps_tail(fb@, orig),
            i <= n,
            cx == x + 8 * i,
            x + 8 * n + 8 <= usize::MAX,
            y + 16 <= usize::MAX,
            forall|qx: int, qy: int| #![trigger dpix(fb@, qx, qy)] on_desk(qx, qy) ==> dpix(fb@, qx, qy) == (
                if glyphs_on(font@, s@, i as int, qx, qy, x as int, y as int) { color } else { dpix(orig, qx, qy) }),
        decreases n - i,
    {
        let b = s[i];
        let ghost ci = i as int;
        draw_glyph(fb, font, cx, y, b, color);
        proof {
            assert forall|qx: int, qy: int| #![trigger dpix(fb@, qx, qy)] on_desk(qx, qy) implies dpix(fb@, qx, qy) == (
                if glyphs_on(font@, s@, ci + 1, qx, qy, x as int, y as int) { color } else { dpix(orig, qx, qy) }) by {
                if glyph16_on(font@[b - 0x20]@, qx, qy, cx as int, y as int) {
                    assert(glyph16_on(font@[s@[ci] - 0x20]@, qx, qy, x + 8 * ci, y as int));
                } else if glyphs_on(font@, s@, ci + 1, qx, qy, x as int, y as int) {
                    let j = choose|j: int| 0 <= j < ci + 1 && #[trigger] glyph16_on(font@[s@[j] - 0x20]@, qx, qy, x + 8 * j, y as int);
                    assert(j != ci);
                    assert(glyphs_on(font@, s@, ci, qx, qy, x as int, y as int));
                } else {
                    assert(!glyphs_on(font@, s@, ci, qx, qy, x as int, y as int));
                }
            }
        }
        cx = cx + 8;
        i = i + 1;
    }
    cx
}

pub const TASKBAR_FILL: u32 = 0x0014_1a24;
pub const TASKBAR_EDGE: u32 = 0x002a_4a6a;
pub const PROMPT_COLOR: u32 = 0x0040_e0ff;
pub const INPUT_COLOR: u32 = 0x00d0_e8ff;

/// Where the typed command starts on the taskbar: after `GOS>` and a gap.
pub open spec fn input_x() -> int {
    12int + 8 * 4 + 6
}

/// The taskbar: the bar with its top edge, the `GOS>` prompt, the typed
/// command, a blinking `_` cursor (40 frames of every 60), and the
/// `Reset`, `Console` and `Layout` buttons at the right end.
pub open spec fn taskbar_layers(font: Seq<[u8; 16]>, cmd: Seq<u8>, frame: u64) -> Seq<Layer> {
    let bar_y = DH - BAR_H;
    let cy = bar_y + 10;
    let base = seq![
        rect_layer(0, bar_y, DW as int, BAR_H as int, TASKBAR_FILL),
        rect_layer(0, bar_y, DW as int, 2, TASKBAR_EDGE),
        text_layer(font, "GOS>".spec_bytes(), 12, cy, PROMPT_COLOR),
        glyphs_layer(font, cmd, cmd.len() as int, input_x(), cy, INPUT_COLOR)
    ];
    let with_cursor = if frame % 60 < 40 {
        base.push(glyphs_layer(font, seq![0x5Fu8], 1, input_x() + 8 * cmd.len(), cy, PROMPT_COLOR))
    } else {
        base
    };
    with_cursor + seq![
        button_layer(font, DW - 8 - 3 * (BTN_W + 6), DH - 30, "Reset".spec_bytes()),
        button_layer(font, DW - 8 - 2 * (BTN_W + 6), DH - 30, "Console".spec_bytes()),
        button_layer(font, DW - 8 - 1 * (BTN_W + 6), DH - 30, "Layout".spec_bytes())
    ]
}

proof fn lemma_taskbar_literals()
    ensures
        "GOS>".spec_bytes().len() == 4,
        "Reset".spec_bytes().len() == 5,
        "Console".spec_bytes().len() == 7,
        "Layout".spec_bytes().len() == 6,
{
    broadcast use vstd::string::group_string_axioms;
    reveal_strlit("GOS>");
    reveal_strlit("Reset");
    reveal_strlit("Console");
    reveal_strlit("Layout");
    assert(vstd::string::is_ascii("GOS>"));
    assert(vstd::string::is_ascii("Reset"));
    assert(vstd::string::is_ascii("Console"));
    assert(vstd::string::is_ascii("Layout"));
}

/// Draw the taskbar for frame number `frame`.
pub fn draw_taskbar(fb: &mut [u32], font: &[[u8; 16]], d: &Desktop, frame: u64)
    requires
        old(fb)@.len() >= DPIXELS,
        font@.len() >= 96,
        d.wf(),
    ensures
        painted(final(fb)@, old(fb)@, taskbar_layers(font@, d.cmd@, frame)),
{
    proof { lemma_taskbar_literals(); }
    let ghost o = fb@;
    let bar_y = DH as i32 - BAR_H;
    let ghost ls = Seq::<Layer>::empty();
    proof { lemma_paint_start(o); }
    let ghost a = fb@;
    fill_rect(fb, 0, bar_y, DW as i32, BAR_H, TASKBAR_FILL);
    proof {
        lemma_paint_set(a, o, ls, fb@, |qx: int, qy: int| 0 <= qx < 0 + DW as i32 && bar_y <= qy < bar_y + BAR_H,
            TASKBAR_FILL, rect_layer(0, bar_y as int, DW as int, BAR_H as int, TASKBAR_FILL));
    }
    let ghost ls = ls.push(rect_layer(0, bar_y as int, DW as int, BAR_H as int, TASKBAR_FILL));
    let ghost a = fb@;
    fill_rect(fb, 0, bar_y, DW as i32, 2, TASKBAR_EDGE);
    proof {
        lemma_paint_set(a, o, ls, fb@, |qx: int, qy: int| 0 <= qx < 0 + DW as i32 && bar_y <= qy < bar_y + 2,
            TASKBAR_EDGE, rect_layer(0, bar_y as int, DW as int, 2, TASKBAR_EDGE));
    }
    let ghost ls = ls.push(rect_layer(0, bar_y as int, DW as int, 2, TASKBAR_EDGE));
    let cy = (bar_y + 10) as usize;
    let ghost a = fb@;
    let x = draw_str(fb, font, 12, cy, "GOS>", PROMPT_COLOR);
    proof {
        lemma_paint_set(a, o, ls, fb@,
            |qx: int, qy: int| text16_on(font@, "GOS>".spec_bytes(), "GOS>".spec_bytes().len() as int, qx, qy, 12, cy as int),
            PROMPT_COLOR, text_layer(font@, "GOS>".spec_bytes(), 12, cy as int, PROMPT_COLOR));
    }
    let ghost ls = ls.push(text_layer(font@, "GOS>".spec_bytes(), 12, cy as int, PROMPT_COLOR));
    let x = x + 6;
    let ghost a = fb@;
    let x = draw_glyphs(fb, font, x, cy, d.cmd.as_slice(), d.cmd.len(), INPUT_COLOR);
    proof {
        lemma_paint_set(a, o, ls, fb@,
            |qx: int, qy: int| glyphs_on(font@, d.cmd@, d.cmd@.len() as int, qx, qy, input_x(), cy as int),
            INPUT_COLOR, glyphs_layer(font@, d.cmd@, d.cmd@.len() as int, input_x(), cy as int, INPUT_COLOR));
    }
    let ghost ls = ls.push(glyphs_layer(font@, d.cmd@, d.cmd@.len() as int, input_x(), cy as int, INPUT_COLOR));
    let ghost before_cursor = ls;
    let ghost ls = if frame % 60 < 40 {
        ls.push(glyphs_layer(font@, seq![0x5Fu8], 1, input_x() + 8 * d.cmd@.len(), cy as int, PROMPT_COLOR))
    } else {
        ls
    };
    if frame % 60 < 40 {
        let ghost a = fb@;
        let under: [u8; 1] = [0x5F];
        assert(under@ =~= seq![0x5Fu8]);
        let _ = draw_glyphs(fb, font, x, cy, &under, 1, PROMPT_COLOR);
        proof {
            lemma_paint_set(a, o, before_cursor, fb@,
                |qx: int, qy: int| glyphs_on(font@, seq![0x5Fu8], 1, qx, qy, input_x() + 8 * d.cmd@.len(), cy as int),
                PROMPT_COLOR, glyphs_layer(font@, seq![0x5Fu8], 1, input_x() + 8 * d.cmd@.len(), cy as int, PROMPT_COLOR));
        }
    }
    let by = DH as i32 - 30;
    let ghost a = fb@;
    draw_button(fb, font, DW as i32 - 8 - 3 * (BTN_W + 6), by, "Reset");
    proof {
        lemma_paint_map(a, o, ls, fb@, |qx: int, qy: int, p: u32|
            button_pixel(font@, (DW - 8 - 3 * (BTN_W + 6)) as int, by as int, "Reset".spec_bytes(), qx, qy, p),
            button_layer(font@, DW - 8 - 3 * (BTN_W + 6), DH - 30, "Reset".spec_bytes()));
    }
    let ghost ls = ls.push(button_layer(font@, DW - 8 - 3 * (BTN_W + 6), DH - 30, "Reset".spec_bytes()));
    let ghost a = fb@;
    draw_button(fb, font, DW as i32 - 8 - 2 * (BTN_W + 6), by, "Console");
    proof {
        lemma_paint_map(a, o, ls, fb@, |qx: int, qy: int, p: u32|
            button_pixel(font@, (DW - 8 - 2 * (BTN_W + 6)) as int, by as int, "Console".spec_bytes(), qx, qy, p),
            button_layer(font@, DW - 8 - 2 * (BTN_W + 6), DH - 30, "Console".spec_bytes()));
    }
    let ghost ls = ls.push(button_layer(font@, DW - 8 - 2 * (BTN_W + 6), DH - 30, "Console".spec_bytes()));
    let ghost a = fb@;
    draw_button(fb, font, DW as i32 - 8 - (BTN_W + 6), by, "Layout");
    proof {
        lemma_paint_map(a, o, ls, fb@, |qx: int, qy: int, p: u32|
            button_pixel(font@, (DW - 8 - (BTN_W + 6)) as int, by as int, "Layout".spec_bytes(), qx, qy, p),
            button_layer(font@, DW - 8 - 1 * (BTN_W + 6), DH - 30, "Layout".spec_bytes()));
    }
    let ghost ls = ls.push(button_layer(font@, DW - 8 - 1 * (BTN_W + 6), DH - 30, "Layout".spec_bytes()));
    assert(ls =~= taskbar_layers(font@, d.cmd@, frame));
}


/// `fill_rect` as the next layer of a picture being composed over `o`.
fn paint_rect(fb: &mut [u32], x: i32, y: i32, w: i32, h: i32, c: u32, Ghost(o): Ghost<Seq<u32>>,
    Ghost(ls): Ghost<Seq<Layer>>)
    requires
        old(fb)@.len() >= DPIXELS,
        painted(old(fb)@, o, ls),
        i32::MIN <= x + w <= i32::MAX,
        i32::MIN <= y + h <= i32::MAX,
    ensures
        final(fb)@.len() == old(fb)@.len(),
        painted(final(fb)@, o, ls.push(rect_layer(x as int, y as int, w as int, h as int, c))),
{
    let ghost a = fb@;
    fill_rect(fb, x, y, w, h, c);
    proof {
        lemma_paint_set(a, o, ls, fb@, |qx: int, qy: int| x <= qx < x + w && y <= qy < y + h, c,
            rect_layer(x as int, y as int, w as int, h as int, c));
    }
}

/// `draw_str` as the next layer.
fn paint_str(fb: &mut [u32], font: &[[u8; 16]], x: usize, y: usize, s: &str, c: u32, Ghost(o): Ghost<Seq<u32>>,
    Ghost(ls): Ghost<Seq<Layer>>) -> (r: usize)
    requires
        old(fb)@.len() >= DPIXELS,
        font@.len() >= 96,
        painted(old(fb)@, o, ls),
        x + 8 * s.spec_bytes().len() + 8 <= usize::MAX,
        y + 16 <= usize::MAX,
    ensures
        r == x + 8 * s.spec_bytes().len(),
        final(fb)@.len() == old(fb)@.len(),
        painted(final(fb)@, o, ls.push(text_layer(font@, s.spec_bytes(), x as int, y as int, c))),
{
    let ghost a = fb@;
    let r = draw_str(fb, font, x, y, s, c);
    proof {
        lemma_paint_set(a, o, ls, fb@,
            |qx: int, qy: int| text16_on(font@, s.spec_bytes(), s.spec_bytes().len() as int, qx, qy, x as int, y as int),
            c, text_layer(font@, s.spec_bytes(), x as int, y as int, c));
    }
    r
}

/// `draw_bytes` as the next layer.
fn paint_bytes(fb: &mut [u32], font: &[[u8; 16]], x: usize, y: usize, s: &[u8], c: u32, Ghost(o): Ghost<Seq<u32>>,
    Ghost(ls): Ghost<Seq<Layer>>) -> (r: usize)
    requires
        old(fb)@.len() >= DPIXELS,
        font@.len() >= 96,
        painted(old(fb)@, o, ls),
        x + 8 * s@.len() + 8 <= usize::MAX,
        y + 16 <= usize::MAX,
    ensures
        r == x + 8 * s@.len(),
        final(fb)@.len() == old(fb)@.len(),
        painted(final(fb)@, o, ls.push(text_layer(font@, s@, x as int, y as int, c))),
{
    let ghost a = fb@;
    let r = draw_bytes(fb, font, x, y, s, c);
    proof {
        lemma_paint_set(a, o, ls, fb@, |qx: int, qy: int| text16_on(font@, s@, s@.len() as int, qx, qy, x as int, y as int),
            c, text_layer(font@, s@, x as int, y as int, c));
    }
    r
}

/// `draw_num` as the next layer.
fn paint_num(fb: &mut [u32], font: &[[u8; 16]], x: usize, y: usize, v: usize, c: u32, Ghost(o): Ghost<Seq<u32>>,
    Ghost(ls): Ghost<Seq<Layer>>) -> (r: usize)
    requires
        old(fb)@.len() >= DPIXELS,
        font@.len() >= 96,
        painted(old(fb)@, o, ls),
        x + 8 * 20 + 8 <= usize::MAX,
        y + 16 <= usize::MAX,
    ensures
        r == x + 8 * dec_digits(v as nat).len(),
        r <= x + 8 * 20,
        final(fb)@.len() == old(fb)@.len(),
        painted(final(fb)@, o, ls.push(text_layer(font@, dec_digits(v as nat), x as int, y as int, c))),
{
    proof { lemma_dec_digits_u64(v as nat); }
    let ghost a = fb@;
    let r = draw_num(fb, font, x, y, v, c);
    proof {
        lemma_paint_set(a, o, ls, fb@,
            |qx: int, qy: int| text16_on(font@, dec_digits(v as nat), dec_digits(v as nat).len() as int, qx, qy, x as int, y as int),
            c, text_layer(font@, dec_digits(v as nat), x as int, y as int, c));
    }
    r
}

/// `draw_glyphs` as the next layer.
fn paint_glyphs(fb: &mut [u32], font: &[[u8; 16]], x: usize, y: usize, s: &[u8], n: usize, c: u32,
    Ghost(o): Ghost<Seq<u32>>, Ghost(ls): Ghost<Seq<Layer>>) -> (r: usize)
    requires
        old(fb)@.len() >= DPIXELS,
        font@.len() >= 96,
        painted(old(fb)@, o, ls),
        n <= s@.len(),
        forall|i: int| 0 <= i < n ==> 0x20 <= #[trigger] s@[i] < 0x80,
        x + 8 * n + 8 <= usize::MAX,
        y + 16 <= usize::MAX,
    ensures
        r == x + 8 * n,
        final(fb)@.len() == old(fb)@.len(),
        painted(final(fb)@, o, ls.push(glyphs_layer(font@, s@, n as int, x as int, y as int, c))),
{
    let ghost a = fb@;
    let r = draw_glyphs(fb, font, x, y, s, n, c);
    proof {
        lemma_paint_set(a, o, ls, fb@, |qx: int, qy: int| glyphs_on(font@, s@, n as int, qx, qy, x as int, y as int),
            c, glyphs_layer(font@, s@, n as int, x as int, y as int, c));
    }
    r
}

pub const PANEL_BORDER: u32 = 0x0044_aaff;
pub const PANEL_FILL: u32 = 0x000c_1620;
pub const RULE_COLOR: u32 = 0x0030_60a0;
pub const HINT_COLOR: u32 = 0x005a_80a0;
pub const OK_COLOR: u32 = 0x0050_ff90;
pub const ERR_COLOR: u32 = 0x00ff_7060;
pub const CLOSE_HINT_COLOR: u32 = 0x003a_5a78;

/// How many bytes of the last command the result panel echoes.
pub open spec fn shown_len(len: int) -> int {
    if len < 28 { len } else { 28 }
}

/// The command-result panel above the taskbar, when visible: a bordered
/// box echoing `> ` and up to 28 bytes of the command, tagged `OK` or
/// `ERR` at its right end; open, it also shows a rule, a one-line verdict
/// and a `click to close` hint.
pub open spec fn cmd_result_layers(font: Seq<[u8; 16]>, res: Seq<u8>, ok: bool, vis: bool, open: bool) -> Seq<Layer> {
    if !vis {
        Seq::empty()
    } else {
        let rh: int = if open { CMDR_H_MAX as int } else { CMDR_H_MIN as int };
        let rx: int = 8;
        let ry: int = DH - BAR_H - rh - 6;
        let tag = if ok { "OK".spec_bytes() } else { "ERR".spec_bytes() };
        let top = seq![
            rect_layer(rx - 1, ry - 1, CMDR_W + 2, rh + 2, PANEL_BORDER),
            rect_layer(rx, ry, CMDR_W as int, rh, PANEL_FILL),
            text_layer(font, "> ".spec_bytes(), rx + 8, ry + 4, PROMPT_COLOR),
            glyphs_layer(font, res, shown_len(res.len() as int), rx + 24, ry + 4, INPUT_COLOR),
            text_layer(font, tag, rx + CMDR_W - 8 - 8 * tag.len(), ry + 4, if ok { OK_COLOR } else { ERR_COLOR })
        ];
        if open {
            let hint = if ok {
                "Command applied - state updated.".spec_bytes()
            } else {
                "Unrecognised command (ignored).".spec_bytes()
            };
            top + seq![
                rect_layer(rx, ry + 22, CMDR_W as int, 1, RULE_COLOR),
                text_layer(font, hint, rx + 8, ry + 30, HINT_COLOR),
                text_layer(font, "click to close".spec_bytes(), rx + CMDR_W - 120, ry + rh - 22, CLOSE_HINT_COLOR)
            ]
        } else {
            top
        }
    }
}

proof fn lemma_cmd_result_literals()
    ensures
        "> ".spec_bytes().len() == 2,
        "OK".spec_bytes().len() == 2,
        "ERR".spec_bytes().len() == 3,
        "Command applied - state updated.".spec_bytes().len() == 32,
        "Unrecognised command (ignored).".spec_bytes().len() == 31,
        "click to close".spec_bytes().len() == 14,
{
    broadcast use vstd::string::group_string_axioms;
    reveal_strlit("> ");
    reveal_strlit("OK");
    reveal_strlit("ERR");
    reveal_strlit("Command applied - state updated.");
    reveal_strlit("Unrecognised command (ignored).");
    reveal_strlit("click to close");
    assert(vstd::string::is_ascii("> "));
    assert(vstd::string::is_ascii("OK"));
    assert(vstd::string::is_ascii("ERR"));
    assert(vstd::string::is_ascii("Command applied - state updated."));
    assert(vstd::string::is_ascii("Unrecognised command (ignored)."));
    assert(vstd::string::is_ascii("click to close"));
}

/// Draw the command-result panel; the echoed bytes must have glyphs.
pub fn draw_cmd_result(fb: &mut [u32], font: &[[u8; 16]], d: &Desktop)
    requires
        old(fb)@.len() >= DPIXELS,
        font@.len() >= 96,
        d.wf(),
        forall|i: int| 0 <= i < shown_len(d.cmd_result@.len() as int) ==> 0x20 <= #[trigger] d.cmd_result@[i] < 0x80,
    ensures
        painted(final(fb)@, old(fb)@,
            cmd_result_layers(font@, d.cmd_result@, d.cmd_result_ok, d.cmd_result_vis, d.cmd_result_open)),
{
    proof {
        lemma_cmd_result_literals();
        lemma_paint_start(fb@);
    }
    if !d.cmd_result_vis {
        return;
    }
    let ghost o = fb@;
    let ghost mut ls = Seq::<Layer>::empty();
    let (rx, ry, rh) = cmdr_rect(d.cmd_result_open);
    paint_rect(fb, rx - 1, ry - 1, CMDR_W + 2, rh + 2, PANEL_BORDER, Ghost(o), Ghost(ls));
    proof { ls = ls.push(rect_layer(rx - 1, ry - 1, CMDR_W + 2, rh + 2, PANEL_BORDER)); }
    paint_rect(fb, rx, ry, CMDR_W, rh, PANEL_FILL, Ghost(o), Ghost(ls));
    proof { ls = ls.push(rect_layer(rx as int, ry as int, CMDR_W as int, rh as int, PANEL_FILL)); }
    let ty = (ry + 4) as usize;
    let x = paint_str(fb, font, (rx + 8) as usize, ty, "> ", PROMPT_COLOR, Ghost(o), Ghost(ls));
    proof { ls = ls.push(text_layer(font@, "> ".spec_bytes(), rx + 8, ty as int, PROMPT_COLOR)); }
    let n = if d.cmd_result.len() < 28 { d.cmd_result.len() } else { 28 };
    let _ = paint_glyphs(fb, font, x, ty, d.cmd_result.as_slice(), n, INPUT_COLOR, Ghost(o), Ghost(ls));
    proof { ls = ls.push(glyphs_layer(font@, d.cmd_result@, n as int, x as int, ty as int, INPUT_COLOR)); }
    if d.cmd_result_ok {
        let _ = paint_str(fb, font, (rx + CMDR_W - 8 - 16) as usize, ty, "OK", OK_COLOR, Ghost(o), Ghost(ls));
        proof { ls = ls.push(text_layer(font@, "OK".spec_bytes(), rx + CMDR_W - 8 - 16, ty as int, OK_COLOR)); }
    } else {
        let _ = paint_str(fb, font, (rx + CMDR_W - 8 - 24) as usize, ty, "ERR", ERR_COLOR, Ghost(o), Ghost(ls));
        proof { ls = ls.push(text_layer(font@, "ERR".spec_bytes(), rx + CMDR_W - 8 - 24, ty as int, ERR_COLOR)); }
    }
    if d.cmd_result_open {
        paint_rect(fb, rx, ry + 22, CMDR_W, 1, RULE_COLOR, Ghost(o), Ghost(ls));
        proof { ls = ls.push(rect_layer(rx as int, ry + 22, CMDR_W as int, 1, RULE_COLOR)); }
        if d.cmd_result_ok {
            let _ = paint_str(fb, font, (rx + 8) as usize, (ry + 30) as usize, "Command applied - state updated.",
                HINT_COLOR, Ghost(o), Ghost(ls));
            proof {
                ls = ls.push(text_layer(font@, "Command applied - state updated.".spec_bytes(), rx + 8, ry + 30, HINT_COLOR));
            }
        } else {
            let _ = paint_str(fb, font, (rx + 8) as usize, (ry + 30) as usize, "Unrecognised command (ignored).",
                HINT_COLOR, Ghost(o), Ghost(ls));
            proof {
                ls = ls.push(text_layer(font@, "Unrecognised command (ignored).".spec_bytes(), rx + 8, ry + 30, HINT_COLOR));
            }
        }
        let _ = paint_str(fb, font, (rx + CMDR_W - 120) as usize, (ry + rh - 22) as usize, "click to close",
            CLOSE_HINT_COLOR, Ghost(o), Ghost(ls));
        proof {
            ls = ls.push(text_layer(font@, "click to close".spec_bytes(), rx + CMDR_W - 120, ry + rh - 22, CLOSE_HINT_COLOR));
        }
    }
    assert(ls =~= cmd_result_layers(font@, d.cmd_result@, d.cmd_result_ok, d.cmd_result_vis, d.cmd_result_open));
}


pub const CONSOLE_BG: u32 = 0x000c_1408;
pub const CONSOLE_TITLE: u32 = 0x00aa_ffcc;
pub const CONSOLE_DIM: u32 = 0x0066_aa88;
pub const CONSOLE_GREEN: u32 = 0x0033_ff66;
pub const CONSOLE_TEXT: u32 = 0x0033_aa55;
/// Rows and columns of the text-mode screen mirrored by the console.
pub const TEXT_ROWS: usize = 22;
pub const TEXT_COLS: usize = 80;

/// The character byte of a text-mode cell.
pub open spec fn cell_char(cell: u16) -> u8 {
    (cell & 0xFF) as u8
}

/// The characters of text row `r`.
pub open spec fn cell_row(cells: Seq<u16>, r: int) -> Seq<u8> {
    Seq::new(TEXT_COLS as nat, |c: int| cell_char(cells[r * TEXT_COLS + c]))
}

pub open spec fn console_row_layer(font: Seq<[u8; 16]>, cells: Seq<u16>, r: int) -> Layer {
    text_layer(font, cell_row(cells, r), 44, 174 + 16 * r, CONSOLE_TEXT)
}

/// The full-screen console: cleared background, title, close button, the
/// live node and edge counts, a hint line, the `gos> _` prompt, then the
/// 22 × 80 text screen below it, one glyph per printable character.
pub open spec fn console_layers(font: Seq<[u8; 16]>, n: nat, ne: nat, cells: Seq<u16>) -> Seq<Layer> {
    let dn = dec_digits(n).len() as int;
    let de = dec_digits(ne).len() as int;
    seq![
        rect_layer(0, 0, DW as int, DH as int, CONSOLE_BG),
        text_layer(font, "GOS  -  graph-theory OS  -  kernel console".spec_bytes(), 44, 56, CONSOLE_TITLE),
        (|x: int, y: int, p: u32| close_button_pixel(font, x, y, p)),
        text_layer(font, "live graph:  ".spec_bytes(), 44, 84, CONSOLE_DIM),
        text_layer(font, dec_digits(n), 148, 84, CONSOLE_GREEN),
        text_layer(font, " nodes   ".spec_bytes(), 148 + 8 * dn, 84, CONSOLE_DIM),
        text_layer(font, dec_digits(ne), 220 + 8 * dn, 84, CONSOLE_GREEN),
        text_layer(font, " edges".spec_bytes(), 220 + 8 * dn + 8 * de, 84, CONSOLE_DIM),
        text_layer(font, console_hint().spec_bytes(), 44, 108, CONSOLE_DIM),
        text_layer(font, "gos> _".spec_bytes(), 44, 142, CONSOLE_GREEN)
    ] + Seq::new(TEXT_ROWS as nat, |r: int| console_row_layer(font, cells, r))
}

pub open spec fn console_hint() -> &'static str {
    "ESC, the X (top-right), or right-click: return to the 3D desktop, where the console becomes a red sphere"
}

proof fn lemma_console_literals()
    ensures
        "GOS  -  graph-theory OS  -  kernel console".spec_bytes().len() == 42,
        "live graph:  ".spec_bytes().len() == 13,
        " nodes   ".spec_bytes().len() == 9,
        " edges".spec_bytes().len() == 6,
        console_hint().spec_bytes().len() == 104,
        "gos> _".spec_bytes().len() == 6,
{
    broadcast use vstd::string::group_string_axioms;
    reveal_strlit("GOS  -  graph-theory OS  -  kernel console");
    reveal_strlit("live graph:  ");
    reveal_strlit(" nodes   ");
    reveal_strlit(" edges");
    reveal_strlit("ESC, the X (top-right), or right-click: return to the 3D desktop, where the console becomes a red sphere");
    reveal_strlit("gos> _");
    assert(vstd::string::is_ascii("GOS  -  graph-theory OS  -  kernel console"));
    assert(vstd::string::is_ascii("live graph:  "));
    assert(vstd::string::is_ascii(" nodes   "));
    assert(vstd::string::is_ascii(" edges"));
    assert(vstd::string::is_ascii(
        "ESC, the X (top-right), or right-click: return to the 3D desktop, where the console becomes a red sphere"));
    assert(vstd::string::is_ascii("gos> _"));
}

/// The characters of text row `row`.
fn read_cell_row(cells: &[u16], row: usize) -> (r: Vec<u8>)
    requires
        row < TEXT_ROWS,
        cells@.len() >= TEXT_ROWS * TEXT_COLS,
    ensures
        r@ == cell_row(cells@, row as int),
{
    let mut out: Vec<u8> = Vec::new();
    let mut col: usize = 0;
    while col < TEXT_COLS
        invariant
            row < TEXT_ROWS,
            cells@.len() >= TEXT_ROWS * TEXT_COLS,
            col <= TEXT_COLS,
            out@ == cell_row(cells@, row as int).take(col as int),
        decreases TEXT_COLS - col,
    {
        let cell = cells[row * TEXT_COLS + col];
        out.push((cell & 0xFF) as u8);
        assert(cell_row(cells@, row as int).take(col + 1) =~= cell_row(cells@, row as int).take(col as int).push(
            cell_char(cell)));
        col = col + 1;
    }
    assert(out@ =~= cell_row(cells@, row as int));
    out
}

/// Draw the full-screen kernel console over the desktop, for a graph of
/// `n` nodes and `ne` edges, mirroring the text-mode screen `cells`.
pub fn draw_console(fb: &mut [u32], font: &[[u8; 16]], n: usize, ne: usize, cells: &[u16])
    requires
        old(fb)@.len() >= DPIXELS,
        font@.len() >= 96,
        cells@.len() >= TEXT_ROWS * TEXT_COLS,
    ensures
        painted(final(fb)@, old(fb)@, console_layers(font@, n as nat, ne as nat, cells@)),
{
    proof {
        lemma_console_literals();
        lemma_paint_start(fb@);
    }
    let ghost o = fb@;
    let ghost mut ls = Seq::<Layer>::empty();
    paint_rect(fb, 0, 0, DW as i32, DH as i32, CONSOLE_BG, Ghost(o), Ghost(ls));
    proof { ls = ls.push(rect_layer(0, 0, DW as int, DH as int, CONSOLE_BG)); }
    let _ = paint_str(fb, font, 44, 56, "GOS  -  graph-theory OS  -  kernel console", CONSOLE_TITLE, Ghost(o), Ghost(ls));
    proof {
        ls = ls.push(text_layer(font@, "GOS  -  graph-theory OS  -  kernel console".spec_bytes(), 44, 56, CONSOLE_TITLE));
    }
    let ghost a = fb@;
    draw_close_button(fb, font);
    proof {
        lemma_paint_map(a, o, ls, fb@, |qx: int, qy: int, p: u32| close_button_pixel(font@, qx, qy, p),
            (|x: int, y: int, p: u32| close_button_pixel(font@, x, y, p)));
        ls = ls.push((|x: int, y: int, p: u32| close_button_pixel(font@, x, y, p)));
    }
    let x = paint_str(fb, font, 44, 84, "live graph:  ", CONSOLE_DIM, Ghost(o), Ghost(ls));
    proof { ls = ls.push(text_layer(font@, "live graph:  ".spec_bytes(), 44, 84, CONSOLE_DIM)); }
    let x = paint_num(fb, font, x, 84, n, CONSOLE_GREEN, Ghost(o), Ghost(ls));
    proof { ls = ls.push(text_layer(font@, dec_digits(n as nat), 148, 84, CONSOLE_GREEN)); }
    let x = paint_str(fb, font, x, 84, " nodes   ", CONSOLE_DIM, Ghost(o), Ghost(ls));
    proof { ls = ls.push(text_layer(font@, " nodes   ".spec_bytes(), x - 72, 84, CONSOLE_DIM)); }
    let x = paint_num(fb, font, x, 84, ne, CONSOLE_GREEN, Ghost(o), Ghost(ls));
    proof { ls = ls.push(text_layer(font@, dec_digits(ne as nat), x - 8 * dec_digits(ne as nat).len(), 84, CONSOLE_GREEN)); }
    let _ = paint_str(fb, font, x, 84, " edges", CONSOLE_DIM, Ghost(o), Ghost(ls));
    proof { ls = ls.push(text_layer(font@, " edges".spec_bytes(), x as int, 84, CONSOLE_DIM)); }
    let _ = paint_str(fb, font, 44, 108,
        "ESC, the X (top-right), or right-click: return to the 3D desktop, where the console becomes a red sphere",
        CONSOLE_DIM, Ghost(o), Ghost(ls));
    proof { ls = ls.push(text_layer(font@, console_hint().spec_bytes(), 44, 108, CONSOLE_DIM)); }
    let _ = paint_str(fb, font, 44, 142, "gos> _", CONSOLE_GREEN, Ghost(o), Ghost(ls));
    proof { ls = ls.push(text_layer(font@, "gos> _".spec_bytes(), 44, 142, CONSOLE_GREEN)); }
    let ghost head = ls;
    assert(head =~= console_layers(font@, n as nat, ne as nat, cells@).take(10));
    let mut row: usize = 0;
    while row < TEXT_ROWS
        invariant
            fb@.len() == o.len(),
            o.len() >= DPIXELS,
            font@.len() >= 96,
            cells@.len() >= TEXT_ROWS * TEXT_COLS,
            row <= TEXT_ROWS,
            head =~= console_layers(font@, n as nat, ne as nat, cells@).take(10),
            painted(fb@, o, head + Seq::new(row as nat, |r: int| console_row_layer(font@, cells@, r))),
        decreases TEXT_ROWS - row,
    {
        let bytes = read_cell_row(cells, row);
        let ghost before = head + Seq::new(row as nat, |r: int| console_row_layer(font@, cells@, r));
        let _ = paint_bytes(fb, font, 44, 174 + row * 16, bytes.as_slice(), CONSOLE_TEXT, Ghost(o), Ghost(before));
        assert(before.push(console_row_layer(font@, cells@, row as int)) =~= head + Seq::new((row + 1) as nat,
            |r: int| console_row_layer(font@, cells@, r)));
        row = row + 1;
    }
    assert(head + Seq::new(TEXT_ROWS as nat, |r: int| console_row_layer(font@, cells@, r)) =~= console_layers(
        font@, n as nat, ne as nat, cells@));
}


pub const POPUP_TITLE_BAR: u32 = 0x001a_3a5a;
pub const POPUP_ID_COLOR: u32 = 0x00ff_ff88;
pub const POPUP_VALUE: u32 = 0x00c0_e8ff;
pub const SWATCH_SELECT: u32 = 0x00ff_ffff;

/// The name of palette color `c`.
pub open spec fn pal_name(c: int) -> &'static str {
    if c == 0 { "RED" } else if c == 1 { "WHITE" } else if c == 2 { "CYAN" } else { "GOLD" }
}

fn pal_name_of(c: u8) -> (r: &'static str)
    requires
        c <= 3,
    ensures
        r == pal_name(c as int),
{
    if c == 0 { "RED" } else if c == 1 { "WHITE" } else if c == 2 { "CYAN" } else { "GOLD" }
}

/// Swatch `ci` of a node popup whose swatch row starts at `(px, sy)`:
/// filled with its palette color, and framed in white when it is the
/// node's current color `col`.
pub open spec fn swatch_layers(px: int, sy: int, ci: int, col: int, pal: Seq<u32>) -> Seq<Layer> {
    let bx = px + 56 + 36 * ci;
    let fill = seq![rect_layer(bx, sy, 28, 16, pal[ci])];
    if ci == col {
        fill + seq![
            rect_layer(bx - 1, sy - 1, 30, 1, SWATCH_SELECT),
            rect_layer(bx - 1, sy + 16, 30, 1, SWATCH_SELECT),
            rect_layer(bx - 1, sy - 1, 1, 18, SWATCH_SELECT),
            rect_layer(bx + 28, sy - 1, 1, 18, SWATCH_SELECT)
        ]
    } else {
        fill
    }
}

/// The first `k` swatches, in order.
pub open spec fn swatches(px: int, sy: int, k: int, col: int, pal: Seq<u32>) -> Seq<Layer>
    decreases k,
{
    if k <= 0 { Seq::empty() } else { swatches(px, sy, k - 1, col, pal) + swatch_layers(px, sy, k - 1, col, pal) }
}

/// The info popup of node `id` (`node_popup`) or of edge `id`, anchored
/// at `(ax, ay)` and placed by `spec_popup_origin`: a bordered panel with
/// a title bar `NODE  #id` / `EDGE  #id`; for a node its color name, the
/// number of edges touching it, its index, and the four palette swatches
/// with the current one framed; for an edge its two ends and its index.
pub open spec fn popup_layers(font: Seq<[u8; 16]>, vis: bool, node_popup: bool, id: int, ax: int, ay: int,
    edges: Seq<(u16, u16)>, colors: Seq<u8>, pal: Seq<u32>) -> Seq<Layer> {
    if !vis {
        Seq::empty()
    } else {
        let o = spec_popup_origin(ax, ay);
        let px = o.0;
        let py = o.1;
        let tx = px + 8;
        let ry0 = py + 22;
        let head = seq![
            rect_layer(px - 1, py - 1, POP_W + 2, POP_H + 2, PANEL_BORDER),
            rect_layer(px, py, POP_W as int, POP_H as int, PANEL_FILL),
            rect_layer(px, py, POP_W as int, 18, POPUP_TITLE_BAR),
            text_layer(font, if node_popup { "NODE  #".spec_bytes() } else { "EDGE  #".spec_bytes() }, tx, py + 2,
                PROMPT_COLOR),
            text_layer(font, dec_digits(id as nat), tx + 56, py + 2, POPUP_ID_COLOR),
            rect_layer(px, py + 18, POP_W as int, 1, RULE_COLOR)
        ];
        if node_popup {
            let col = colors[id] as int;
            let name = pal_name(col).spec_bytes();
            head + seq![
                text_layer(font, "COLOR".spec_bytes(), tx, ry0, HINT_COLOR),
                text_layer(font, name, tx + 48, ry0, POPUP_VALUE),
                text_layer(font, "EDGES".spec_bytes(), tx, ry0 + 16, HINT_COLOR),
                text_layer(font, dec_digits(edge_count(edges, id)), tx + 48, ry0 + 16, POPUP_VALUE),
                text_layer(font, "INDEX".spec_bytes(), tx, ry0 + 32, HINT_COLOR),
                text_layer(font, dec_digits(id as nat), tx + 48, ry0 + 32, POPUP_VALUE),
                rect_layer(px, py + 70, POP_W as int, 1, RULE_COLOR),
                text_layer(font, "PICK:".spec_bytes(), tx, py + 76, HINT_COLOR)
            ] + swatches(px, py + 76, 4, col, pal) + seq![
                rect_layer(px, py + 98, POP_W as int, 1, RULE_COLOR),
                text_layer(font, "Click swatch to change".spec_bytes(), tx, py + 102, HINT_COLOR)
            ]
        } else {
            let e = edges[id];
            head + seq![
                text_layer(font, "FROM ".spec_bytes(), tx, ry0, HINT_COLOR),
                text_layer(font, dec_digits(e.0 as nat), tx + 40, ry0, POPUP_VALUE),
                text_layer(font, "TO   ".spec_bytes(), tx, ry0 + 16, HINT_COLOR),
                text_layer(font, dec_digits(e.1 as nat), tx + 40, ry0 + 16, POPUP_VALUE),
                text_layer(font, "INDEX".spec_bytes(), tx, ry0 + 32, HINT_COLOR),
                text_layer(font, dec_digits(id as nat), tx + 48, ry0 + 32, POPUP_VALUE),
                rect_layer(px, py + 70, POP_W as int, 1, RULE_COLOR),
                text_layer(font, "Click nodes to change color".spec_bytes(), tx, py + 78, HINT_COLOR)
            ]
        }
    }
}

proof fn lemma_popup_literals()
    ensures
        "NODE  #".spec_bytes().len() == 7,
        "EDGE  #".spec_bytes().len() == 7,
        "COLOR".spec_bytes().len() == 5,
        "EDGES".spec_bytes().len() == 5,
        "INDEX".spec_bytes().len() == 5,
        "PICK:".spec_bytes().len() == 5,
        "FROM ".spec_bytes().len() == 5,
        "TO   ".spec_bytes().len() == 5,
        "Click swatch to change".spec_bytes().len() == 22,
        "Click nodes to change color".spec_bytes().len() == 27,
        forall|c: int| #![trigger pal_name(c)] pal_name(c).spec_bytes().len() <= 5,
{
    broadcast use vstd::string::group_string_axioms;
    reveal_strlit("NODE  #");
    reveal_strlit("EDGE  #");
    reveal_strlit("COLOR");
    reveal_strlit("EDGES");
    reveal_strlit("INDEX");
    reveal_strlit("PICK:");
    reveal_strlit("FROM ");
    reveal_strlit("TO   ");
    reveal_strlit("Click swatch to change");
    reveal_strlit("Click nodes to change color");
    reveal_strlit("RED");
    reveal_strlit("WHITE");
    reveal_strlit("CYAN");
    reveal_strlit("GOLD");
    assert(vstd::string::is_ascii("NODE  #"));
    assert(vstd::string::is_ascii("EDGE  #"));
    assert(vstd::string::is_ascii("COLOR"));
    assert(vstd::string::is_ascii("EDGES"));
    assert(vstd::string::is_ascii("INDEX"));
    assert(vstd::string::is_ascii("PICK:"));
    assert(vstd::string::is_ascii("FROM "));
    assert(vstd::string::is_ascii("TO   "));
    assert(vstd::string::is_ascii("Click swatch to change"));
    assert(vstd::string::is_ascii("Click nodes to change color"));
    assert(vstd::string::is_ascii("RED"));
    assert(vstd::string::is_ascii("WHITE"));
    assert(vstd::string::is_ascii("CYAN"));
    assert(vstd::string::is_ascii("GOLD"));
}

/// Paint swatch `ci` of the row at `(px, sy)`.
fn paint_swatch(fb: &mut [u32], px: i32, sy: i32, ci: i32, col: i32, pal: &[u32; 4], Ghost(o): Ghost<Seq<u32>>,
    Ghost(ls): Ghost<Seq<Layer>>)
    requires
        old(fb)@.len() >= DPIXELS,
        painted(old(fb)@, o, ls),
        0 <= ci < 4,
        0 <= px <= 0x1000_0000,
        0 <= sy <= 0x1000_0000,
    ensures
        final(fb)@.len() == old(fb)@.len(),
        painted(final(fb)@, o, ls + swatch_layers(px as int, sy as int, ci as int, col as int, pal@)),
{
    let bx = px + 56 + ci * 36;
    paint_rect(fb, bx, sy, 28, 16, pal[ci as usize], Ghost(o), Ghost(ls));
    let ghost l1 = ls.push(rect_layer(bx as int, sy as int, 28, 16, pal@[ci as int]));
    if ci == col {
        paint_rect(fb, bx - 1, sy - 1, 30, 1, SWATCH_SELECT, Ghost(o), Ghost(l1));
        let ghost l2 = l1.push(rect_layer(bx - 1, sy - 1, 30, 1, SWATCH_SELECT));
        paint_rect(fb, bx - 1, sy + 16, 30, 1, SWATCH_SELECT, Ghost(o), Ghost(l2));
        let ghost l3 = l2.push(rect_layer(bx - 1, sy + 16, 30, 1, SWATCH_SELECT));
        paint_rect(fb, bx - 1, sy - 1, 1, 18, SWATCH_SELECT, Ghost(o), Ghost(l3));
        let ghost l4 = l3.push(rect_layer(bx - 1, sy - 1, 1, 18, SWATCH_SELECT));
        paint_rect(fb, bx + 28, sy - 1, 1, 18, SWATCH_SELECT, Ghost(o), Ghost(l4));
        assert(l4.push(rect_layer(bx + 28, sy - 1, 1, 18, SWATCH_SELECT)) =~= ls + swatch_layers(px as int, sy as int,
            ci as int, col as int, pal@));
    } else {
        assert(l1 =~= ls + swatch_layers(px as int, sy as int, ci as int, col as int, pal@));
    }
}

/// Draw the info popup of node `id` (`node_popup`) or of edge `id`,
/// anchored at the on-screen point `(ax, ay)`, with palette `pal`.
pub fn draw_popup(fb: &mut [u32], font: &[[u8; 16]], d: &Desktop, node_popup: bool, id: usize, ax: i32, ay: i32,
    edges: &[(u16, u16)], pal: &[u32; 4])
    requires
        old(fb)@.len() >= DPIXELS,
        font@.len() >= 96,
        d.wf(),
        -20 <= ax <= 0x1000_0000,
        -0x1000_0000 <= ay <= 0x1000_0000,
        d.popup_vis && node_popup ==> id < MAXN && d.node_color@[id as int] <= 3,
        d.popup_vis && !node_popup ==> id < edges@.len(),
    ensures
        painted(final(fb)@, old(fb)@,
            popup_layers(font@, d.popup_vis, node_popup, id as int, ax as int, ay as int, edges@, d.node_color@, pal@)),
{
    proof {
        lemma_popup_literals();
        lemma_paint_start(fb@);
    }
    if !d.popup_vis {
        return;
    }
    let ghost o = fb@;
    let ghost mut ls = Seq::<Layer>::empty();
    let (px, py) = popup_origin(ax, ay);
    paint_rect(fb, px - 1, py - 1, POP_W + 2, POP_H + 2, PANEL_BORDER, Ghost(o), Ghost(ls));
    proof { ls = ls.push(rect_layer(px - 1, py - 1, POP_W + 2, POP_H + 2, PANEL_BORDER)); }
    paint_rect(fb, px, py, POP_W, POP_H, PANEL_FILL, Ghost(o), Ghost(ls));
    proof { ls = ls.push(rect_layer(px as int, py as int, POP_W as int, POP_H as int, PANEL_FILL)); }
    paint_rect(fb, px, py, POP_W, 18, POPUP_TITLE_BAR, Ghost(o), Ghost(ls));
    proof { ls = ls.push(rect_layer(px as int, py as int, POP_W as int, 18, POPUP_TITLE_BAR)); }
    let tx = (px + 8) as usize;
    let ty = (py + 2) as usize;
    let x = if node_popup {
        let x = paint_str(fb, font, tx, ty, "NODE  #", PROMPT_COLOR, Ghost(o), Ghost(ls));
        proof { ls = ls.push(text_layer(font@, "NODE  #".spec_bytes(), tx as int, ty as int, PROMPT_COLOR)); }
        x
    } else {
        let x = paint_str(fb, font, tx, ty, "EDGE  #", PROMPT_COLOR, Ghost(o), Ghost(ls));
        proof { ls = ls.push(text_layer(font@, "EDGE  #".spec_bytes(), tx as int, ty as int, PROMPT_COLOR)); }
        x
    };
    let _ = paint_num(fb, font, x, ty, id, POPUP_ID_COLOR, Ghost(o), Ghost(ls));
    proof { ls = ls.push(text_layer(font@, dec_digits(id as nat), tx + 56, ty as int, POPUP_ID_COLOR)); }
    paint_rect(fb, px, py + 18, POP_W, 1, RULE_COLOR, Ghost(o), Ghost(ls));
    proof { ls = ls.push(rect_layer(px as int, py + 18, POP_W as int, 1, RULE_COLOR)); }
    let ry0 = (py + 22) as usize;
    if node_popup {
        let col = d.node_color[id];
        let x = paint_str(fb, font, tx, ry0, "COLOR", HINT_COLOR, Ghost(o), Ghost(ls));
        proof { ls = ls.push(text_layer(font@, "COLOR".spec_bytes(), tx as int, ry0 as int, HINT_COLOR)); }
        let name = pal_name_of(col);
        let _ = paint_str(fb, font, x + 8, ry0, name, POPUP_VALUE, Ghost(o), Ghost(ls));
        proof { ls = ls.push(text_layer(font@, pal_name(col as int).spec_bytes(), tx + 48, ry0 as int, POPUP_VALUE)); }
        let ec = node_edge_count(edges, id);
        let x = paint_str(fb, font, tx, ry0 + 16, "EDGES", HINT_COLOR, Ghost(o), Ghost(ls));
        proof { ls = ls.push(text_layer(font@, "EDGES".spec_bytes(), tx as int, ry0 + 16, HINT_COLOR)); }
        let _ = paint_num(fb, font, x + 8, ry0 + 16, ec, POPUP_VALUE, Ghost(o), Ghost(ls));
        proof { ls = ls.push(text_layer(font@, dec_digits(edge_count(edges@, id as int)), tx + 48, ry0 + 16, POPUP_VALUE)); }
        let x = paint_str(fb, font, tx, ry0 + 32, "INDEX", HINT_COLOR, Ghost(o), Ghost(ls));
        proof { ls = ls.push(text_layer(font@, "INDEX".spec_bytes(), tx as int, ry0 + 32, HINT_COLOR)); }
        let _ = paint_num(fb, font, x + 8, ry0 + 32, id, POPUP_VALUE, Ghost(o), Ghost(ls));
        proof { ls = ls.push(text_layer(font@, dec_digits(id as nat), tx + 48, ry0 + 32, POPUP_VALUE)); }
        paint_rect(fb, px, py + 70, POP_W, 1, RULE_COLOR, Ghost(o), Ghost(ls));
        proof { ls = ls.push(rect_layer(px as int, py + 70, POP_W as int, 1, RULE_COLOR)); }
        let sy = py + 76;
        let _ = paint_str(fb, font, tx, sy as usize, "PICK:", HINT_COLOR, Ghost(o), Ghost(ls));
        proof { ls = ls.push(text_layer(font@, "PICK:".spec_bytes(), tx as int, sy as int, HINT_COLOR)); }
        let ghost head = ls;
        let mut ci: i32 = 0;
        while ci < 4
            invariant
                0 <= ci <= 4,
                fb@.len() == o.len(),
                o.len() >= DPIXELS,
                0 <= px <= 0x1000_0000,
                0 <= sy <= 0x1000_0000,
                painted(fb@, o, head + swatches(px as int, sy as int, ci as int, col as int, pal@)),
            decreases 4 - ci,
        {
            let ghost before = head + swatches(px as int, sy as int, ci as int, col as int, pal@);
            paint_swatch(fb, px, sy, ci, col as i32, pal, Ghost(o), Ghost(before));
            assert(before + swatch_layers(px as int, sy as int, ci as int, col as int, pal@) =~= head + swatches(
                px as int, sy as int, ci + 1, col as int, pal@));
            ci = ci + 1;
        }
        proof { ls = head + swatches(px as int, sy as int, 4, col as int, pal@); }
        paint_rect(fb, px, py + 98, POP_W, 1, RULE_COLOR, Ghost(o), Ghost(ls));
        proof { ls = ls.push(rect_layer(px as int, py + 98, POP_W as int, 1, RULE_COLOR)); }
        let _ = paint_str(fb, font, tx, (py + 102) as usize, "Click swatch to change", HINT_COLOR, Ghost(o), Ghost(ls));
        proof { ls = ls.push(text_layer(font@, "Click swatch to change".spec_bytes(), tx as int, py + 102, HINT_COLOR)); }
    } else {
        let (a, b) = edges[id];
        let x = paint_str(fb, font, tx, ry0, "FROM ", HINT_COLOR, Ghost(o), Ghost(ls));
        proof { ls = ls.push(text_layer(font@, "FROM ".spec_bytes(), tx as int, ry0 as int, HINT_COLOR)); }
        let _ = paint_num(fb, font, x, ry0, a as usize, POPUP_VALUE, Ghost(o), Ghost(ls));
        proof { ls = ls.push(text_layer(font@, dec_digits(a as nat), tx + 40, ry0 as int, POPUP_VALUE)); }
        let x = paint_str(fb, font, tx, ry0 + 16, "TO   ", HINT_COLOR, Ghost(o), Ghost(ls));
        proof { ls = ls.push(text_layer(font@, "TO   ".spec_bytes(), tx as int, ry0 + 16, HINT_COLOR)); }
        let _ = paint_num(fb, font, x, ry0 + 16, b as usize, POPUP_VALUE, Ghost(o), Ghost(ls));
        proof { ls = ls.push(text_layer(font@, dec_digits(b as nat), tx + 40, ry0 + 16, POPUP_VALUE)); }
        let x = paint_str(fb, font, tx, ry0 + 32, "INDEX", HINT_COLOR, Ghost(o), Ghost(ls));
        proof { ls = ls.push(text_layer(font@, "INDEX".spec_bytes(), tx as int, ry0 + 32, HINT_COLOR)); }
        let _ = paint_num(fb, font, x + 8, ry0 + 32, id, POPUP_VALUE, Ghost(o), Ghost(ls));
        proof { ls = ls.push(text_layer(font@, dec_digits(id as nat), tx + 48, ry0 + 32, POPUP_VALUE)); }
        paint_rect(fb, px, py + 70, POP_W, 1, RULE_COLOR, Ghost(o), Ghost(ls));
        proof { ls = ls.push(rect_layer(px as int, py + 70, POP_W as int, 1, RULE_COLOR)); }
        let _ = paint_str(fb, font, tx, (py + 78) as usize, "Click nodes to change color", HINT_COLOR, Ghost(o),
            Ghost(ls));
        proof {
            ls = ls.push(text_layer(font@, "Click nodes to change color".spec_bytes(), tx as int, py + 78, HINT_COLOR));
        }
    }
    assert(ls =~= popup_layers(font@, d.popup_vis, node_popup, id as int, ax as int, ay as int, edges@,
        d.node_color@, pal@));
}

} // verus!
