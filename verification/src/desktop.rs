//! Software drawing on the 1920×1080 true-colour desktop framebuffer:
//! clipped rectangles and discs, 8×16 text from a bitmap font, the mouse
//! arrow, the console's close button and the taskbar buttons.  Pixels
//! are `0x00RRGGBB` words stored row by row.

use vstd::prelude::*;
use vstd::string::StringSliceAdditionalSpecFns;
use crate::bytebuf::{dec_digits, dec_vec};

verus! {

/// Desktop width in pixels.
pub const DW: usize = 1920;
/// Desktop height in pixels.
pub const DH: usize = 1080;
/// Pixels on the desktop.
pub const DPIXELS: usize = 2073600;

pub open spec fn on_desk(x: int, y: int) -> bool {
    0 <= x < DW && 0 <= y < DH
}

/// The pixel at `(x, y)`.
pub open spec fn dpix(s: Seq<u32>, x: int, y: int) -> u32 {
    s[y * DW + x]
}

/// The buffer keeps its length, and whatever lies past the desktop.
pub open spec fn keeps_tail(new: Seq<u32>, old: Seq<u32>) -> bool {
    &&& new.len() == old.len()
    &&& forall|i: int| DPIXELS <= i < old.len() ==> new[i] == old[i]
}

/// Pixel `(x, y)` lies under a set bit of the 8×16 glyph `rows` drawn with
/// its top-left corner at `(gx, gy)`; bit 7 of a row is its leftmost pixel.
pub open spec fn glyph16_on(rows: Seq<u8>, x: int, y: int, gx: int, gy: int) -> bool {
    &&& gx <= x < gx + 8
    &&& gy <= y < gy + 16
    &&& rows[y - gy] & (0x80u8 >> ((x - gx) as u8)) != 0
}

/// A byte that has a glyph in the font and is drawn: `!` to DEL.
pub open spec fn drawn_byte(b: u8) -> bool {
    0x20 < b && b < 0x80
}

/// Pixel `(x, y)` is lit by one of the first `n` bytes of `s`, laid out in
/// 8-pixel cells from `(x0, y0)`.
pub open spec fn text16_on(font: Seq<[u8; 16]>, s: Seq<u8>, n: int, x: int, y: int, x0: int, y0: int) -> bool {
    exists|i: int| 0 <= i < n && drawn_byte(s[i])
        && #[trigger] glyph16_on(font[s[i] - 0x20]@, x, y, x0 + 8 * i, y0)
}

/// `new` is `old` with the pixels satisfying `lit` set to `color`.
pub open spec fn desk_set(new: Seq<u32>, old: Seq<u32>, lit: spec_fn(int, int) -> bool, color: u32) -> bool {
    &&& keeps_tail(new, old)
    &&& forall|x: int, y: int| #![trigger dpix(new, x, y)] on_desk(x, y) ==>
        dpix(new, x, y) == (if lit(x, y) { color } else { dpix(old, x, y) })
}

pub proof fn lemma_desk_index(x: int, y: int, x2: int, y2: int)
    requires
        on_desk(x, y),
        on_desk(x2, y2),
        y * DW + x == y2 * DW + x2,
    ensures
        x == x2 && y == y2,
{
}

/// Set one on-desk pixel.
fn put(fb: &mut [u32], x: usize, y: usize, color: u32)
    requires
        old(fb)@.len() >= DPIXELS,
        on_desk(x as int, y as int),
    ensures
        keeps_tail(final(fb)@, old(fb)@),
        forall|qx: int, qy: int| #![trigger dpix(final(fb)@, qx, qy)] on_desk(qx, qy) ==>
            dpix(final(fb)@, qx, qy) == (if qx == x && qy == y { color } else { dpix(old(fb)@, qx, qy) }),
{
    assert(y * DW + x < DPIXELS) by (nonlinear_arith)
        requires x < DW, y < DH;
    fb[y * DW + x] = color;
    assert forall|qx: int, qy: int| #![trigger dpix(fb@, qx, qy)] on_desk(qx, qy) && !(qx == x && qy == y)
        implies dpix(fb@, qx, qy) == dpix(old(fb)@, qx, qy) by {
        if qy * DW + qx == y * DW + x {
            lemma_desk_index(qx, qy, x as int, y as int);
        }
        assert(qy * DW + qx < DPIXELS) by (nonlinear_arith)
            requires 0 <= qx < DW, 0 <= qy < DH;
        assert(qy * DW + qx >= 0) by (nonlinear_arith)
            requires 0 <= qx, 0 <= qy;
    }
}

/// Draw the glyph of `ch` with its top-left corner at `(x, y)`: set bits
/// take `color`, the rest of the cell and everything clipped away stay.
pub fn draw_glyph(fb: &mut [u32], font: &[[u8; 16]], x: usize, y: usize, ch: u8, color: u32)
    requires
        old(fb)@.len() >= DPIXELS,
        0x20 <= ch,
        ch - 0x20 < font@.len(),
        x + 8 <= usize::MAX,
        y + 16 <= usize::MAX,
    ensures
        desk_set(final(fb)@, old(fb)@, |qx: int, qy: int| glyph16_on(font@[ch - 0x20]@, qx, qy, x as int, y as int), color),
{
    let g: [u8; 16] = font[(ch - 0x20) as usize];
    let ghost orig = fb@;
    let mut ry: usize = 0;
    while ry < 16
        invariant
            orig == old(fb)@,
            g == font@[ch - 0x20],
            orig.len() >= DPIXELS,
            keeps_tail(fb@, orig),
            x + 8 <= usize::MAX,
            y + 16 <= usize::MAX,
            ry <= 16,
            forall|qx: int, qy: int| #![trigger dpix(fb@, qx, qy)] on_desk(qx, qy) ==> dpix(fb@, qx, qy) == (
                if glyph16_on(g@, qx, qy, x as int, y as int) && qy < y + ry { color } else { dpix(orig, qx, qy) }),
        decreases 16 - ry,
    {
        let bits = g[ry];
        let py = y + ry;
        if py < DH {
            let mut rx: usize = 0;
            while rx < 8
                invariant
                    orig.len() >= DPIXELS,
                    keeps_tail(fb@, orig),
                    x + 8 <= usize::MAX,
                    ry < 16,
                    py == y + ry,
                    py < DH,
                    bits == g@[ry as int],
                    rx <= 8,
                    forall|qx: int, qy: int| #![trigger dpix(fb@, qx, qy)] on_desk(qx, qy) ==> dpix(fb@, qx, qy) == (
                        if glyph16_on(g@, qx, qy, x as int, y as int) && (qy < y + ry || (qy == py && qx < x + rx)) {
                            color
                        } else {
                            dpix(orig, qx, qy)
                        }),
                decreases 8 - rx,
            {
                if bits & (0x80u8 >> (rx as u8)) != 0 {
                    let px = x + rx;
                    if px < DW {
                        put(fb, px, py, color);
                    }
                }
                rx = rx + 1;
            }
        }
        ry = ry + 1;
    }
}

/// Draw `s` from `(x, y)` in 8-pixel cells: bytes from `!` to DEL get
/// their glyph, any other byte leaves its cell empty.  Returns the x just
/// past the last cell.
pub fn draw_str(fb: &mut [u32], font: &[[u8; 16]], x: usize, y: usize, s: &str, color: u32) -> (r: usize)
    requires
        old(fb)@.len() >= DPIXELS,
        font@.len() >= 96,
        x + 8 * s.spec_bytes().len() + 8 <= usize::MAX,
        y + 16 <= usize::MAX,
    ensures
        r == x + 8 * s.spec_bytes().len(),
        desk_set(final(fb)@, old(fb)@,
            |qx: int, qy: int| text16_on(font@, s.spec_bytes(), s.spec_bytes().len() as int, qx, qy, x as int, y as int), color),
{
    draw_bytes(fb, font, x, y, s.as_bytes(), color)
}

/// `draw_str` on bytes.
pub fn draw_bytes(fb: &mut [u32], font: &[[u8; 16]], x: usize, y: usize, s: &[u8], color: u32) -> (r: usize)
    requires
        old(fb)@.len() >= DPIXELS,
        font@.len() >= 96,
        x + 8 * s@.len() + 8 <= usize::MAX,
        y + 16 <= usize::MAX,
    ensures
        r == x + 8 * s@.len(),
        desk_set(final(fb)@, old(fb)@, |qx: int, qy: int| text16_on(font@, s@, s@.len() as int, qx, qy, x as int, y as int), color),
{
    let ghost orig = fb@;
    let mut cx = x;
    let mut i: usize = 0;
    while i < s.len()
        invariant
            orig == old(fb)@,
            orig.len() >= DPIXELS,
            font@.len() >= 96,
            keeps_tail(fb@, orig),
            i <= s@.len(),
            cx == x + 8 * i,
            x + 8 * s@.len() + 8 <= usize::MAX,
            y + 16 <= usize::MAX,
            forall|qx: int, qy: int| #![trigger dpix(fb@, qx, qy)] on_desk(qx, qy) ==> dpix(fb@, qx, qy) == (
                if text16_on(font@, s@, i as int, qx, qy, x as int, y as int) { color } else { dpix(orig, qx, qy) }),
        decreases s@.len() - i,
    {
        let b = s[i];
        let ghost ci = i as int;
        let ghost prev = fb@;
        if b > 0x20 && b < 0x80 {
            draw_glyph(fb, font, cx, y, b, color);
        }
        proof {
            assert forall|qx: int, qy: int| #![trigger dpix(fb@, qx, qy)] on_desk(qx, qy) implies dpix(fb@, qx, qy) == (
                if text16_on(font@, s@, ci + 1, qx, qy, x as int, y as int) { color } else { dpix(orig, qx, qy) }) by {
                if drawn_byte(b) && glyph16_on(font@[b - 0x20]@, qx, qy, cx as int, y as int) {
                    assert(glyph16_on(font@[s@[ci] - 0x20]@, qx, qy, x + 8 * ci, y as int));
                } else if text16_on(font@, s@, ci + 1, qx, qy, x as int, y as int) {
                    let j = choose|j: int| 0 <= j < ci + 1 && drawn_byte(s@[j])
                        && #[trigger] glyph16_on(font@[s@[j] - 0x20]@, qx, qy, x + 8 * j, y as int);
                    assert(j != ci);
                    assert(text16_on(font@, s@, ci, qx, qy, x as int, y as int));
                } else {
                    assert(!text16_on(font@, s@, ci, qx, qy, x as int, y as int));
                }
            }
        }
        cx = cx + 8;
        i = i + 1;
    }
    cx
}

/// Draw the decimal digits of `v` from `(x, y)`; returns the x just past
/// the last digit.
pub fn draw_num(fb: &mut [u32], font: &[[u8; 16]], x: usize, y: usize, v: usize, color: u32) -> (r: usize)
    requires
        old(fb)@.len() >= DPIXELS,
        font@.len() >= 96,
        x + 8 * dec_digits(v as nat).len() + 8 <= usize::MAX,
        y + 16 <= usize::MAX,
    ensures
        r == x + 8 * dec_digits(v as nat).len(),
        desk_set(final(fb)@, old(fb)@,
            |qx: int, qy: int| text16_on(font@, dec_digits(v as nat), dec_digits(v as nat).len() as int, qx, qy, x as int, y as int), color),
{
    let digits = dec_vec(v as u64);
    draw_bytes(fb, font, x, y, digits.as_slice(), color)
}

/// Fill the rectangle at `(x, y)` of `w × h` pixels, clipped to the
/// desktop.
pub fn fill_rect(fb: &mut [u32], x: i32, y: i32, w: i32, h: i32, color: u32)
    requires
        old(fb)@.len() >= DPIXELS,
        i32::MIN <= x + w <= i32::MAX,
        i32::MIN <= y + h <= i32::MAX,
    ensures
        desk_set(final(fb)@, old(fb)@, |qx: int, qy: int| x <= qx < x + w && y <= qy < y + h, color),
{
    let x0 = if x > 0 { x } else { 0 };
    let y0 = if y > 0 { y } else { 0 };
    let x1 = if x + w < DW as i32 { x + w } else { DW as i32 };
    let y1 = if y + h < DH as i32 { y + h } else { DH as i32 };
    let ghost orig = fb@;
    let mut yy = y0;
    while yy < y1
        invariant
            orig == old(fb)@,
            orig.len() >= DPIXELS,
            keeps_tail(fb@, orig),
            x0 == (if x > 0 { x } else { 0 }),
            x1 == (if x + w < DW { x + w } else { DW as int }),
            y1 == (if y + h < DH { y + h } else { DH as int }),
            y0 <= yy,
            yy <= y1 || yy == y0,
            y0 == (if y > 0 { y } else { 0 }),
            forall|qx: int, qy: int| #![trigger dpix(fb@, qx, qy)] on_desk(qx, qy) ==> dpix(fb@, qx, qy) == (
                if x <= qx < x + w && y <= qy < yy { color } else { dpix(orig, qx, qy) }),
        decreases y1 - yy,
    {
        let mut xx = x0;
        while xx < x1
            invariant
                orig.len() >= DPIXELS,
                keeps_tail(fb@, orig),
                x0 == (if x > 0 { x } else { 0 }),
                x1 == (if x + w < DW { x + w } else { DW as int }),
                y0 <= yy < y1,
                y0 == (if y > 0 { y } else { 0 }),
                y1 == (if y + h < DH { y + h } else { DH as int }),
                x0 <= xx,
                xx <= x1 || xx == x0,
                forall|qx: int, qy: int| #![trigger dpix(fb@, qx, qy)] on_desk(qx, qy) ==> dpix(fb@, qx, qy) == (
                    if x <= qx < x + w && (y <= qy < yy || (qy == yy && qx < xx)) { color } else { dpix(orig, qx, qy) }),
            decreases x1 - xx,
        {
            put(fb, xx as usize, yy as usize, color);
            xx = xx + 1;
        }
        yy = yy + 1;
    }
    assert forall|qx: int, qy: int| #![trigger dpix(fb@, qx, qy)] on_desk(qx, qy) implies dpix(fb@, qx, qy) == (
        if x <= qx < x + w && y <= qy < y + h { color } else { dpix(orig, qx, qy) }) by {
        if x <= qx < x + w && y <= qy < y + h {
            assert(qy < yy);
        }
    }
}

/// Fill the disc of radius `r` about `(cx, cy)`: the pixels within `r`
/// along both axes whose squared distance is at most `r²`.
pub fn fill_circ(fb: &mut [u32], cx: i32, cy: i32, r: i32, color: u32)
    requires
        old(fb)@.len() >= DPIXELS,
        r * r <= i32::MAX,
        r >= 0 ==> 2 * r * r <= i32::MAX,
        r >= 0 ==> i32::MIN <= cx - r && cx + r <= i32::MAX,
        r >= 0 ==> i32::MIN <= cy - r && cy + r <= i32::MAX,
    ensures
        desk_set(final(fb)@, old(fb)@, |qx: int, qy: int|
            -r <= qx - cx <= r && -r <= qy - cy <= r && (qx - cx) * (qx - cx) + (qy - cy) * (qy - cy) <= r * r, color),
{
    let ghost orig = fb@;
    if r < 0 {
        return;
    }
    let r2 = r * r;
    let mut dy = -r;
    while dy <= r
        invariant
            orig == old(fb)@,
            orig.len() >= DPIXELS,
            keeps_tail(fb@, orig),
            0 <= r,
            r2 == r * r,
            2 * r * r <= i32::MAX,
            i32::MIN <= cx - r && cx + r <= i32::MAX,
            i32::MIN <= cy - r && cy + r <= i32::MAX,
            -r <= dy <= r + 1,
            forall|qx: int, qy: int| #![trigger dpix(fb@, qx, qy)] on_desk(qx, qy) ==> dpix(fb@, qx, qy) == (
                if -r <= qx - cx <= r && -r <= qy - cy < dy
                    && (qx - cx) * (qx - cx) + (qy - cy) * (qy - cy) <= r * r { color } else { dpix(orig, qx, qy) }),
        decreases r + 1 - dy,
    {
        let mut dx = -r;
        while dx <= r
            invariant
                orig.len() >= DPIXELS,
                keeps_tail(fb@, orig),
                0 <= r,
                r2 == r * r,
                2 * r * r <= i32::MAX,
                i32::MIN <= cx - r && cx + r <= i32::MAX,
                i32::MIN <= cy - r && cy + r <= i32::MAX,
                -r <= dy <= r,
                -r <= dx <= r + 1,
                forall|qx: int, qy: int| #![trigger dpix(fb@, qx, qy)] on_desk(qx, qy) ==> dpix(fb@, qx, qy) == (
                    if -r <= qx - cx <= r && (-r <= qy - cy < dy || (qy - cy == dy && qx - cx < dx))
                        && (qx - cx) * (qx - cx) + (qy - cy) * (qy - cy) <= r * r { color } else { dpix(orig, qx, qy) }),
            decreases r + 1 - dx,
        {
            assert(dx * dx <= r * r && dy * dy <= r * r) by (nonlinear_arith)
                requires -r <= dx <= r, -r <= dy <= r;
            assert(dx * dx >= 0 && dy * dy >= 0) by (nonlinear_arith);
            assert(2 * r * r == r * r + r * r) by (nonlinear_arith);
            assert(r < 46341) by (nonlinear_arith)
                requires r * r <= i32::MAX, r >= 0;
            if dx * dx + dy * dy <= r2 {
                let px = cx + dx;
                let py = cy + dy;
                if px >= 0 && px < DW as i32 && py >= 0 && py < DH as i32 {
                    put(fb, px as usize, py as usize, color);
                }
            }
            dx = dx + 1;
        }
        dy = dy + 1;
    }
}

/// The arrow cursor's pixel at offset `(dx, dy)` from its tip, if any:
/// row `dy` is `dy + 1` wide down to row 11, then narrows; the outline is
/// dark, the inside white.
pub open spec fn cursor_pixel(dx: int, dy: int) -> Option<u32> {
    let w = if dy <= 11 { dy + 1 } else { 23 - dy };
    if 0 <= dy < 17 && 0 <= dx < w {
        if dx == 0 || dx == w - 1 || dy == 0 { Some(0x0010_1014u32) } else { Some(0x00ff_ffffu32) }
    } else {
        None
    }
}

/// `new` is `old` with each pixel replaced by `f` of its position and old
/// value.
pub open spec fn desk_map(new: Seq<u32>, old: Seq<u32>, f: spec_fn(int, int, u32) -> u32) -> bool {
    &&& keeps_tail(new, old)
    &&& forall|x: int, y: int| #![trigger dpix(new, x, y)] on_desk(x, y) ==>
        dpix(new, x, y) == f(x, y, dpix(old, x, y))
}

/// Draw the arrow cursor with its tip at `(x, y)`, clipped to the desktop.
pub fn draw_cursor(fb: &mut [u32], x: i32, y: i32)
    requires
        old(fb)@.len() >= DPIXELS,
        x + 12 <= i32::MAX,
        y + 17 <= i32::MAX,
    ensures
        desk_map(final(fb)@, old(fb)@, |qx: int, qy: int, o: u32| match cursor_pixel(qx - x, qy - y) {
            Some(c) => c,
            None => o,
        }),
{
    let ghost orig = fb@;
    let mut r: i32 = 0;
    while r < 17
        invariant
            orig == old(fb)@,
            orig.len() >= DPIXELS,
            keeps_tail(fb@, orig),
            x + 12 <= i32::MAX,
            y + 17 <= i32::MAX,
            0 <= r <= 17,
            forall|qx: int, qy: int| #![trigger dpix(fb@, qx, qy)] on_desk(qx, qy) ==> dpix(fb@, qx, qy) == (
                if qy - y < r { match cursor_pixel(qx - x, qy - y) { Some(c) => c, None => dpix(orig, qx, qy) } }
                else { dpix(orig, qx, qy) }),
        decreases 17 - r,
    {
        let w = if r <= 11 { r + 1 } else { 23 - r };
        let mut c: i32 = 0;
        while c < w
            invariant
                orig.len() >= DPIXELS,
                keeps_tail(fb@, orig),
                x + 12 <= i32::MAX,
                y + 17 <= i32::MAX,
                0 <= r < 17,
                w == (if r <= 11 { r + 1 } else { 23 - r }),
                0 <= c <= w,
                forall|qx: int, qy: int| #![trigger dpix(fb@, qx, qy)] on_desk(qx, qy) ==> dpix(fb@, qx, qy) == (
                    if qy - y < r || (qy - y == r && qx - x < c) {
                        match cursor_pixel(qx - x, qy - y) { Some(v) => v, None => dpix(orig, qx, qy) }
                    } else {
                        dpix(orig, qx, qy)
                    }),
            decreases w - c,
        {
            let px = x + c;
            let py = y + r;
            if px >= 0 && px < DW as i32 && py >= 0 && py < DH as i32 {
                let edge = c == 0 || c == w - 1 || r == 0;
                put(fb, px as usize, py as usize, if edge { 0x0010_1014 } else { 0x00ff_ffff });
            }
            c = c + 1;
        }
        r = r + 1;
    }
}

/// The console's close button: its box, at the top-right corner.
pub const CLOSE_BTN_X: i32 = 1874;
pub const CLOSE_BTN_Y: i32 = 12;
pub const CLOSE_BTN_W: i32 = 34;
pub const CLOSE_BTN_H: i32 = 26;
/// A taskbar button's size.
pub const BTN_W: i32 = 92;
pub const BTN_H: i32 = 24;

pub proof fn lemma_x_len()
    ensures
        "X".spec_bytes().len() == 1,
{
    broadcast use vstd::string::group_string_axioms;
    reveal_strlit("X");
    assert(vstd::string::is_ascii("X"));
}

/// The close button's pixel: the `X` in light red over a dark red box with
/// lighter top and bottom edges.
pub open spec fn close_button_pixel(font: Seq<[u8; 16]>, x: int, y: int, old: u32) -> u32 {
    if text16_on(font, "X".spec_bytes(), 1, x, y, CLOSE_BTN_X + 11, CLOSE_BTN_Y + 5) {
        0x00ff_8080
    } else if CLOSE_BTN_X <= x < CLOSE_BTN_X + CLOSE_BTN_W && (y == CLOSE_BTN_Y || y == CLOSE_BTN_Y + CLOSE_BTN_H - 1) {
        0x00aa_5060
    } else if CLOSE_BTN_X <= x < CLOSE_BTN_X + CLOSE_BTN_W && CLOSE_BTN_Y <= y < CLOSE_BTN_Y + CLOSE_BTN_H {
        0x002a_1418
    } else {
        old
    }
}

/// Draw the console's close button.
pub fn draw_close_button(fb: &mut [u32], font: &[[u8; 16]])
    requires
        old(fb)@.len() >= DPIXELS,
        font@.len() >= 96,
    ensures
        desk_map(final(fb)@, old(fb)@, |qx: int, qy: int, o: u32| close_button_pixel(font@, qx, qy, o)),
{
    proof { lemma_x_len(); }
    let ghost s0 = fb@;
    fill_rect(fb, CLOSE_BTN_X, CLOSE_BTN_Y, CLOSE_BTN_W, CLOSE_BTN_H, 0x002a_1418);
    let ghost s1 = fb@;
    fill_rect(fb, CLOSE_BTN_X, CLOSE_BTN_Y, CLOSE_BTN_W, 1, 0x00aa_5060);
    let ghost s2 = fb@;
    fill_rect(fb, CLOSE_BTN_X, CLOSE_BTN_Y + CLOSE_BTN_H - 1, CLOSE_BTN_W, 1, 0x00aa_5060);
    let ghost s3 = fb@;
    let _ = draw_str(fb, font, (CLOSE_BTN_X + 11) as usize, (CLOSE_BTN_Y + 5) as usize, "X", 0x00ff_8080);
    assert forall|qx: int, qy: int| #![trigger dpix(fb@, qx, qy)] on_desk(qx, qy) implies
        dpix(fb@, qx, qy) == close_button_pixel(font@, qx, qy, dpix(s0, qx, qy)) by {
        assert(dpix(s1, qx, qy) == dpix(s1, qx, qy));
        assert(dpix(s2, qx, qy) == dpix(s2, qx, qy));
        assert(dpix(s3, qx, qy) == dpix(s3, qx, qy));
    }
}

/// Where a button's label starts: centred in the button, or at its left
/// edge when the label is wider than the button.
pub open spec fn label_x(x: int, len: int) -> int {
    if 8 * len <= BTN_W { x + (BTN_W - 8 * len) / 2 } else { x }
}

/// A taskbar button's pixel: the label over a blue box with lighter top
/// and bottom edges.
pub open spec fn button_pixel(font: Seq<[u8; 16]>, bx: int, by: int, label: Seq<u8>, x: int, y: int, old: u32) -> u32 {
    if text16_on(font, label, label.len() as int, x, y, label_x(bx, label.len() as int), by + 4) {
        0x00cf_e8ff
    } else if bx <= x < bx + BTN_W && (y == by || y == by + BTN_H - 1) {
        0x003a_6090
    } else if bx <= x < bx + BTN_W && by <= y < by + BTN_H {
        0x001e_3048
    } else {
        old
    }
}

/// Draw a taskbar button at `(x, y)` with `label` centred on it.
pub fn draw_button(fb: &mut [u32], font: &[[u8; 16]], x: i32, y: i32, label: &str)
    requires
        old(fb)@.len() >= DPIXELS,
        font@.len() >= 96,
        8 * label.spec_bytes().len() <= i32::MAX,
        x + BTN_W <= i32::MAX,
        y + BTN_H <= i32::MAX,
        label_x(x as int, label.spec_bytes().len() as int) >= 0,
        y + 4 >= 0,
    ensures
        desk_map(final(fb)@, old(fb)@, |qx: int, qy: int, o: u32|
            button_pixel(font@, x as int, y as int, label.spec_bytes(), qx, qy, o)),
{
    let ghost s0 = fb@;
    fill_rect(fb, x, y, BTN_W, BTN_H, 0x001e_3048);
    let ghost s1 = fb@;
    fill_rect(fb, x, y, BTN_W, 1, 0x003a_6090);
    let ghost s2 = fb@;
    fill_rect(fb, x, y + BTN_H - 1, BTN_W, 1, 0x003a_6090);
    let ghost s3 = fb@;
    let bytes = label.as_bytes();
    let lw = bytes.len() as i32 * 8;
    let lx = if lw <= BTN_W { x + (BTN_W - lw) / 2 } else { x };
    let _ = draw_bytes(fb, font, lx as usize, (y + 4) as usize, bytes, 0x00cf_e8ff);
    assert forall|qx: int, qy: int| #![trigger dpix(fb@, qx, qy)] on_desk(qx, qy) implies
        dpix(fb@, qx, qy) == button_pixel(font@, x as int, y as int, label.spec_bytes(), qx, qy, dpix(s0, qx, qy)) by {
        assert(dpix(s1, qx, qy) == dpix(s1, qx, qy));
        assert(dpix(s2, qx, qy) == dpix(s2, qx, qy));
        assert(dpix(s3, qx, qy) == dpix(s3, qx, qy));
    }
}

/// The PCI configuration address of register `off` of `bus:slot.func`.
pub fn pci_config_address(bus: u8, slot: u8, func: u8, off: u8) -> (r: u32)
    ensures
        r == 0x8000_0000u32 | ((bus as u32) << 16u32) | ((slot as u32) << 11u32) | ((func as u32) << 8u32) | ((off & 0xFC) as u32),
{
    0x8000_0000u32 | ((bus as u32) << 16u32) | ((slot as u32) << 11u32) | ((func as u32) << 8u32) | ((off & 0xFC) as u32)
}

/// A device answers at the slot: its vendor id is not all ones.
pub fn pci_vendor_present(reg0: u32) -> (r: bool)
    ensures
        r == (reg0 % 0x1_0000 != 0xFFFF),
{
    assert((reg0 & 0xFFFF) == reg0 % 0x1_0000) by (bit_vector);
    (reg0 & 0xFFFF) != 0xFFFF
}

/// The device is a display controller: its class code is 3.
pub fn pci_is_display(reg8: u32) -> (r: bool)
    ensures
        r == (reg8 / 0x100_0000 == 3),
{
    assert(((reg8 >> 24u32) & 0xFF) == reg8 / 0x100_0000) by (bit_vector);
    ((reg8 >> 24) & 0xFF) == 3
}

/// The memory base of BAR0: its low four flag bits cleared, with the next
/// BAR as the high half when BAR0 is a 64-bit BAR.
pub fn bar_base(bar0: u32, hi: u32) -> (r: u64)
    ensures
        r == (if (bar0 / 2) % 4 == 2 { hi as int * 0x1_0000_0000 + bar0 - bar0 % 16 } else { bar0 - bar0 % 16 }),
{
    assert(((bar0 >> 1u32) & 3) == (bar0 / 2) % 4) by (bit_vector);
    assert((bar0 as u64 & 0xFFFF_FFF0u64) == bar0 - bar0 % 16) by (bit_vector);
    if (bar0 >> 1) & 0x3 == 0x2 {
        let lo = bar0 as u64 & 0xFFFF_FFF0;
        assert(((hi as u64) << 32u64) == hi as int * 0x1_0000_0000) by (bit_vector);
        assert((((hi as u64) << 32u64) | lo) == ((hi as u64) << 32u64) + lo) by (bit_vector)
            requires lo < 0x1_0000_0000;
        ((hi as u64) << 32) | lo
    } else {
        bar0 as u64 & 0xFFFF_FFF0
    }
}

} // verus!
