//! The framebuffer: a 320×200 true-colour back-buffer in packed `0x00RRGGBB`
//! form, the palette that named colours resolve through, and the drawing
//! primitives that paint into it.  Everything clips to the logical screen.

use vstd::prelude::*;
use crate::assets::FontAtlas;

pub mod aa_text;

verus! {

pub const WIDTH: usize = 320;
pub const HEIGHT: usize = 200;
pub const PIXELS: usize = 64000;

/// Byte `sh / 8` of a packed colour (red at 16, green at 8, blue at 0).
pub open spec fn ch(c: u32, sh: u32) -> u32 {
    (c >> sh) & 0xFF
}

/// Pack three channels into `0x00RRGGBB`.
pub open spec fn pack(r: u32, g: u32, b: u32) -> u32 {
    (r << 16) | (g << 8) | b
}

/// Linear blend of two channel values, `t` in 0..=255 (0 = all `a`).
pub open spec fn mix(a: u32, b: u32, t: u32) -> u32 {
    ((a * (255 - t) + b * t) / 255) as u32
}

pub open spec fn spec_lerp_bgrx(a: u32, b: u32, t: u8) -> u32 {
    pack(
        mix(ch(a, 16), ch(b, 16), t as u32),
        mix(ch(a, 8), ch(b, 8), t as u32),
        mix(ch(a, 0), ch(b, 0), t as u32),
    )
}

/// Per-channel saturating sum.
pub open spec fn sat_add(a: u32, b: u32) -> u32 {
    if a + b > 255 { 255 } else { (a + b) as u32 }
}

pub open spec fn spec_add_bgrx(cur: u32, add: u32) -> u32 {
    pack(sat_add(ch(cur, 16), ch(add, 16)), sat_add(ch(cur, 8), ch(add, 8)), sat_add(ch(cur, 0), ch(add, 0)))
}

pub proof fn lemma_ch_bound(c: u32)
    ensures
        ch(c, 16) <= 255,
        ch(c, 8) <= 255,
        ch(c, 0) <= 255,
{
    assert((c >> 16) & 0xFF <= 255) by (bit_vector);
    assert((c >> 8) & 0xFF <= 255) by (bit_vector);
    assert((c >> 0) & 0xFF <= 255) by (bit_vector);
}

/// Packing channels below 256 keeps each one readable and the top byte clear.
pub proof fn lemma_pack(r: u32, g: u32, b: u32)
    requires
        r <= 255,
        g <= 255,
        b <= 255,
    ensures
        ch(pack(r, g, b), 16) == r,
        ch(pack(r, g, b), 8) == g,
        ch(pack(r, g, b), 0) == b,
        pack(r, g, b) <= 0xFF_FFFF,
{
    assert(((((r << 16) | (g << 8) | b) >> 16) & 0xFF) == r) by (bit_vector)
        requires r <= 255, g <= 255, b <= 255;
    assert(((((r << 16) | (g << 8) | b) >> 8) & 0xFF) == g) by (bit_vector)
        requires r <= 255, g <= 255, b <= 255;
    assert(((((r << 16) | (g << 8) | b) >> 0) & 0xFF) == b) by (bit_vector)
        requires r <= 255, g <= 255, b <= 255;
    assert(((r << 16) | (g << 8) | b) <= 0xFF_FFFF) by (bit_vector)
        requires r <= 255, g <= 255, b <= 255;
}

/// A blend by 0 is `a` and a blend by 255 is `b`, top bytes dropped: the
/// top row of the vertical gradient is `top` and its bottom row `bottom`.
pub proof fn lemma_lerp_ends(a: u32, b: u32)
    ensures
        spec_lerp_bgrx(a, b, 0) == a & 0xFF_FFFF,
        spec_lerp_bgrx(a, b, 255) == b & 0xFF_FFFF,
        (0int * 255) / 199 == 0 && (199int * 255) / 199 == 255,
{
    lemma_ch_bound(a);
    lemma_ch_bound(b);
    lemma_mix_bounds(ch(a, 16), ch(b, 16), 0);
    lemma_mix_bounds(ch(a, 8), ch(b, 8), 0);
    lemma_mix_bounds(ch(a, 0), ch(b, 0), 0);
    lemma_mix_bounds(ch(a, 16), ch(b, 16), 255);
    lemma_mix_bounds(ch(a, 8), ch(b, 8), 255);
    lemma_mix_bounds(ch(a, 0), ch(b, 0), 255);
    lemma_pack_channels(a);
    lemma_pack_channels(b);
}

/// Re-packing the channels of a colour drops only its top byte.
pub proof fn lemma_pack_channels(c: u32)
    ensures
        pack(ch(c, 16), ch(c, 8), ch(c, 0)) == c & 0xFF_FFFF,
{
    assert(((((c >> 16) & 0xFF) << 16) | (((c >> 8) & 0xFF) << 8) | ((c >> 0) & 0xFF)) == c & 0xFF_FFFF)
        by (bit_vector);
}

pub proof fn lemma_mix_bounds(a: u32, b: u32, t: u32)
    requires
        a <= 255,
        b <= 255,
        t <= 255,
    ensures
        mix(a, b, t) <= 255,
        t == 0 ==> mix(a, b, t) == a,
        t == 255 ==> mix(a, b, t) == b,
        a == b ==> mix(a, b, t) == a,
{
    assert(a * (255 - t) + b * t <= 255 * 255) by (nonlinear_arith)
        requires a <= 255, b <= 255, t <= 255;
    if a == b {
        assert(a * (255 - t) + b * t == a * 255) by (nonlinear_arith)
            requires a == b;
    }
    if t == 255 {
        assert(a * (255 - t) + b * t == b * 255) by (nonlinear_arith)
            requires t == 255;
    }
    if t == 0 {
        assert(a * (255 - t) + b * t == a * 255) by (nonlinear_arith)
            requires t == 0;
    }
}

/// Linear interpolation between two packed colours, `t` 0..=255.
pub fn lerp_bgrx(a: u32, b: u32, t: u8) -> (r: u32)
    ensures
        r == spec_lerp_bgrx(a, b, t),
        r <= 0xFF_FFFF,
        ch(r, 16) == mix(ch(a, 16), ch(b, 16), t as u32),
        ch(r, 8) == mix(ch(a, 8), ch(b, 8), t as u32),
        ch(r, 0) == mix(ch(a, 0), ch(b, 0), t as u32),
        t == 0 ==> r == a & 0xFF_FFFF,
        t == 255 ==> r == b & 0xFF_FFFF,
        a & 0xFF_FFFF == b & 0xFF_FFFF ==> r == a & 0xFF_FFFF,
{
    let t32 = t as u32;
    let it = 255 - t32;
    proof {
        lemma_ch_bound(a);
        lemma_ch_bound(b);
    }
    let ar = (a >> 16) & 0xFF;
    let ag = (a >> 8) & 0xFF;
    let ab = a & 0xFF;
    let br = (b >> 16) & 0xFF;
    let bg = (b >> 8) & 0xFF;
    let bb = b & 0xFF;
    assert(ab == ch(a, 0) && bb == ch(b, 0)) by {
        assert(a & 0xFF == (a >> 0) & 0xFF) by (bit_vector);
        assert(b & 0xFF == (b >> 0) & 0xFF) by (bit_vector);
    }
    proof {
        assert(ar * it <= 255 * 255 && br * t32 <= 255 * 255) by (nonlinear_arith)
            requires ar <= 255, br <= 255, it <= 255, t32 <= 255;
        assert(ag * it <= 255 * 255 && bg * t32 <= 255 * 255) by (nonlinear_arith)
            requires ag <= 255, bg <= 255, it <= 255, t32 <= 255;
        assert(ab * it <= 255 * 255 && bb * t32 <= 255 * 255) by (nonlinear_arith)
            requires ab <= 255, bb <= 255, it <= 255, t32 <= 255;
        lemma_mix_bounds(ar, br, t32);
        lemma_mix_bounds(ag, bg, t32);
        lemma_mix_bounds(ab, bb, t32);
    }
    let mr: u32 = (ar * it + br * t32) / 255;
    let mg: u32 = (ag * it + bg * t32) / 255;
    let mb: u32 = (ab * it + bb * t32) / 255;
    let rr = mr & 0xFF;
    let rg = mg & 0xFF;
    let rb = mb & 0xFF;
    proof {
        assert(mr <= 255 ==> mr & 0xFF == mr) by (bit_vector);
        assert(mg <= 255 ==> mg & 0xFF == mg) by (bit_vector);
        assert(mb <= 255 ==> mb & 0xFF == mb) by (bit_vector);
        lemma_pack(rr, rg, rb);
        if t == 0 || a & 0xFF_FFFF == b & 0xFF_FFFF {
            lemma_pack_channels(a);
        }
        if t == 255 {
            lemma_pack_channels(b);
        }
        if a & 0xFF_FFFF == b & 0xFF_FFFF {
            assert(a & 0xFF_FFFF == b & 0xFF_FFFF ==> (a >> 16) & 0xFF == (b >> 16) & 0xFF
                && (a >> 8) & 0xFF == (b >> 8) & 0xFF && a & 0xFF == b & 0xFF) by (bit_vector);
        }
    }
    (rr << 16) | (rg << 8) | rb
}


/// Named palette slots; the slot number is the palette index.
#[derive(Clone, Copy, PartialEq, Eq, Structural, Debug)]
pub enum Color {
    Background,
    HeaderBar,
    Foreground,
    NodeKernel,
    NodeService,
    NodeDriver,
    NodeApp,
    NodeOther,
    BarEmpty,
    Highlight,
    Error,
    DimWhite,
}

pub open spec fn color_index(c: Color) -> u8 {
    match c {
        Color::Background => 0,
        Color::HeaderBar => 1,
        Color::Foreground => 2,
        Color::NodeKernel => 3,
        Color::NodeService => 4,
        Color::NodeDriver => 5,
        Color::NodeApp => 6,
        Color::NodeOther => 7,
        Color::BarEmpty => 8,
        Color::Highlight => 9,
        Color::Error => 10,
        Color::DimWhite => 11,
    }
}

impl Color {
    pub fn idx(self) -> (r: u8)
        ensures
            r == color_index(self),
            r < 12,
    {
        match self {
            Color::Background => 0,
            Color::HeaderBar => 1,
            Color::Foreground => 2,
            Color::NodeKernel => 3,
            Color::NodeService => 4,
            Color::NodeDriver => 5,
            Color::NodeApp => 6,
            Color::NodeOther => 7,
            Color::BarEmpty => 8,
            Color::Highlight => 9,
            Color::Error => 10,
            Color::DimWhite => 11,
        }
    }
}

/// Pixel `(x, y)` of a back-buffer.
pub open spec fn pix(s: Seq<u32>, x: int, y: int) -> u32 {
    s[y * 320 + x]
}

pub open spec fn on_screen(x: int, y: int) -> bool {
    0 <= x < 320 && 0 <= y < 200
}

pub open spec fn in_box(x: int, y: int, x0: int, y0: int, x1: int, y1: int) -> bool {
    x0 <= x < x1 && y0 <= y < y1
}

/// How a rectangle paints each of its pixels.
#[derive(Clone, Copy)]
pub enum Paint {
    /// Every pixel becomes this colour.
    Solid(u32),
    /// Every pixel is blended towards `fg` by `alpha`.
    Blend { fg: u32, alpha: u8 },
    /// Row `y` gets `lerp(top, bottom, (y - y0) * num / den)`.
    Gradient { top: u32, bottom: u32, y0: usize, num: u32, den: u32 },
    /// An 8×8 bitmap glyph with its origin at `(x0, y0)`, each font pixel
    /// a `scale × scale` block: pixels under a set bit take `fg` (or blend
    /// towards it by `alpha` when `blend`), the others keep their colour.
    Glyph { rows: [u8; 8], x0: usize, y0: usize, scale: usize, fg: u32, blend: bool, alpha: u8 },
}

/// Bit `c` (0 = leftmost pixel) of a glyph row is set.
pub open spec fn glyph_bit(row: u8, c: int) -> bool {
    row & (1u8 << (c as u8)) != 0
}

/// Pixel `(x, y)` lies under a set bit of the glyph `rows` drawn at
/// `(cx, cy)` with blocks of `scale × scale`.
pub open spec fn on_glyph(rows: Seq<u8>, x: int, y: int, cx: int, cy: int, scale: int) -> bool {
    &&& cx <= x < cx + 8 * scale
    &&& cy <= y < cy + 8 * scale
    &&& glyph_bit(rows[(y - cy) / scale], (x - cx) / scale)
}

pub open spec fn paint_value(p: Paint, old: u32, x: int, y: int) -> u32 {
    match p {
        Paint::Solid(v) => v,
        Paint::Blend { fg, alpha } => spec_lerp_bgrx(old, fg, alpha),
        Paint::Gradient { top, bottom, y0, num, den } =>
            spec_lerp_bgrx(top, bottom, (((y - y0) * num) / (den as int)) as u8),
        Paint::Glyph { rows, x0, y0, scale, fg, blend, alpha } =>
            if on_glyph(rows@, x, y, x0 as int, y0 as int, scale as int) {
                if blend { spec_lerp_bgrx(old, fg, alpha) } else { fg }
            } else {
                old
            },
    }
}

/// The paint is meaningful over the box `[x0, x1) × [y0, y1)`.
pub open spec fn paint_ok(p: Paint, x0: int, y0: int, x1: int, y1: int) -> bool {
    match p {
        Paint::Gradient { y0: g0, num, den, .. } => den > 0 && num <= 256 && g0 <= y0,
        Paint::Glyph { x0: gx, y0: gy, scale, .. } =>
            scale > 0 && gx <= x0 && gy <= y0 && x1 <= gx + 8 * scale && y1 <= gy + 8 * scale,
        _ => true,
    }
}

/// `new` is `old` with the box `[x0, x1) × [y0, y1)` painted by `p`.
pub open spec fn painted(new: Seq<u32>, old: Seq<u32>, x0: int, y0: int, x1: int, y1: int, p: Paint) -> bool {
    &&& new.len() == PIXELS
    &&& forall|x: int, y: int| #![trigger pix(new, x, y)] on_screen(x, y) ==> pix(new, x, y) == (
        if in_box(x, y, x0, y0, x1, y1) { paint_value(p, pix(old, x, y), x, y) } else { pix(old, x, y) })
}

pub proof fn lemma_painted_empty(s: Seq<u32>, x0: int, y0: int, x1: int, y1: int, p: Paint)
    requires
        s.len() == PIXELS,
        x0 >= x1 || y0 >= y1 || x0 >= 320 || y0 >= 200,
    ensures
        painted(s, s, x0, y0, x1, y1, p),
{
}

proof fn lemma_block_index(d: int, scale: int)
    requires
        scale > 0,
        0 <= d < 8 * scale,
    ensures
        0 <= d / scale < 8,
{
    assert(0 <= d / scale < 8) by (nonlinear_arith)
        requires scale > 0, 0 <= d < 8 * scale;
}

fn paint_pixel_value(p: Paint, old: u32, x: usize, y: usize, Ghost(bx0): Ghost<int>, Ghost(by0): Ghost<int>,
    Ghost(bx1): Ghost<int>, Ghost(by1): Ghost<int>) -> (r: u32)
    requires
        paint_ok(p, bx0, by0, bx1, by1),
        in_box(x as int, y as int, bx0, by0, bx1, by1),
        y < 200,
    ensures
        r == paint_value(p, old, x as int, y as int),
{
    match p {
        Paint::Solid(v) => v,
        Paint::Blend { fg, alpha } => lerp_bgrx(old, fg, alpha),
        Paint::Gradient { top, bottom, y0, num, den } => {
            let dy = (y - y0) as u32;
            assert(dy * num <= 199 * 256) by (nonlinear_arith)
                requires dy <= 199, num <= 256;
            let t = (dy * num / den) as u8;
            lerp_bgrx(top, bottom, t)
        },
        Paint::Glyph { rows, x0, y0, scale, fg, blend, alpha } => {
            let r = (y - y0) / scale;
            let c = (x - x0) / scale;
            proof {
                lemma_block_index(y - y0, scale as int);
                lemma_block_index(x - x0, scale as int);
            }
            if rows[r] & (1u8 << (c as u8)) != 0 {
                if blend { lerp_bgrx(old, fg, alpha) } else { fg }
            } else {
                old
            }
        },
    }
}

/// Paint the box `[x0, x1) × [y0, y1)` of a back-buffer.
pub fn paint_rect(bb: &mut Vec<u32>, x0: usize, y0: usize, x1: usize, y1: usize, p: Paint)
    requires
        old(bb)@.len() == PIXELS,
        x0 <= x1 <= 320,
        y0 <= y1 <= 200,
        paint_ok(p, x0 as int, y0 as int, x1 as int, y1 as int),
    ensures
        painted(final(bb)@, old(bb)@, x0 as int, y0 as int, x1 as int, y1 as int, p),
{
    let ghost orig = bb@;
    let mut py = y0;
    while py < y1
        invariant
            bb@.len() == PIXELS,
            y0 <= py <= y1 <= 200,
            x0 <= x1 <= 320,
            paint_ok(p, x0 as int, y0 as int, x1 as int, y1 as int),
            forall|x: int, y: int| #![trigger pix(bb@, x, y)] on_screen(x, y) ==> pix(bb@, x, y) == (
                if in_box(x, y, x0 as int, y0 as int, x1 as int, py as int) {
                    paint_value(p, pix(orig, x, y), x, y)
                } else {
                    pix(orig, x, y)
                }),
        decreases y1 - py,
    {
        let mut px = x0;
        while px < x1
            invariant
                bb@.len() == PIXELS,
                y0 <= py < y1 <= 200,
                x0 <= px <= x1 <= 320,
                paint_ok(p, x0 as int, y0 as int, x1 as int, y1 as int),
                forall|x: int, y: int| #![trigger pix(bb@, x, y)] on_screen(x, y) ==> pix(bb@, x, y) == (
                    if in_box(x, y, x0 as int, y0 as int, x1 as int, py as int)
                        || (y == py && x0 <= x < px) {
                        paint_value(p, pix(orig, x, y), x, y)
                    } else {
                        pix(orig, x, y)
                    }),
            decreases x1 - px,
        {
            let off = py * 320 + px;
            let cur = bb[off];
            assert(cur == pix(bb@, px as int, py as int));
            assert(cur == pix(orig, px as int, py as int));
            let v = paint_pixel_value(p, cur, px, py, Ghost(x0 as int), Ghost(y0 as int), Ghost(x1 as int), Ghost(y1 as int));
            let ghost prev = bb@;
            bb.set(off, v);
            proof {
                assert forall|x: int, y: int| #![trigger pix(bb@, x, y)] on_screen(x, y) implies pix(bb@, x, y) == (
                    if in_box(x, y, x0 as int, y0 as int, x1 as int, py as int)
                        || (y == py && x0 <= x < px + 1) {
                        paint_value(p, pix(orig, x, y), x, y)
                    } else {
                        pix(orig, x, y)
                    }) by {
                    if x == px && y == py {
                    } else {
                        assert(y * 320 + x != py * 320 + px);
                        assert(pix(bb@, x, y) == pix(prev, x, y));
                    }
                }
            }
            px = px + 1;
        }
        py = py + 1;
    }
}


/// 6-bit RGB of the named palette slots 0..=11.
pub open spec fn spec_named_rgb6(i: int) -> (u8, u8, u8) {
    if i == 0 { (2, 4, 10) }
    else if i == 1 { (4, 18, 28) }
    else if i == 2 { (55, 58, 60) }
    else if i == 3 { (8, 40, 56) }
    else if i == 4 { (16, 50, 32) }
    else if i == 5 { (52, 44, 8) }
    else if i == 6 { (48, 12, 40) }
    else if i == 7 { (48, 24, 32) }
    else if i == 8 { (8, 12, 18) }
    else if i == 9 { (58, 58, 16) }
    else if i == 10 { (60, 8, 12) }
    else { (30, 40, 46) }
}

/// Full-lit 6-bit RGB of the five shading ramps (cyan, magenta, yellow, mint, rose).
pub open spec fn spec_hue_peak(h: int) -> (u8, u8, u8) {
    if h == 0 { (16, 48, 60) }
    else if h == 1 { (60, 16, 50) }
    else if h == 2 { (60, 50, 12) }
    else if h == 3 { (20, 58, 42) }
    else { (58, 28, 38) }
}

/// Ramp step `shade` (0 = shadow, 7 = full light) of a 6-bit channel.
pub open spec fn shade6(c: u8, shade: int) -> u8 {
    let v = (c * (1 + shade)) / 8;
    if v > 63 { 63 } else { v as u8 }
}

/// 6-bit DAC channel stretched to 8 bits.
pub open spec fn conv6(v: u8) -> u32 {
    let w = v * 4 + v / 16;
    if w > 255 { 255 } else { w as u32 }
}

/// 6-bit RGB programmed into palette slot `i` (0 for unused slots).
pub open spec fn spec_rgb6(i: int) -> (u8, u8, u8) {
    if 0 <= i < 12 {
        spec_named_rgb6(i)
    } else if 16 <= i < 56 {
        let peak = spec_hue_peak((i - 16) / 8);
        let shade = (i - 16) % 8;
        (shade6(peak.0, shade), shade6(peak.1, shade), shade6(peak.2, shade))
    } else {
        (0, 0, 0)
    }
}

pub open spec fn is_programmed_slot(i: int) -> bool {
    (0 <= i < 12) || (16 <= i < 56)
}

/// The packed colour of palette slot `i`.
pub open spec fn spec_palette_entry(i: int) -> u32 {
    if is_programmed_slot(i) {
        let c = spec_rgb6(i);
        pack(conv6(c.0), conv6(c.1), conv6(c.2))
    } else {
        0
    }
}

/// BT.601 luminance of a packed colour, 0..=255.
pub open spec fn spec_luminance(c: u32) -> u8 {
    let l = (ch(c, 16) * 299 + ch(c, 8) * 587 + ch(c, 0) * 114) / 1000;
    if l > 255 { 255 } else { l as u8 }
}

/// Every state the drawing code reads: back-buffer, palette lookup tables,
/// the active framebuffer mode and the keystroke ring.
pub struct Framebuffer {
    pub backbuffer: Vec<u32>,
    pub palette: Vec<u32>,
    pub luminance: Vec<u8>,
    pub fb_virt: u64,
    pub bpp: u8,
    pub native_w: u32,
    pub native_h: u32,
    pub scale: u32,
    pub lfb_phys: u64,
    pub typed: TypedRing,
}

impl Framebuffer {
    pub open spec fn wf(&self) -> bool {
        &&& self.backbuffer@.len() == PIXELS
        &&& self.palette@.len() == 256
        &&& self.luminance@.len() == 256
        &&& self.typed.wf()
    }

    /// The state before `init`: black back-buffer, empty tables, legacy mode.
    pub fn new() -> (r: Self)
        ensures
            r.wf(),
            lfb_matches_mode(r),
            forall|i: int| 0 <= i < PIXELS ==> r.backbuffer@[i] == 0,
            forall|i: int| 0 <= i < 256 ==> r.palette@[i] == 0 && r.luminance@[i] == 0,
            r.fb_virt == 0,
            r.bpp == 1,
            r.native_w == 320,
            r.native_h == 200,
            r.scale == 1,
            r.lfb_phys == 0,
            r.typed@ == Seq::<u8>::empty(),
    {
        Framebuffer {
            backbuffer: zeros_u32(PIXELS),
            palette: zeros_u32(256),
            luminance: zeros_u8(256),
            fb_virt: 0,
            bpp: 1,
            native_w: 320,
            native_h: 200,
            scale: 1,
            lfb_phys: 0,
            typed: TypedRing::new(),
        }
    }
}

fn zeros_u32(n: usize) -> (r: Vec<u32>)
    ensures
        r@.len() == n,
        forall|i: int| 0 <= i < n ==> r@[i] == 0,
{
    let mut v: Vec<u32> = Vec::new();
    while v.len() < n
        invariant
            v@.len() <= n,
            forall|i: int| 0 <= i < v@.len() ==> v@[i] == 0,
        decreases n - v@.len(),
    {
        v.push(0);
    }
    v
}

fn zeros_u8(n: usize) -> (r: Vec<u8>)
    ensures
        r@.len() == n,
        forall|i: int| 0 <= i < n ==> r@[i] == 0,
{
    let mut v: Vec<u8> = Vec::new();
    while v.len() < n
        invariant
            v@.len() <= n,
            forall|i: int| 0 <= i < v@.len() ==> v@[i] == 0,
        decreases n - v@.len(),
    {
        v.push(0);
    }
    v
}

fn named_rgb6(i: usize) -> (r: (u8, u8, u8))
    requires
        i < 12,
    ensures
        r == spec_named_rgb6(i as int),
{
    if i == 0 { (2, 4, 10) }
    else if i == 1 { (4, 18, 28) }
    else if i == 2 { (55, 58, 60) }
    else if i == 3 { (8, 40, 56) }
    else if i == 4 { (16, 50, 32) }
    else if i == 5 { (52, 44, 8) }
    else if i == 6 { (48, 12, 40) }
    else if i == 7 { (48, 24, 32) }
    else if i == 8 { (8, 12, 18) }
    else if i == 9 { (58, 58, 16) }
    else if i == 10 { (60, 8, 12) }
    else { (30, 40, 46) }
}

fn hue_peak(h: usize) -> (r: (u8, u8, u8))
    requires
        h < 5,
    ensures
        r == spec_hue_peak(h as int),
{
    if h == 0 { (16, 48, 60) }
    else if h == 1 { (60, 16, 50) }
    else if h == 2 { (60, 50, 12) }
    else if h == 3 { (20, 58, 42) }
    else { (58, 28, 38) }
}

fn shade_channel(c: u8, shade: usize) -> (r: u8)
    requires
        shade < 8,
    ensures
        r == shade6(c, shade as int),
{
    let scale: u32 = if 1 + (shade as u32) < 8 { 1 + shade as u32 } else { 8 };
    assert((c as u32) * scale <= 255 * 8) by (nonlinear_arith)
        requires c <= 255, scale <= 8;
    let v = (c as u32) * scale / 8;
    if v > 63 { 63 } else { v as u8 }
}

fn conv6_exec(v: u8) -> (r: u32)
    ensures
        r == conv6(v),
        r <= 255,
{
    let w = (v as u32) * 4 + (v as u32) / 16;
    if w > 255 { 255 } else { w }
}

fn pack_channels(r: u32, g: u32, b: u32) -> (c: u32)
    requires
        r <= 255,
        g <= 255,
        b <= 255,
    ensures
        c == pack(r, g, b),
        c <= 0xFF_FFFF,
        ch(c, 16) == r,
        ch(c, 8) == g,
        ch(c, 0) == b,
{
    proof { lemma_pack(r, g, b); }
    (r << 16) | (g << 8) | b
}

/// The 6-bit DAC program of the legacy mode: `(slot, r, g, b)` for the twelve
/// named slots, then the five eight-step shading ramps from slot 16.
pub fn legacy_dac_program() -> (r: Vec<(u8, u8, u8, u8)>)
    ensures
        r@.len() == 52,
        forall|k: int| 0 <= k < 12 ==> #[trigger] r@[k] == ((k as u8), spec_rgb6(k).0, spec_rgb6(k).1, spec_rgb6(k).2),
        forall|k: int| 12 <= k < 52 ==> #[trigger] r@[k] == ((k + 4) as u8, spec_rgb6(k + 4).0, spec_rgb6(k + 4).1, spec_rgb6(k + 4).2),
{
    let mut out: Vec<(u8, u8, u8, u8)> = Vec::new();
    let mut i: usize = 0;
    while i < 12
        invariant
            i <= 12,
            out@.len() == i,
            forall|k: int| 0 <= k < i ==> #[trigger] out@[k] == ((k as u8), spec_rgb6(k).0, spec_rgb6(k).1, spec_rgb6(k).2),
        decreases 12 - i,
    {
        let c = named_rgb6(i);
        out.push((i as u8, c.0, c.1, c.2));
        i = i + 1;
    }
    let mut h: usize = 0;
    while h < 5
        invariant
            h <= 5,
            out@.len() == 12 + 8 * h,
            forall|k: int| 0 <= k < 12 ==> #[trigger] out@[k] == ((k as u8), spec_rgb6(k).0, spec_rgb6(k).1, spec_rgb6(k).2),
            forall|k: int| 12 <= k < 12 + 8 * h ==> #[trigger] out@[k] == ((k + 4) as u8, spec_rgb6(k + 4).0, spec_rgb6(k + 4).1, spec_rgb6(k + 4).2),
        decreases 5 - h,
    {
        let peak = hue_peak(h);
        let mut shade: usize = 0;
        while shade < 8
            invariant
                h < 5,
                shade <= 8,
                peak == spec_hue_peak(h as int),
                out@.len() == 12 + 8 * h + shade,
                forall|k: int| 0 <= k < 12 ==> #[trigger] out@[k] == ((k as u8), spec_rgb6(k).0, spec_rgb6(k).1, spec_rgb6(k).2),
                forall|k: int| 12 <= k < 12 + 8 * h + shade ==> #[trigger] out@[k] == ((k + 4) as u8, spec_rgb6(k + 4).0, spec_rgb6(k + 4).1, spec_rgb6(k + 4).2),
            decreases 8 - shade,
        {
            let slot = 16 + h * 8 + shade;
            assert((slot - 16) / 8 == h && (slot - 16) % 8 == shade);
            out.push((slot as u8, shade_channel(peak.0, shade), shade_channel(peak.1, shade), shade_channel(peak.2, shade)));
            shade = shade + 1;
        }
        h = h + 1;
    }
    out
}

/// Fill the palette lookup table and the luminance table derived from it.
pub fn build_palette_lookup(fb: &mut Framebuffer)
    requires
        old(fb).wf(),
    ensures
        final(fb).wf(),
        forall|i: int| 0 <= i < 256 ==> #[trigger] final(fb).palette@[i] == spec_palette_entry(i),
        forall|i: int| 0 <= i < 256 ==> #[trigger] final(fb).luminance@[i] == spec_luminance(spec_palette_entry(i)),
        final(fb).backbuffer@ == old(fb).backbuffer@,
        final(fb).typed == old(fb).typed,
        final(fb).fb_virt == old(fb).fb_virt,
        final(fb).bpp == old(fb).bpp,
        final(fb).native_w == old(fb).native_w,
        final(fb).native_h == old(fb).native_h,
        final(fb).scale == old(fb).scale,
        final(fb).lfb_phys == old(fb).lfb_phys,
{
    let mut lut = zeros_u32(256);
    let mut i: usize = 0;
    while i < 12
        invariant
            i <= 12,
            lut@.len() == 256,
            forall|k: int| 0 <= k < i ==> #[trigger] lut@[k] == spec_palette_entry(k),
            forall|k: int| i <= k < 256 ==> #[trigger] lut@[k] == 0,
        decreases 12 - i,
    {
        let c = named_rgb6(i);
        let v = pack_channels(conv6_exec(c.0), conv6_exec(c.1), conv6_exec(c.2));
        lut.set(i, v);
        i = i + 1;
    }
    let mut h: usize = 0;
    while h < 5
        invariant
            h <= 5,
            lut@.len() == 256,
            forall|k: int| 0 <= k < 16 + 8 * h ==> #[trigger] lut@[k] == spec_palette_entry(k),
            forall|k: int| 16 + 8 * h <= k < 256 ==> #[trigger] lut@[k] == 0,
        decreases 5 - h,
    {
        let peak = hue_peak(h);
        let mut shade: usize = 0;
        while shade < 8
            invariant
                h < 5,
                shade <= 8,
                peak == spec_hue_peak(h as int),
                lut@.len() == 256,
                forall|k: int| 0 <= k < 16 + 8 * h + shade ==> #[trigger] lut@[k] == spec_palette_entry(k),
                forall|k: int| 16 + 8 * h + shade <= k < 256 ==> #[trigger] lut@[k] == 0,
            decreases 8 - shade,
        {
            let slot = 16 + h * 8 + shade;
            assert((slot - 16) / 8 == h && (slot - 16) % 8 == shade);
            let r = shade_channel(peak.0, shade);
            let g = shade_channel(peak.1, shade);
            let b = shade_channel(peak.2, shade);
            let v = pack_channels(conv6_exec(r), conv6_exec(g), conv6_exec(b));
            lut.set(slot, v);
            shade = shade + 1;
        }
        h = h + 1;
    }
    let mut lum = zeros_u8(256);
    let mut j: usize = 0;
    while j < 256
        invariant
            j <= 256,
            lut@.len() == 256,
            lum@.len() == 256,
            forall|k: int| 0 <= k < 256 ==> #[trigger] lut@[k] == spec_palette_entry(k),
            forall|k: int| 0 <= k < j ==> #[trigger] lum@[k] == spec_luminance(spec_palette_entry(k)),
        decreases 256 - j,
    {
        let c = lut[j];
        proof { lemma_ch_bound(c); }
        let r = (c >> 16) & 0xFF;
        let g = (c >> 8) & 0xFF;
        let b = c & 0xFF;
        assert(b == ch(c, 0)) by {
            assert(c & 0xFF == (c >> 0) & 0xFF) by (bit_vector);
        }
        let l = (r * 299 + g * 587 + b * 114) / 1000;
        let lv: u8 = if l > 255 { 255 } else { l as u8 };
        lum.set(j, lv);
        j = j + 1;
    }
    fb.palette = lut;
    fb.luminance = lum;
}

/// The LFB address is nonzero exactly when the HD surface is active.
pub open spec fn lfb_matches_mode(fb: Framebuffer) -> bool {
    (fb.lfb_phys != 0) == (fb.bpp == 4)
}

/// Where the HD framebuffer lives when no stdvga BAR names it.
pub const HD_LFB_PHYS_FALLBACK: u64 = 0xfd00_0000;

/// The linear framebuffer address a BAR0 value names (its low four flag
/// bits cleared), or `None` when that leaves zero.
pub open spec fn bar_lfb(bar0: u32) -> Option<u64> {
    if bar0 & 0xFFFF_FFF0 == 0 { None } else { Some((bar0 & 0xFFFF_FFF0) as u64) }
}

/// The first address that one of `bars` names, scanning from `i`.
pub open spec fn first_bar_lfb(bars: Seq<u32>, i: int) -> Option<u64>
    decreases bars.len() - i,
{
    if i < 0 || i >= bars.len() {
        None
    } else if bar_lfb(bars[i]) is Some {
        bar_lfb(bars[i])
    } else {
        first_bar_lfb(bars, i + 1)
    }
}

/// The HD framebuffer's physical address, given the BAR0 of every stdvga
/// device found on the PCI scan in scan order: the first one that names a
/// nonzero address, else the fallback.  Never zero.
pub fn hd_lfb_phys(bars: &[u32]) -> (r: u64)
    ensures
        r == (match first_bar_lfb(bars@, 0) { Some(a) => a, None => HD_LFB_PHYS_FALLBACK }),
        r != 0,
{
    let mut i: usize = 0;
    while i < bars.len()
        invariant
            i <= bars.len(),
            first_bar_lfb(bars@, 0) == first_bar_lfb(bars@, i as int),
        decreases bars.len() - i,
    {
        let addr = bars[i] & 0xFFFF_FFF0;
        if addr != 0 {
            return addr as u64;
        }
        i = i + 1;
    }
    HD_LFB_PHYS_FALLBACK
}

/// Switch to the mode `init` settled on: the HD linear framebuffer at
/// `hd_lfb` (see `hd_lfb_phys`) when the mode-set succeeded, else the
/// legacy mode at 0xA0000.  The palette tables are rebuilt either way.
pub fn init(fb: &mut Framebuffer, phys_offset: u64, hd_lfb: Option<u64>)
    requires
        old(fb).wf(),
        hd_lfb matches Some(l) ==> l != 0,
        hd_lfb matches Some(l) ==> phys_offset + l <= u64::MAX,
        hd_lfb is None ==> phys_offset + 0xA0000 <= u64::MAX,
    ensures
        final(fb).wf(),
        forall|i: int| 0 <= i < 256 ==> #[trigger] final(fb).palette@[i] == spec_palette_entry(i),
        forall|i: int| 0 <= i < 256 ==> #[trigger] final(fb).luminance@[i] == spec_luminance(spec_palette_entry(i)),
        final(fb).backbuffer@ == old(fb).backbuffer@,
        final(fb).typed == old(fb).typed,
        hd_lfb matches Some(l) ==> final(fb).fb_virt == phys_offset + l && final(fb).lfb_phys == l
            && final(fb).lfb_phys != 0
            && final(fb).bpp == 4 && final(fb).native_w == 1920 && final(fb).native_h == 1200
            && final(fb).scale == 6,
        old(fb).lfb_phys == 0 ==> lfb_matches_mode(*final(fb)),
        hd_lfb is None ==> final(fb).fb_virt == phys_offset + 0xA0000 && final(fb).lfb_phys == old(fb).lfb_phys
            && final(fb).bpp == 1 && final(fb).native_w == 320 && final(fb).native_h == 200
            && final(fb).scale == 1,
{
    match hd_lfb {
        Some(l) => {
            fb.fb_virt = phys_offset + l;
            fb.lfb_phys = l;
            fb.bpp = 4;
            fb.native_w = 1920;
            fb.native_h = 1200;
            fb.scale = 6;
        },
        None => {
            fb.fb_virt = phys_offset + 0xA0000;
            fb.bpp = 1;
            fb.native_w = 320;
            fb.native_h = 200;
            fb.scale = 1;
        },
    }
    build_palette_lookup(fb);
}

/// Cached BT.601 luminance of a palette slot.
pub fn palette_luminance(fb: &Framebuffer, idx: u8) -> (r: u8)
    requires
        fb.wf(),
    ensures
        r == fb.luminance@[idx as int],
{
    fb.luminance[idx as usize]
}

/// True once `init` has set a framebuffer address.
pub fn ready(fb: &Framebuffer) -> (r: bool)
    ensures
        r == (fb.fb_virt != 0),
{
    fb.fb_virt != 0
}

pub fn native_width(fb: &Framebuffer) -> (r: u32)
    ensures
        r == fb.native_w,
{
    fb.native_w
}

pub fn native_height(fb: &Framebuffer) -> (r: u32)
    ensures
        r == fb.native_h,
{
    fb.native_h
}

/// True when the 32-bpp HD surface is active.
pub fn is_hd(fb: &Framebuffer) -> (r: bool)
    ensures
        r == (fb.bpp == 4),
{
    fb.bpp == 4
}

/// Physical address of the HD linear framebuffer (0 in the legacy mode).
pub fn lfb_physical_address(fb: &Framebuffer) -> (r: u64)
    ensures
        r == fb.lfb_phys,
{
    fb.lfb_phys
}

/// The packed colour of a named slot.
pub fn color_bgrx(fb: &Framebuffer, c: Color) -> (r: u32)
    requires
        fb.wf(),
    ensures
        r == fb.palette@[color_index(c) as int],
{
    fb.palette[c.idx() as usize]
}


/// Keystrokes from the PS/2 driver waiting for the UI loop: a ring of 64
/// bytes, dropping bytes pushed when full.
pub struct TypedRing {
    buf: Vec<u8>,
    tail: usize,
    len: usize,
}

impl View for TypedRing {
    type V = Seq<u8>;

    closed spec fn view(&self) -> Seq<u8> {
        Seq::new(self.len as nat, |i: int| self.buf@[(self.tail + i) % 64])
    }
}

impl TypedRing {
    pub closed spec fn wf(&self) -> bool {
        &&& self.buf@.len() == 64
        &&& self.tail < 64
        &&& self.len <= 64
    }

    pub fn new() -> (r: Self)
        ensures
            r.wf(),
            r@ == Seq::<u8>::empty(),
    {
        let r = TypedRing { buf: zeros_u8(64), tail: 0, len: 0 };
        assert(r@ =~= Seq::<u8>::empty());
        r
    }

    pub proof fn lemma_len(&self)
        requires
            self.wf(),
        ensures
            self@.len() <= 64,
    {
    }

    /// Queue a byte; a full ring (64 bytes) refuses it.
    pub fn push(&mut self, b: u8) -> (r: bool)
        requires
            old(self).wf(),
        ensures
            final(self).wf(),
            r == (old(self)@.len() < 64),
            r ==> final(self)@ == old(self)@.push(b),
            !r ==> final(self)@ == old(self)@,
    {
        if self.len == 64 {
            return false;
        }
        let ghost o = self@;
        let ghost ob = self.buf@;
        let at = (self.tail + self.len) % 64;
        self.buf.set(at, b);
        self.len = self.len + 1;
        proof {
            let n = o.len();
            assert forall|i: int| 0 <= i < n + 1 implies #[trigger] self@[i] == o.push(b)[i] by {
                if i < n {
                    assert((self.tail + i) % 64 != at);
                    assert(self.buf@[(self.tail + i) % 64] == ob[(self.tail + i) % 64]);
                } else {
                    assert((self.tail + i) % 64 == at);
                }
            }
            assert(self@ =~= o.push(b));
        }
        true
    }

    /// Take the oldest queued byte.
    pub fn pop(&mut self) -> (r: Option<u8>)
        requires
            old(self).wf(),
        ensures
            final(self).wf(),
            old(self)@.len() == 0 ==> r.is_none() && final(self)@ == old(self)@,
            old(self)@.len() > 0 ==> r == Some(old(self)@[0]) && final(self)@ == old(self)@.drop_first(),
    {
        if self.len == 0 {
            return None;
        }
        let ghost o = self@;
        let b = self.buf[self.tail];
        self.tail = (self.tail + 1) % 64;
        self.len = self.len - 1;
        proof {
            assert(b == o[0]);
            assert forall|i: int| 0 <= i < o.len() - 1 implies #[trigger] self@[i] == o.drop_first()[i] by {
                assert((self.tail + i) % 64 == (old(self).tail + (i + 1)) % 64);
            }
            assert(self@ =~= o.drop_first());
        }
        Some(b)
    }
}

/// Mirror a keystroke into the UI input ring; dropped when the ring is full.
pub fn push_typed_char(fb: &mut Framebuffer, b: u8)
    requires
        old(fb).wf(),
    ensures
        final(fb).wf(),
        old(fb).typed@.len() < 64 ==> final(fb).typed@ == old(fb).typed@.push(b),
        old(fb).typed@.len() >= 64 ==> final(fb).typed@ == old(fb).typed@,
        final(fb).backbuffer@ == old(fb).backbuffer@,
        final(fb).palette@ == old(fb).palette@,
{
    let _ = fb.typed.push(b);
}

/// Drain one queued keystroke.
pub fn pop_typed_char(fb: &mut Framebuffer) -> (r: Option<u8>)
    requires
        old(fb).wf(),
    ensures
        final(fb).wf(),
        old(fb).typed@.len() == 0 ==> r.is_none() && final(fb).typed@ == old(fb).typed@,
        old(fb).typed@.len() > 0 ==> r == Some(old(fb).typed@[0]) && final(fb).typed@ == old(fb).typed@.drop_first(),
        final(fb).backbuffer@ == old(fb).backbuffer@,
        final(fb).palette@ == old(fb).palette@,
{
    fb.typed.pop()
}

/// A byte pushed into a ring with room is the next one popped once the bytes
/// ahead of it are drained: the keystroke ring is first in, first out.
pub proof fn lemma_typed_ring_fifo(q: Seq<u8>, b: u8)
    ensures
        q.push(b).drop_first() == (if q.len() == 0 { Seq::<u8>::empty() } else { q.drop_first().push(b) }),
        q.push(b)[q.len() as int] == b,
{
    if q.len() == 0 {
        assert(q.push(b).drop_first() =~= Seq::<u8>::empty());
    } else {
        assert(q.push(b).drop_first() =~= q.drop_first().push(b));
    }
}


/// The ring after `push` of each byte of `bs` in turn (a full ring drops
/// the byte), as `push_typed_char` states one step.
pub open spec fn ring_after_pushes(q: Seq<u8>, bs: Seq<u8>) -> Seq<u8>
    decreases bs.len(),
{
    if bs.len() == 0 {
        q
    } else {
        ring_after_pushes(if q.len() < 64 { q.push(bs[0]) } else { q }, bs.drop_first())
    }
}

/// What `n` calls of `pop` return from ring `q`, as `pop_typed_char`
/// states one step.
pub open spec fn ring_pops(q: Seq<u8>, n: nat) -> Seq<Option<u8>>
    decreases n,
{
    if n == 0 {
        Seq::empty()
    } else if q.len() == 0 {
        seq![None::<u8>] + ring_pops(q, (n - 1) as nat)
    } else {
        seq![Some(q[0])] + ring_pops(q.drop_first(), (n - 1) as nat)
    }
}

proof fn lemma_pushes_append(q: Seq<u8>, bs: Seq<u8>)
    requires
        q.len() + bs.len() <= 64,
    ensures
        ring_after_pushes(q, bs) == q + bs,
    decreases bs.len(),
{
    if bs.len() == 0 {
        assert(q + bs =~= q);
    } else {
        lemma_pushes_append(q.push(bs[0]), bs.drop_first());
        assert(q.push(bs[0]) + bs.drop_first() =~= q + bs);
    }
}

proof fn lemma_pops_drain(q: Seq<u8>)
    ensures
        ring_pops(q, q.len() + 1) == Seq::new(q.len(), |i: int| Some(q[i])).push(None),
    decreases q.len(),
{
    if q.len() == 0 {
        assert(ring_pops(q, 0) =~= Seq::<Option<u8>>::empty());
        assert(ring_pops(q, 1) =~= seq![None::<u8>]);
        assert(Seq::new(0, |i: int| Some(q[i])).push(None) =~= seq![None::<u8>]);
    } else {
        lemma_pops_drain(q.drop_first());
        let t = q.drop_first();
        assert(seq![Some(q[0])] + Seq::new(t.len(), |i: int| Some(t[i])).push(None)
            =~= Seq::new(q.len(), |i: int| Some(q[i])).push(None));
    }
}

/// The keystroke ring is first in, first out with room for 64: from an
/// empty ring, pushing up to 64 bytes and then popping once more than that
/// gives back each byte in order, then `None`.
pub proof fn lemma_typed_ring_round_trip(bs: Seq<u8>)
    requires
        bs.len() <= 64,
    ensures
        ring_after_pushes(Seq::empty(), bs) == bs,
        ring_pops(ring_after_pushes(Seq::empty(), bs), bs.len() + 1)
            == Seq::new(bs.len(), |i: int| Some(bs[i])).push(None),
{
    lemma_pushes_append(Seq::empty(), bs);
    assert(Seq::<u8>::empty() + bs =~= bs);
    lemma_pops_drain(bs);
}

/// The drawing calls leave everything but the back-buffer alone.
pub open spec fn only_pixels_changed(new: &Framebuffer, old: &Framebuffer) -> bool {
    &&& new.palette@ == old.palette@
    &&& new.luminance@ == old.luminance@
    &&& new.typed == old.typed
    &&& new.fb_virt == old.fb_virt
    &&& new.bpp == old.bpp
    &&& new.native_w == old.native_w
    &&& new.native_h == old.native_h
    &&& new.scale == old.scale
    &&& new.lfb_phys == old.lfb_phys
}

/// `new` is `old` with pixel `(x, y)` set to `v` when it is on screen.
pub open spec fn pixel_set(new: Seq<u32>, old: Seq<u32>, x: int, y: int, v: u32) -> bool {
    if on_screen(x, y) { new == old.update(y * 320 + x, v) } else { new == old }
}

/// Paint the whole back-buffer with one named colour.
pub fn clear(fb: &mut Framebuffer, color: Color)
    requires
        old(fb).wf(),
    ensures
        final(fb).wf(),
        only_pixels_changed(&*final(fb), &*old(fb)),
        forall|x: int, y: int| #![trigger pix(final(fb).backbuffer@, x, y)] on_screen(x, y) ==>
            pix(final(fb).backbuffer@, x, y) == old(fb).palette@[color_index(color) as int],
{
    let v = fb.palette[color.idx() as usize];
    paint_rect(&mut fb.backbuffer, 0, 0, 320, 200, Paint::Solid(v));
}

/// Vertical gradient over the whole screen: row `y` blends `top` towards
/// `bottom` by `y * 255 / 199`, so the top row is `top` and the bottom row
/// is `bottom`.
pub fn clear_gradient_vertical(fb: &mut Framebuffer, top: u32, bottom: u32)
    requires
        old(fb).wf(),
    ensures
        final(fb).wf(),
        only_pixels_changed(&*final(fb), &*old(fb)),
        forall|x: int, y: int| #![trigger pix(final(fb).backbuffer@, x, y)] on_screen(x, y) ==>
            pix(final(fb).backbuffer@, x, y) == spec_lerp_bgrx(top, bottom, ((y * 255) / 199) as u8),
{
    paint_rect(&mut fb.backbuffer, 0, 0, 320, 200, Paint::Gradient { top, bottom, y0: 0, num: 255, den: 199 });
}

fn set_pixel(bb: &mut Vec<u32>, x: usize, y: usize, v: u32)
    requires
        old(bb)@.len() == PIXELS,
    ensures
        final(bb)@.len() == PIXELS,
        pixel_set(final(bb)@, old(bb)@, x as int, y as int, v),
{
    if x < 320 && y < 200 {
        bb.set(y * 320 + x, v);
    }
}

/// Set one pixel to a named colour (off-screen writes are ignored).
pub fn put_pixel(fb: &mut Framebuffer, x: usize, y: usize, color: Color)
    requires
        old(fb).wf(),
    ensures
        final(fb).wf(),
        only_pixels_changed(&*final(fb), &*old(fb)),
        pixel_set(final(fb).backbuffer@, old(fb).backbuffer@, x as int, y as int,
            old(fb).palette@[color_index(color) as int]),
{
    let v = fb.palette[color.idx() as usize];
    set_pixel(&mut fb.backbuffer, x, y, v);
}

/// Set one pixel to a raw palette slot.
pub fn put_pixel_raw(fb: &mut Framebuffer, x: usize, y: usize, palette_idx: u8)
    requires
        old(fb).wf(),
    ensures
        final(fb).wf(),
        only_pixels_changed(&*final(fb), &*old(fb)),
        pixel_set(final(fb).backbuffer@, old(fb).backbuffer@, x as int, y as int,
            old(fb).palette@[palette_idx as int]),
{
    let v = fb.palette[palette_idx as usize];
    set_pixel(&mut fb.backbuffer, x, y, v);
}

/// Set one pixel to a packed colour.
pub fn put_pixel_rgb(fb: &mut Framebuffer, x: usize, y: usize, bgrx: u32)
    requires
        old(fb).wf(),
    ensures
        final(fb).wf(),
        only_pixels_changed(&*final(fb), &*old(fb)),
        pixel_set(final(fb).backbuffer@, old(fb).backbuffer@, x as int, y as int, bgrx),
{
    set_pixel(&mut fb.backbuffer, x, y, bgrx);
}

/// Read one pixel (0 off screen).
pub fn get_pixel_rgb(fb: &Framebuffer, x: usize, y: usize) -> (r: u32)
    requires
        fb.wf(),
    ensures
        r == (if on_screen(x as int, y as int) { pix(fb.backbuffer@, x as int, y as int) } else { 0 }),
{
    if x >= 320 || y >= 200 {
        return 0;
    }
    fb.backbuffer[y * 320 + x]
}

/// Rough brightness bucket 0..=7 of a pixel.
pub open spec fn spec_brightness_bucket(c: u32) -> u8 {
    let l = (ch(c, 16) * 30 + ch(c, 8) * 59 + ch(c, 0) * 11) / 100;
    if l / 32 > 7 { 7 } else { (l / 32) as u8 }
}

pub fn get_pixel_raw(fb: &Framebuffer, x: usize, y: usize) -> (r: u8)
    requires
        fb.wf(),
    ensures
        r == spec_brightness_bucket(
            if on_screen(x as int, y as int) { pix(fb.backbuffer@, x as int, y as int) } else { 0 }),
        r <= 7,
{
    let c = get_pixel_rgb(fb, x, y);
    proof { lemma_ch_bound(c); }
    let r = (c >> 16) & 0xFF;
    let g = (c >> 8) & 0xFF;
    let b = c & 0xFF;
    assert(b == ch(c, 0)) by {
        assert(c & 0xFF == (c >> 0) & 0xFF) by (bit_vector);
    }
    let lum = (r * 30 + g * 59 + b * 11) / 100;
    if lum / 32 > 7 { 7 } else { (lum / 32) as u8 }
}

/// Saturating per-channel add onto one pixel.
pub fn add_pixel_rgb(fb: &mut Framebuffer, x: usize, y: usize, add_bgrx: u32)
    requires
        old(fb).wf(),
    ensures
        final(fb).wf(),
        only_pixels_changed(&*final(fb), &*old(fb)),
        on_screen(x as int, y as int) ==> final(fb).backbuffer@ == old(fb).backbuffer@.update(
            y * 320 + x, spec_add_bgrx(pix(old(fb).backbuffer@, x as int, y as int), add_bgrx)),
        !on_screen(x as int, y as int) ==> final(fb).backbuffer@ == old(fb).backbuffer@,
{
    if x >= 320 || y >= 200 {
        return;
    }
    let off = y * 320 + x;
    let cur = fb.backbuffer[off];
    let v = saturating_add_bgrx(cur, add_bgrx);
    fb.backbuffer.set(off, v);
}

/// Per-channel saturating sum of two packed colours.
pub fn saturating_add_bgrx(cur: u32, add: u32) -> (r: u32)
    ensures
        r == spec_add_bgrx(cur, add),
        r <= 0xFF_FFFF,
{
    proof {
        lemma_ch_bound(cur);
        lemma_ch_bound(add);
    }
    let sr = ((cur >> 16) & 0xFF) + ((add >> 16) & 0xFF);
    let sg = ((cur >> 8) & 0xFF) + ((add >> 8) & 0xFF);
    let ca = cur & 0xFF;
    let aa = add & 0xFF;
    assert(ca == ch(cur, 0) && aa == ch(add, 0)) by {
        assert(cur & 0xFF == (cur >> 0) & 0xFF) by (bit_vector);
        assert(add & 0xFF == (add >> 0) & 0xFF) by (bit_vector);
    }
    let sb = ca + aa;
    let r = if sr > 255 { 255 } else { sr };
    let g = if sg > 255 { 255 } else { sg };
    let b = if sb > 255 { 255 } else { sb };
    pack_channels(r, g, b)
}

/// Alpha-blend one pixel towards `fg_bgrx` (alpha 0 leaves it untouched).
pub fn blend_pixel_rgb(fb: &mut Framebuffer, x: usize, y: usize, fg_bgrx: u32, alpha: u8)
    requires
        old(fb).wf(),
    ensures
        final(fb).wf(),
        only_pixels_changed(&*final(fb), &*old(fb)),
        on_screen(x as int, y as int) && alpha != 0 ==> final(fb).backbuffer@ == old(fb).backbuffer@.update(
            y * 320 + x, spec_lerp_bgrx(pix(old(fb).backbuffer@, x as int, y as int), fg_bgrx, alpha)),
        !(on_screen(x as int, y as int) && alpha != 0) ==> final(fb).backbuffer@ == old(fb).backbuffer@,
{
    if x >= 320 || y >= 200 || alpha == 0 {
        return;
    }
    let off = y * 320 + x;
    let bg = fb.backbuffer[off];
    let v = lerp_bgrx(bg, fg_bgrx, alpha);
    fb.backbuffer.set(off, v);
}

pub open spec fn rect_fits(x: usize, y: usize, w: usize, h: usize) -> bool {
    (x < 320 && y < 200 && w > 0 && h > 0) ==> (x + w <= usize::MAX && y + h <= usize::MAX)
}

fn clip(v: usize, limit: usize) -> (r: usize)
    ensures
        r == (if v < limit { v } else { limit }),
{
    if v < limit { v } else { limit }
}

/// Solid rectangle in a named colour; only its on-screen part is painted.
pub fn fill_rect(fb: &mut Framebuffer, x: usize, y: usize, w: usize, h: usize, color: Color)
    requires
        old(fb).wf(),
        rect_fits(x, y, w, h),
    ensures
        final(fb).wf(),
        only_pixels_changed(&*final(fb), &*old(fb)),
        painted(final(fb).backbuffer@, old(fb).backbuffer@, x as int, y as int, x + w, y + h,
            Paint::Solid(old(fb).palette@[color_index(color) as int])),
{
    let v = fb.palette[color.idx() as usize];
    if x >= 320 || y >= 200 || w == 0 || h == 0 {
        proof { lemma_painted_empty(fb.backbuffer@, x as int, y as int, x + w, y + h, Paint::Solid(v)); }
        return;
    }
    let x_end = clip(x + w, 320);
    let y_end = clip(y + h, 200);
    paint_rect(&mut fb.backbuffer, x, y, x_end, y_end, Paint::Solid(v));
}

/// Translucent rectangle: each pixel moves towards `fg_bgrx` by `alpha`
/// (alpha 0 leaves the buffer untouched).
pub fn fill_rect_alpha(fb: &mut Framebuffer, x: usize, y: usize, w: usize, h: usize, fg_bgrx: u32, alpha: u8)
    requires
        old(fb).wf(),
        rect_fits(x, y, w, h),
    ensures
        final(fb).wf(),
        only_pixels_changed(&*final(fb), &*old(fb)),
        alpha == 0 ==> final(fb).backbuffer@ == old(fb).backbuffer@,
        alpha != 0 ==> painted(final(fb).backbuffer@, old(fb).backbuffer@, x as int, y as int, x + w, y + h,
            Paint::Blend { fg: fg_bgrx, alpha }),
{
    if x >= 320 || y >= 200 || w == 0 || h == 0 || alpha == 0 {
        proof {
            if alpha != 0 {
                lemma_painted_empty(fb.backbuffer@, x as int, y as int, x + w, y + h, Paint::Blend { fg: fg_bgrx, alpha });
            }
        }
        return;
    }
    let x_end = clip(x + w, 320);
    let y_end = clip(y + h, 200);
    paint_rect(&mut fb.backbuffer, x, y, x_end, y_end, Paint::Blend { fg: fg_bgrx, alpha });
}

/// Vertical-gradient rectangle: row `py` of the visible part blends `top`
/// towards `bottom` by `(py - y) * 255 / visible_rows`.
pub fn fill_rect_gradient(fb: &mut Framebuffer, x: usize, y: usize, w: usize, h: usize, top: u32, bottom: u32)
    requires
        old(fb).wf(),
        rect_fits(x, y, w, h),
    ensures
        final(fb).wf(),
        only_pixels_changed(&*final(fb), &*old(fb)),
        !(x < 320 && y < 200 && w > 0 && h > 0) ==> final(fb).backbuffer@ == old(fb).backbuffer@,
        (x < 320 && y < 200 && w > 0 && h > 0) ==> painted(final(fb).backbuffer@, old(fb).backbuffer@,
            x as int, y as int, x + w, y + h,
            Paint::Gradient { top, bottom, y0: y, num: 255,
                den: ((if y + h < 200 { y + h } else { 200 }) - y) as u32 }),
{
    if x >= 320 || y >= 200 || w == 0 || h == 0 {
        return;
    }
    let x_end = clip(x + w, 320);
    let y_end = clip(y + h, 200);
    let h_active = y_end - y;
    let den: u32 = if h_active > 1 { h_active as u32 } else { 1 };
    paint_rect(&mut fb.backbuffer, x, y, x_end, y_end, Paint::Gradient { top, bottom, y0: y, num: 255, den });
}

/// One-pixel-high line of `w` pixels.
pub fn hline(fb: &mut Framebuffer, x: usize, y: usize, w: usize, color: Color)
    requires
        old(fb).wf(),
        rect_fits(x, y, w, 1),
    ensures
        final(fb).wf(),
        only_pixels_changed(&*final(fb), &*old(fb)),
        painted(final(fb).backbuffer@, old(fb).backbuffer@, x as int, y as int, x + w, y + 1,
            Paint::Solid(old(fb).palette@[color_index(color) as int])),
{
    fill_rect(fb, x, y, w, 1, color);
}

/// One-pixel-wide column of `h` pixels.
pub fn vline(fb: &mut Framebuffer, x: usize, y: usize, h: usize, color: Color)
    requires
        old(fb).wf(),
        rect_fits(x, y, 1, h),
    ensures
        final(fb).wf(),
        only_pixels_changed(&*final(fb), &*old(fb)),
        painted(final(fb).backbuffer@, old(fb).backbuffer@, x as int, y as int, x + 1, y + h,
            Paint::Solid(old(fb).palette@[color_index(color) as int])),
{
    fill_rect(fb, x, y, 1, h, color);
}

/// Pixel `(px, py)` lies on the one-pixel frame of the box `[x0, x1) × [y0, y1)`.
pub open spec fn on_frame(px: int, py: int, x0: int, y0: int, x1: int, y1: int) -> bool {
    in_box(px, py, x0, y0, x1, y1) && (py == y0 || py == y1 - 1 || px == x0 || px == x1 - 1)
}

/// `new` is `old` with every on-screen pixel satisfying `on` set to `v`.
pub open spec fn framed(new: Seq<u32>, old: Seq<u32>, x0: int, y0: int, x1: int, y1: int, v: u32) -> bool {
    &&& new.len() == PIXELS
    &&& forall|x: int, y: int| #![trigger pix(new, x, y)] on_screen(x, y) ==> pix(new, x, y) == (
        if on_frame(x, y, x0, y0, x1, y1) { v } else { pix(old, x, y) })
}

/// One-pixel outline of the rectangle in a named colour (each edge clipped
/// to the screen on its own).
pub fn stroke_rect(fb: &mut Framebuffer, x: usize, y: usize, w: usize, h: usize, color: Color)
    requires
        old(fb).wf(),
        x + w <= usize::MAX,
        y + h <= usize::MAX,
    ensures
        final(fb).wf(),
        only_pixels_changed(&*final(fb), &*old(fb)),
        framed(final(fb).backbuffer@, old(fb).backbuffer@, x as int, y as int, x + w, y + h,
            old(fb).palette@[color_index(color) as int]),
{
    let ghost orig = fb.backbuffer@;
    let ghost v = fb.palette@[color_index(color) as int];
    if w == 0 || h == 0 {
        return;
    }
    hline(fb, x, y, w, color);
    let ghost s1 = fb.backbuffer@;
    if h > 1 {
        hline(fb, x, y + h - 1, w, color);
    }
    let ghost s2 = fb.backbuffer@;
    assert forall|qx: int, qy: int| #![trigger pix(s2, qx, qy)] on_screen(qx, qy) implies pix(s2, qx, qy) == (
        if in_box(qx, qy, x as int, y as int, x + w, y + h) && (qy == y || qy == y + h - 1) { v } else { pix(orig, qx, qy) }) by {
        assert(pix(s1, qx, qy) == pix(s2, qx, qy) || h > 1);
    }
    if h > 2 {
        vline(fb, x, y + 1, h - 2, color);
        let ghost s3 = fb.backbuffer@;
        if w > 1 {
            vline(fb, x + w - 1, y + 1, h - 2, color);
        }
        let ghost s4 = fb.backbuffer@;
        assert forall|qx: int, qy: int| #![trigger pix(s4, qx, qy)] on_screen(qx, qy) implies pix(s4, qx, qy) == (
            if on_frame(qx, qy, x as int, y as int, x + w, y + h) { v } else { pix(orig, qx, qy) }) by {
            assert(pix(s3, qx, qy) == pix(s4, qx, qy) || w > 1);
            assert(pix(s2, qx, qy) == pix(s3, qx, qy) || in_box(qx, qy, x as int, y + 1, x + 1, y + h - 1));
        }
    }
}

/// One-pixel outline of the visible part of the rectangle in a packed colour.
pub fn stroke_rect_rgb(fb: &mut Framebuffer, x: usize, y: usize, w: usize, h: usize, bgrx: u32)
    requires
        old(fb).wf(),
        rect_fits(x, y, w, h),
    ensures
        final(fb).wf(),
        only_pixels_changed(&*final(fb), &*old(fb)),
        !(x < 320 && y < 200 && w > 0 && h > 0) ==> final(fb).backbuffer@ == old(fb).backbuffer@,
        (x < 320 && y < 200 && w > 0 && h > 0) ==> framed(final(fb).backbuffer@, old(fb).backbuffer@,
            x as int, y as int,
            if x + w < 320 { x + w } else { 320 },
            if y + h < 200 { y + h } else { 200 },
            bgrx),
{
    if w == 0 || h == 0 || x >= 320 || y >= 200 {
        return;
    }
    let ghost orig = fb.backbuffer@;
    let x_end = clip(x + w, 320);
    let y_end = clip(y + h, 200);
    paint_rect(&mut fb.backbuffer, x, y, x_end, y + 1, Paint::Solid(bgrx));
    let ghost s1 = fb.backbuffer@;
    if y_end - 1 > y {
        paint_rect(&mut fb.backbuffer, x, y_end - 1, x_end, y_end, Paint::Solid(bgrx));
    }
    let ghost s2 = fb.backbuffer@;
    assert forall|qx: int, qy: int| #![trigger pix(s2, qx, qy)] on_screen(qx, qy) implies pix(s2, qx, qy) == (
        if in_box(qx, qy, x as int, y as int, x_end as int, y_end as int) && (qy == y || qy == y_end - 1) { bgrx } else { pix(orig, qx, qy) }) by {
        assert(pix(s1, qx, qy) == pix(s2, qx, qy) || y_end - 1 > y);
    }
    if y + 1 < y_end - 1 {
        paint_rect(&mut fb.backbuffer, x, y + 1, x + 1, y_end - 1, Paint::Solid(bgrx));
        let ghost s3 = fb.backbuffer@;
        paint_rect(&mut fb.backbuffer, x_end - 1, y + 1, x_end, y_end - 1, Paint::Solid(bgrx));
        let ghost s4 = fb.backbuffer@;
        assert forall|qx: int, qy: int| #![trigger pix(s4, qx, qy)] on_screen(qx, qy) implies pix(s4, qx, qy) == (
            if on_frame(qx, qy, x as int, y as int, x_end as int, y_end as int) { bgrx } else { pix(orig, qx, qy) }) by {
            assert(pix(s3, qx, qy) == pix(s4, qx, qy) || in_box(qx, qy, x_end - 1, y + 1, x_end as int, y_end - 1));
            assert(pix(s2, qx, qy) == pix(s3, qx, qy) || in_box(qx, qy, x as int, y + 1, x + 1, y_end - 1));
        }
    }
}


/// The 8×8 bitmap of ASCII code `code` in font8x8's basic-latin table: one
/// byte per row, bit `c` set when column `c` (0 = leftmost) is lit.
pub uninterp spec fn font8x8_basic_glyph(code: u8) -> Seq<u8>;

/// Reads row `code` of `font8x8::legacy::BASIC_LEGACY`.  The contract
/// only names that row; which pixels a letter lights is the table's.
#[verifier::external_body]
fn basic_legacy_glyph(code: u8) -> (r: [u8; 8])
    requires
        code < 128,
    ensures
        r@ == font8x8_basic_glyph(code),
{
    font8x8::legacy::BASIC_LEGACY[code as usize]
}

/// The 4×4 dot drawn for a code point the 8×8 font does not cover.
pub open spec fn sentinel_rows() -> Seq<u8> {
    seq![0u8, 0u8, 0x3Cu8, 0x3Cu8, 0x3Cu8, 0x3Cu8, 0u8, 0u8]
}

/// The bitmap drawn for `c`: its font glyph when ASCII, otherwise the dot
/// (`sentinel`) or nothing.
pub open spec fn glyph_rows(c: char, sentinel: bool) -> Seq<u8> {
    if (c as u32) < 128 {
        font8x8_basic_glyph(c as u8)
    } else if sentinel {
        sentinel_rows()
    } else {
        seq![0u8, 0u8, 0u8, 0u8, 0u8, 0u8, 0u8, 0u8]
    }
}

fn glyph_rows_for(c: char, sentinel: bool) -> (r: [u8; 8])
    ensures
        r@ == glyph_rows(c, sentinel),
{
    let code = c as u32;
    if code < 128 {
        basic_legacy_glyph(code as u8)
    } else if sentinel {
        let r: [u8; 8] = [0, 0, 0x3C, 0x3C, 0x3C, 0x3C, 0, 0];
        assert(r@ =~= sentinel_rows());
        r
    } else {
        let r: [u8; 8] = [0; 8];
        assert(r@ =~= seq![0u8, 0u8, 0u8, 0u8, 0u8, 0u8, 0u8, 0u8]);
        r
    }
}

/// What a lit glyph pixel becomes.
pub open spec fn ink(old: u32, fg: u32, blend: bool, alpha: u8) -> u32 {
    if blend { spec_lerp_bgrx(old, fg, alpha) } else { fg }
}

/// `new` is `old` with the lit pixels of one glyph inked.
pub open spec fn glyph_painted(new: Seq<u32>, old: Seq<u32>, rows: Seq<u8>, cx: int, cy: int, scale: int,
    fg: u32, blend: bool, alpha: u8) -> bool {
    &&& new.len() == PIXELS
    &&& forall|x: int, y: int| #![trigger pix(new, x, y)] on_screen(x, y) ==> pix(new, x, y) == (
        if on_glyph(rows, x, y, cx, cy, scale) { ink(pix(old, x, y), fg, blend, alpha) } else { pix(old, x, y) })
}

/// Pixel `(x, y)` is lit by one of the first `n` glyphs of `chars`, laid
/// out left to right from `(x0, y0)` in cells of `8 * scale` pixels.
pub open spec fn on_text(chars: Seq<char>, sentinel: bool, n: int, x: int, y: int, x0: int, y0: int, scale: int) -> bool {
    exists|i: int| 0 <= i < n && #[trigger] on_glyph(glyph_rows(chars[i], sentinel), x, y, x0 + 8 * scale * i, y0, scale)
}

/// `new` is `old` with the lit pixels of the first `n` glyphs of `chars` inked.
pub open spec fn text_painted(new: Seq<u32>, old: Seq<u32>, chars: Seq<char>, sentinel: bool, n: int,
    x0: int, y0: int, scale: int, fg: u32, blend: bool, alpha: u8) -> bool {
    &&& new.len() == PIXELS
    &&& forall|x: int, y: int| #![trigger pix(new, x, y)] on_screen(x, y) ==> pix(new, x, y) == (
        if on_text(chars, sentinel, n, x, y, x0, y0, scale) { ink(pix(old, x, y), fg, blend, alpha) } else { pix(old, x, y) })
}

/// How many leading cells of width `w`, starting at `x`, fit on the screen
/// (at most `len`): the text loops stop at the first cell that would cross
/// the right edge.
pub open spec fn cells_fitting(x: int, len: int, w: int) -> int
    decreases len,
{
    if len <= 0 || x + w > 320 { 0 } else { 1 + cells_fitting(x + w, len - 1, w) }
}

/// Ink one glyph whose cell starts at `(x, y)`.
fn draw_glyph_cell(bb: &mut Vec<u32>, x: usize, y: usize, rows: [u8; 8], scale: usize, fg: u32, blend: bool, alpha: u8)
    requires
        old(bb)@.len() == PIXELS,
        scale > 0,
        x + 8 * scale <= usize::MAX,
        y + 8 * scale <= usize::MAX,
    ensures
        glyph_painted(final(bb)@, old(bb)@, rows@, x as int, y as int, scale as int, fg, blend, alpha),
{
    if x >= 320 || y >= 200 {
        return;
    }
    let x_end = clip(x + 8 * scale, 320);
    let y_end = clip(y + 8 * scale, 200);
    paint_rect(bb, x, y, x_end, y_end, Paint::Glyph { rows, x0: x, y0: y, scale, fg, blend, alpha });
}

proof fn lemma_cells_disjoint(x0: int, w: int, j: int, i: int)
    requires
        w > 0,
        0 <= j < i,
    ensures
        x0 + w * j + w <= x0 + w * i,
{
    assert(w * j + w <= w * i) by (nonlinear_arith)
        requires w > 0, 0 <= j < i;
}

/// Lay the glyphs of `text` out from `(x, y)` until one would cross the right
/// edge; returns how many were drawn.
fn draw_text_cells(bb: &mut Vec<u32>, x: usize, y: usize, text: &str, scale: usize, sentinel: bool,
    fg: u32, blend: bool, alpha: u8) -> (n: usize)
    requires
        old(bb)@.len() == PIXELS,
        scale > 0,
        x + 8 * scale <= usize::MAX,
        y + 8 * scale <= usize::MAX,
    ensures
        n == cells_fitting(x as int, text@.len() as int, 8 * scale),
        text_painted(final(bb)@, old(bb)@, text@, sentinel, n as int, x as int, y as int, scale as int, fg, blend, alpha),
{
    let ghost orig = bb@;
    let ghost chars = text@;
    let len = text.unicode_len();
    let w = 8 * scale;
    let mut cx = x;
    let mut i: usize = 0;
    while i < len
        invariant_except_break
            bb@.len() == PIXELS,
            i <= len,
            len == chars.len(),
            chars == text@,
            w == 8 * scale,
            scale > 0,
            y + w <= usize::MAX,
            cx == x + w * i,
            cx <= 320 || i == 0,
            x + w <= usize::MAX,
            i + cells_fitting(cx as int, len - i, w as int) == cells_fitting(x as int, len as int, w as int),
            text_painted(bb@, orig, chars, sentinel, i as int, x as int, y as int, scale as int, fg, blend, alpha),
        ensures
            bb@.len() == PIXELS,
            i == cells_fitting(x as int, len as int, w as int),
            text_painted(bb@, orig, chars, sentinel, i as int, x as int, y as int, scale as int, fg, blend, alpha),
        decreases len - i,
    {
        if cx + w > 320 {
            break;
        }
        let rows = glyph_rows_for(text.get_char(i), sentinel);
        let ghost prev = bb@;
        let ghost ci = i as int;
        draw_glyph_cell(bb, cx, y, rows, scale, fg, blend, alpha);
        proof {
            assert forall|qx: int, qy: int| #![trigger pix(bb@, qx, qy)] on_screen(qx, qy) implies pix(bb@, qx, qy) == (
                if on_text(chars, sentinel, ci + 1, qx, qy, x as int, y as int, scale as int) {
                    ink(pix(orig, qx, qy), fg, blend, alpha)
                } else {
                    pix(orig, qx, qy)
                }) by {
                if on_glyph(rows@, qx, qy, cx as int, y as int, scale as int) {
                    assert(on_glyph(glyph_rows(chars[ci], sentinel), qx, qy, x + 8 * scale * ci, y as int, scale as int));
                    assert forall|j: int| 0 <= j < ci implies !#[trigger] on_glyph(glyph_rows(chars[j], sentinel), qx, qy,
                        x + 8 * scale * j, y as int, scale as int) by {
                        lemma_cells_disjoint(x as int, w as int, j, ci);
                    }
                    assert(!on_text(chars, sentinel, ci, qx, qy, x as int, y as int, scale as int));
                } else {
                    if on_text(chars, sentinel, ci + 1, qx, qy, x as int, y as int, scale as int) {
                        let j = choose|j: int| 0 <= j < ci + 1 && #[trigger] on_glyph(glyph_rows(chars[j], sentinel), qx, qy,
                            x + 8 * scale * j, y as int, scale as int);
                        assert(j != ci);
                        assert(on_text(chars, sentinel, ci, qx, qy, x as int, y as int, scale as int));
                    } else {
                        assert(!on_text(chars, sentinel, ci, qx, qy, x as int, y as int, scale as int));
                    }
                }
            }
            assert(w * (i + 1) == w * i + w) by (nonlinear_arith);
        }
        cx = cx + w;
        i = i + 1;
    }
    i
}

/// Draw one character at `(x, y)` in a named colour: set font pixels take
/// the colour, the others are left alone.  A code point outside ASCII
/// becomes a 4×4 dot.  Nothing is drawn before `init` sets a framebuffer.
pub fn draw_glyph(fb: &mut Framebuffer, x: usize, y: usize, ch: char, color: Color)
    requires
        old(fb).wf(),
    ensures
        final(fb).wf(),
        only_pixels_changed(&*final(fb), &*old(fb)),
        old(fb).fb_virt == 0 ==> final(fb).backbuffer@ == old(fb).backbuffer@,
        old(fb).fb_virt != 0 ==> glyph_painted(final(fb).backbuffer@, old(fb).backbuffer@, glyph_rows(ch, true),
            x as int, y as int, 1, old(fb).palette@[color_index(color) as int], false, 0),
{
    if fb.fb_virt == 0 || x >= 320 || y >= 200 {
        return;
    }
    let v = fb.palette[color.idx() as usize];
    let rows = glyph_rows_for(ch, true);
    draw_glyph_cell(&mut fb.backbuffer, x, y, rows, 1, v, false, 0);
}

/// Draw a string left to right from `(x, y)` in 8-pixel cells, stopping
/// before the first character that would cross the right edge.
pub fn draw_text(fb: &mut Framebuffer, x: usize, y: usize, text: &str, color: Color)
    requires
        old(fb).wf(),
        x + 8 <= usize::MAX,
        y + 8 <= usize::MAX,
    ensures
        final(fb).wf(),
        only_pixels_changed(&*final(fb), &*old(fb)),
        old(fb).fb_virt == 0 ==> final(fb).backbuffer@ == old(fb).backbuffer@,
        old(fb).fb_virt != 0 ==> text_painted(final(fb).backbuffer@, old(fb).backbuffer@, text@, true,
            cells_fitting(x as int, text@.len() as int, 8), x as int, y as int, 1,
            old(fb).palette@[color_index(color) as int], false, 0),
{
    if fb.fb_virt == 0 {
        return;
    }
    let v = fb.palette[color.idx() as usize];
    let _ = draw_text_cells(&mut fb.backbuffer, x, y, text, 1, true, v, false, 0);
}

/// Draw a string at twice the size (16×16 cells).  A character outside
/// ASCII leaves its cell empty; nothing is drawn when the row would cross
/// the bottom edge.
pub fn draw_text_2x(fb: &mut Framebuffer, x: usize, y: usize, text: &str, color: Color)
    requires
        old(fb).wf(),
        x + 16 <= usize::MAX,
        y + 16 <= usize::MAX,
    ensures
        final(fb).wf(),
        only_pixels_changed(&*final(fb), &*old(fb)),
        y + 16 > 200 ==> final(fb).backbuffer@ == old(fb).backbuffer@,
        y + 16 <= 200 ==> text_painted(final(fb).backbuffer@, old(fb).backbuffer@, text@, false,
            cells_fitting(x as int, text@.len() as int, 16), x as int, y as int, 2,
            old(fb).palette@[color_index(color) as int], false, 0),
{
    if y + 16 > 200 {
        return;
    }
    let v = fb.palette[color.idx() as usize];
    let _ = draw_text_cells(&mut fb.backbuffer, x, y, text, 2, false, v, false, 0);
}

/// Draw a string with each font pixel a `scale × scale` block blended
/// towards `bgrx` by `alpha`; characters outside ASCII leave their cell
/// empty and the cells stop at the right edge.
pub fn draw_text_pixel_scaled(fb: &mut Framebuffer, x: usize, y: usize, text: &str, scale: usize, bgrx: u32, alpha: u8)
    requires
        old(fb).wf(),
        x + 8 * scale <= usize::MAX,
        y + 8 * scale <= usize::MAX,
    ensures
        final(fb).wf(),
        only_pixels_changed(&*final(fb), &*old(fb)),
        scale == 0 ==> final(fb).backbuffer@ == old(fb).backbuffer@,
        scale > 0 ==> text_painted(final(fb).backbuffer@, old(fb).backbuffer@, text@, false,
            cells_fitting(x as int, text@.len() as int, 8 * scale), x as int, y as int, scale as int,
            bgrx, true, alpha),
{
    if scale == 0 {
        return;
    }
    let _ = draw_text_cells(&mut fb.backbuffer, x, y, text, scale, false, bgrx, true, alpha);
}

/// Width of the box behind `n` characters at `x`: `n * 8 + 4`, clipped to
/// the room left on the screen.
pub open spec fn boxed_width(n: int, x: int) -> int {
    let room = if x < 320 { 320 - x } else { 0 };
    if n * 8 + 4 < room { n * 8 + 4 } else { room }
}

/// Text on a filled box: the box is `chars * 8 + 4` wide (clipped to the
/// screen) and 12 high, the text inset by 2 pixels.
pub fn draw_text_boxed(fb: &mut Framebuffer, x: usize, y: usize, text: &str, fg: Color, bg: Color)
    requires
        old(fb).wf(),
        text@.len() * 8 + 4 <= usize::MAX,
        x + 2 + 8 <= usize::MAX,
        y + 2 + 12 <= usize::MAX,
    ensures
        final(fb).wf(),
        only_pixels_changed(&*final(fb), &*old(fb)),
        exists|boxed: Seq<u32>|
            #[trigger] painted(boxed, old(fb).backbuffer@, x as int, y as int,
                x + boxed_width(text@.len() as int, x as int),
                y + 12, Paint::Solid(old(fb).palette@[color_index(bg) as int]))
            && (old(fb).fb_virt == 0 ==> final(fb).backbuffer@ == boxed)
            && (old(fb).fb_virt != 0 ==> text_painted(final(fb).backbuffer@, boxed, text@, true,
                cells_fitting(x + 2, text@.len() as int, 8), x + 2, y + 2, 1,
                old(fb).palette@[color_index(fg) as int], false, 0)),
{
    let n = text.unicode_len();
    let w = n * 8 + 4;
    let room = if x < 320 { 320 - x } else { 0 };
    let bw = if w < room { w } else { room };
    fill_rect(fb, x, y, bw, 12, bg);
    let ghost boxed = fb.backbuffer@;
    draw_text(fb, x + 2, y + 2, text, fg);
    assert(bw == boxed_width(text@.len() as int, x as int));
    assert(painted(boxed, old(fb).backbuffer@, x as int, y as int, x + boxed_width(text@.len() as int, x as int), y + 12,
        Paint::Solid(old(fb).palette@[color_index(bg) as int])));
}

/// Text with a drop shadow: the shadow colour is drawn one pixel up-left
/// and one pixel down-right (only when both `x` and `y` are positive),
/// then the text itself on top.
pub fn draw_text_shadowed(fb: &mut Framebuffer, x: usize, y: usize, text: &str, fg: Color, shadow: Color)
    requires
        old(fb).wf(),
        x + 1 + 8 <= usize::MAX,
        y + 1 + 8 <= usize::MAX,
    ensures
        final(fb).wf(),
        only_pixels_changed(&*final(fb), &*old(fb)),
        old(fb).fb_virt == 0 ==> final(fb).backbuffer@ == old(fb).backbuffer@,
        old(fb).fb_virt != 0 && (x == 0 || y == 0) ==> text_painted(final(fb).backbuffer@, old(fb).backbuffer@,
            text@, true, cells_fitting(x as int, text@.len() as int, 8), x as int, y as int, 1,
            old(fb).palette@[color_index(fg) as int], false, 0),
        old(fb).fb_virt != 0 && x > 0 && y > 0 ==> exists|s1: Seq<u32>, s2: Seq<u32>|
            #[trigger] text_painted(s1, old(fb).backbuffer@, text@, true, cells_fitting(x - 1, text@.len() as int, 8),
                x - 1, y - 1, 1, old(fb).palette@[color_index(shadow) as int], false, 0)
            && #[trigger] text_painted(s2, s1, text@, true, cells_fitting(x + 1, text@.len() as int, 8),
                x + 1, y + 1, 1, old(fb).palette@[color_index(shadow) as int], false, 0)
            && text_painted(final(fb).backbuffer@, s2, text@, true, cells_fitting(x as int, text@.len() as int, 8),
                x as int, y as int, 1, old(fb).palette@[color_index(fg) as int], false, 0),
{
    if x > 0 && y > 0 {
        draw_text(fb, x - 1, y - 1, text, shadow);
        let ghost s1 = fb.backbuffer@;
        draw_text(fb, x + 1, y + 1, text, shadow);
        let ghost s2 = fb.backbuffer@;
        draw_text(fb, x, y, text, fg);
        proof {
            if fb.fb_virt != 0 {
                assert(text_painted(s1, old(fb).backbuffer@, text@, true, cells_fitting(x - 1, text@.len() as int, 8),
                    x - 1, y - 1, 1, old(fb).palette@[color_index(shadow) as int], false, 0));
                assert(text_painted(s2, s1, text@, true, cells_fitting(x + 1, text@.len() as int, 8),
                    x + 1, y + 1, 1, old(fb).palette@[color_index(shadow) as int], false, 0));
            }
        }
    } else {
        draw_text(fb, x, y, text, fg);
    }
}


/// Pixel width of `n` characters in an atlas with `cell_w`-wide cells.
pub fn text_width(text: &str, font: &FontAtlas) -> (r: usize)
    requires
        text@.len() * font.cell_w <= usize::MAX,
    ensures
        r == text@.len() * font.cell_w,
{
    text.unicode_len() * (font.cell_w as usize)
}

/// Exclusive hold on the back-buffer for a run of per-pixel writes, with a
/// copy of the palette lookup table taken when it was opened.
pub struct PaintSession {
    pub bb: Vec<u32>,
    pub palette: Vec<u32>,
}

impl PaintSession {
    pub open spec fn wf(&self) -> bool {
        self.bb@.len() == PIXELS && self.palette@.len() == 256
    }

    /// Take the back-buffer out of `fb` (left empty until `close`) and copy
    /// the palette lookup table.
    pub fn open(fb: &mut Framebuffer) -> (s: PaintSession)
        requires
            old(fb).wf(),
        ensures
            s.wf(),
            s.bb@ == old(fb).backbuffer@,
            s.palette@ == old(fb).palette@,
            final(fb).backbuffer@.len() == 0,
            only_pixels_changed(&*final(fb), &*old(fb)),
    {
        let mut bb: Vec<u32> = Vec::new();
        std::mem::swap(&mut bb, &mut fb.backbuffer);
        let palette = copy_u32(&fb.palette);
        PaintSession { bb, palette }
    }

    /// Hand the back-buffer back to `fb`.
    pub fn close(self, fb: &mut Framebuffer)
        requires
            self.wf(),
            old(fb).palette@.len() == 256,
            old(fb).luminance@.len() == 256,
            old(fb).typed.wf(),
        ensures
            final(fb).wf(),
            final(fb).backbuffer@ == self.bb@,
            only_pixels_changed(&*final(fb), &*old(fb)),
    {
        fb.backbuffer = self.bb;
    }

    /// Write a packed colour (clipped).
    pub fn put_rgb(&mut self, x: usize, y: usize, bgrx: u32)
        requires
            old(self).wf(),
        ensures
            final(self).wf(),
            final(self).palette@ == old(self).palette@,
            pixel_set(final(self).bb@, old(self).bb@, x as int, y as int, bgrx),
    {
        set_pixel(&mut self.bb, x, y, bgrx);
    }

    /// Write a named colour from the session's palette copy (clipped).
    pub fn put_color(&mut self, x: usize, y: usize, c: Color)
        requires
            old(self).wf(),
        ensures
            final(self).wf(),
            final(self).palette@ == old(self).palette@,
            pixel_set(final(self).bb@, old(self).bb@, x as int, y as int, old(self).palette@[color_index(c) as int]),
    {
        let v = self.palette[c.idx() as usize];
        set_pixel(&mut self.bb, x, y, v);
    }

    /// Blend one pixel towards `fg` by `alpha` (0 leaves it untouched).
    pub fn blend(&mut self, x: usize, y: usize, fg: u32, alpha: u8)
        requires
            old(self).wf(),
        ensures
            final(self).wf(),
            final(self).palette@ == old(self).palette@,
            on_screen(x as int, y as int) && alpha != 0 ==> final(self).bb@ == old(self).bb@.update(
                y * 320 + x, spec_lerp_bgrx(pix(old(self).bb@, x as int, y as int), fg, alpha)),
            !(on_screen(x as int, y as int) && alpha != 0) ==> final(self).bb@ == old(self).bb@,
    {
        if x >= 320 || y >= 200 || alpha == 0 {
            return;
        }
        let off = y * 320 + x;
        let bg = self.bb[off];
        let v = lerp_bgrx(bg, fg, alpha);
        self.bb.set(off, v);
    }

    /// Saturating per-channel add onto one pixel.
    pub fn add(&mut self, x: usize, y: usize, add_bgrx: u32)
        requires
            old(self).wf(),
        ensures
            final(self).wf(),
            final(self).palette@ == old(self).palette@,
            on_screen(x as int, y as int) ==> final(self).bb@ == old(self).bb@.update(
                y * 320 + x, spec_add_bgrx(pix(old(self).bb@, x as int, y as int), add_bgrx)),
            !on_screen(x as int, y as int) ==> final(self).bb@ == old(self).bb@,
    {
        if x >= 320 || y >= 200 {
            return;
        }
        let off = y * 320 + x;
        let cur = self.bb[off];
        let v = saturating_add_bgrx(cur, add_bgrx);
        self.bb.set(off, v);
    }

    /// Read a pixel (0 off screen).
    pub fn get_rgb(&self, x: usize, y: usize) -> (r: u32)
        requires
            self.wf(),
        ensures
            r == (if on_screen(x as int, y as int) { pix(self.bb@, x as int, y as int) } else { 0 }),
    {
        if x >= 320 || y >= 200 {
            return 0;
        }
        self.bb[y * 320 + x]
    }

    /// The packed colour of a named slot in the session's palette copy.
    pub fn color_bgrx(&self, c: Color) -> (r: u32)
        requires
            self.wf(),
        ensures
            r == self.palette@[color_index(c) as int],
    {
        self.palette[c.idx() as usize]
    }
}

fn copy_u32(v: &Vec<u32>) -> (r: Vec<u32>)
    ensures
        r@ == v@,
{
    let mut out: Vec<u32> = Vec::new();
    let mut i: usize = 0;
    while i < v.len()
        invariant
            i <= v@.len(),
            out@ == v@.subrange(0, i as int),
        decreases v@.len() - i,
    {
        out.push(v[i]);
        i = i + 1;
        assert(out@ =~= v@.subrange(0, i as int));
    }
    assert(out@ =~= v@);
    out
}

/// Channel `sh` of pixel `(x, y)` when it is on screen, else nothing.
pub open spec fn tap(s: Seq<u32>, x: int, y: int, sh: u32) -> int {
    if on_screen(x, y) { ch(pix(s, x, y), sh) as int } else { 0 }
}

pub open spec fn tap_count(x: int, y: int) -> int {
    if on_screen(x, y) { 1 } else { 0 }
}

/// Sum of channel `sh` over the on-screen part of the 3×3 neighbourhood.
pub open spec fn nb_sum(s: Seq<u32>, x: int, y: int, sh: u32) -> int {
    tap(s, x - 1, y - 1, sh) + tap(s, x, y - 1, sh) + tap(s, x + 1, y - 1, sh)
    + tap(s, x - 1, y, sh) + tap(s, x, y, sh) + tap(s, x + 1, y, sh)
    + tap(s, x - 1, y + 1, sh) + tap(s, x, y + 1, sh) + tap(s, x + 1, y + 1, sh)
}

/// Number of on-screen pixels in the 3×3 neighbourhood.
pub open spec fn nb_count(x: int, y: int) -> int {
    tap_count(x - 1, y - 1) + tap_count(x, y - 1) + tap_count(x + 1, y - 1)
    + tap_count(x - 1, y) + tap_count(x, y) + tap_count(x + 1, y)
    + tap_count(x - 1, y + 1) + tap_count(x, y + 1) + tap_count(x + 1, y + 1)
}

/// The 3×3 box-blurred colour of on-screen pixel `(x, y)`.
pub open spec fn blur_at(s: Seq<u32>, x: int, y: int) -> u32 {
    pack(
        (nb_sum(s, x, y, 16) / nb_count(x, y)) as u32,
        (nb_sum(s, x, y, 8) / nb_count(x, y)) as u32,
        (nb_sum(s, x, y, 0) / nb_count(x, y)) as u32,
    )
}

fn tap_exec(bb: &Vec<u32>, x: usize, y: usize, dx: usize, dy: usize) -> (r: (u32, u32, u32, u32))
    requires
        bb@.len() == PIXELS,
        x < 320,
        y < 200,
        dx < 3,
        dy < 3,
    ensures
        r.0 == tap(bb@, x + dx - 1, y + dy - 1, 16),
        r.1 == tap(bb@, x + dx - 1, y + dy - 1, 8),
        r.2 == tap(bb@, x + dx - 1, y + dy - 1, 0),
        r.3 == tap_count(x + dx - 1, y + dy - 1),
        r.0 <= 255 * r.3,
        r.1 <= 255 * r.3,
        r.2 <= 255 * r.3,
        r.3 <= 1,
{
    if x + dx < 1 || x + dx - 1 >= 320 || y + dy < 1 || y + dy - 1 >= 200 {
        return (0, 0, 0, 0);
    }
    let v = bb[(y + dy - 1) * 320 + (x + dx - 1)];
    proof { lemma_ch_bound(v); }
    let b = v & 0xFF;
    assert(b == ch(v, 0)) by {
        assert(v & 0xFF == (v >> 0) & 0xFF) by (bit_vector);
    }
    ((v >> 16) & 0xFF, (v >> 8) & 0xFF, b, 1)
}

fn blur_exec(bb: &Vec<u32>, x: usize, y: usize) -> (r: u32)
    requires
        bb@.len() == PIXELS,
        x < 320,
        y < 200,
    ensures
        r == blur_at(bb@, x as int, y as int),
{
    let mut ar: u32 = 0;
    let mut ag: u32 = 0;
    let mut ab: u32 = 0;
    let mut n: u32 = 0;
    let mut dy: usize = 0;
    while dy < 3
        invariant
            bb@.len() == PIXELS,
            x < 320,
            y < 200,
            dy <= 3,
            ar <= 255 * 3 * dy,
            ag <= 255 * 3 * dy,
            ab <= 255 * 3 * dy,
            n <= 3 * dy,
            ar <= 255 * n,
            ag <= 255 * n,
            ab <= 255 * n,
            ar == (if dy >= 1 { tap(bb@, x - 1, y - 1, 16) + tap(bb@, x as int, y - 1, 16) + tap(bb@, x + 1, y - 1, 16) } else { 0 })
                + (if dy >= 2 { tap(bb@, x - 1, y as int, 16) + tap(bb@, x as int, y as int, 16) + tap(bb@, x + 1, y as int, 16) } else { 0 })
                + (if dy >= 3 { tap(bb@, x - 1, y + 1, 16) + tap(bb@, x as int, y + 1, 16) + tap(bb@, x + 1, y + 1, 16) } else { 0 }),
            ag == (if dy >= 1 { tap(bb@, x - 1, y - 1, 8) + tap(bb@, x as int, y - 1, 8) + tap(bb@, x + 1, y - 1, 8) } else { 0 })
                + (if dy >= 2 { tap(bb@, x - 1, y as int, 8) + tap(bb@, x as int, y as int, 8) + tap(bb@, x + 1, y as int, 8) } else { 0 })
                + (if dy >= 3 { tap(bb@, x - 1, y + 1, 8) + tap(bb@, x as int, y + 1, 8) + tap(bb@, x + 1, y + 1, 8) } else { 0 }),
            ab == (if dy >= 1 { tap(bb@, x - 1, y - 1, 0) + tap(bb@, x as int, y - 1, 0) + tap(bb@, x + 1, y - 1, 0) } else { 0 })
                + (if dy >= 2 { tap(bb@, x - 1, y as int, 0) + tap(bb@, x as int, y as int, 0) + tap(bb@, x + 1, y as int, 0) } else { 0 })
                + (if dy >= 3 { tap(bb@, x - 1, y + 1, 0) + tap(bb@, x as int, y + 1, 0) + tap(bb@, x + 1, y + 1, 0) } else { 0 }),
            n == (if dy >= 1 { tap_count(x - 1, y - 1) + tap_count(x as int, y - 1) + tap_count(x + 1, y - 1) } else { 0 })
                + (if dy >= 2 { tap_count(x - 1, y as int) + tap_count(x as int, y as int) + tap_count(x + 1, y as int) } else { 0 })
                + (if dy >= 3 { tap_count(x - 1, y + 1) + tap_count(x as int, y + 1) + tap_count(x + 1, y + 1) } else { 0 }),
        decreases 3 - dy,
    {
        let t0 = tap_exec(bb, x, y, 0, dy);
        let t1 = tap_exec(bb, x, y, 1, dy);
        let t2 = tap_exec(bb, x, y, 2, dy);
        ar = ar + t0.0 + t1.0 + t2.0;
        ag = ag + t0.1 + t1.1 + t2.1;
        ab = ab + t0.2 + t1.2 + t2.2;
        n = n + t0.3 + t1.3 + t2.3;
        dy = dy + 1;
    }
    assert(n >= 1);
    let r = (ar / n) & 0xFF;
    let g = (ag / n) & 0xFF;
    let b = (ab / n) & 0xFF;
    proof {
        assert(ar / n <= 255) by (nonlinear_arith) requires n >= 1, ar <= 255 * n;
        assert(ag / n <= 255) by (nonlinear_arith) requires n >= 1, ag <= 255 * n;
        assert(ab / n <= 255) by (nonlinear_arith) requires n >= 1, ab <= 255 * n;
        let (qr, qg, qb) = (ar / n, ag / n, ab / n);
        assert(qr <= 255 ==> qr & 0xFF == qr) by (bit_vector);
        assert(qg <= 255 ==> qg & 0xFF == qg) by (bit_vector);
        assert(qb <= 255 ==> qb & 0xFF == qb) by (bit_vector);
    }
    pack_channels(r, g, b)
}

/// `new` is `old` with each pixel of the box replaced by its 3×3 blur over
/// `old`.
pub open spec fn blurred(new: Seq<u32>, old: Seq<u32>, x0: int, y0: int, x1: int, y1: int) -> bool {
    &&& new.len() == PIXELS
    &&& forall|x: int, y: int| #![trigger pix(new, x, y)] on_screen(x, y) ==> pix(new, x, y) == (
        if in_box(x, y, x0, y0, x1, y1) { blur_at(old, x, y) } else { pix(old, x, y) })
}

/// One pass of a 3×3 box blur over the visible part of a rectangle, each
/// output pixel averaged from the picture as it was before the pass.
/// Regions wider than 200 or taller than 80 visible pixels are left alone.
pub fn box_blur_region(fb: &mut Framebuffer, x: usize, y: usize, w: usize, h: usize)
    requires
        old(fb).wf(),
        rect_fits(x, y, w, h),
    ensures
        final(fb).wf(),
        only_pixels_changed(&*final(fb), &*old(fb)),
        ({
            let x1 = if x + w < 320 { x + w } else { 320 };
            let y1 = if y + h < 200 { y + h } else { 200 };
            if w == 0 || h == 0 || x >= 320 || y >= 200 || x1 - x > 200 || y1 - y > 80 {
                final(fb).backbuffer@ == old(fb).backbuffer@
            } else {
                blurred(final(fb).backbuffer@, old(fb).backbuffer@, x as int, y as int, x1, y1)
            }
        }),
{
    if w == 0 || h == 0 || x >= 320 || y >= 200 {
        return;
    }
    let x_end = clip(x + w, 320);
    let y_end = clip(y + h, 200);
    let rw = x_end - x;
    let rh = y_end - y;
    if rw > 200 || rh > 80 {
        return;
    }
    let ghost orig = fb.backbuffer@;
    let mut scratch: Vec<u32> = Vec::new();
    let mut ry: usize = 0;
    while ry < rh
        invariant
            fb.backbuffer@ == orig,
            orig.len() == PIXELS,
            x + rw <= 320,
            y + rh <= 200,
            rw <= 200,
            rh <= 80,
            ry <= rh,
            scratch@.len() == ry * rw,
            forall|k: int| 0 <= k < ry * rw ==> #[trigger] scratch@[k] == blur_at(orig, x + k % (rw as int), y + k / (rw as int)),
        decreases rh - ry,
    {
        let mut rx: usize = 0;
        while rx < rw
            invariant
                fb.backbuffer@ == orig,
                orig.len() == PIXELS,
                x + rw <= 320,
                y + rh <= 200,
                rw <= 200,
                rh <= 80,
                ry < rh,
                rx <= rw,
                scratch@.len() == ry * rw + rx,
                forall|k: int| 0 <= k < ry * rw + rx ==> #[trigger] scratch@[k] == blur_at(orig, x + k % (rw as int), y + k / (rw as int)),
            decreases rw - rx,
        {
            let v = blur_exec(&fb.backbuffer, x + rx, y + ry);
            proof {
                let k = ry * rw + rx;
                assert(k % (rw as int) == rx && k / (rw as int) == ry) by (nonlinear_arith)
                    requires k == ry * rw + rx, rx < rw;
            }
            scratch.push(v);
            rx = rx + 1;
        }
        assert((ry + 1) * rw == ry * rw + rw) by (nonlinear_arith);
        ry = ry + 1;
    }
    let mut py: usize = 0;
    while py < rh
        invariant
            fb.backbuffer@.len() == PIXELS,
            orig.len() == PIXELS,
            x + rw <= 320,
            y + rh <= 200,
            py <= rh,
            rw <= 200,
            rh <= 80,
            scratch@.len() == rh * rw,
            forall|k: int| 0 <= k < rh * rw ==> #[trigger] scratch@[k] == blur_at(orig, x + k % (rw as int), y + k / (rw as int)),
            forall|qx: int, qy: int| #![trigger pix(fb.backbuffer@, qx, qy)] on_screen(qx, qy) ==> pix(fb.backbuffer@, qx, qy) == (
                if in_box(qx, qy, x as int, y as int, x + rw, y + py) { blur_at(orig, qx, qy) } else { pix(orig, qx, qy) }),
            only_pixels_changed(&*fb, &*old(fb)),
            fb.wf(),
        decreases rh - py,
    {
        let mut px: usize = 0;
        while px < rw
            invariant
                fb.backbuffer@.len() == PIXELS,
                orig.len() == PIXELS,
                x + rw <= 320,
                y + rh <= 200,
                py < rh,
                px <= rw,
                rw <= 200,
                rh <= 80,
                scratch@.len() == rh * rw,
                forall|k: int| 0 <= k < rh * rw ==> #[trigger] scratch@[k] == blur_at(orig, x + k % (rw as int), y + k / (rw as int)),
                forall|qx: int, qy: int| #![trigger pix(fb.backbuffer@, qx, qy)] on_screen(qx, qy) ==> pix(fb.backbuffer@, qx, qy) == (
                    if in_box(qx, qy, x as int, y as int, x + rw, y + py) || (qy == y + py && x <= qx < x + px) {
                        blur_at(orig, qx, qy)
                    } else {
                        pix(orig, qx, qy)
                    }),
                only_pixels_changed(&*fb, &*old(fb)),
                fb.wf(),
            decreases rw - px,
        {
            assert(py * rw <= 80 * 200) by (nonlinear_arith) requires py < rh, rh <= 80, rw <= 200;
            let k = py * rw + px;
            proof {
                assert(k < rh * rw) by (nonlinear_arith) requires k == py * rw + px, px < rw, py < rh;
                assert((k as int) % (rw as int) == px && (k as int) / (rw as int) == py) by (nonlinear_arith)
                    requires k == py * rw + px, px < rw;
            }
            let v = scratch[k];
            let off = (y + py) * 320 + (x + px);
            let ghost prev = fb.backbuffer@;
            fb.backbuffer.set(off, v);
            proof {
                assert forall|qx: int, qy: int| #![trigger pix(fb.backbuffer@, qx, qy)] on_screen(qx, qy) implies pix(fb.backbuffer@, qx, qy) == (
                    if in_box(qx, qy, x as int, y as int, x + rw, y + py) || (qy == y + py && x <= qx < x + px + 1) {
                        blur_at(orig, qx, qy)
                    } else {
                        pix(orig, qx, qy)
                    }) by {
                    if qx == x + px && qy == y + py {
                    } else {
                        assert(qy * 320 + qx != (y + py) * 320 + (x + px));
                        assert(pix(fb.backbuffer@, qx, qy) == pix(prev, qx, qy));
                    }
                }
            }
            px = px + 1;
        }
        py = py + 1;
    }
}


/// Mode-13h palette slot for a packed colour in the legacy present path:
/// luminance `(30 r + 59 g + 11 b) / 100`, black below 4, otherwise one of
/// the eight cyan ramp slots 16..=23 by `luminance / 32`.
pub open spec fn spec_quantize_13h(c: u32) -> u8 {
    let l = (ch(c, 16) * 30 + ch(c, 8) * 59 + ch(c, 0) * 11) / 100;
    if l < 4 { 0 } else { (16 + (if l / 32 > 7 { 7 } else { l / 32 })) as u8 }
}

pub fn quantize_13h(c: u32) -> (r: u8)
    ensures
        r == spec_quantize_13h(c),
        r == 0 || 16 <= r <= 23,
{
    proof { lemma_ch_bound(c); }
    let r = (c >> 16) & 0xFF;
    let g = (c >> 8) & 0xFF;
    let b = c & 0xFF;
    assert(b == ch(c, 0)) by {
        assert(c & 0xFF == (c >> 0) & 0xFF) by (bit_vector);
    }
    let lum = ((r * 30 + g * 59 + b * 11) / 100) as u8;
    if lum < 4 { 0 } else { 16 + if lum / 32 > 7 { 7 } else { lum / 32 } }
}

/// Row `y` of the back-buffer as mode-13h palette slots.
pub fn present_row_13h(fb: &Framebuffer, y: usize) -> (row: Vec<u8>)
    requires
        fb.wf(),
        y < 200,
    ensures
        row@.len() == 320,
        forall|x: int| 0 <= x < 320 ==> #[trigger] row@[x] == spec_quantize_13h(pix(fb.backbuffer@, x, y as int)),
{
    let mut row: Vec<u8> = Vec::new();
    let mut x: usize = 0;
    while x < 320
        invariant
            fb.wf(),
            y < 200,
            x <= 320,
            row@.len() == x,
            forall|k: int| 0 <= k < x ==> #[trigger] row@[k] == spec_quantize_13h(pix(fb.backbuffer@, k, y as int)),
        decreases 320 - x,
    {
        row.push(quantize_13h(fb.backbuffer[y * 320 + x]));
        x = x + 1;
    }
    row
}

/// Row `y` of the back-buffer widened for the HD surface: each logical
/// pixel repeated `scale` times (`320 * scale` entries).
pub fn present_scanline_hd(fb: &Framebuffer, y: usize, scale: usize) -> (line: Vec<u32>)
    requires
        fb.wf(),
        y < 200,
        1 <= scale <= 6,
    ensures
        line@.len() == 320 * scale,
        forall|i: int| 0 <= i < 320 * scale ==> #[trigger] line@[i] == pix(fb.backbuffer@, i / (scale as int), y as int),
{
    let mut line: Vec<u32> = Vec::new();
    let mut x: usize = 0;
    while x < 320
        invariant
            fb.wf(),
            y < 200,
            1 <= scale <= 6,
            x <= 320,
            line@.len() == x * scale,
            forall|i: int| 0 <= i < x * scale ==> #[trigger] line@[i] == pix(fb.backbuffer@, i / (scale as int), y as int),
        decreases 320 - x,
    {
        let v = fb.backbuffer[y * 320 + x];
        let mut k: usize = 0;
        while k < scale
            invariant
                fb.wf(),
                y < 200,
                1 <= scale <= 6,
                x < 320,
                k <= scale,
                v == pix(fb.backbuffer@, x as int, y as int),
                line@.len() == x * scale + k,
                forall|i: int| 0 <= i < x * scale + k ==> #[trigger] line@[i] == pix(fb.backbuffer@, i / (scale as int), y as int),
            decreases scale - k,
        {
            proof {
                let i = x * scale + k;
                assert(i / (scale as int) == x) by (nonlinear_arith)
                    requires i == x * scale + k, k < scale, scale >= 1;
            }
            line.push(v);
            k = k + 1;
        }
        assert((x + 1) * scale == x * scale + scale) by (nonlinear_arith);
        x = x + 1;
    }
    line
}

} // verus!
