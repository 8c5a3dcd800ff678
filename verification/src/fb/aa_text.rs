//! Anti-aliased text from an 8-bit alpha atlas: each glyph cell blends the
//! text colour over the back-buffer by the atlas's coverage.

use vstd::prelude::*;
use crate::assets::{FontAtlas, GlyphRect, spec_glyph};
use super::{Framebuffer, Color, color_index, pix, on_screen, spec_lerp_bgrx, lerp_bgrx, only_pixels_changed,
    WIDTH, HEIGHT, PIXELS};

verus! {

/// The glyph drawn for a character: an ASCII character's glyph in the
/// atlas; any other character has none and only moves the cursor.
pub open spec fn aa_glyph(f: FontAtlas, c: char) -> Option<GlyphRect> {
    if (c as u32) <= 0x7F { spec_glyph(f, c as u8) } else { None }
}

/// The code point falls in the atlas's range.
pub open spec fn in_atlas(f: FontAtlas, cp: u8) -> bool {
    cp >= f.char_first && cp - f.char_first < f.char_count
}

/// The index at which drawing stops, scanning from character `i` with the
/// cursor at `cx`: the end of the text, or the first character with a
/// glyph whose cell would cross the right edge.  Characters without a
/// glyph only move the cursor.
pub open spec fn aa_stop(f: FontAtlas, chars: Seq<char>, i: int, cx: int) -> int
    decreases chars.len() - i,
{
    if i < 0 || i >= chars.len() {
        i
    } else {
        match aa_glyph(f, chars[i]) {
            None => aa_stop(f, chars, i + 1, cx + f.cell_w),
            Some(_) => if cx + f.cell_w > WIDTH { i } else { aa_stop(f, chars, i + 1, cx + f.cell_w) },
        }
    }
}

/// Rows of a cell that are drawn at `y`: all of them, or those above the
/// bottom edge.
pub open spec fn aa_rows(f: FontAtlas, y: int) -> int {
    if y + f.cell_h <= HEIGHT { f.cell_h as int } else { HEIGHT - y }
}

/// The drawn rows of the cell `r` lie inside the atlas.
pub open spec fn cell_in_atlas(f: FontAtlas, r: GlyphRect, rows: int) -> bool {
    rows <= 0 || (r.atlas_y + rows - 1) * f.atlas_w + r.atlas_x + f.cell_w <= f.alpha@.len()
}

/// Every atlas read of drawing `chars` from `(x, y)` is in bounds and every
/// glyph lookup can divide by the cell width.
pub open spec fn aa_reads_ok(f: FontAtlas, chars: Seq<char>, x: int, y: int) -> bool {
    let stop = aa_stop(f, chars, 0, x);
    &&& forall|i: int| 0 <= i <= stop && i < chars.len() && (chars[i] as u32) <= 0x7F && #[trigger] in_atlas(f, chars[i] as u8) ==> f.lookup_ok()
    &&& forall|i: int| 0 <= i < stop ==> match #[trigger] aa_glyph(f, chars[i]) {
        Some(r) => cell_in_atlas(f, r, aa_rows(f, y)),
        None => true,
    }
}

/// The coverage of pixel `(dx, dy)` of cell `r`.
pub open spec fn cell_alpha(f: FontAtlas, r: GlyphRect, dx: int, dy: int) -> u8 {
    f.alpha@[(r.atlas_y + dy) * f.atlas_w + r.atlas_x + dx]
}

/// `new` is `old` with the cell `r` blended in at `(cx, cy)`: covered
/// pixels of the drawn rows move towards `fg` by their coverage.
pub open spec fn cell_blended(new: Seq<u32>, old: Seq<u32>, f: FontAtlas, r: GlyphRect, cx: int, cy: int, fg: u32) -> bool {
    &&& new.len() == PIXELS
    &&& forall|x: int, y: int| #![trigger pix(new, x, y)] on_screen(x, y) ==> pix(new, x, y) == (
        if cx <= x < cx + f.cell_w && cy <= y < cy + f.cell_h && cell_alpha(f, r, x - cx, y - cy) != 0 {
            spec_lerp_bgrx(pix(old, x, y), fg, cell_alpha(f, r, x - cx, y - cy))
        } else {
            pix(old, x, y)
        })
}

fn blend_cell(bb: &mut Vec<u32>, f: &FontAtlas, r: GlyphRect, cx: usize, cy: usize, fg: u32)
    requires
        old(bb)@.len() == PIXELS,
        cx + f.cell_w <= WIDTH,
        cy < HEIGHT,
        r.w == f.cell_w,
        cell_in_atlas(*f, r, aa_rows(*f, cy as int)),
    ensures
        cell_blended(final(bb)@, old(bb)@, *f, r, cx as int, cy as int, fg),
{
    let ghost orig = bb@;
    let cw = f.cell_w as usize;
    let chh = f.cell_h as usize;
    let aw = f.atlas_w as usize;
    let al = f.alpha.len();
    let mut py: usize = 0;
    while py < chh
        invariant_except_break
            py <= chh,
            cy + py <= HEIGHT,
        invariant
            bb@.len() == PIXELS,
            orig == old(bb)@,
            cw == f.cell_w,
            chh == f.cell_h,
            aw == f.atlas_w,
            al == f.alpha@.len(),
            cx + cw <= WIDTH,
            cy < HEIGHT,
            cell_in_atlas(*f, r, aa_rows(*f, cy as int)),
            forall|x: int, y: int| #![trigger pix(bb@, x, y)] on_screen(x, y) ==> pix(bb@, x, y) == (
                if cx <= x < cx + cw && cy <= y < cy + py && cell_alpha(*f, r, x - cx, y - cy) != 0 {
                    spec_lerp_bgrx(pix(orig, x, y), fg, cell_alpha(*f, r, x - cx, y - cy))
                } else {
                    pix(orig, x, y)
                }),
        ensures
            bb@.len() == PIXELS,
            forall|x: int, y: int| #![trigger pix(bb@, x, y)] on_screen(x, y) ==> pix(bb@, x, y) == (
                if cx <= x < cx + cw && cy <= y < cy + chh && cell_alpha(*f, r, x - cx, y - cy) != 0 {
                    spec_lerp_bgrx(pix(orig, x, y), fg, cell_alpha(*f, r, x - cx, y - cy))
                } else {
                    pix(orig, x, y)
                }),
        decreases chh - py,
    {
        let ty = cy + py;
        if ty >= HEIGHT {
            break;
        }
        assert(py < aa_rows(*f, cy as int));
        assert((r.atlas_y + py) * aw + r.atlas_x + cw <= f.alpha@.len()) by (nonlinear_arith)
            requires
                (r.atlas_y + aa_rows(*f, cy as int) - 1) * aw + r.atlas_x + cw <= f.alpha@.len(),
                py < aa_rows(*f, cy as int), aw >= 0, py >= 0;
        let row_base = ty * WIDTH + cx;
        let atlas_row = (r.atlas_y as usize + py) * aw + r.atlas_x as usize;
        let mut px: usize = 0;
        while px < cw
            invariant
                bb@.len() == PIXELS,
                cw == f.cell_w,
                aw == f.atlas_w,
                al == f.alpha@.len(),
                cx + cw <= WIDTH,
                ty == cy + py,
                ty < HEIGHT,
                py < chh,
                chh == f.cell_h,
                row_base == ty * WIDTH + cx,
                atlas_row == (r.atlas_y + py) * aw + r.atlas_x,
                atlas_row + cw <= f.alpha@.len(),
                px <= cw,
                forall|x: int, y: int| #![trigger pix(bb@, x, y)] on_screen(x, y) ==> pix(bb@, x, y) == (
                    if cx <= x < cx + cw && (cy <= y < cy + py || (y == ty && x < cx + px))
                        && cell_alpha(*f, r, x - cx, y - cy) != 0 {
                        spec_lerp_bgrx(pix(orig, x, y), fg, cell_alpha(*f, r, x - cx, y - cy))
                    } else {
                        pix(orig, x, y)
                    }),
            decreases cw - px,
        {
            let alpha = f.alpha[atlas_row + px];
            if alpha != 0 {
                let dst = row_base + px;
                let ghost before = bb@;
                let bg = bb[dst];
                let v = lerp_bgrx(bg, fg, alpha);
                bb.set(dst, v);
                assert forall|x: int, y: int| #![trigger pix(bb@, x, y)] on_screen(x, y) && !(x == cx + px && y == ty)
                    implies pix(bb@, x, y) == pix(before, x, y) by {
                    assert(y * 320 + x != ty * 320 + cx + px);
                }
                assert(alpha == cell_alpha(*f, r, px as int, py as int));
                assert(pix(before, cx + px, ty as int) == pix(orig, cx + px, ty as int));
                assert(pix(bb@, cx + px, ty as int) == v);
            } else {
                assert(cell_alpha(*f, r, px as int, py as int) == 0);
            }
            proof {
                let npx = px + 1;
                assert forall|x: int, y: int| #![trigger pix(bb@, x, y)] on_screen(x, y) implies pix(bb@, x, y) == (
                    if cx <= x < cx + cw && (cy <= y < cy + py || (y == ty && x < cx + npx))
                        && cell_alpha(*f, r, x - cx, y - cy) != 0 {
                        spec_lerp_bgrx(pix(orig, x, y), fg, cell_alpha(*f, r, x - cx, y - cy))
                    } else {
                        pix(orig, x, y)
                    }) by {
                    if x == cx + px && y == ty {
                        assert(x - cx == px && y - cy == py);
                    }
                }
            }
            px = px + 1;
        }
        py = py + 1;
    }
}

proof fn lemma_cell_index(d: int, w: int, i: int)
    requires
        w > 0,
        i >= 0,
        d >= 0,
    ensures
        (i * w <= d < i * w + w) <==> d / w == i,
{
    assert((i * w <= d < i * w + w) <==> d / w == i) by (nonlinear_arith)
        requires w > 0, i >= 0, d >= 0;
}

/// The pixel's coverage by the text: the cell it falls in, when that cell
/// is drawn and has a glyph.
pub open spec fn text_alpha(f: FontAtlas, chars: Seq<char>, stop: int, x0: int, y0: int, x: int, y: int) -> Option<u8> {
    if f.cell_w == 0 || x < x0 || !(y0 <= y < y0 + f.cell_h) {
        None
    } else {
        let k = (x - x0) / (f.cell_w as int);
        if k >= stop {
            None
        } else {
            match aa_glyph(f, chars[k]) {
                None => None,
                Some(r) => Some(cell_alpha(f, r, x - x0 - k * f.cell_w, y - y0)),
            }
        }
    }
}

/// `new` is `old` with the text blended in by its coverage.
pub open spec fn text_blended(new: Seq<u32>, old: Seq<u32>, f: FontAtlas, chars: Seq<char>, stop: int,
    x0: int, y0: int, fg: u32) -> bool {
    &&& new.len() == PIXELS
    &&& forall|x: int, y: int| #![trigger pix(new, x, y)] on_screen(x, y) ==> pix(new, x, y) == (
        match text_alpha(f, chars, stop, x0, y0, x, y) {
            Some(a) => if a != 0 { spec_lerp_bgrx(pix(old, x, y), fg, a) } else { pix(old, x, y) },
            None => pix(old, x, y),
        })
}

/// Draw `text` from `(x, y)` in the colour `fg_bgrx`, blended by the
/// atlas's coverage.  A character outside ASCII, or one the atlas
/// lacks, leaves its cell as it was and only moves the cursor; drawing stops at the
/// first glyph whose cell would cross the right edge, and nothing is drawn
/// when `y` is below the screen.
pub fn draw_text_aa_rgb(fb: &mut Framebuffer, x: usize, y: usize, text: &str, fg_bgrx: u32, font: &FontAtlas)
    requires
        old(fb).wf(),
        y < HEIGHT ==> aa_reads_ok(*font, text@, x as int, y as int),
        y < HEIGHT ==> x + (aa_stop(*font, text@, 0, x as int) + 1) * font.cell_w <= usize::MAX,
    ensures
        final(fb).wf(),
        only_pixels_changed(&*final(fb), &*old(fb)),
        y >= HEIGHT ==> final(fb).backbuffer@ == old(fb).backbuffer@,
        y < HEIGHT ==> text_blended(final(fb).backbuffer@, old(fb).backbuffer@, *font, text@,
            aa_stop(*font, text@, 0, x as int), x as int, y as int, fg_bgrx),
{
    if y >= HEIGHT {
        return;
    }
    let ghost chars = text@;
    let ghost orig = fb.backbuffer@;
    let ghost stop = aa_stop(*font, chars, 0, x as int);
    let cw = font.cell_w as usize;
    let len = text.unicode_len();
    let mut cx = x;
    let mut i: usize = 0;
    proof { lemma_aa_stop(*font, chars, 0, x as int); }
    while i < len
        invariant_except_break
            i <= len,
            i <= stop,
            aa_stop(*font, chars, i as int, cx as int) == stop,
        invariant
            fb.wf(),
            only_pixels_changed(&*fb, &*old(fb)),
            orig == old(fb).backbuffer@,
            chars == text@,
            len == chars.len(),
            cw == font.cell_w,
            y < HEIGHT,
            cx == x + i * cw,
            stop == aa_stop(*font, chars, 0, x as int),
            0 <= stop <= chars.len(),
            aa_reads_ok(*font, chars, x as int, y as int),
            x + (stop + 1) * cw <= usize::MAX,
            text_blended(fb.backbuffer@, orig, *font, chars, i as int, x as int, y as int, fg_bgrx),
        ensures
            i == stop,
            text_blended(fb.backbuffer@, orig, *font, chars, i as int, x as int, y as int, fg_bgrx),
        decreases len - i,
    {
        let c = text.get_char(i);
        let ascii = (c as u32) <= 0x7F;
        let cp: u8 = if ascii { c as u8 } else { 0x3F };
        assert(ascii ==> cp == chars[i as int] as u8);
        assert(ascii && in_atlas(*font, cp) ==> font.lookup_ok());
        assert(i * cw + cw == (i + 1) * cw) by (nonlinear_arith);
        assert((i + 1) * cw <= (stop + 1) * cw) by (nonlinear_arith)
            requires i <= stop, cw >= 0;
        let g = if ascii { font.glyph(cp) } else { None };
        proof { lemma_aa_stop(*font, chars, i + 1, cx + cw); }
        match g {
            None => {
                proof { lemma_text_blended_skip(fb.backbuffer@, orig, *font, chars, i as int, x as int, y as int, fg_bgrx); }
                cx = cx + cw;
                i = i + 1;
            },
            Some(rect) => {
                if cx + cw > WIDTH {
                    break;
                }
                assert(cell_in_atlas(*font, rect, aa_rows(*font, y as int)));
                let ghost prev = fb.backbuffer@;
                blend_cell(&mut fb.backbuffer, font, rect, cx, y, fg_bgrx);
                proof {
                    lemma_text_blended_step(fb.backbuffer@, prev, orig, *font, chars, i as int, x as int, y as int,
                        fg_bgrx, rect);
                }
                cx = cx + cw;
                i = i + 1;
            },
        }
    }
}

pub proof fn lemma_aa_stop(f: FontAtlas, chars: Seq<char>, i: int, cx: int)
    requires
        0 <= i <= chars.len(),
    ensures
        i <= aa_stop(f, chars, i, cx) <= chars.len(),
    decreases chars.len() - i,
{
    if i < chars.len() {
        lemma_aa_stop(f, chars, i + 1, cx + f.cell_w);
    }
}

proof fn lemma_text_blended_skip(s: Seq<u32>, orig: Seq<u32>, f: FontAtlas, chars: Seq<char>, i: int,
    x0: int, y0: int, fg: u32)
    requires
        0 <= i < chars.len(),
        aa_glyph(f, chars[i]) is None,
        text_blended(s, orig, f, chars, i, x0, y0, fg),
    ensures
        text_blended(s, orig, f, chars, i + 1, x0, y0, fg),
{
    assert forall|x: int, y: int| #![trigger pix(s, x, y)] on_screen(x, y) implies pix(s, x, y) == (
        match text_alpha(f, chars, i + 1, x0, y0, x, y) {
            Some(a) => if a != 0 { spec_lerp_bgrx(pix(orig, x, y), fg, a) } else { pix(orig, x, y) },
            None => pix(orig, x, y),
        }) by {
        if f.cell_w != 0 && x >= x0 && y0 <= y < y0 + f.cell_h {
            let k = (x - x0) / (f.cell_w as int);
            if k == i {
                assert(text_alpha(f, chars, i + 1, x0, y0, x, y) is None);
            }
        }
    }
}

proof fn lemma_text_blended_step(s: Seq<u32>, prev: Seq<u32>, orig: Seq<u32>, f: FontAtlas, chars: Seq<char>, i: int,
    x0: int, y0: int, fg: u32, r: GlyphRect)
    requires
        0 <= i < chars.len(),
        f.cell_w > 0,
        x0 >= 0,
        aa_glyph(f, chars[i]) == Some(r),
        text_blended(prev, orig, f, chars, i, x0, y0, fg),
        cell_blended(s, prev, f, r, x0 + i * f.cell_w, y0, fg),
    ensures
        text_blended(s, orig, f, chars, i + 1, x0, y0, fg),
{
    let w = f.cell_w as int;
    assert forall|x: int, y: int| #![trigger pix(s, x, y)] on_screen(x, y) implies pix(s, x, y) == (
        match text_alpha(f, chars, i + 1, x0, y0, x, y) {
            Some(a) => if a != 0 { spec_lerp_bgrx(pix(orig, x, y), fg, a) } else { pix(orig, x, y) },
            None => pix(orig, x, y),
        }) by {
        assert(pix(prev, x, y) == pix(prev, x, y));
        if x >= x0 {
            lemma_cell_index(x - x0, w, i);
            let k = (x - x0) / w;
            if k == i {
                assert(x0 + i * w <= x < x0 + i * w + w);
                assert(x - x0 - k * w == x - (x0 + i * w));
            } else {
                assert(!(x0 + i * w <= x < x0 + i * w + w));
            }
        } else {
            assert(!(x0 + i * w <= x));
            assert(i * w >= 0) by (nonlinear_arith) requires i >= 0, w > 0;
        }
    }
}

/// `draw_text_aa_rgb` in a named colour.
pub fn draw_text_aa(fb: &mut Framebuffer, x: usize, y: usize, text: &str, color: Color, font: &FontAtlas)
    requires
        old(fb).wf(),
        y < HEIGHT ==> aa_reads_ok(*font, text@, x as int, y as int),
        y < HEIGHT ==> x + (aa_stop(*font, text@, 0, x as int) + 1) * font.cell_w <= usize::MAX,
    ensures
        final(fb).wf(),
        only_pixels_changed(&*final(fb), &*old(fb)),
        y >= HEIGHT ==> final(fb).backbuffer@ == old(fb).backbuffer@,
        y < HEIGHT ==> text_blended(final(fb).backbuffer@, old(fb).backbuffer@, *font, text@,
            aa_stop(*font, text@, 0, x as int), x as int, y as int, old(fb).palette@[color_index(color) as int]),
{
    let fg = fb.palette[color.idx() as usize];
    draw_text_aa_rgb(fb, x, y, text, fg, font);
}

/// Text drawn by `draw_text_aa_rgb` stays inside its advance: pixels left
/// of `x0` or at or past `x0 + text_width` (one cell per character) keep
/// their value.
pub proof fn lemma_text_within_width(new: Seq<u32>, old: Seq<u32>, f: FontAtlas, chars: Seq<char>, x0: int, y0: int,
    fg: u32)
    requires
        text_blended(new, old, f, chars, aa_stop(f, chars, 0, x0), x0, y0, fg),
    ensures
        forall|x: int, y: int| on_screen(x, y) && (x < x0 || x >= x0 + chars.len() * f.cell_w)
            ==> #[trigger] pix(new, x, y) == pix(old, x, y),
{
    lemma_aa_stop(f, chars, 0, x0);
    let stop = aa_stop(f, chars, 0, x0);
    assert forall|x: int, y: int| on_screen(x, y) && (x < x0 || x >= x0 + chars.len() * f.cell_w)
        implies #[trigger] pix(new, x, y) == pix(old, x, y) by {
        if f.cell_w != 0 && x >= x0 && y0 <= y < y0 + f.cell_h {
            let cw = f.cell_w as int;
            let n = chars.len() as int;
            assert((x - x0) / cw >= n) by (nonlinear_arith)
                requires cw > 0, x - x0 >= n * cw, n >= 0;
            assert(text_alpha(f, chars, stop, x0, y0, x, y) is None);
        }
    }
}

} // verus!
