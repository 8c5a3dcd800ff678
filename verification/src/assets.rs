//! Baked assets: palette-indexed textures (`.pal`) and anti-aliased font
//! atlases (`.fnt`), parsed from their byte blobs, and the choice of a
//! pre-rendered sphere texture.

use vstd::prelude::*;

verus! {

/// A palette-indexed texture: `width * height` palette slots, row-major.
#[derive(Clone, Debug)]
pub struct PalTexture {
    pub width: u8,
    pub height: u8,
    pub data: Vec<u8>,
}

impl PalTexture {
    /// Parse a `.pal` blob: magic `GA`, width, height, then the pixels.
    pub fn from_blob(blob: &[u8]) -> (r: PalTexture)
        requires
            blob@.len() >= 4,
            blob@[0] == 0x47,
            blob@[1] == 0x41,
        ensures
            r.width == blob@[2],
            r.height == blob@[3],
            r.data@ == blob@.subrange(4, blob@.len() as int),
    {
        let mut data: Vec<u8> = Vec::new();
        let mut i: usize = 4;
        while i < blob.len()
            invariant
                4 <= i <= blob@.len(),
                data@ == blob@.subrange(4, i as int),
            decreases blob@.len() - i,
        {
            data.push(blob[i]);
            i = i + 1;
            assert(data@ =~= blob@.subrange(4, i as int));
        }
        PalTexture { width: blob[2], height: blob[3], data }
    }

    /// The palette slot at `(x, y)`; 0 (the background slot) outside.
    pub fn sample(&self, x: u8, y: u8) -> (r: u8)
        requires
            x < self.width && y < self.height ==> y * self.width + x < self.data@.len(),
        ensures
            r == (if x < self.width && y < self.height { self.data@[y * self.width + x] } else { 0 }),
    {
        if x >= self.width || y >= self.height {
            return 0;
        }
        assert((y as usize) * (self.width as usize) <= 255 * 255) by (nonlinear_arith)
            requires y <= 255, self.width <= 255;
        let idx = (y as usize) * (self.width as usize) + (x as usize);
        self.data[idx]
    }
}

/// The cell of one character in a font atlas.
#[derive(Clone, Copy, Debug, PartialEq, Eq, Structural)]
pub struct GlyphRect {
    pub atlas_x: u16,
    pub atlas_y: u16,
    pub w: u8,
    pub h: u8,
}

/// An 8-bit alpha atlas of fixed-size cells, one per code point from
/// `char_first`, `atlas_w / cell_w` cells per row.
#[derive(Clone, Debug)]
pub struct FontAtlas {
    pub cell_w: u8,
    pub cell_h: u8,
    pub char_first: u8,
    pub char_count: u8,
    pub atlas_w: u16,
    pub alpha: Vec<u8>,
}

/// Cells per atlas row, as the 8-bit count the lookup uses.
pub open spec fn cells_per_row(atlas_w: u16, cell_w: u8) -> u8 {
    ((atlas_w / (cell_w as u16)) % 256) as u8
}

/// The cell of `ch`, when the atlas covers it.
pub open spec fn spec_glyph(f: FontAtlas, ch: u8) -> Option<GlyphRect> {
    if ch < f.char_first || ch - f.char_first >= f.char_count {
        None
    } else {
        let idx = (ch - f.char_first) as int;
        let cpr = cells_per_row(f.atlas_w, f.cell_w) as int;
        Some(GlyphRect {
            atlas_x: ((idx % cpr) * f.cell_w) as u16,
            atlas_y: ((idx / cpr) * f.cell_h) as u16,
            w: f.cell_w,
            h: f.cell_h,
        })
    }
}

impl FontAtlas {
    /// Parse a `.fnt` blob: magic `FA`, cell width and height, first code
    /// point, count, little-endian atlas width, then the alpha bytes.
    pub fn from_blob(blob: &[u8]) -> (r: FontAtlas)
        requires
            blob@.len() >= 8,
            blob@[0] == 0x46,
            blob@[1] == 0x41,
        ensures
            r.cell_w == blob@[2],
            r.cell_h == blob@[3],
            r.char_first == blob@[4],
            r.char_count == blob@[5],
            r.atlas_w == blob@[6] + 256 * blob@[7],
            r.alpha@ == blob@.subrange(8, blob@.len() as int),
    {
        let mut alpha: Vec<u8> = Vec::new();
        let mut i: usize = 8;
        while i < blob.len()
            invariant
                8 <= i <= blob@.len(),
                alpha@ == blob@.subrange(8, i as int),
            decreases blob@.len() - i,
        {
            alpha.push(blob[i]);
            i = i + 1;
            assert(alpha@ =~= blob@.subrange(8, i as int));
        }
        let lo = blob[6] as u16;
        let hi = blob[7] as u16;
        assert((lo | (hi << 8)) == lo + 256 * hi) by (bit_vector)
            requires lo < 256, hi < 256;
        FontAtlas {
            cell_w: blob[2],
            cell_h: blob[3],
            char_first: blob[4],
            char_count: blob[5],
            atlas_w: lo | (hi << 8),
            alpha,
        }
    }

    /// The lookup divides by the cell width and by the cells per row.
    pub open spec fn lookup_ok(&self) -> bool {
        self.cell_w > 0 && cells_per_row(self.atlas_w, self.cell_w) > 0
    }

    /// Cell of a code point, or `None` outside `char_first..char_first + char_count`.
    pub fn glyph(&self, ch: u8) -> (r: Option<GlyphRect>)
        requires
            ch >= self.char_first && ch - self.char_first < self.char_count ==> self.lookup_ok(),
        ensures
            r == spec_glyph(*self, ch),
    {
        if ch < self.char_first {
            return None;
        }
        let idx = ch - self.char_first;
        if idx >= self.char_count {
            return None;
        }
        let per_row = self.atlas_w / (self.cell_w as u16);
        let cpr = (per_row % 256) as u8;
        let col = idx % cpr;
        let row = idx / cpr;
        assert(col as u16 * self.cell_w as u16 <= self.atlas_w) by (nonlinear_arith)
            requires col < cpr, cpr <= self.atlas_w / (self.cell_w as u16), self.cell_w > 0;
        assert(row as u16 * self.cell_h as u16 <= 255 * 255) by (nonlinear_arith)
            requires row <= 255, self.cell_h <= 255;
        Some(GlyphRect {
            atlas_x: col as u16 * self.cell_w as u16,
            atlas_y: row as u16 * self.cell_h as u16,
            w: self.cell_w,
            h: self.cell_h,
        })
    }

    /// One alpha byte of the atlas; 0 when `(x, y)` is out of bounds: past
    /// the right edge of a row or past the end of the bitmap.
    pub fn alpha_at(&self, x: u16, y: u16) -> (r: u8)
        ensures
            r == (if x >= self.atlas_w || y * self.atlas_w + x >= self.alpha@.len() { 0 } else {
                self.alpha@[y * self.atlas_w + x]
            }),
    {
        if x >= self.atlas_w {
            return 0;
        }
        assert((y as usize) * (self.atlas_w as usize) <= 65535 * 65535) by (nonlinear_arith)
            requires y <= 65535, self.atlas_w <= 65535;
        let idx = (y as usize) * (self.atlas_w as usize) + (x as usize);
        if idx >= self.alpha.len() { 0 } else { self.alpha[idx] }
    }
}

/// Sub-domain whose pre-rendered sphere is wanted.
#[derive(Clone, Copy, Debug, PartialEq, Eq, Structural)]
pub enum SphereClass {
    Hardware,
    KernelDriver,
    Service,
    Compute,
    Routing,
    Vector,
}

/// Which baked sphere texture to draw: the class and whether the 64-pixel
/// rendering (rather than the 32-pixel one) is meant.
#[derive(Clone, Copy, Debug, PartialEq, Eq, Structural)]
pub struct SphereTexture {
    pub class: SphereClass,
    pub large: bool,
}

impl SphereTexture {
    /// Edge length of the texture in pixels.
    pub fn size_px(&self) -> (r: u8)
        ensures
            r == (if self.large { 64u8 } else { 32u8 }),
    {
        if self.large { 64 } else { 32 }
    }
}

/// The sphere texture for a class at a target radius: the 64-pixel one
/// from a radius of 48 pixels up, the 32-pixel one below.
pub fn sphere_for(class: SphereClass, target_radius_px: u8) -> (r: SphereTexture)
    ensures
        r.class == class,
        r.large == (target_radius_px >= 48),
{
    SphereTexture { class, large: target_radius_px >= 48 }
}

} // verus!
