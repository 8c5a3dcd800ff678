//! The PS/2 mouse driver's logic: three-byte packets assembled from the
//! data port, validated, and turned into a clamped pointer position on the
//! 640×400 pixel plane and its 80×25 text cell.

use vstd::prelude::*;

verus! {

/// `value` limited to `[min, max]`.
pub open spec fn spec_clamp(value: int, min: int, max: int) -> int {
    if value < min { min } else if value > max { max } else { value }
}

pub fn clamp(value: i32, min: i32, max: i32) -> (r: i32)
    ensures
        r == spec_clamp(value as int, min as int, max as int),
{
    if value < min {
        min
    } else if value > max {
        max
    } else {
        value
    }
}

/// Pointer position and buttons as the display sees them.
#[derive(Clone, Copy, Debug, PartialEq, Eq, Structural)]
pub struct MouseState {
    pub x_px: i32,
    pub y_px: i32,
    pub col: u8,
    pub row: u8,
    pub buttons: u8,
    pub visible: u8,
}

impl MouseState {
    /// On the pixel plane, with the text cell derived from the pixel.
    pub open spec fn wf(&self) -> bool {
        &&& 0 <= self.x_px <= 639
        &&& 0 <= self.y_px <= 399
        &&& self.col == self.x_px / 8
        &&& self.row == self.y_px / 16
    }

    /// Centre of the screen, pointer shown, no button held.
    pub fn initial() -> (r: Self)
        ensures
            r.wf(),
            r.x_px == 320 && r.y_px == 192 && r.col == 40 && r.row == 12,
            r.buttons == 0 && r.visible == 1,
    {
        MouseState { x_px: 320, y_px: 192, col: 40, row: 12, buttons: 0, visible: 1 }
    }
}

/// Move by `(dx, dy)` (mouse y grows upwards, screen y downwards), clamp to
/// the plane, recompute the cell, take the buttons and show the pointer.
pub fn apply_delta(state: &mut MouseState, dx: i32, dy: i32, buttons: u8)
    requires
        old(state).wf(),
        i32::MIN <= old(state).x_px + dx <= i32::MAX,
        i32::MIN <= old(state).y_px - dy <= i32::MAX,
    ensures
        final(state).wf(),
        final(state).x_px == spec_clamp(old(state).x_px + dx, 0, 639),
        final(state).y_px == spec_clamp(old(state).y_px - dy, 0, 399),
        final(state).buttons == buttons,
        final(state).visible == 1,
{
    state.x_px = clamp(state.x_px + dx, 0, 639);
    state.y_px = clamp(state.y_px - dy, 0, 399);
    state.col = (state.x_px / 8) as u8;
    state.row = (state.y_px / 16) as u8;
    state.buttons = buttons;
    state.visible = 1;
}

/// A first packet byte is a real header: bit 3 always set, no overflow bits.
pub open spec fn packet_header_ok(p0: u8) -> bool {
    p0 & 0x08 != 0 && p0 & 0xC0 == 0
}

/// The signed 8-bit value of a delta byte.
pub open spec fn signed_delta(b: u8) -> int {
    if b < 128 { b as int } else { b - 256 }
}

/// What the display is told after a pointer update.
#[derive(Clone, Copy, Debug, PartialEq, Eq, Structural)]
pub struct PointerOutput {
    pub col: u8,
    pub row: u8,
    pub visible: u8,
}

/// Packet assembly state plus the pointer it drives.
pub struct MouseDriver {
    pub index: u8,
    pub p0: u8,
    pub p1: u8,
    pub buttons_pending: u8,
    pub state: MouseState,
}

impl MouseDriver {
    pub open spec fn wf(&self) -> bool {
        self.index < 3 && self.state.wf()
    }

    pub fn new() -> (r: Self)
        ensures
            r.wf(),
            r.index == 0,
            r.buttons_pending == 0,
            r.state == (MouseState { x_px: 320, y_px: 192, col: 40, row: 12, buttons: 0, visible: 1 }),
    {
        MouseDriver { index: 0, p0: 0, p1: 0, buttons_pending: 0, state: MouseState::initial() }
    }

    /// Take one byte from the data port.  The third byte completes a packet;
    /// a packet with a valid header moves the pointer by its deltas and sets
    /// the buttons from its low three bits, and is reported when anything
    /// changed.
    pub fn accumulate_byte(&mut self, byte: u8) -> (r: Option<PointerOutput>)
        requires
            old(self).wf(),
        ensures
            final(self).wf(),
            old(self).index == 0 ==> final(self).index == 1 && final(self).p0 == byte && r is None
                && final(self).state == old(self).state,
            old(self).index == 1 ==> final(self).index == 2 && final(self).p1 == byte && final(self).p0 == old(self).p0
                && r is None && final(self).state == old(self).state,
            old(self).index == 2 ==> final(self).index == 0 && ({
                let p0 = old(self).p0;
                let dx = signed_delta(old(self).p1);
                let dy = signed_delta(byte);
                let btn = p0 & 0x07;
                if packet_header_ok(p0) && (dx != 0 || dy != 0 || btn != old(self).state.buttons) {
                    &&& final(self).buttons_pending == btn
                    &&& final(self).state.x_px == spec_clamp(old(self).state.x_px + dx, 0, 639)
                    &&& final(self).state.y_px == spec_clamp(old(self).state.y_px - dy, 0, 399)
                    &&& final(self).state.buttons == btn
                    &&& final(self).state.visible == 1
                    &&& r == Some(PointerOutput { col: final(self).state.col, row: final(self).state.row, visible: 1 })
                } else if packet_header_ok(p0) {
                    final(self).buttons_pending == btn && final(self).state == old(self).state && r is None
                } else {
                    final(self).buttons_pending == old(self).buttons_pending && final(self).state == old(self).state
                        && r is None
                }
            }),
    {
        if self.index == 0 {
            self.p0 = byte;
            self.index = 1;
            return None;
        }
        if self.index == 1 {
            self.p1 = byte;
            self.index = 2;
            return None;
        }
        self.index = 0;
        let p0 = self.p0;
        if p0 & 0x08 != 0 && p0 & 0xC0 == 0 {
            let p1 = self.p1;
            let dx = (p1 as i8) as i32;
            let dy = (byte as i8) as i32;
            assert((p1 < 128 ==> dx == p1) && (p1 >= 128 ==> dx == p1 - 256)
                && (byte < 128 ==> dy == byte) && (byte >= 128 ==> dy == byte - 256)) by (bit_vector)
                requires dx == (p1 as i8) as i32, dy == (byte as i8) as i32;
            let buttons = p0 & 0x07;
            self.buttons_pending = buttons;
            if dx != 0 || dy != 0 || buttons != self.state.buttons {
                apply_delta(&mut self.state, dx, dy, buttons);
                return Some(PointerOutput { col: self.state.col, row: self.state.row, visible: self.state.visible });
            }
        }
        None
    }

    /// Periodic flush: report a button change that no motion carried.
    pub fn flush_motion(&mut self) -> (r: Option<PointerOutput>)
        requires
            old(self).wf(),
        ensures
            final(self).wf(),
            final(self).index == old(self).index,
            final(self).buttons_pending == old(self).buttons_pending,
            old(self).buttons_pending == old(self).state.buttons ==> r is None && final(self).state == old(self).state,
            old(self).buttons_pending != old(self).state.buttons ==> {
                &&& final(self).state.x_px == old(self).state.x_px
                &&& final(self).state.y_px == old(self).state.y_px
                &&& final(self).state.buttons == old(self).buttons_pending
                &&& final(self).state.visible == 1
                &&& r == Some(PointerOutput { col: final(self).state.col, row: final(self).state.row, visible: 1 })
            },
    {
        let buttons = self.buttons_pending;
        if buttons == self.state.buttons {
            return None;
        }
        apply_delta(&mut self.state, 0, 0, buttons);
        Some(PointerOutput { col: self.state.col, row: self.state.row, visible: self.state.visible })
    }
}

/// The controller configuration byte written back when the mouse is
/// enabled: the one read, with the auxiliary-interrupt bit set.
pub fn enable_aux_irq(status: u8) -> (r: u8)
    ensures
        r == status | 0x02,
{
    status | 0x02
}

} // verus!
