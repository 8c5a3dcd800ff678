//! The desktop's input state: the taskbar command line and its result
//! panel, the console toggle, mouse-button edges and the quick-action
//! buttons.  Camera angles, picking and the 3-D layout work on floating
//! point and are kept out of this state.

use vstd::prelude::*;
use vstd::string::StringSliceAdditionalSpecFns;
use crate::bytebuf::{dec_value, is_dec_digit};
use crate::cypher::text::digit_run;
use crate::desktop::{DW, DH, BTN_W, BTN_H};

verus! {

/// Capacity of the command line and of the result text.
pub const CMD_CAP: usize = 48;
/// The most graph nodes the desktop shows.
pub const MAXN: usize = 128;
/// Edges the desktop shows at most.
pub const MAXE: usize = 512;
/// Height of the taskbar.
pub const BAR_H: i32 = 36;
/// The result panel's width and its collapsed and open heights.
pub const CMDR_W: i32 = 300;
pub const CMDR_H_MIN: i32 = 24;
pub const CMDR_H_MAX: i32 = 72;
/// The node popup's size.
pub const POP_W: i32 = 224;
pub const POP_H: i32 = 130;

/// A command typed on the taskbar.
#[derive(Debug, Clone, Copy, PartialEq, Eq, Structural)]
pub enum DeskCmd {
    /// `reset`: the camera back to its start.
    Reset,
    /// `console`: open the kernel console.
    Console,
    /// `layout` or `relayout`: lay the graph out again.
    Layout,
    /// `savecolors`: store the node colours.
    SaveColors,
    /// `color N C`: node `N` takes palette colour `C`.
    Color { node: usize, color: usize },
    /// Anything else, or a `color` command that names no node or colour.
    Unknown,
}

/// `s` is exactly the text `lit`.
pub open spec fn is_lit(s: Seq<u8>, lit: &str) -> bool {
    s == lit.spec_bytes()
}

/// The `color N C` form: the prefix `color ` and at least three more bytes.
pub open spec fn color_form(s: Seq<u8>) -> bool {
    s.len() >= 9 && s.take(6) == "color ".spec_bytes()
}

/// The digits of `N` in a `color` command.
pub open spec fn color_digits(s: Seq<u8>) -> Seq<u8> {
    s.skip(6).take(digit_run(s.skip(6), 0))
}

/// A `color` command the line reader can take without overflowing: its
/// node number fits a `usize`, and a byte after the separating space is
/// not below `0`.
pub open spec fn color_cmd_ok(s: Seq<u8>) -> bool {
    let rest = s.skip(6);
    let e = digit_run(rest, 0);
    color_form(s) ==> (dec_value(color_digits(s)) <= usize::MAX
        && (e < rest.len() && rest[e] == 0x20 && e + 1 < rest.len() ==> rest[e + 1] >= 0x30))
}

/// What a typed line means with `n` nodes on screen.
pub open spec fn spec_desk_cmd(s: Seq<u8>, n: nat) -> DeskCmd {
    if is_lit(s, "reset") {
        DeskCmd::Reset
    } else if is_lit(s, "console") {
        DeskCmd::Console
    } else if is_lit(s, "layout") || is_lit(s, "relayout") {
        DeskCmd::Layout
    } else if is_lit(s, "savecolors") {
        DeskCmd::SaveColors
    } else if color_form(s) {
        let rest = s.skip(6);
        let e = digit_run(rest, 0);
        let node = dec_value(color_digits(s));
        if e < rest.len() && rest[e] == 0x20 && e + 1 < rest.len() {
            let c = rest[e + 1] - 0x30;
            if node < n && c < 4 { DeskCmd::Color { node: node as usize, color: c as usize } } else { DeskCmd::Unknown }
        } else {
            DeskCmd::Unknown
        }
    } else {
        DeskCmd::Unknown
    }
}

fn eq_lit(t: &[u8], lit: &str) -> (r: bool)
    ensures
        r == is_lit(t@, lit),
{
    let p = lit.as_bytes();
    if p.len() != t.len() {
        return false;
    }
    let mut i: usize = 0;
    while i < p.len()
        invariant
            p@ == lit.spec_bytes(),
            p@.len() == t@.len(),
            i <= p@.len(),
            forall|k: int| 0 <= k < i ==> t@[k] == p@[k],
        decreases p@.len() - i,
    {
        if t[i] != p[i] {
            return false;
        }
        i = i + 1;
    }
    assert(t@ =~= p@);
    true
}

pub proof fn lemma_digit_run(t: Seq<u8>, i: int)
    requires
        0 <= i <= t.len(),
    ensures
        i <= digit_run(t, i) <= t.len(),
        forall|k: int| i <= k < digit_run(t, i) ==> is_dec_digit(#[trigger] t[k]),
    decreases t.len() - i,
{
    if i < t.len() && is_dec_digit(t[i]) {
        lemma_digit_run(t, i + 1);
    }
}

pub proof fn lemma_dec_value_mono(s: Seq<u8>, i: int)
    requires
        0 <= i <= s.len(),
        forall|k: int| 0 <= k < s.len() ==> is_dec_digit(#[trigger] s[k]),
    ensures
        dec_value(s.take(i)) <= dec_value(s),
    decreases s.len() - i,
{
    if i < s.len() {
        lemma_dec_value_mono(s, i + 1);
        assert(s.take(i + 1).drop_last() =~= s.take(i));
    } else {
        assert(s.take(i) =~= s);
    }
}

/// Read a typed line.
pub fn parse_desk_cmd(s: &[u8], n: usize) -> (r: DeskCmd)
    requires
        color_cmd_ok(s@),
    ensures
        r == spec_desk_cmd(s@, n as nat),
{
    if eq_lit(s, "reset") {
        return DeskCmd::Reset;
    }
    if eq_lit(s, "console") {
        return DeskCmd::Console;
    }
    if eq_lit(s, "layout") || eq_lit(s, "relayout") {
        return DeskCmd::Layout;
    }
    if eq_lit(s, "savecolors") {
        return DeskCmd::SaveColors;
    }
    if s.len() < 9 {
        return DeskCmd::Unknown;
    }
    let head = vstd::slice::slice_subrange(s, 0, 6);
    assert(head@ =~= s@.take(6));
    if !eq_lit(head, "color ") {
        return DeskCmd::Unknown;
    }
    let rest = vstd::slice::slice_subrange(s, 6, s.len());
    assert(rest@ =~= s@.skip(6));
    proof { lemma_digit_run(rest@, 0); }
    let mut ni: usize = 0;
    let mut ri: usize = 0;
    while ri < rest.len() && rest[ri] >= 0x30 && rest[ri] <= 0x39
        invariant
            rest@ == s@.skip(6),
            color_form(s@),
            color_cmd_ok(s@),
            0 <= ri <= digit_run(rest@, 0),
            digit_run(rest@, ri as int) == digit_run(rest@, 0),
            ni == dec_value(rest@.take(ri as int)),
        decreases rest@.len() - ri,
    {
        proof {
            lemma_digit_run(rest@, 0);
            assert(is_dec_digit(rest@[ri as int]));
            assert(digit_run(rest@, ri as int) == digit_run(rest@, ri + 1));
            lemma_digit_run(rest@, ri + 1);
            let run = color_digits(s@);
            assert(run.take(ri + 1) =~= rest@.take(ri + 1));
            assert forall|k: int| 0 <= k < run.len() implies is_dec_digit(#[trigger] run[k]) by {
                assert(run[k] == rest@[k]);
            }
            lemma_dec_value_mono(run, ri + 1);
            assert(rest@.take(ri + 1).drop_last() =~= rest@.take(ri as int));
        }
        ni = ni * 10 + (rest[ri] - 0x30) as usize;
        ri = ri + 1;
    }
    assert(rest@.take(ri as int) =~= color_digits(s@));
    if ri < rest.len() && rest[ri] == 0x20 && ri + 1 < rest.len() {
        let ci = (rest[ri + 1] - 0x30) as usize;
        if ni < n && ci < 4 {
            return DeskCmd::Color { node: ni, color: ci };
        }
    }
    DeskCmd::Unknown
}

/// Whether the line reader can take `s` as typed: anything that is not a
/// `color` command, or one whose node number fits a `usize` and whose
/// colour byte, when present, is not below `0` (see `color_cmd_ok`).
pub fn color_command_fits(s: &[u8]) -> (r: bool)
    ensures
        r == color_cmd_ok(s@),
{
    if s.len() < 9 {
        return true;
    }
    let head = vstd::slice::slice_subrange(s, 0, 6);
    assert(head@ =~= s@.take(6));
    if !eq_lit(head, "color ") {
        return true;
    }
    let rest = vstd::slice::slice_subrange(s, 6, s.len());
    assert(rest@ =~= s@.skip(6));
    proof { lemma_digit_run(rest@, 0); }
    let mut ni: usize = 0;
    let mut big = false;
    let mut ri: usize = 0;
    while ri < rest.len() && rest[ri] >= 0x30 && rest[ri] <= 0x39
        invariant
            rest@ == s@.skip(6),
            0 <= ri <= digit_run(rest@, 0),
            digit_run(rest@, 0) <= rest@.len(),
            digit_run(rest@, ri as int) == digit_run(rest@, 0),
            !big ==> ni == dec_value(rest@.take(ri as int)),
            big ==> dec_value(rest@.take(ri as int)) > usize::MAX,
        decreases rest@.len() - ri,
    {
        proof {
            assert(is_dec_digit(rest@[ri as int]));
            assert(digit_run(rest@, ri as int) == digit_run(rest@, ri + 1));
            lemma_digit_run(rest@, ri + 1);
            assert(rest@.take(ri + 1).drop_last() =~= rest@.take(ri as int));
            assert(rest@.take(ri + 1).last() == rest@[ri as int]);
        }
        let dgt = (rest[ri] - 0x30) as usize;
        let ghost before = dec_value(rest@.take(ri as int));
        assert(dec_value(rest@.take(ri + 1)) == before * 10 + dgt);
        if !big {
            match ni.checked_mul(10) {
                Some(m) => match m.checked_add(dgt) {
                    Some(v) => {
                        ni = v;
                    },
                    None => {
                        big = true;
                    },
                },
                None => {
                    big = true;
                },
            }
        }
        ri = ri + 1;
    }
    assert(ri == digit_run(rest@, 0));
    assert(rest@.take(ri as int) =~= color_digits(s@));
    if big {
        return false;
    }
    if ri < rest.len() && rest[ri] == 0x20 && ri + 1 < rest.len() {
        return rest[ri + 1] >= 0x30;
    }
    true
}

/// What a key did.
#[derive(Debug, Clone, Copy, PartialEq, Eq, Structural)]
pub enum KeyEffect {
    /// The command line was edited, or a key was ignored.
    Edited,
    /// Enter on an empty line.
    EmptyLine,
    /// Enter: the line was run as this command.
    Ran(DeskCmd),
    /// Escape closed the console or the popup.
    Escaped,
}

/// The desktop's input state.
pub struct Desktop {
    /// Nodes on screen.
    pub n: usize,
    pub console: bool,
    pub popup_vis: bool,
    pub prev_btn: u8,
    pub rbtn_hold: u8,
    pub cmd: Vec<u8>,
    pub cmd_result: Vec<u8>,
    pub cmd_result_ok: bool,
    pub cmd_result_vis: bool,
    pub cmd_result_open: bool,
    /// Each node's palette index.
    pub node_color: Vec<u8>,
}

/// Mouse-button changes in one frame.
#[derive(Debug, Clone, Copy, PartialEq, Eq, Structural)]
pub struct ButtonEdges {
    pub just_pressed: bool,
    pub just_released: bool,
    pub held: bool,
}

impl Desktop {
    /// Buffer bounds, the command line holds printable ASCII only, and a
    /// color slot per possible node.
    pub open spec fn wf(&self) -> bool {
        &&& self.cmd@.len() < CMD_CAP
        &&& self.cmd_result@.len() <= CMD_CAP
        &&& forall|i: int| 0 <= i < self.cmd@.len() ==> 0x20 <= #[trigger] self.cmd@[i] <= 0x7E
        &&& self.node_color@.len() == MAXN
        &&& self.n <= MAXN
    }

    pub fn new(n: usize) -> (r: Self)
        requires
            n <= MAXN,
        ensures
            r.wf(),
            r.n == n,
            !r.console && !r.popup_vis && r.prev_btn == 0 && r.rbtn_hold == 0,
            r.cmd@.len() == 0 && r.cmd_result@.len() == 0,
            !r.cmd_result_ok && !r.cmd_result_vis && !r.cmd_result_open,
            forall|i: int| 0 <= i < MAXN ==> r.node_color@[i] == 0,
    {
        let mut colors: Vec<u8> = Vec::new();
        let mut i: usize = 0;
        while i < MAXN
            invariant
                i <= MAXN,
                colors@.len() == i,
                forall|k: int| 0 <= k < i ==> colors@[k] == 0,
            decreases MAXN - i,
        {
            colors.push(0);
            i = i + 1;
        }
        Desktop {
            n,
            console: false,
            popup_vis: false,
            prev_btn: 0,
            rbtn_hold: 0,
            cmd: Vec::new(),
            cmd_result: Vec::new(),
            cmd_result_ok: false,
            cmd_result_vis: false,
            cmd_result_open: false,
            node_color: colors,
        }
    }

    /// Show a command and its outcome in the result panel, collapsed.
    pub fn show_cmd_result(&mut self, cmd: &[u8], ok: bool)
        requires
            old(self).wf(),
        ensures
            final(self).wf(),
            final(self).cmd_result@ == cmd@.take(if cmd@.len() < CMD_CAP { cmd@.len() as int } else { CMD_CAP as int }),
            final(self).cmd_result_ok == ok,
            final(self).cmd_result_vis,
            !final(self).cmd_result_open,
            final(self).cmd@ == old(self).cmd@,
            final(self).node_color@ == old(self).node_color@,
            final(self).console == old(self).console && final(self).n == old(self).n,
    {
        let n = if cmd.len() < CMD_CAP { cmd.len() } else { CMD_CAP };
        let mut out: Vec<u8> = Vec::new();
        let mut i: usize = 0;
        while i < n
            invariant
                n <= cmd@.len(),
                n <= CMD_CAP,
                i <= n,
                out@ == cmd@.take(i as int),
            decreases n - i,
        {
            out.push(cmd[i]);
            assert(cmd@.take(i + 1) =~= cmd@.take(i as int).push(cmd@[i as int]));
            i = i + 1;
        }
        self.cmd_result = out;
        self.cmd_result_ok = ok;
        self.cmd_result_vis = true;
        self.cmd_result_open = false;
    }

    /// Run the typed line: it is cleared; a non-empty line is read as a
    /// command, its effect on this state applied, and it is shown in the
    /// result panel as accepted unless unknown.
    pub fn run_cmd(&mut self) -> (r: Option<DeskCmd>)
        requires
            old(self).wf(),
            color_cmd_ok(old(self).cmd@),
        ensures
            final(self).wf(),
            final(self).cmd@.len() == 0,
            old(self).cmd@.len() == 0 ==> r is None && final(self).cmd_result@ == old(self).cmd_result@
                && final(self).node_color@ == old(self).node_color@ && final(self).console == old(self).console,
            old(self).cmd@.len() > 0 ==> r == Some(spec_desk_cmd(old(self).cmd@, old(self).n as nat))
                && final(self).cmd_result@ == old(self).cmd@
                && final(self).cmd_result_ok == (spec_desk_cmd(old(self).cmd@, old(self).n as nat) != DeskCmd::Unknown)
                && final(self).cmd_result_vis && !final(self).cmd_result_open
                && final(self).console == (old(self).console || spec_desk_cmd(old(self).cmd@, old(self).n as nat) == DeskCmd::Console)
                && final(self).node_color@ == (match spec_desk_cmd(old(self).cmd@, old(self).n as nat) {
                    DeskCmd::Color { node, color } => old(self).node_color@.update(node as int, color as u8),
                    _ => old(self).node_color@,
                }),
            final(self).n == old(self).n,
    {
        let mut line: Vec<u8> = Vec::new();
        core::mem::swap(&mut line, &mut self.cmd);
        if line.len() == 0 {
            return None;
        }
        let c = parse_desk_cmd(line.as_slice(), self.n);
        match c {
            DeskCmd::Console => self.console = true,
            DeskCmd::Color { node, color } => {
                self.node_color.set(node, color as u8);
            },
            _ => {},
        }
        let ok = match c {
            DeskCmd::Unknown => false,
            _ => true,
        };
        self.show_cmd_result(line.as_slice(), ok);
        assert(line@.take(line@.len() as int) =~= line@);
        Some(c)
    }

    /// A key from the keyboard: backspace drops the last byte, Enter runs
    /// the line, Escape closes the console (or else the popup), printable
    /// ASCII is added while the line has room for it.
    pub fn on_key(&mut self, k: u8) -> (r: KeyEffect)
        requires
            old(self).wf(),
            k == 0x0A || k == 0x0D ==> color_cmd_ok(old(self).cmd@),
        ensures
            final(self).wf(),
            final(self).n == old(self).n,
            k == 0x08 ==> r == KeyEffect::Edited && final(self).cmd@ == (if old(self).cmd@.len() > 0 {
                old(self).cmd@.drop_last() } else { old(self).cmd@ }),
            k == 0x0A || k == 0x0D ==> final(self).cmd@.len() == 0 && (if old(self).cmd@.len() == 0 {
                r == KeyEffect::EmptyLine } else { r == KeyEffect::Ran(spec_desk_cmd(old(self).cmd@, old(self).n as nat)) }),
            k == 0x1B ==> r == KeyEffect::Escaped && final(self).cmd@ == old(self).cmd@
                && (old(self).console ==> !final(self).console && final(self).popup_vis == old(self).popup_vis)
                && (!old(self).console ==> !final(self).popup_vis && !final(self).console),
            0x20 <= k <= 0x7E ==> r == KeyEffect::Edited && final(self).cmd@ == (if old(self).cmd@.len() < CMD_CAP - 1 {
                old(self).cmd@.push(k) } else { old(self).cmd@ }),
            k != 0x08 && k != 0x0A && k != 0x0D && k != 0x1B && !(0x20 <= k <= 0x7E) ==> r == KeyEffect::Edited
                && final(self).cmd@ == old(self).cmd@ && final(self).console == old(self).console,
    {
        if k == 0x08 {
            if self.cmd.len() > 0 {
                self.cmd.pop();
            }
            KeyEffect::Edited
        } else if k == 0x0A || k == 0x0D {
            match self.run_cmd() {
                Some(c) => KeyEffect::Ran(c),
                None => KeyEffect::EmptyLine,
            }
        } else if k == 0x1B {
            if self.console {
                self.console = false;
            } else {
                self.popup_vis = false;
            }
            KeyEffect::Escaped
        } else if 0x20 <= k && k <= 0x7E {
            if self.cmd.len() < CMD_CAP - 1 {
                self.cmd.push(k);
            }
            KeyEffect::Edited
        } else {
            KeyEffect::Edited
        }
    }

    /// The mouse buttons of this frame: a right button held for a second
    /// frame toggles the console and closes the popup; the left button's
    /// press and release edges are reported.
    pub fn on_buttons(&mut self, btn: u8) -> (r: ButtonEdges)
        requires
            old(self).wf(),
        ensures
            final(self).wf(),
            final(self).prev_btn == btn,
            btn & 2 != 0 ==> final(self).rbtn_hold == (if old(self).rbtn_hold == 255 { 255 } else { (old(self).rbtn_hold + 1) as u8 }),
            btn & 2 == 0 ==> final(self).rbtn_hold == 0,
            (btn & 2 != 0 && final(self).rbtn_hold == 2) ==> final(self).console == !old(self).console && !final(self).popup_vis,
            !(btn & 2 != 0 && final(self).rbtn_hold == 2) ==> final(self).console == old(self).console
                && final(self).popup_vis == old(self).popup_vis,
            r.just_pressed == (btn & 1 != 0 && old(self).prev_btn & 1 == 0),
            r.just_released == (btn & 1 == 0 && old(self).prev_btn & 1 != 0),
            r.held == (btn & 1 != 0),
            final(self).cmd@ == old(self).cmd@ && final(self).n == old(self).n,
    {
        if btn & 0x02 != 0 {
            self.rbtn_hold = if self.rbtn_hold == 255 { 255 } else { self.rbtn_hold + 1 };
            if self.rbtn_hold == 2 {
                self.console = !self.console;
                self.popup_vis = false;
            }
        } else {
            self.rbtn_hold = 0;
        }
        let r = ButtonEdges {
            just_pressed: btn & 0x01 != 0 && self.prev_btn & 0x01 == 0,
            just_released: btn & 0x01 == 0 && self.prev_btn & 0x01 != 0,
            held: btn & 0x01 != 0,
        };
        self.prev_btn = btn;
        r
    }

    /// Toggle the result panel when a click at `(cx, cy)` lands on it.
    pub fn cmd_result_click(&mut self, cx: i32, cy: i32) -> (hit: bool)
        requires
            old(self).wf(),
        ensures
            final(self).wf(),
            hit == (old(self).cmd_result_vis && ({
                let (rx, ry, rh) = spec_cmdr_rect(old(self).cmd_result_open);
                rx <= cx < rx + CMDR_W && ry <= cy < ry + rh
            })),
            final(self).cmd_result_open == (if hit { !old(self).cmd_result_open } else { old(self).cmd_result_open }),
            final(self).cmd@ == old(self).cmd@ && final(self).console == old(self).console,
    {
        if !self.cmd_result_vis {
            return false;
        }
        let (rx, ry, rh) = cmdr_rect(self.cmd_result_open);
        if cx >= rx && cx < rx + CMDR_W && cy >= ry && cy < ry + rh {
            self.cmd_result_open = !self.cmd_result_open;
            true
        } else {
            false
        }
    }
}

/// The result panel's left edge, top and height: anchored above the
/// taskbar, taller when open.
pub open spec fn spec_cmdr_rect(open: bool) -> (i32, i32, i32) {
    let rh: i32 = if open { CMDR_H_MAX } else { CMDR_H_MIN };
    (8, (DH as i32 - BAR_H - rh - 6) as i32, rh)
}

pub fn cmdr_rect(open: bool) -> (r: (i32, i32, i32))
    ensures
        r == spec_cmdr_rect(open),
{
    let rh = if open { CMDR_H_MAX } else { CMDR_H_MIN };
    (8, (DH as i32 - BAR_H) - rh - 6, rh)
}

/// `(cx, cy)` is on quick-action button `b` of the taskbar: three buttons
/// at the right end, 6 pixels apart, 30 pixels above the bottom.
pub open spec fn on_taskbar_button(b: int, cx: int, cy: int) -> bool {
    let bx = DW as int - 8 - (3 - b) * (BTN_W + 6);
    let by = DH as int - 30;
    bx <= cx < bx + BTN_W && by <= cy < by + BTN_H
}

/// The quick-action button under `(cx, cy)`.
pub fn taskbar_button_at(cx: i32, cy: i32) -> (r: Option<usize>)
    ensures
        r matches Some(b) ==> b < 3 && on_taskbar_button(b as int, cx as int, cy as int),
        r is None ==> forall|b: int| 0 <= b < 3 ==> !#[trigger] on_taskbar_button(b, cx as int, cy as int),
{
    let by: i32 = DH as i32 - 30;
    let mut b: i32 = 0;
    while b < 3
        invariant
            0 <= b <= 3,
            by == DH - 30,
            forall|j: int| 0 <= j < b ==> !#[trigger] on_taskbar_button(j, cx as int, cy as int),
        decreases 3 - b,
    {
        assert((3 - b) * (BTN_W + 6) <= 3 * 98) by (nonlinear_arith)
            requires 0 <= b < 3, BTN_W == 92;
        assert((3 - b) * (BTN_W + 6) >= 0) by (nonlinear_arith)
            requires 0 <= b < 3, BTN_W == 92;
        let bx = DW as i32 - 8 - (3 - b) * (BTN_W + 6);
        if cx >= bx && cx < bx + BTN_W && cy >= by && cy < by + BTN_H {
            return Some(b as usize);
        }
        b = b + 1;
    }
    None
}

/// Where the popup panel goes for an anchor at `(ax, ay)`: to the right of
/// the anchor unless it would leave the screen, then to the left;
/// vertically centred on the anchor and kept between the top and the
/// taskbar.
pub open spec fn spec_popup_origin(ax: int, ay: int) -> (int, int) {
    let px = if ax + 20 + POP_W > DW - 4 { ax - POP_W - 20 } else { ax + 20 };
    let py0 = ay - POP_H / 2;
    let py1 = if py0 > 4 { py0 } else { 4 };
    let lim = DH - POP_H - BAR_H - 4;
    (px, if py1 < lim { py1 } else { lim })
}

pub fn popup_origin(ax: i32, ay: i32) -> (r: (i32, i32))
    requires
        ax + 20 + POP_W <= i32::MAX,
        ax - POP_W - 20 >= i32::MIN,
        ay - POP_H / 2 >= i32::MIN,
    ensures
        r.0 == spec_popup_origin(ax as int, ay as int).0,
        r.1 == spec_popup_origin(ax as int, ay as int).1,
{
    let mut px = ax + 20;
    if px + POP_W > DW as i32 - 4 {
        px = ax - POP_W - 20;
    }
    let mut py = ay - POP_H / 2;
    if py < 4 {
        py = 4;
    }
    let lim = DH as i32 - POP_H - BAR_H - 4;
    if py > lim {
        py = lim;
    }
    (px, py)
}

/// The number of edges touching node `id`.
pub open spec fn edge_count(edges: Seq<(u16, u16)>, id: int) -> nat
    decreases edges.len(),
{
    if edges.len() == 0 {
        0
    } else {
        edge_count(edges.drop_last(), id) + (if edges.last().0 == id || edges.last().1 == id { 1nat } else { 0 })
    }
}

pub fn node_edge_count(edges: &[(u16, u16)], id: usize) -> (r: usize)
    ensures
        r == edge_count(edges@, id as int),
{
    let mut ec: usize = 0;
    let mut i: usize = 0;
    while i < edges.len()
        invariant
            i <= edges@.len(),
            ec == edge_count(edges@.take(i as int), id as int),
            ec <= i,
        decreases edges@.len() - i,
    {
        assert(edges@.take(i + 1).drop_last() =~= edges@.take(i as int));
        let (a, b) = edges[i];
        if a as usize == id || b as usize == id {
            ec = ec + 1;
        }
        i = i + 1;
    }
    assert(edges@.take(edges@.len() as int) =~= edges@);
    ec
}


/// Version byte of the settings sector.
pub const CFG_VER: u8 = 1;

/// The settings sector's first four bytes: `GOS` and a zero.
pub open spec fn cfg_magic() -> Seq<u8> {
    seq![0x47u8, 0x4Fu8, 0x53u8, 0u8]
}

/// The settings sector for `n` nodes: magic, version, the node count, then
/// each node's palette index; the rest zero.
pub open spec fn colors_sector(colors: Seq<u8>, n: nat) -> Seq<u8> {
    Seq::new(512, |i: int|
        if i < 4 { cfg_magic()[i] } else if i == 4 { CFG_VER } else if i == 5 { n as u8 }
        else if i < 6 + n { colors[i - 6] } else { 0u8 })
}

/// A sector written for exactly `n` nodes.
pub open spec fn sector_matches(sec: Seq<u8>, n: nat) -> bool {
    sec.subrange(0, 4) == cfg_magic() && sec[4] == CFG_VER && sec[5] == n
}

pub open spec fn clamp3(b: u8) -> u8 {
    if b > 3 { 3 } else { b }
}

impl Desktop {
    /// The settings sector holding the nodes' colors.
    pub fn save_colors(&self) -> (sec: [u8; 512])
        requires
            self.wf(),
        ensures
            sec@ == colors_sector(self.node_color@, self.n as nat),
    {
        let mut sec = [0u8; 512];
        sec[0] = 0x47;
        sec[1] = 0x4F;
        sec[2] = 0x53;
        sec[3] = 0;
        sec[4] = CFG_VER;
        sec[5] = self.n as u8;
        let mut i: usize = 0;
        while i < self.n
            invariant
                self.wf(),
                i <= self.n,
                sec@.len() == 512,
                forall|k: int| 0 <= k < 6 + i ==> #[trigger] sec@[k] == colors_sector(self.node_color@, self.n as nat)[k],
                forall|k: int| 6 + i <= k < 512 ==> #[trigger] sec@[k] == 0u8,
            decreases self.n - i,
        {
            sec[6 + i] = self.node_color[i];
            i = i + 1;
        }
        assert(sec@ =~= colors_sector(self.node_color@, self.n as nat));
        sec
    }

    /// Take the node colors from a settings sector written for this many
    /// nodes (each cut to the palette); any other sector is ignored.
    pub fn load_colors(&mut self, sec: &[u8; 512]) -> (loaded: bool)
        requires
            old(self).wf(),
        ensures
            final(self).wf(),
            loaded == sector_matches(sec@, old(self).n as nat),
            final(self).n == old(self).n,
            loaded ==> forall|i: int| 0 <= i < MAXN ==> #[trigger] final(self).node_color@[i]
                == if i < old(self).n { clamp3(sec@[6 + i]) } else { old(self).node_color@[i] },
            !loaded ==> final(self).node_color@ == old(self).node_color@,
            final(self).cmd@ == old(self).cmd@,
            final(self).cmd_result@ == old(self).cmd_result@,
            final(self).console == old(self).console,
            final(self).popup_vis == old(self).popup_vis,
    {
        let ok = sec[0] == 0x47 && sec[1] == 0x4F && sec[2] == 0x53 && sec[3] == 0 && sec[4] == CFG_VER
            && sec[5] as usize == self.n;
        proof {
            if ok {
                assert(sec@.subrange(0, 4) =~= cfg_magic());
            }
            if sector_matches(sec@, self.n as nat) {
                assert(sec@.subrange(0, 4)[0] == sec@[0]);
                assert(sec@.subrange(0, 4)[1] == sec@[1]);
                assert(sec@.subrange(0, 4)[2] == sec@[2]);
                assert(sec@.subrange(0, 4)[3] == sec@[3]);
            }
        }
        if !ok {
            return false;
        }
        let mut i: usize = 0;
        while i < self.n
            invariant
                old(self).wf(),
                self.wf(),
                i <= self.n,
                self.n == old(self).n,
                sec@.len() == 512,
                forall|k: int| 0 <= k < MAXN ==> #[trigger] self.node_color@[k]
                    == if k < i { clamp3(sec@[6 + k]) } else { old(self).node_color@[k] },
                self.cmd@ == old(self).cmd@,
                self.cmd_result@ == old(self).cmd_result@,
                self.console == old(self).console,
                self.popup_vis == old(self).popup_vis,
            decreases self.n - i,
        {
            let b = sec[6 + i];
            self.node_color.set(i, if b > 3 { 3 } else { b });
            i = i + 1;
        }
        true
    }
}

/// Saving the colors and loading that sector back leaves every node's
/// palette index as it was.
pub proof fn lemma_colors_round_trip(colors: Seq<u8>, n: nat)
    requires
        colors.len() == MAXN,
        n <= MAXN,
        forall|i: int| 0 <= i < n ==> #[trigger] colors[i] <= 3,
    ensures
        sector_matches(colors_sector(colors, n), n),
        forall|i: int| 0 <= i < n ==> #[trigger] clamp3(colors_sector(colors, n)[6 + i]) == colors[i],
{
    assert(colors_sector(colors, n).subrange(0, 4) =~= cfg_magic());
}

/// The palette swatch under `(cx, cy)` in a node popup placed at
/// `(px, py)`: four 28×16 swatches 36 apart, from `(px + 56, py + 76)`.
pub open spec fn swatch_at(px: int, py: int, cx: int, cy: int) -> Option<int> {
    if py + 76 <= cy < py + 92 {
        if px + 56 <= cx < px + 84 { Some(0) }
        else if px + 92 <= cx < px + 120 { Some(1) }
        else if px + 128 <= cx < px + 156 { Some(2) }
        else if px + 164 <= cx < px + 192 { Some(3) }
        else { None }
    } else {
        None
    }
}

impl Desktop {
    /// A click while the popup of node `id` is open at anchor `(ax, ay)`:
    /// on a swatch, the node takes that color and the settings sector to
    /// write is returned; elsewhere nothing happens.
    pub fn handle_popup_click(&mut self, node_popup: bool, id: usize, ax: i32, ay: i32, cx: i32, cy: i32)
        -> (r: Option<[u8; 512]>)
        requires
            old(self).wf(),
            id < MAXN,
            -0x1000_0000 <= ax <= 0x1000_0000,
            -0x1000_0000 <= ay <= 0x1000_0000,
        ensures
            final(self).wf(),
            final(self).n == old(self).n,
            final(self).cmd@ == old(self).cmd@,
            final(self).cmd_result@ == old(self).cmd_result@,
            final(self).popup_vis == old(self).popup_vis,
            final(self).console == old(self).console,
            ({
                let o = spec_popup_origin(ax as int, ay as int);
                let hit = if old(self).popup_vis && node_popup { swatch_at(o.0, o.1, cx as int, cy as int) } else { None };
                match hit {
                    None => r is None && final(self).node_color@ == old(self).node_color@,
                    Some(ci) => final(self).node_color@ == old(self).node_color@.update(id as int, ci as u8)
                        && (r matches Some(sec) && sec@ == colors_sector(final(self).node_color@, old(self).n as nat)),
                }
            }),
    {
        if !self.popup_vis || !node_popup {
            return None;
        }
        let (px, py) = popup_origin(ax, ay);
        let sy = py + 76;
        let mut ci: i32 = 0;
        while ci < 4
            invariant
                0 <= ci <= 4,
                self.wf(),
                -0x1000_0000 - POP_W - 20 <= px <= 0x1000_0000 + 20,
                -0x1000_0000 - POP_H <= py <= 0x1000_0000,
                sy == py + 76,
                px == spec_popup_origin(ax as int, ay as int).0,
                py == spec_popup_origin(ax as int, ay as int).1,
                swatch_at(px as int, py as int, cx as int, cy as int) matches Some(k) ==> k >= ci,
                self.node_color@ == old(self).node_color@,
                self.n == old(self).n,
                self.popup_vis && node_popup,
                id < MAXN,
                self.cmd@ == old(self).cmd@,
                self.cmd_result@ == old(self).cmd_result@,
                self.console == old(self).console,
                self.popup_vis == old(self).popup_vis,
            decreases 4 - ci,
        {
            let bx = px + 56 + ci * 36;
            if cx >= bx && cx < bx + 28 && cy >= sy && cy < sy + 16 {
                self.node_color.set(id, ci as u8);
                return Some(self.save_colors());
            }
            ci = ci + 1;
        }
        None
    }
}


/// Where `v` last occurs in `keys`.
pub open spec fn last_index(keys: Seq<u64>, v: u64) -> Option<int>
    decreases keys.len(),
{
    if keys.len() == 0 {
        None
    } else if keys.last() == v {
        Some(keys.len() - 1)
    } else {
        last_index(keys.drop_last(), v)
    }
}

proof fn lemma_last_index(keys: Seq<u64>, v: u64)
    ensures
        last_index(keys, v) matches Some(k) ==> 0 <= k < keys.len() && keys[k] == v,
    decreases keys.len(),
{
    if keys.len() > 0 {
        lemma_last_index(keys.drop_last(), v);
    }
}

/// The desktop's edges for the first `k` runtime edges `ends` over nodes
/// `keys`: each edge whose two ends are known nodes (the last node with
/// that vector) and differ, while fewer than `MAXE` are kept.
pub open spec fn desk_edges(keys: Seq<u64>, ends: Seq<(u64, u64)>, k: int) -> Seq<(u16, u16)>
    decreases k,
{
    if k <= 0 {
        Seq::empty()
    } else {
        let prev = desk_edges(keys, ends, k - 1);
        match (last_index(keys, ends[k - 1].0), last_index(keys, ends[k - 1].1)) {
            (Some(a), Some(b)) => if a != b && prev.len() < MAXE { prev.push((a as u16, b as u16)) } else { prev },
            _ => prev,
        }
    }
}

/// The starting colours: nodes alternate red and white by index.
pub open spec fn start_colors(n: int) -> Seq<u8> {
    Seq::new(MAXN as nat, |i: int| if i < n { (i % 2) as u8 } else { 0u8 })
}

fn last_position(keys: &[u64], n: usize, v: u64) -> (r: Option<usize>)
    requires
        n <= keys@.len(),
    ensures
        match last_index(keys@.take(n as int), v) {
            Some(k) => r == Some(k as usize),
            None => r is None,
        },
{
    let mut found: Option<usize> = None;
    let mut i: usize = 0;
    while i < n
        invariant
            i <= n <= keys@.len(),
            match last_index(keys@.take(i as int), v) {
                Some(k) => found == Some(k as usize),
                None => found is None,
            },
        decreases n - i,
    {
        assert(keys@.take(i + 1).drop_last() =~= keys@.take(i as int));
        if keys[i] == v {
            found = Some(i);
        }
        i = i + 1;
    }
    found
}

/// The graph the desktop shows, from the runtime's node vectors and edge
/// ends in listing order: at most `MAXN` nodes, the edges between two
/// different known nodes (at most `MAXE`), and the starting colours.
pub fn desktop_graph(node_vectors: &[u64], edge_ends: &[(u64, u64)]) -> (r: (usize, Vec<(u16, u16)>, Vec<u8>))
    ensures
        r.0 == (if node_vectors@.len() < MAXN { node_vectors@.len() as int } else { MAXN as int }),
        r.1@ == desk_edges(node_vectors@.take(r.0 as int), edge_ends@, edge_ends@.len() as int),
        r.2@ == start_colors(r.0 as int),
{
    let n = if node_vectors.len() < MAXN { node_vectors.len() } else { MAXN };
    let ghost keys = node_vectors@.take(n as int);
    let mut edges: Vec<(u16, u16)> = Vec::new();
    let mut e: usize = 0;
    while e < edge_ends.len()
        invariant
            n <= MAXN,
            n <= node_vectors@.len(),
            keys == node_vectors@.take(n as int),
            e <= edge_ends@.len(),
            edges@ == desk_edges(keys, edge_ends@, e as int),
            edges@.len() <= MAXE,
        decreases edge_ends@.len() - e,
    {
        let (fk, tk) = edge_ends[e];
        proof {
            lemma_last_index(keys, fk);
            lemma_last_index(keys, tk);
        }
        let a = last_position(node_vectors, n, fk);
        let b = last_position(node_vectors, n, tk);
        match (a, b) {
            (Some(a), Some(b)) => {
                if a != b && edges.len() < MAXE {
                    edges.push((a as u16, b as u16));
                }
            },
            _ => {},
        }
        e = e + 1;
    }
    let mut colors: Vec<u8> = Vec::new();
    let mut i: usize = 0;
    while i < MAXN
        invariant
            n <= MAXN,
            i <= MAXN,
            colors@ == start_colors(n as int).take(i as int),
        decreases MAXN - i,
    {
        colors.push(if i < n { (i % 2) as u8 } else { 0 });
        i = i + 1;
        assert(colors@ =~= start_colors(n as int).take(i as int));
    }
    assert(colors@ =~= start_colors(n as int));
    (n, edges, colors)
}

} // verus!
