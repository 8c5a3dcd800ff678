use gos_kernel::cpuid::{copy_brand_leaf, on_event, sample_cpuid, signal_kind_code, CpuidLeaf, CpuidState};
use gos_kernel::ime::{
    is_ascii_punctuation, lookup_candidate, normalize_letter, ImeInput, ImeState, IME_MODE_ASCII,
    IME_MODE_ZH_PINYIN,
};
use gos_kernel::mouse::{apply_delta, clamp, enable_aux_irq, MouseDriver, MouseState, PointerOutput};
use gos_kernel::protocol::Signal;
use gos_kernel::boot::boot_report;
use gos_kernel::ring3::{syscall_result, SyscallNo, ENOSYS};
use gos_kernel::task::TaskContext;
use gos_kernel::trap::{is_cpu_fault, pick_trap_slot};

fn pinyin() -> ImeState {
    let mut s = ImeState::new();
    s.process(ImeInput::ModeControl { val: IME_MODE_ZH_PINYIN });
    s
}

fn keys(s: &mut ImeState, bytes: &[u8]) -> Vec<u8> {
    let mut out = Vec::new();
    for b in bytes {
        out.extend(s.process(ImeInput::Key { byte: *b }));
    }
    out
}

#[test]
fn ime_ascii_mode_passes_bytes() {
    let mut s = ImeState::new();
    assert_eq!(s.mode, IME_MODE_ASCII);
    assert_eq!(keys(&mut s, b"hi!"), b"hi!".to_vec());
}

#[test]
fn ime_pinyin_commits_candidates() {
    let mut s = pinyin();
    assert_eq!(keys(&mut s, b"Ni"), Vec::<u8>::new());
    assert_eq!(s.composing, b"ni".to_vec());
    assert_eq!(keys(&mut s, b" "), "你".as_bytes().to_vec());
    assert_eq!(keys(&mut s, b"hao2"), "号".as_bytes().to_vec());
    assert_eq!(keys(&mut s, b"ma9"), "马".as_bytes().to_vec());
    assert_eq!(keys(&mut s, b"shi."), "是.".as_bytes().to_vec());
    assert_eq!(keys(&mut s, b"xyz\n"), b"xyz".to_vec());
    assert!(s.composing.is_empty());
}

#[test]
fn ime_editing_keys() {
    let mut s = pinyin();
    keys(&mut s, b"wox");
    keys(&mut s, &[0x08]);
    assert_eq!(s.composing, b"wo".to_vec());
    keys(&mut s, &[0x1B]);
    assert!(s.composing.is_empty());
    assert_eq!(keys(&mut s, b"."), b".".to_vec());
    keys(&mut s, b"ce");
    assert_eq!(s.commit_selection(0), b"ce".to_vec());
    assert_eq!(s.commit_selection(0), Vec::<u8>::new());
    keys(&mut s, b"ceshi");
    s.clear_composition();
    assert!(s.composing.is_empty());
    s.process(ImeInput::ModeControl { val: 7 });
    assert_eq!(s.mode, IME_MODE_ASCII);
}

#[test]
fn ime_composition_is_capped() {
    let mut s = pinyin();
    keys(&mut s, &[b'a'; 30]);
    assert_eq!(s.composing.len(), 24);
}

#[test]
fn ime_helpers() {
    assert_eq!(normalize_letter(b'Q'), b'q');
    assert_eq!(normalize_letter(b'q'), b'q');
    assert_eq!(normalize_letter(b'1'), b'1');
    assert!(is_ascii_punctuation(b','));
    assert!(is_ascii_punctuation(b'='));
    assert!(!is_ascii_punctuation(b'a'));
    assert!(!is_ascii_punctuation(b' '));
    assert_eq!(lookup_candidate(b"ni"), Some(0));
    assert_eq!(lookup_candidate(b"ceshi"), Some(18));
    assert_eq!(lookup_candidate(b"zz"), None);
}

#[test]
fn mouse_clamp_and_delta() {
    assert_eq!(clamp(-5, 0, 10), 0);
    assert_eq!(clamp(15, 0, 10), 10);
    assert_eq!(clamp(7, 0, 10), 7);
    let mut st = MouseState::initial();
    assert_eq!((st.x_px, st.y_px, st.col, st.row), (320, 192, 40, 12));
    apply_delta(&mut st, 1000, 1000, 1);
    assert_eq!((st.x_px, st.y_px, st.col, st.row, st.buttons), (639, 0, 79, 0, 1));
    apply_delta(&mut st, -17, -33, 0);
    assert_eq!((st.x_px, st.y_px, st.col, st.row), (622, 33, 77, 2));
    assert_eq!(enable_aux_irq(0x45), 0x47);
}

#[test]
fn mouse_packets_move_the_pointer() {
    let mut m = MouseDriver::new();
    assert_eq!(m.accumulate_byte(0x08), None);
    assert_eq!(m.accumulate_byte(16), None);
    let out = m.accumulate_byte(0xF0); // dx = 16, dy = -16
    assert_eq!(out, Some(PointerOutput { col: 42, row: 13, visible: 1 }));
    assert_eq!((m.state.x_px, m.state.y_px), (336, 208));
    // A packet without the always-one bit is dropped.
    m.accumulate_byte(0x00);
    m.accumulate_byte(50);
    assert_eq!(m.accumulate_byte(50), None);
    assert_eq!((m.state.x_px, m.state.y_px), (336, 208));
    // A button-only change reports at once; flushing then has nothing to do.
    m.accumulate_byte(0x09);
    m.accumulate_byte(0);
    assert_eq!(m.accumulate_byte(0), Some(PointerOutput { col: 42, row: 13, visible: 1 }));
    assert_eq!(m.state.buttons, 1);
    assert_eq!(m.flush_motion(), None);
}

#[test]
fn mouse_flush_reports_pending_buttons() {
    let mut m = MouseDriver::new();
    m.buttons_pending = 2;
    assert_eq!(m.flush_motion(), Some(PointerOutput { col: 40, row: 12, visible: 1 }));
    assert_eq!(m.state.buttons, 2);
}

fn leaf(eax: u32, ebx: u32, ecx: u32, edx: u32) -> CpuidLeaf {
    CpuidLeaf { eax, ebx, ecx, edx }
}

#[test]
fn cpuid_sample_fills_vendor_and_brand() {
    let mut st = CpuidState::new();
    let basic = leaf(0x16, u32::from_le_bytes(*b"Genu"), u32::from_le_bytes(*b"ntel"), u32::from_le_bytes(*b"ineI"));
    let b0 = leaf(u32::from_le_bytes(*b"Inte"), u32::from_le_bytes(*b"l(R)"), u32::from_le_bytes(*b" Cor"), u32::from_le_bytes(*b"e(TM"));
    let b1 = leaf(u32::from_le_bytes(*b") i7"), 0, 0, 0);
    let b2 = leaf(0, 0, 0, 0);
    sample_cpuid(&mut st, basic, leaf(0, 0, 0xA, 0xB), leaf(0x8000_0008, 0, 0, 0), leaf(0, 0, 1, 2), b0, b1, b2);
    assert_eq!(&st.vendor, b"GenuineIntel");
    assert_eq!(&st.brand[..20], b"Intel(R) Core(TM) i7");
    assert_eq!((st.max_basic_leaf, st.feature_ecx, st.feature_edx), (0x16, 0xA, 0xB));
    assert_eq!((st.extended_ecx, st.extended_edx, st.sample_count), (1, 2, 1));
    on_event(&mut st, Signal::Terminate, basic, leaf(0, 0, 0, 0), leaf(0x8000_0000, 0, 0, 0), leaf(0, 0, 5, 5), b0, b1, b2);
    assert_eq!(st.last_signal_kind, 0xFF);
    assert_eq!(st.sample_count, 2);
    assert_eq!(st.brand, [0u8; 48]);
    assert_eq!((st.extended_ecx, st.extended_edx), (0, 0));
}

#[test]
fn cpuid_signal_codes_and_brand_leaf() {
    assert_eq!(signal_kind_code(Signal::Call { from: 1 }), 1);
    assert_eq!(signal_kind_code(Signal::Data { from: 1, byte: 2 }), 4);
    assert_eq!(signal_kind_code(Signal::Control { cmd: 1, val: 2 }), 5);
    let mut brand = [0u8; 48];
    copy_brand_leaf(&mut brand, 1, 0x0403_0201, 0x0807_0605, 0, 0xFFEE_DDCC);
    assert_eq!(&brand[16..24], &[1, 2, 3, 4, 5, 6, 7, 8]);
    assert_eq!(&brand[28..32], &[0xCC, 0xDD, 0xEE, 0xFF]);
    assert_eq!(&brand[..16], &[0u8; 16]);
}

#[test]
fn traps_faults_and_slots() {
    for v in [8u64, 12, 13, 14] {
        assert!(is_cpu_fault(v));
    }
    for v in [0u64, 3, 32, 40] {
        assert!(!is_cpu_fault(v));
    }
    assert_eq!(pick_trap_slot(&[0, 0, 0, 0]), 0);
    assert_eq!(pick_trap_slot(&[1, 1, 0, 0]), 2);
    assert_eq!(pick_trap_slot(&[1, 1, 1, 1]), 0);
}

#[test]
fn kernel_thread_context_layout() {
    let (ctx, frame) = TaskContext::new_kernel_thread(0x1000, 0x8000, 0x5000, 0x2000);
    assert_eq!(ctx.rsp, 0x8000 - 16);
    assert_eq!(ctx.rbp, 0x8000 - 16);
    assert_eq!(ctx.cr3, 0x5000);
    assert_eq!((ctx.r12, ctx.r13, ctx.r14, ctx.r15, ctx.rbx), (0, 0, 0, 0, 0));
    assert_eq!(frame.entry_slot, (0x8000 - 8, 0x1000));
    assert_eq!(frame.return_slot, (0x8000 - 16, 0x2000));
}

#[test]
fn syscalls_and_boot_report() {
    assert_eq!(SyscallNo::AllocPages.code(), 1);
    assert_eq!(SyscallNo::ResolveCapability.code(), 4);
    assert_eq!(SyscallNo::from_code(3), Some(SyscallNo::EmitSignal));
    assert_eq!(SyscallNo::from_code(0), None);
    assert_eq!(syscall_result(2), 0);
    assert_eq!(syscall_result(9), ENOSYS);
    assert_eq!(syscall_result(9), u64::MAX);
    let r = boot_report(&[true, false, true, true], true);
    assert_eq!((r.discovered_plugins, r.loaded_plugins, r.stable_after_load), (4, 3, true));
}
