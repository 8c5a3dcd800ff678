//! The CPUID node: the processor's vendor string, feature words and brand
//! string, assembled from the leaves the processor reports.

use vstd::prelude::*;
use crate::protocol::Signal;

verus! {

/// The four registers one CPUID leaf returns.
#[derive(Clone, Copy, Debug, PartialEq, Eq, Structural)]
pub struct CpuidLeaf {
    pub eax: u32,
    pub ebx: u32,
    pub ecx: u32,
    pub edx: u32,
}

/// Byte `k` (0 = least significant) of a register.
pub open spec fn le_byte(v: u32, k: int) -> u8 {
    ((v as int / pow256(k)) % 256) as u8
}

pub open spec fn pow256(k: int) -> int {
    if k <= 0 { 1 } else if k == 1 { 256 } else if k == 2 { 65536 } else { 16777216 }
}

/// The four bytes of a register, least significant first.
pub open spec fn le_bytes(v: u32) -> Seq<u8> {
    seq![le_byte(v, 0), le_byte(v, 1), le_byte(v, 2), le_byte(v, 3)]
}

fn to_le(v: u32) -> (r: [u8; 4])
    ensures
        r@ == le_bytes(v),
{
    let r: [u8; 4] = [(v % 256) as u8, ((v / 256) % 256) as u8, ((v / 65536) % 256) as u8, ((v / 16777216) % 256) as u8];
    assert(r@ =~= le_bytes(v));
    r
}

/// What the node remembers of the last sample.
pub struct CpuidState {
    pub max_basic_leaf: u32,
    pub max_extended_leaf: u32,
    pub feature_ecx: u32,
    pub feature_edx: u32,
    pub extended_ecx: u32,
    pub extended_edx: u32,
    pub sample_count: u32,
    pub last_signal_kind: u8,
    pub vendor: [u8; 12],
    pub brand: [u8; 48],
}

impl CpuidState {
    pub fn new() -> (r: Self)
        ensures
            r.max_basic_leaf == 0 && r.max_extended_leaf == 0,
            r.feature_ecx == 0 && r.feature_edx == 0 && r.extended_ecx == 0 && r.extended_edx == 0,
            r.sample_count == 0 && r.last_signal_kind == 0,
            forall|i: int| 0 <= i < 12 ==> r.vendor@[i] == 0,
            forall|i: int| 0 <= i < 48 ==> r.brand@[i] == 0,
    {
        CpuidState {
            max_basic_leaf: 0,
            max_extended_leaf: 0,
            feature_ecx: 0,
            feature_edx: 0,
            extended_ecx: 0,
            extended_edx: 0,
            sample_count: 0,
            last_signal_kind: 0,
            vendor: [0; 12],
            brand: [0; 48],
        }
    }
}

/// The kind byte recorded for the signal that triggered a sample.
pub open spec fn spec_signal_kind(s: Signal) -> u8 {
    match s {
        Signal::Call { .. } => 0x01,
        Signal::Spawn { .. } => 0x02,
        Signal::Interrupt { .. } => 0x03,
        Signal::Data { .. } => 0x04,
        Signal::Control { .. } => 0x05,
        Signal::Terminate => 0xFF,
    }
}

pub fn signal_kind_code(signal: Signal) -> (r: u8)
    ensures
        r == spec_signal_kind(signal),
{
    match signal {
        Signal::Call { .. } => 0x01,
        Signal::Spawn { .. } => 0x02,
        Signal::Interrupt { .. } => 0x03,
        Signal::Data { .. } => 0x04,
        Signal::Control { .. } => 0x05,
        Signal::Terminate => 0xFF,
    }
}

fn put4(dst: &mut [u8; 48], at: usize, v: u32)
    requires
        at + 4 <= 48,
    ensures
        final(dst)@ == old(dst)@.subrange(0, at as int) + le_bytes(v) + old(dst)@.subrange(at + 4, 48),
{
    let b = to_le(v);
    dst[at] = b[0];
    dst[at + 1] = b[1];
    dst[at + 2] = b[2];
    dst[at + 3] = b[3];
    assert(dst@ =~= old(dst)@.subrange(0, at as int) + le_bytes(v) + old(dst)@.subrange(at + 4, 48));
}

/// The 16 brand-string bytes of one leaf: `eax`, `ebx`, `ecx`, `edx`,
/// each least significant byte first.
pub open spec fn leaf_bytes(l: CpuidLeaf) -> Seq<u8> {
    le_bytes(l.eax) + le_bytes(l.ebx) + le_bytes(l.ecx) + le_bytes(l.edx)
}

/// Place brand leaf `index` (0..=2) at bytes `16 * index ..` of the brand.
pub fn copy_brand_leaf(brand: &mut [u8; 48], index: usize, eax: u32, ebx: u32, ecx: u32, edx: u32)
    requires
        index < 3,
    ensures
        final(brand)@ == old(brand)@.subrange(0, 16 * index as int)
            + leaf_bytes(CpuidLeaf { eax, ebx, ecx, edx })
            + old(brand)@.subrange(16 * index + 16, 48),
{
    let offset = index * 16;
    put4(brand, offset, eax);
    put4(brand, offset + 4, ebx);
    put4(brand, offset + 8, ecx);
    put4(brand, offset + 12, edx);
    assert(brand@ =~= old(brand)@.subrange(0, 16 * index as int)
        + leaf_bytes(CpuidLeaf { eax, ebx, ecx, edx })
        + old(brand)@.subrange(16 * index + 16, 48));
}

/// Record one sample.  `basic`, `features` and `extended` are leaves 0, 1
/// and 0x8000_0000; `ext_features` (leaf 0x8000_0001) is read only when the
/// extended range reaches it, and the three brand leaves (0x8000_0002..4)
/// only when it reaches 0x8000_0004.
pub fn sample_cpuid(state: &mut CpuidState, basic: CpuidLeaf, features: CpuidLeaf, extended: CpuidLeaf,
    ext_features: CpuidLeaf, brand0: CpuidLeaf, brand1: CpuidLeaf, brand2: CpuidLeaf)
    ensures
        final(state).max_basic_leaf == basic.eax,
        final(state).max_extended_leaf == extended.eax,
        final(state).feature_ecx == features.ecx,
        final(state).feature_edx == features.edx,
        final(state).sample_count == (if old(state).sample_count == u32::MAX { u32::MAX } else { (old(state).sample_count + 1) as u32 }),
        final(state).last_signal_kind == old(state).last_signal_kind,
        final(state).vendor@ == le_bytes(basic.ebx) + le_bytes(basic.edx) + le_bytes(basic.ecx),
        extended.eax >= 0x8000_0001 ==> final(state).extended_ecx == ext_features.ecx && final(state).extended_edx == ext_features.edx,
        extended.eax < 0x8000_0001 ==> final(state).extended_ecx == 0 && final(state).extended_edx == 0,
        extended.eax >= 0x8000_0004 ==> final(state).brand@ == leaf_bytes(brand0) + leaf_bytes(brand1) + leaf_bytes(brand2),
        extended.eax < 0x8000_0004 ==> final(state).brand@ == Seq::new(48, |i: int| 0u8),
{
    state.max_basic_leaf = basic.eax;
    state.max_extended_leaf = extended.eax;
    state.feature_ecx = features.ecx;
    state.feature_edx = features.edx;
    state.sample_count = state.sample_count.saturating_add(1);
    let b = to_le(basic.ebx);
    let d = to_le(basic.edx);
    let c = to_le(basic.ecx);
    let vendor: [u8; 12] = [b[0], b[1], b[2], b[3], d[0], d[1], d[2], d[3], c[0], c[1], c[2], c[3]];
    assert(vendor@ =~= le_bytes(basic.ebx) + le_bytes(basic.edx) + le_bytes(basic.ecx));
    state.vendor = vendor;
    let mut brand: [u8; 48] = [0; 48];
    assert(brand@ =~= Seq::new(48, |i: int| 0u8));
    if extended.eax >= 0x8000_0001 {
        state.extended_ecx = ext_features.ecx;
        state.extended_edx = ext_features.edx;
    } else {
        state.extended_ecx = 0;
        state.extended_edx = 0;
    }
    if extended.eax >= 0x8000_0004 {
        copy_brand_leaf(&mut brand, 0, brand0.eax, brand0.ebx, brand0.ecx, brand0.edx);
        copy_brand_leaf(&mut brand, 1, brand1.eax, brand1.ebx, brand1.ecx, brand1.edx);
        copy_brand_leaf(&mut brand, 2, brand2.eax, brand2.ebx, brand2.ecx, brand2.edx);
        assert(brand@ =~= leaf_bytes(brand0) + leaf_bytes(brand1) + leaf_bytes(brand2));
    }
    state.brand = brand;
}

/// An event arrived: remember its kind, then sample.
pub fn on_event(state: &mut CpuidState, signal: Signal, basic: CpuidLeaf, features: CpuidLeaf, extended: CpuidLeaf,
    ext_features: CpuidLeaf, brand0: CpuidLeaf, brand1: CpuidLeaf, brand2: CpuidLeaf)
    ensures
        final(state).last_signal_kind == spec_signal_kind(signal),
        final(state).max_basic_leaf == basic.eax,
        final(state).max_extended_leaf == extended.eax,
        final(state).sample_count == (if old(state).sample_count == u32::MAX { u32::MAX } else { (old(state).sample_count + 1) as u32 }),
{
    state.last_signal_kind = signal_kind_code(signal);
    sample_cpuid(state, basic, features, extended, ext_features, brand0, brand1, brand2);
}

} // verus!
