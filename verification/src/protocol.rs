//! The small vocabulary the plugins share: graph vector addresses and the
//! signals that nodes exchange.

use vstd::prelude::*;
use crate::bytebuf::{dec_value, is_dec_digit};

verus! {

/// A four-level graph vector address `l4.l3.l2.offset`.
#[derive(Clone, Copy, PartialEq, Eq, Structural, Debug)]
pub struct VectorAddress {
    pub l4: u16,
    pub l3: u16,
    pub l2: u16,
    pub offset: u16,
}

/// A run of 1 to 5 decimal digits whose value fits 16 bits.
pub open spec fn is_u16_field(f: Seq<u8>) -> bool {
    &&& 1 <= f.len() <= 5
    &&& forall|i: int| 0 <= i < f.len() ==> is_dec_digit(#[trigger] f[i])
    &&& dec_value(f) <= 0xFFFF
}

/// First position at or after `i` holding a dot (or the end).
pub open spec fn next_dot(s: Seq<u8>, i: int) -> int
    decreases s.len() - i,
{
    if i < 0 || i >= s.len() || s[i] == 0x2E { i } else { next_dot(s, i + 1) }
}

proof fn lemma_next_dot(s: Seq<u8>, i: int)
    requires
        0 <= i <= s.len(),
    ensures
        i <= next_dot(s, i) <= s.len(),
        next_dot(s, i) < s.len() ==> s[next_dot(s, i)] == 0x2E,
        forall|k: int| i <= k < next_dot(s, i) ==> s[k] != 0x2E,
    decreases s.len() - i,
{
    if i < s.len() && s[i] != 0x2E {
        lemma_next_dot(s, i + 1);
    }
}

/// The four fields of a vector literal `a.b.c.d`: decimal numbers of at most
/// five digits and at most 65535, separated by single dots.
pub open spec fn spec_parse_vector(s: Seq<u8>) -> Option<VectorAddress> {
    let d1 = next_dot(s, 0);
    let d2 = next_dot(s, d1 + 1);
    let d3 = next_dot(s, d2 + 1);
    let d4 = next_dot(s, d3 + 1);
    if d3 >= s.len() || d4 < s.len() {
        None
    } else {
        let f1 = s.subrange(0, d1);
        let f2 = s.subrange(d1 + 1, d2);
        let f3 = s.subrange(d2 + 1, d3);
        let f4 = s.subrange(d3 + 1, s.len() as int);
        if is_u16_field(f1) && is_u16_field(f2) && is_u16_field(f3) && is_u16_field(f4) {
            Some(VectorAddress {
                l4: dec_value(f1) as u16,
                l3: dec_value(f2) as u16,
                l2: dec_value(f3) as u16,
                offset: dec_value(f4) as u16,
            })
        } else {
            None
        }
    }
}

proof fn lemma_dec_step(s: Seq<u8>, i: int)
    requires
        0 <= i < s.len(),
    ensures
        dec_value(s.take(i + 1)) == dec_value(s.take(i)) * 10 + ((s[i] - 48) as nat),
{
    assert(s.take(i + 1).drop_last() =~= s.take(i));
}

pub open spec fn p10(k: int) -> int {
    if k <= 0 { 1 } else if k == 1 { 10 } else if k == 2 { 100 } else if k == 3 { 1000 } else if k == 4 { 10000 } else { 100000 }
}

/// Parse the field `s[start..end]`.
fn parse_field(s: &[u8], start: usize, end: usize) -> (r: Option<u16>)
    requires
        start <= end <= s@.len(),
    ensures
        is_u16_field(s@.subrange(start as int, end as int)) ==> r == Some(dec_value(s@.subrange(start as int, end as int)) as u16),
        !is_u16_field(s@.subrange(start as int, end as int)) ==> r is None,
{
    let ghost f = s@.subrange(start as int, end as int);
    if end == start || end - start > 5 {
        return None;
    }
    let mut v: u32 = 0;
    let mut i = start;
    while i < end
        invariant
            start <= i <= end <= s@.len(),
            end - start <= 5,
            f == s@.subrange(start as int, end as int),
            forall|k: int| 0 <= k < i - start ==> is_dec_digit(#[trigger] f[k]),
            v == dec_value(f.take(i - start)),
            v < p10(i - start),
        decreases end - i,
    {
        let b = s[i];
        if !(0x30 <= b && b <= 0x39) {
            assert(!is_dec_digit(f[i - start]));
            return None;
        }
        proof { lemma_dec_step(f, i - start); }
        v = v * 10 + (b - 0x30) as u32;
        i = i + 1;
    }
    assert(f.take(end - start) =~= f);
    if v > 0xFFFF {
        return None;
    }
    Some(v as u16)
}

fn next_dot_exec(s: &[u8], i: usize) -> (r: usize)
    requires
        i <= s@.len(),
    ensures
        r == next_dot(s@, i as int),
        i <= r <= s@.len(),
{
    let mut k = i;
    while k < s.len() && s[k] != 0x2E
        invariant
            i <= k <= s@.len(),
            next_dot(s@, i as int) == next_dot(s@, k as int),
        decreases s@.len() - k,
    {
        k = k + 1;
    }
    k
}

impl VectorAddress {
    /// Parse a literal `l4.l3.l2.offset`.
    pub fn parse(s: &[u8]) -> (r: Option<VectorAddress>)
        ensures
            r == spec_parse_vector(s@),
    {
        let d1 = next_dot_exec(s, 0);
        if d1 >= s.len() {
            return None;
        }
        let d2 = next_dot_exec(s, d1 + 1);
        if d2 >= s.len() {
            return None;
        }
        let d3 = next_dot_exec(s, d2 + 1);
        if d3 >= s.len() {
            return None;
        }
        let d4 = next_dot_exec(s, d3 + 1);
        if d4 < s.len() {
            return None;
        }
        let a = match parse_field(s, 0, d1) { Some(v) => v, None => return None };
        let b = match parse_field(s, d1 + 1, d2) { Some(v) => v, None => return None };
        let c = match parse_field(s, d2 + 1, d3) { Some(v) => v, None => return None };
        let d = match parse_field(s, d3 + 1, s.len()) { Some(v) => v, None => return None };
        Some(VectorAddress { l4: a, l3: b, l2: c, offset: d })
    }

    pub fn new(l4: u16, l3: u16, l2: u16, offset: u16) -> (r: Self)
        ensures
            r == (VectorAddress { l4, l3, l2, offset }),
    {
        VectorAddress { l4, l3, l2, offset }
    }
}

/// A signal delivered to a node executor.
#[derive(Clone, Copy, PartialEq, Eq, Structural, Debug)]
pub enum Signal {
    Call { from: u64 },
    Spawn { payload: u64 },
    Interrupt { irq: u8 },
    Data { from: u64, byte: u8 },
    Control { cmd: u8, val: u8 },
    Terminate,
}

/// What an executor callback reports back to the scheduler.
#[derive(Clone, Copy, PartialEq, Eq, Structural, Debug)]
pub enum ExecStatus {
    Done,
    Yield,
    Fault,
}

} // verus!
