//! Machine-checked invariants of the supervisor's heap accounting: the
//! running page count moves with saturating arithmetic, so a charge never
//! lowers it and a credit never raises it.

use vstd::prelude::*;

verus! {

/// Boundary values the checks sweep over: zero, small counts, the middle
/// and the top of the `u32` range.
pub fn pick_u32_sweep() -> (r: Vec<u32>)
    ensures
        r@ == seq![0u32, 1, 2, 100, 0xFFFF_FFFE, 0xFFFF_FFFF, 0x7FFF_FFFF, 0xFFFF_FF9B],
{
    let r: Vec<u32> = vec![0u32, 1, 2, 100, u32::MAX - 1, u32::MAX, u32::MAX / 2, u32::MAX - 100];
    assert(r@ =~= seq![0u32, 1, 2, 100, 0xFFFF_FFFE, 0xFFFF_FFFF, 0x7FFF_FFFF, 0xFFFF_FF9B]);
    r
}

/// The projected page count after charging `incr` pages.
pub open spec fn charged(used: u32, incr: u32) -> u32 {
    if used + incr > u32::MAX { u32::MAX } else { (used + incr) as u32 }
}

/// The page count after crediting `decr` pages back.
pub open spec fn credited(used: u32, decr: u32) -> u32 {
    if used < decr { 0 } else { (used - decr) as u32 }
}

/// A charge never lowers the count: `used.saturating_add(incr) >= used`
/// for every pair, so a huge request cannot wrap under the quota check.
pub proof fn invariant_charge_heap_monotonic_proof(used: u32, incr: u32)
    ensures
        charged(used, incr) >= used,
        used + incr <= u32::MAX ==> charged(used, incr) == used + incr,
{
}

/// A credit never raises the count: `used.saturating_sub(decr) <= used`.
pub proof fn invariant_credit_heap_no_underflow_proof(used: u32, decr: u32)
    ensures
        credited(used, decr) <= used,
        decr <= used ==> credited(used, decr) == used - decr,
{
}

/// Run the charge check over every pair of sweep values; returns how many
/// pairs were checked.
pub fn invariant_charge_heap_monotonic_under_sweep() -> (checked: usize)
    ensures
        checked == 64,
{
    let vals = pick_u32_sweep();
    let mut checked: usize = 0;
    let mut i: usize = 0;
    while i < vals.len()
        invariant
            vals@.len() == 8,
            i <= 8,
            checked == 8 * i,
        decreases 8 - i,
    {
        let mut j: usize = 0;
        while j < vals.len()
            invariant
                vals@.len() == 8,
                i < 8,
                j <= 8,
                checked == 8 * i + j,
            decreases 8 - j,
        {
            let used = vals[i];
            let projected = used.saturating_add(vals[j]);
            assert(projected >= used);
            checked = checked + 1;
            j = j + 1;
        }
        i = i + 1;
    }
    checked
}

/// Run the credit check over every pair of sweep values; returns how many
/// pairs were checked.
pub fn invariant_credit_heap_no_underflow() -> (checked: usize)
    ensures
        checked == 64,
{
    let vals = pick_u32_sweep();
    let mut checked: usize = 0;
    let mut i: usize = 0;
    while i < vals.len()
        invariant
            vals@.len() == 8,
            i <= 8,
            checked == 8 * i,
        decreases 8 - i,
    {
        let mut j: usize = 0;
        while j < vals.len()
            invariant
                vals@.len() == 8,
                i < 8,
                j <= 8,
                checked == 8 * i + j,
            decreases 8 - j,
        {
            let used = vals[i];
            let projected = used.saturating_sub(vals[j]);
            assert(projected <= used);
            checked = checked + 1;
            j = j + 1;
        }
        i = i + 1;
    }
    checked
}

} // verus!
