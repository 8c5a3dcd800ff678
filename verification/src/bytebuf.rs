//! Fixed-capacity byte line builders shared by the plugins: text is appended
//! byte by byte and silently truncated once the capacity is reached.

use vstd::prelude::*;
use vstd::string::StringSliceAdditionalSpecFns;

verus! {

/// ASCII decimal rendering of `n`, most significant digit first ("0" for zero).
pub open spec fn dec_digits(n: nat) -> Seq<u8>
    decreases n,
{
    if n < 10 {
        seq![(48 + n) as u8]
    } else {
        dec_digits(n / 10).push((48 + n % 10) as u8)
    }
}

/// Numeric value of a sequence of ASCII decimal digits.
pub open spec fn dec_value(s: Seq<u8>) -> nat
    decreases s.len(),
{
    if s.len() == 0 {
        0
    } else {
        dec_value(s.drop_last()) * 10 + ((s.last() - 48) as nat)
    }
}

pub open spec fn is_dec_digit(b: u8) -> bool {
    48 <= b <= 57
}

/// Appending `s` to `old` in a buffer that holds at most `cap` bytes.
pub open spec fn append_capped(old: Seq<u8>, s: Seq<u8>, cap: nat) -> Seq<u8> {
    let full = old + s;
    if full.len() <= cap {
        full
    } else {
        full.subrange(0, cap as int)
    }
}

/// Ten to the power `k`.
pub open spec fn pow10(k: nat) -> nat
    decreases k,
{
    if k == 0 { 1 } else { 10 * pow10((k - 1) as nat) }
}

/// A number below `10^k` takes at most `k` digits (and always one).
pub proof fn lemma_dec_digits_below(n: nat, k: nat)
    requires
        n < pow10(k),
        k >= 1,
    ensures
        1 <= dec_digits(n).len() <= k,
    decreases n,
{
    if n >= 10 {
        reveal_with_fuel(pow10, 2);
        assert(k >= 2);
        assert(n / 10 < pow10((k - 1) as nat));
        lemma_dec_digits_below(n / 10, (k - 1) as nat);
    }
}

/// Any 64-bit value takes at most 20 digits.
pub proof fn lemma_dec_digits_u64(n: nat)
    requires
        n <= u64::MAX,
    ensures
        1 <= dec_digits(n).len() <= 20,
{
    reveal_with_fuel(pow10, 21);
    assert(pow10(20) == 100000000000000000000nat);
    lemma_dec_digits_below(n, 20);
}

/// The decimal rendering is a non-empty run of digits whose value is `n`,
/// and it has no leading zero unless it is "0" itself.
pub proof fn lemma_dec_digits_roundtrip(n: nat)
    ensures
        dec_digits(n).len() >= 1,
        forall|i: int| 0 <= i < dec_digits(n).len() ==> is_dec_digit(#[trigger] dec_digits(n)[i]),
        dec_value(dec_digits(n)) == n,
        n > 0 ==> dec_digits(n)[0] != 48,
    decreases n,
{
    if n >= 10 {
        lemma_dec_digits_roundtrip(n / 10);
        let d = dec_digits(n / 10);
        assert(dec_digits(n).drop_last() =~= d);
        assert forall|i: int| 0 <= i < dec_digits(n).len() implies is_dec_digit(#[trigger] dec_digits(n)[i]) by {
            if i < d.len() {
                assert(dec_digits(n)[i] == d[i]);
            }
        }
        assert(dec_digits(n)[0] == d[0]);
        let x = dec_digits(n).last();
        assert(x == (48 + n % 10) as u8);
        assert(0 <= n % 10 < 10);
        assert(x - 48 == n % 10);
        assert(dec_value(dec_digits(n)) == dec_value(d) * 10 + ((x - 48) as nat));
        assert(n == (n / 10) * 10 + n % 10);
    } else {
        assert(dec_digits(n).drop_last() =~= Seq::<u8>::empty());
        let x = dec_digits(n).last();
        assert(x - 48 == n);
        assert(dec_value(dec_digits(n)) == dec_value(Seq::<u8>::empty()) * 10 + ((x - 48) as nat));
    }
}

pub proof fn lemma_append_capped_step(old: Seq<u8>, s: Seq<u8>, i: int, cap: nat)
    requires
        old.len() <= cap,
        0 <= i < s.len(),
    ensures
        ({
            let cur = append_capped(old, s.subrange(0, i), cap);
            let next = if cur.len() < cap { cur.push(s[i]) } else { cur };
            next == append_capped(old, s.subrange(0, i + 1), cap)
        }),
{
    let cur = append_capped(old, s.subrange(0, i), cap);
    let full = old + s.subrange(0, i);
    let full2 = old + s.subrange(0, i + 1);
    assert(full2 =~= full.push(s[i]));
    if full.len() < cap {
        assert(cur == full);
    } else {
        assert(full2.subrange(0, cap as int) =~= full.subrange(0, cap as int));
    }
}

/// Appending in two steps is appending the concatenation.
pub proof fn lemma_append_capped_assoc(old: Seq<u8>, a: Seq<u8>, b: Seq<u8>, cap: nat)
    requires
        old.len() <= cap,
    ensures
        append_capped(append_capped(old, a, cap), b, cap) == append_capped(old, a + b, cap),
{
    let m = append_capped(old, a, cap);
    assert(old + (a + b) =~= (old + a) + b);
    if (old + a).len() > cap {
        assert((m + b).subrange(0, cap as int) =~= (old + (a + b)).subrange(0, cap as int));
    }
}

/// Whether two byte strings are equal.
pub fn bytes_eq(a: &[u8], b: &[u8]) -> (r: bool)
    ensures
        r == (a@ == b@),
{
    if a.len() != b.len() {
        return false;
    }
    let mut i: usize = 0;
    while i < a.len()
        invariant
            a@.len() == b@.len(),
            i <= a@.len(),
            forall|k: int| 0 <= k < i ==> a@[k] == b@[k],
        decreases a@.len() - i,
    {
        if a[i] != b[i] {
            return false;
        }
        i = i + 1;
    }
    assert(a@ =~= b@);
    true
}

/// A fresh vector holding the bytes of `s`.
pub fn copy_vec(s: &[u8]) -> (r: Vec<u8>)
    ensures
        r@ == s@,
{
    let mut out: Vec<u8> = Vec::new();
    let mut i: usize = 0;
    while i < s.len()
        invariant
            i <= s@.len(),
            out@ == s@.subrange(0, i as int),
        decreases s@.len() - i,
    {
        out.push(s[i]);
        i = i + 1;
        assert(out@ =~= s@.subrange(0, i as int));
    }
    assert(out@ =~= s@);
    out
}

/// The decimal digits of `value`, most significant first.
pub fn dec_vec(value: u64) -> (r: Vec<u8>)
    ensures
        r@ == dec_digits(value as nat),
    decreases value,
{
    let mut v = if value >= 10 { dec_vec(value / 10) } else { Vec::new() };
    v.push((48 + value % 10) as u8);
    v
}

} // verus!
