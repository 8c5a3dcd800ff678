//! Case-insensitive ASCII scanning of query text: prefixes, searches,
//! quoted literals, tokens and decimal numbers.  Positions are byte
//! offsets; a found literal or token is returned as a `(start, end)` range.

use vstd::prelude::*;
use crate::bytebuf::{dec_value, is_dec_digit};

verus! {

pub open spec fn opt_usize(o: Option<int>) -> Option<usize> {
    match o { Some(p) => Some(p as usize), None => None }
}

pub open spec fn opt_range(o: Option<(int, int)>) -> Option<(usize, usize)> {
    match o { Some(p) => Some((p.0 as usize, p.1 as usize)), None => None }
}

pub open spec fn opt_u64(o: Option<nat>) -> Option<u64> {
    match o { Some(v) => Some(v as u64), None => None }
}

pub open spec fn lower(b: u8) -> u8 {
    if 0x41 <= b <= 0x5A { (b + 32) as u8 } else { b }
}

pub fn ascii_lower(b: u8) -> (r: u8)
    ensures
        r == lower(b),
{
    if 0x41 <= b && b <= 0x5A { b + 32 } else { b }
}

/// Rust's ASCII whitespace: space, tab, line feed, form feed, carriage return.
pub open spec fn is_ws(b: u8) -> bool {
    b == 0x20 || b == 0x09 || b == 0x0A || b == 0x0C || b == 0x0D
}

pub fn is_ascii_ws(b: u8) -> (r: bool)
    ensures
        r == is_ws(b),
{
    b == 0x20 || b == 0x09 || b == 0x0A || b == 0x0C || b == 0x0D
}

/// `n` occurs in `t` at `s`, ignoring ASCII case.
pub open spec fn match_at(t: Seq<u8>, n: Seq<u8>, s: int) -> bool {
    &&& 0 <= s
    &&& s + n.len() <= t.len()
    &&& forall|i: int| 0 <= i < n.len() ==> lower(#[trigger] t[s + i]) == lower(n[i])
}

/// First position at or after `s` where `n` occurs.
pub open spec fn find_from(t: Seq<u8>, n: Seq<u8>, s: int) -> Option<int>
    decreases t.len() - s,
{
    if s < 0 || s + n.len() > t.len() {
        None
    } else if match_at(t, n, s) {
        Some(s)
    } else {
        find_from(t, n, s + 1)
    }
}

/// Where a non-empty needle first occurs.
pub open spec fn spec_find_ci(t: Seq<u8>, n: Seq<u8>) -> Option<int> {
    if n.len() == 0 { None } else { find_from(t, n, 0) }
}

pub proof fn lemma_find_from(t: Seq<u8>, n: Seq<u8>, s: int)
    requires
        0 <= s,
    ensures
        find_from(t, n, s) matches Some(p) ==> s <= p && match_at(t, n, p) && p + n.len() <= t.len(),
    decreases t.len() - s,
{
    if s + n.len() <= t.len() && !match_at(t, n, s) {
        lemma_find_from(t, n, s + 1);
    }
}

fn match_at_exec(t: &[u8], n: &[u8], s: usize) -> (r: bool)
    requires
        s + n@.len() <= t@.len(),
    ensures
        r == match_at(t@, n@, s as int),
{
    let tl = t.len();
    let mut i: usize = 0;
    while i < n.len()
        invariant
            tl == t@.len(),
            s + n@.len() <= t@.len(),
            i <= n@.len(),
            forall|k: int| 0 <= k < i ==> lower(#[trigger] t@[s + k]) == lower(n@[k]),
        decreases n@.len() - i,
    {
        if ascii_lower(t[s + i]) != ascii_lower(n[i]) {
            return false;
        }
        i = i + 1;
    }
    true
}

/// `t` begins with `n`, ignoring ASCII case.
pub fn starts_with_ci(t: &[u8], n: &[u8]) -> (r: bool)
    ensures
        r == match_at(t@, n@, 0),
{
    if n.len() > t.len() {
        return false;
    }
    match_at_exec(t, n, 0)
}

/// `a` and `b` are equal, ignoring ASCII case.
pub fn eq_ci(a: &[u8], b: &[u8]) -> (r: bool)
    ensures
        r == (a@.len() == b@.len() && match_at(a@, b@, 0)),
{
    if a.len() != b.len() {
        return false;
    }
    match_at_exec(a, b, 0)
}

/// First occurrence of a non-empty needle at or after `from`.
pub fn find_ci_from(t: &[u8], n: &[u8], from: usize) -> (r: Option<usize>)
    ensures
        r == opt_usize((if n@.len() == 0 { None } else { find_from(t@, n@, from as int) })),
        r matches Some(p) ==> from <= p && p + n@.len() <= t@.len(),
{
    proof { lemma_find_from(t@, n@, from as int); }
    if n.len() == 0 || n.len() > t.len() {
        return None;
    }
    let end = t.len() - n.len();
    let mut s = from;
    while s <= end
        invariant
            n@.len() > 0,
            end == t@.len() - n@.len(),
            end < usize::MAX,
            from <= s,
            find_from(t@, n@, from as int) == find_from(t@, n@, s as int),
        decreases end + 1 - s,
    {
        if match_at_exec(t, n, s) {
            return Some(s);
        }
        s = s + 1;
    }
    None
}

pub fn find_ci(t: &[u8], n: &[u8]) -> (r: Option<usize>)
    ensures
        r == opt_usize(spec_find_ci(t@, n@)),
        r matches Some(p) ==> p + n@.len() <= t@.len(),
{
    find_ci_from(t, n, 0)
}

pub fn contains_ci(t: &[u8], n: &[u8]) -> (r: bool)
    ensures
        r == spec_find_ci(t@, n@) is Some,
{
    find_ci(t, n).is_some()
}

/// First position at or after `i` that is not whitespace (or the end).
pub open spec fn skip_ws(t: Seq<u8>, i: int) -> int
    decreases t.len() - i,
{
    if i < 0 || i >= t.len() || !is_ws(t[i]) { i } else { skip_ws(t, i + 1) }
}

pub proof fn lemma_skip_ws(t: Seq<u8>, i: int)
    requires
        0 <= i,
    ensures
        i <= skip_ws(t, i),
        i <= t.len() ==> skip_ws(t, i) <= t.len(),
        skip_ws(t, i) < t.len() ==> !is_ws(t[skip_ws(t, i)]),
    decreases t.len() - i,
{
    if i < t.len() && is_ws(t[i]) {
        lemma_skip_ws(t, i + 1);
    }
}

fn skip_ws_exec(t: &[u8], i: usize) -> (r: usize)
    requires
        i <= t@.len(),
    ensures
        r == skip_ws(t@, i as int),
        i <= r <= t@.len(),
{
    let mut k = i;
    while k < t.len() && is_ascii_ws(t[k])
        invariant
            i <= k <= t@.len(),
            skip_ws(t@, i as int) == skip_ws(t@, k as int),
        decreases t@.len() - k,
    {
        k = k + 1;
    }
    k
}

/// First position at or after `i` holding byte `b` (or the end).
pub open spec fn find_byte(t: Seq<u8>, b: u8, i: int) -> int
    decreases t.len() - i,
{
    if i < 0 || i >= t.len() || t[i] == b { i } else { find_byte(t, b, i + 1) }
}

pub proof fn lemma_find_byte(t: Seq<u8>, b: u8, i: int)
    requires
        0 <= i <= t.len(),
    ensures
        i <= find_byte(t, b, i) <= t.len(),
        find_byte(t, b, i) < t.len() ==> t[find_byte(t, b, i)] == b,
    decreases t.len() - i,
{
    if i < t.len() && t[i] != b {
        lemma_find_byte(t, b, i + 1);
    }
}

fn find_byte_exec(t: &[u8], b: u8, i: usize) -> (r: usize)
    requires
        i <= t@.len(),
    ensures
        r == find_byte(t@, b, i as int),
        i <= r <= t@.len(),
{
    let mut k = i;
    while k < t.len() && t[k] != b
        invariant
            i <= k <= t@.len(),
            find_byte(t@, b, i as int) == find_byte(t@, b, k as int),
        decreases t@.len() - k,
    {
        k = k + 1;
    }
    k
}

pub open spec fn is_quote(b: u8) -> bool {
    b == 0x27 || b == 0x22
}

/// The quoted value of `key` searched from `cursor`: the first occurrence
/// of `key` followed (after whitespace) by `:` or `=` and then (after
/// whitespace) a quote; the value runs to the matching quote or the end of
/// the text.  An occurrence without `:`/`=` is skipped; one whose value
/// does not start with a quote ends the search.
pub open spec fn quoted_value_from(t: Seq<u8>, key: Seq<u8>, cursor: int) -> Option<(int, int)>
    decreases t.len() - cursor,
{
    if cursor < 0 || cursor >= t.len() || key.len() == 0 {
        None
    } else {
        match find_from(t, key, cursor) {
            None => None,
            Some(p) => {
                proof { lemma_find_from(t, key, cursor); }
                let idx = skip_ws(t, p + key.len());
                if idx >= t.len() || (t[idx] != 0x3A && t[idx] != 0x3D) {
                    if p + key.len() > cursor { quoted_value_from(t, key, p + key.len()) } else { None }
                } else {
                    let v = skip_ws(t, idx + 1);
                    if v >= t.len() || !is_quote(t[v]) {
                        None
                    } else {
                        Some((v + 1, find_byte(t, t[v], v + 1)))
                    }
                }
            },
        }
    }
}

/// The value of `key:'...'` / `key = "..."` in the text, as a byte range.
pub fn extract_quoted_value_ci(t: &[u8], key: &[u8]) -> (r: Option<(usize, usize)>)
    ensures
        r == opt_range(quoted_value_from(t@, key@, 0)),
        r matches Some(p) ==> p.0 <= p.1 <= t@.len(),
{
    let mut cursor: usize = 0;
    while cursor < t.len()
        invariant
            cursor <= t@.len(),
            quoted_value_from(t@, key@, 0) == quoted_value_from(t@, key@, cursor as int),
        decreases t@.len() - cursor,
    {
        if key.len() == 0 {
            return None;
        }
        proof { lemma_find_from(t@, key@, cursor as int); }
        let p = match find_ci_from(t, key, cursor) {
            Some(p) => p,
            None => return None,
        };
        let after = p + key.len();
        proof { lemma_skip_ws(t@, after as int); }
        let idx = skip_ws_exec(t, after);
        if idx >= t.len() || (t[idx] != 0x3A && t[idx] != 0x3D) {
            cursor = after;
            continue;
        }
        proof { lemma_skip_ws(t@, idx + 1); }
        let v = skip_ws_exec(t, idx + 1);
        if v >= t.len() {
            return None;
        }
        let q = t[v];
        if q != 0x27 && q != 0x22 {
            return None;
        }
        let end = find_byte_exec(t, q, v + 1);
        return Some((v + 1, end));
    }
    None
}

/// The `n`-th (0-based) complete quoted literal at or after `idx`, `hit`
/// literals having been passed already; an unterminated quote ends the
/// search.
pub open spec fn quoted_at_from(t: Seq<u8>, n: int, idx: int, hit: int) -> Option<(int, int)>
    decreases t.len() - idx,
{
    if idx < 0 || idx >= t.len() {
        None
    } else if is_quote(t[idx]) {
        proof { lemma_find_byte(t, t[idx], idx + 1); }
        let end = find_byte(t, t[idx], idx + 1);
        if end >= t.len() {
            None
        } else if hit == n {
            Some((idx + 1, end))
        } else {
            quoted_at_from(t, n, end + 1, hit + 1)
        }
    } else {
        quoted_at_from(t, n, idx + 1, hit)
    }
}

pub proof fn lemma_quoted_at_from(t: Seq<u8>, n: int, idx: int, hit: int)
    requires
        0 <= idx,
    ensures
        quoted_at_from(t, n, idx, hit) matches Some(r) ==> idx < r.0 <= r.1 < t.len(),
    decreases t.len() - idx,
{
    if idx < t.len() {
        if is_quote(t[idx]) {
            lemma_find_byte(t, t[idx], idx + 1);
            let end = find_byte(t, t[idx], idx + 1);
            if end < t.len() && hit != n {
                lemma_quoted_at_from(t, n, end + 1, hit + 1);
            }
        } else {
            lemma_quoted_at_from(t, n, idx + 1, hit);
        }
    }
}

/// The `n`-th quoted literal (single or double quotes) of the query.
pub fn extract_quoted_at(t: &[u8], n: usize) -> (r: Option<(usize, usize)>)
    ensures
        r == opt_range(quoted_at_from(t@, n as int, 0, 0)),
        r matches Some(p) ==> p.0 <= p.1 < t@.len(),
{
    let mut idx: usize = 0;
    let mut hit: usize = 0;
    while idx < t.len()
        invariant
            idx <= t@.len(),
            hit <= idx,
            quoted_at_from(t@, n as int, 0, 0) == quoted_at_from(t@, n as int, idx as int, hit as int),
        decreases t@.len() - idx,
    {
        let q = t[idx];
        if q == 0x27 || q == 0x22 {
            proof { lemma_find_byte(t@, q, idx + 1); }
            let end = find_byte_exec(t, q, idx + 1);
            if end >= t.len() {
                return None;
            }
            if hit == n {
                return Some((idx + 1, end));
            }
            hit = hit + 1;
            idx = end + 1;
        } else {
            idx = idx + 1;
        }
    }
    None
}

pub open spec fn is_sep(b: u8) -> bool {
    is_ws(b) || b == 0x3D || b == 0x3A
}

/// First position at or after `i` that is not whitespace, `=` or `:`.
pub open spec fn skip_sep(t: Seq<u8>, i: int) -> int
    decreases t.len() - i,
{
    if i < 0 || i >= t.len() || !is_sep(t[i]) { i } else { skip_sep(t, i + 1) }
}

/// The quoted value of `key 'V'` (whitespace, `=` or `:` may separate them)
/// at the first occurrence of `key`.
pub open spec fn quoted_word(t: Seq<u8>, key: Seq<u8>) -> Option<(int, int)> {
    match spec_find_ci(t, key) {
        None => None,
        Some(p) => {
            let c = skip_sep(t, p + key.len());
            if c >= t.len() || !is_quote(t[c]) { None } else { Some((c + 1, find_byte(t, t[c], c + 1))) }
        },
    }
}

pub fn skip_eq_colon_ws(t: &[u8], i: usize) -> (r: usize)
    requires
        i <= t@.len(),
    ensures
        r == skip_sep(t@, i as int),
        i <= r <= t@.len(),
{
    let mut k = i;
    while k < t.len() && (is_ascii_ws(t[k]) || t[k] == 0x3D || t[k] == 0x3A)
        invariant
            i <= k <= t@.len(),
            skip_sep(t@, i as int) == skip_sep(t@, k as int),
        decreases t@.len() - k,
    {
        k = k + 1;
    }
    k
}

pub fn extract_quoted_value_word(t: &[u8], key: &[u8]) -> (r: Option<(usize, usize)>)
    ensures
        r == opt_range(quoted_word(t@, key@)),
        r matches Some(p) ==> p.0 <= p.1 <= t@.len(),
{
    let tl = t.len();
    proof { lemma_find_from(t@, key@, 0); }
    let p = match find_ci(t, key) {
        Some(p) => p,
        None => return None,
    };
    let c = skip_eq_colon_ws(t, p + key.len());
    if c >= t.len() {
        return None;
    }
    let q = t[c];
    if q != 0x27 && q != 0x22 {
        return None;
    }
    proof { lemma_find_byte(t@, q, c + 1); }
    let end = find_byte_exec(t, q, c + 1);
    Some((c + 1, end))
}

pub open spec fn is_tok_end(b: u8) -> bool {
    is_ws(b) || b == 0x2C || b == 0x3B
}

/// First position at or after `i` ending a token (whitespace, `,` or `;`).
pub open spec fn scan_token(t: Seq<u8>, i: int) -> int
    decreases t.len() - i,
{
    if i < 0 || i >= t.len() || is_tok_end(t[i]) { i } else { scan_token(t, i + 1) }
}

/// The first token at or after `i`: leading whitespace skipped, ended by
/// whitespace, `,` or `;`; none when empty.
pub open spec fn spec_next_token(t: Seq<u8>, i: int) -> Option<(int, int)> {
    let s = skip_ws(t, i);
    let e = scan_token(t, s);
    if s == e { None } else { Some((s, e)) }
}

pub fn next_token(t: &[u8], i: usize) -> (r: Option<(usize, usize)>)
    requires
        i <= t@.len(),
    ensures
        r == opt_range(spec_next_token(t@, i as int)),
        r matches Some(p) ==> i <= p.0 < p.1 <= t@.len(),
{
    let s = skip_ws_exec(t, i);
    let mut e = s;
    while e < t.len() && !(is_ascii_ws(t[e]) || t[e] == 0x2C || t[e] == 0x3B)
        invariant
            s <= e <= t@.len(),
            scan_token(t@, s as int) == scan_token(t@, e as int),
        decreases t@.len() - e,
    {
        e = e + 1;
    }
    if s == e { None } else { Some((s, e)) }
}

/// The digits of a number token: an optional leading `+` removed.
pub open spec fn unsigned_digits(tok: Seq<u8>) -> Seq<u8> {
    if tok.len() > 0 && tok[0] == 0x2B { tok.subrange(1, tok.len() as int) } else { tok }
}

/// What Rust's unsigned `parse` gives for `tok` with the type's maximum
/// `max`: the value of an optional `+` and at least one decimal digit, or
/// nothing for any other text or a value above `max`.
pub open spec fn parse_unsigned(tok: Seq<u8>, max: nat) -> Option<nat> {
    let d = unsigned_digits(tok);
    if d.len() == 0 || !(forall|i: int| 0 <= i < d.len() ==> is_dec_digit(#[trigger] d[i])) || dec_value(d) > max {
        None
    } else {
        Some(dec_value(d))
    }
}

pub proof fn lemma_dec_value_step(s: Seq<u8>, i: int)
    requires
        0 <= i < s.len(),
    ensures
        dec_value(s.take(i + 1)) == dec_value(s.take(i)) * 10 + ((s[i] - 48) as nat),
{
    assert(s.take(i + 1).drop_last() =~= s.take(i));
}

/// A digit string's value is at least that of any prefix.
pub proof fn lemma_dec_value_prefix(s: Seq<u8>, i: int)
    requires
        0 <= i <= s.len(),
        forall|k: int| 0 <= k < s.len() ==> is_dec_digit(#[trigger] s[k]),
    ensures
        dec_value(s.take(i)) <= dec_value(s),
    decreases s.len() - i,
{
    if i < s.len() {
        lemma_dec_value_prefix(s, i + 1);
        lemma_dec_value_step(s, i);
    } else {
        assert(s.take(i) =~= s);
    }
}

/// Parse `t[start..end]` as an unsigned number no larger than `max`.
pub fn parse_unsigned_range(t: &[u8], start: usize, end: usize, max: u64) -> (r: Option<u64>)
    requires
        start <= end <= t@.len(),
    ensures
        r == opt_u64(parse_unsigned(t@.subrange(start as int, end as int), max as nat)),
{
    let ghost tok = t@.subrange(start as int, end as int);
    let mut s = start;
    if s < end && t[s] == 0x2B {
        s = s + 1;
    }
    let ghost d = t@.subrange(s as int, end as int);
    assert(d =~= unsigned_digits(tok));
    if s == end {
        assert(parse_unsigned(tok, max as nat) is None);
        return None;
    }
    let mut value: u64 = 0;
    let mut i = s;
    while i < end
        invariant
            s <= i <= end <= t@.len(),
            d == t@.subrange(s as int, end as int),
            d == unsigned_digits(tok),
            tok == t@.subrange(start as int, end as int),
            forall|k: int| 0 <= k < i - s ==> is_dec_digit(#[trigger] d[k]),
            value == dec_value(d.take(i - s)),
            value <= max,
        decreases end - i,
    {
        let b = t[i];
        if !(0x30 <= b && b <= 0x39) {
            assert(!is_dec_digit(d[i - s]));
            assert(!(forall|k: int| 0 <= k < d.len() ==> is_dec_digit(#[trigger] d[k])));
            assert(parse_unsigned(tok, max as nat) is None);
            return None;
        }
        proof { lemma_dec_value_step(d, i - s); }
        let digit = (b - 0x30) as u64;
        if digit > max || value > (max - digit) / 10 {
            proof {
                assert(dec_value(d.take(i - s + 1)) > max) by (nonlinear_arith)
                    requires dec_value(d.take(i - s + 1)) == value * 10 + digit,
                        digit > max || value > (max - digit) / 10, value >= 0;
                if forall|k: int| 0 <= k < d.len() ==> is_dec_digit(#[trigger] d[k]) {
                    lemma_dec_value_prefix(d, i - s + 1);
                }
            }
            return None;
        }
        assert(value * 10 + digit <= max) by (nonlinear_arith)
            requires value <= (max - digit) / 10, digit <= max;
        value = value * 10 + digit;
        i = i + 1;
    }
    assert(d.take(end - s) =~= d);
    Some(value)
}

/// The digit run starting at `i`.
pub open spec fn digit_run(t: Seq<u8>, i: int) -> int
    decreases t.len() - i,
{
    if i < 0 || i >= t.len() || !is_dec_digit(t[i]) { i } else { digit_run(t, i + 1) }
}

pub open spec fn clamp_limit(v: nat) -> usize {
    if v < 1 { 1 } else if v > 12 { 12 } else { v as usize }
}

/// The word `limit`.
pub open spec fn limit_bytes() -> Seq<u8> {
    seq![0x6Cu8, 0x69u8, 0x6Du8, 0x69u8, 0x74u8]
}

/// `LIMIT n` of a MATCH query: the first `limit` (any case), whitespace,
/// then a run of digits clamped to 1..=12; 6 when absent.
pub open spec fn spec_parse_limit(t: Seq<u8>) -> usize {
    match spec_find_ci(t, limit_bytes()) {
        None => 6,
        Some(p) => {
            let s = skip_ws(t, p + 5);
            let e = digit_run(t, s);
            if e == s { 6 } else { clamp_limit(dec_value(t.subrange(s, e))) }
        },
    }
}

pub fn limit_word() -> (r: Vec<u8>)
    ensures
        r@ == limit_bytes(),
{
    let r = vec![0x6Cu8, 0x69, 0x6D, 0x69, 0x74];
    assert(r@ =~= limit_bytes());
    r
}

pub fn parse_limit(t: &[u8]) -> (r: usize)
    ensures
        r == spec_parse_limit(t@),
        1 <= r <= 12,
{
    let tl = t.len();
    proof { lemma_find_from(t@, limit_bytes(), 0); }
    let word = limit_word();
    let p = match find_ci(t, word.as_slice()) {
        Some(p) => p,
        None => return 6,
    };
    proof { lemma_skip_ws(t@, p + 5); }
    let s = skip_ws_exec(t, p + 5);
    let mut value: usize = 0;
    let mut i = s;
    while i < t.len() && 0x30 <= t[i] && t[i] <= 0x39
        invariant
            s <= i <= t@.len(),
            digit_run(t@, s as int) == digit_run(t@, i as int),
            value < 13 ==> value == dec_value(t@.subrange(s as int, i as int)),
            value >= 13 <==> dec_value(t@.subrange(s as int, i as int)) >= 13,
            value <= 129,
        decreases t@.len() - i,
    {
        proof {
            let sub = t@.subrange(s as int, i + 1);
            assert(sub.drop_last() =~= t@.subrange(s as int, i as int));
        }
        let digit = (t[i] - 0x30) as usize;
        if value >= 13 {
            value = 13;
        } else {
            value = value * 10 + digit;
        }
        i = i + 1;
    }
    if i == s {
        return 6;
    }
    if value < 1 { 1 } else if value > 12 { 12 } else { value }
}


pub proof fn lemma_scan_token(t: Seq<u8>, i: int)
    requires
        0 <= i <= t.len(),
    ensures
        i <= scan_token(t, i) <= t.len(),
    decreases t.len() - i,
{
    if i < t.len() && !is_tok_end(t[i]) {
        lemma_scan_token(t, i + 1);
    }
}

pub proof fn lemma_skip_sep(t: Seq<u8>, i: int)
    requires
        0 <= i <= t.len(),
    ensures
        i <= skip_sep(t, i) <= t.len(),
    decreases t.len() - i,
{
    if i < t.len() && is_sep(t[i]) {
        lemma_skip_sep(t, i + 1);
    }
}

pub proof fn lemma_next_token(t: Seq<u8>, i: int)
    requires
        0 <= i <= t.len(),
    ensures
        spec_next_token(t, i) matches Some(r) ==> i <= r.0 < r.1 <= t.len(),
{
    lemma_skip_ws(t, i);
    lemma_scan_token(t, skip_ws(t, i));
}

pub proof fn lemma_quoted_word(t: Seq<u8>, key: Seq<u8>)
    ensures
        quoted_word(t, key) matches Some(r) ==> 0 <= r.0 <= r.1 <= t.len(),
{
    lemma_find_from(t, key, 0);
    match spec_find_ci(t, key) {
        Some(p) => {
            lemma_skip_sep(t, p + key.len());
            let c = skip_sep(t, p + key.len());
            if c < t.len() {
                lemma_find_byte(t, t[c], c + 1);
            }
        },
        None => {},
    }
}


pub proof fn lemma_quoted_value_bounds(t: Seq<u8>, key: Seq<u8>, cursor: int)
    requires
        0 <= cursor,
    ensures
        quoted_value_from(t, key, cursor) matches Some(r) ==> 0 <= r.0 <= r.1 <= t.len(),
    decreases t.len() - cursor,
{
    if cursor < t.len() && key.len() > 0 {
        lemma_find_from(t, key, cursor);
        match find_from(t, key, cursor) {
            None => {},
            Some(p) => {
                lemma_skip_ws(t, p + key.len());
                let idx = skip_ws(t, p + key.len());
                if idx >= t.len() || (t[idx] != 0x3A && t[idx] != 0x3D) {
                    if p + key.len() > cursor {
                        lemma_quoted_value_bounds(t, key, p + key.len());
                    }
                } else {
                    lemma_skip_ws(t, idx + 1);
                    let v = skip_ws(t, idx + 1);
                    if v < t.len() {
                        lemma_find_byte(t, t[v], v + 1);
                    }
                }
            },
        }
    }
}

} // verus!
