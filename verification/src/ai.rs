//! The AI supervisor plugin: byte-buffer builders for the JSON chat body and
//! the HTTP request sent to a local LLM endpoint, scanning of the reply, and
//! the key / prompt capture state driven by shell signals.

use vstd::prelude::*;
use vstd::string::StringSliceAdditionalSpecFns;
use crate::bytebuf::{dec_digits, dec_vec};
use vstd::slice::slice_subrange;
use crate::cypher::text::{lower, ascii_lower};

verus! {

/// `data` written over `buf` from `pos` on, the rest of `buf` kept.
pub open spec fn written(buf: Seq<u8>, pos: int, data: Seq<u8>) -> Seq<u8> {
    buf.subrange(0, pos) + data + buf.subrange(pos + data.len(), buf.len() as int)
}

pub proof fn lemma_written_concat(buf: Seq<u8>, pos: int, a: Seq<u8>, b: Seq<u8>)
    requires
        0 <= pos,
        pos + a.len() + b.len() <= buf.len(),
    ensures
        written(written(buf, pos, a), pos + a.len(), b) == written(buf, pos, a + b),
        written(buf, pos, a).len() == buf.len(),
{
    assert(written(written(buf, pos, a), pos + a.len(), b) =~= written(buf, pos, a + b));
}

/// Append `data` at `*pos` when it fits in `buf`; nothing is written
/// otherwise.
pub fn ai_buf_append(buf: &mut [u8], pos: &mut usize, data: &[u8]) -> (r: bool)
    ensures
        final(buf)@.len() == old(buf)@.len(),
        r == (*old(pos) + data@.len() <= old(buf)@.len()),
        r ==> final(buf)@ == written(old(buf)@, *old(pos) as int, data@),
        r ==> *final(pos) == *old(pos) + data@.len(),
        !r ==> final(buf)@ == old(buf)@ && *final(pos) == *old(pos),
{
    let bl = buf.len();
    if data.len() > bl || *pos > bl - data.len() {
        return false;
    }
    let start = *pos;
    let ghost orig = buf@;
    let mut i: usize = 0;
    while i < data.len()
        invariant
            bl == orig.len(),
            buf@.len() == orig.len(),
            start + data@.len() <= orig.len(),
            i <= data@.len(),
            buf@ == written(orig, start as int, data@.take(i as int)),
        decreases data@.len() - i,
    {
        buf[start + i] = data[i];
        proof {
            assert(written(orig, start as int, data@.take(i + 1)) =~= written(orig, start as int, data@.take(i as int)).update(start + i, data@[i as int]));
        }
        i = i + 1;
    }
    assert(data@.take(data@.len() as int) =~= data@);
    *pos = start + data.len();
    true
}

/// Append the decimal digits of `val` at `*pos` when they fit.
pub fn ai_buf_append_u32(buf: &mut [u8], pos: &mut usize, val: u32) -> (r: bool)
    ensures
        final(buf)@.len() == old(buf)@.len(),
        r == (*old(pos) + dec_digits(val as nat).len() <= old(buf)@.len()),
        r ==> final(buf)@ == written(old(buf)@, *old(pos) as int, dec_digits(val as nat)),
        r ==> *final(pos) == *old(pos) + dec_digits(val as nat).len(),
        !r ==> final(buf)@ == old(buf)@ && *final(pos) == *old(pos),
{
    let digits = dec_vec(val as u64);
    ai_buf_append(buf, pos, digits.as_slice())
}

/// How one byte is written inside a JSON string: `"`, `\\`, line feed and
/// carriage return escaped with a backslash, any other byte as it is.
pub open spec fn json_escape_byte(b: u8) -> Seq<u8> {
    if b == 0x22 {
        seq![0x5Cu8, 0x22u8]
    } else if b == 0x5C {
        seq![0x5Cu8, 0x5Cu8]
    } else if b == 0x0A {
        seq![0x5Cu8, 0x6Eu8]
    } else if b == 0x0D {
        seq![0x5Cu8, 0x72u8]
    } else {
        seq![b]
    }
}

/// `s` escaped for a JSON string, byte by byte.
pub open spec fn json_escape(s: Seq<u8>) -> Seq<u8>
    decreases s.len(),
{
    if s.len() == 0 {
        Seq::empty()
    } else {
        json_escape(s.drop_last()) + json_escape_byte(s.last())
    }
}

/// The number of leading bytes of `s`, counting on from `k`, whose
/// escapes all fit in `room` bytes.
pub open spec fn json_fit_from(s: Seq<u8>, room: int, k: int) -> int
    decreases s.len() - k,
{
    if k < 0 || k >= s.len() || json_escape(s.take(k + 1)).len() > room {
        k
    } else {
        json_fit_from(s, room, k + 1)
    }
}

/// The number of leading bytes of `s` whose escapes fit in `room` bytes.
pub open spec fn json_fit(s: Seq<u8>, room: int) -> int {
    json_fit_from(s, room, 0)
}

pub proof fn lemma_json_escape_step(s: Seq<u8>, i: int)
    requires
        0 <= i < s.len(),
    ensures
        json_escape(s.take(i + 1)) == json_escape(s.take(i)) + json_escape_byte(s[i]),
{
    assert(s.take(i + 1).drop_last() =~= s.take(i));
}

/// The escape of a prefix is a prefix of the escape.
pub proof fn lemma_json_escape_prefix(s: Seq<u8>, k: int)
    requires
        0 <= k <= s.len(),
    ensures
        json_escape(s.take(k)).len() <= json_escape(s).len(),
        json_escape(s).take(json_escape(s.take(k)).len() as int) == json_escape(s.take(k)),
    decreases s.len() - k,
{
    if k < s.len() {
        lemma_json_escape_prefix(s, k + 1);
        lemma_json_escape_step(s, k);
        let a = json_escape(s.take(k));
        let b = json_escape(s.take(k + 1));
        assert(b.take(a.len() as int) =~= a);
        assert(json_escape(s).take(a.len() as int) =~= json_escape(s).take(b.len() as int).take(a.len() as int));
    } else {
        assert(s.take(k) =~= s);
        assert(json_escape(s).take(json_escape(s).len() as int) =~= json_escape(s));
    }
}

pub proof fn lemma_json_fit_bounds(s: Seq<u8>, room: int, k: int)
    requires
        0 <= k <= s.len(),
    ensures
        k <= json_fit_from(s, room, k) <= s.len(),
    decreases s.len() - k,
{
    if k < s.len() && json_escape(s.take(k + 1)).len() <= room {
        lemma_json_fit_bounds(s, room, k + 1);
    }
}

/// Append the JSON escape of one byte when it fits whole.
fn append_json_byte(buf: &mut [u8], pos: &mut usize, b: u8) -> (ok: bool)
    ensures
        final(buf)@.len() == old(buf)@.len(),
        ok == (*old(pos) + json_escape_byte(b).len() <= old(buf)@.len()),
        ok ==> final(buf)@ == written(old(buf)@, *old(pos) as int, json_escape_byte(b)),
        ok ==> *final(pos) == *old(pos) + json_escape_byte(b).len(),
        !ok ==> final(buf)@ == old(buf)@ && *final(pos) == *old(pos),
{
    let esc: [u8; 2] = if b == 0x22 {
        [0x5C, 0x22]
    } else if b == 0x5C {
        [0x5C, 0x5C]
    } else if b == 0x0A {
        [0x5C, 0x6E]
    } else if b == 0x0D {
        [0x5C, 0x72]
    } else {
        [b, b]
    };
    if b == 0x22 || b == 0x5C || b == 0x0A || b == 0x0D {
        assert(esc@ =~= json_escape_byte(b));
        ai_buf_append(buf, pos, esc.as_slice())
    } else if *pos < buf.len() {
        let at = *pos;
        let ghost before = buf@;
        buf[at] = b;
        *pos = at + 1;
        assert(buf@ =~= written(before, at as int, json_escape_byte(b)));
        true
    } else {
        false
    }
}

/// Append the JSON escape of `s` at `*pos`, byte by byte, stopping at the
/// first byte whose escape no longer fits: the escapes written before it
/// stay in `buf`.
pub fn ai_buf_append_json(buf: &mut [u8], pos: &mut usize, s: &[u8]) -> (r: bool)
    ensures
        ({
            let k = json_fit(s@, old(buf)@.len() - *old(pos));
            let e = json_escape(s@.take(k));
            &&& 0 <= k <= s@.len()
            &&& final(buf)@ == (if k == 0 { old(buf)@ } else { written(old(buf)@, *old(pos) as int, e) })
            &&& *final(pos) == *old(pos) + e.len()
            &&& r == (k == s@.len())
        }),
{
    let ghost orig = buf@;
    let ghost p0 = *pos as int;
    let ghost room = orig.len() - p0;
    proof { lemma_json_fit_bounds(s@, room, 0); }
    let mut i: usize = 0;
    while i < s.len()
        invariant
            buf@.len() == orig.len(),
            room == orig.len() - p0,
            orig == old(buf)@,
            p0 == *old(pos),
            0 <= i <= s@.len(),
            json_fit(s@, room) == json_fit_from(s@, room, i as int),
            i > 0 ==> json_escape(s@.take(i as int)).len() <= room,
            *pos == p0 + json_escape(s@.take(i as int)).len(),
            buf@ == (if i == 0 { orig } else { written(orig, p0, json_escape(s@.take(i as int))) }),
        decreases s@.len() - i,
    {
        let b = s[i];
        proof {
            lemma_json_escape_step(s@, i as int);
            assert(s@.take(0) =~= Seq::<u8>::empty());
        }
        let ghost before = buf@;
        let ghost e = json_escape(s@.take(i as int));
        let ok = append_json_byte(buf, pos, b);
        if !ok {
            proof {
                assert(json_escape(s@.take(i + 1)).len() > room);
                assert(json_fit_from(s@, room, i as int) == i);
            }
            return false;
        }
        proof {
            let eb = json_escape_byte(b);
            assert(json_escape(s@.take(i + 1)).len() <= room);
            if i == 0 {
                assert(e =~= Seq::<u8>::empty());
                assert(e + eb =~= eb);
            } else {
                lemma_written_concat(orig, p0, e, eb);
            }
        }
        i = i + 1;
    }
    proof {
        assert(s@.take(s@.len() as int) =~= s@);
        if s@.len() == 0 {
            assert(json_fit(s@, room) == 0);
        }
    }
    true
}

/// `n` occurs in `h` at `i`, byte for byte.
pub open spec fn bytes_at(h: Seq<u8>, n: Seq<u8>, i: int) -> bool {
    0 <= i && i + n.len() <= h.len() && h.subrange(i, i + n.len()) == n
}

/// The first position at or after `i` where `n` occurs in `h`.
pub open spec fn first_from(h: Seq<u8>, n: Seq<u8>, i: int) -> Option<int>
    decreases h.len() + 1 - i,
{
    if i < 0 || i + n.len() > h.len() {
        None
    } else if bytes_at(h, n, i) {
        Some(i)
    } else {
        first_from(h, n, i + 1)
    }
}

pub proof fn lemma_first_from(h: Seq<u8>, n: Seq<u8>, i: int)
    requires
        0 <= i,
    ensures
        first_from(h, n, i) matches Some(p) ==> i <= p && bytes_at(h, n, p)
            && forall|j: int| i <= j < p ==> !bytes_at(h, n, j),
        first_from(h, n, i) is None ==> forall|j: int| i <= j ==> !bytes_at(h, n, j),
    decreases h.len() + 1 - i,
{
    if i + n.len() <= h.len() && !bytes_at(h, n, i) {
        lemma_first_from(h, n, i + 1);
    }
}

fn bytes_at_exec(h: &[u8], n: &[u8], i: usize) -> (r: bool)
    requires
        i + n@.len() <= h@.len(),
    ensures
        r == bytes_at(h@, n@, i as int),
{
    let hl = h.len();
    let mut j: usize = 0;
    while j < n.len()
        invariant
            hl == h@.len(),
            i + n@.len() <= h@.len(),
            j <= n@.len(),
            forall|k: int| 0 <= k < j ==> h@[i + k] == n@[k],
        decreases n@.len() - j,
    {
        if h[i + j] != n[j] {
            assert(h@.subrange(i as int, i + n@.len())[j as int] != n@[j as int]);
            return false;
        }
        j = j + 1;
    }
    assert(h@.subrange(i as int, i + n@.len()) =~= n@);
    true
}

/// Where `needle` first occurs in `hay` (0 for an empty needle).
pub fn ai_find_bytes(hay: &[u8], needle: &[u8]) -> (r: Option<usize>)
    ensures
        r == (match first_from(hay@, needle@, 0) {
            Some(p) => Some(p as usize),
            None => None::<usize>,
        }),
        r matches Some(p) ==> p + needle@.len() <= hay@.len(),
{
    proof { lemma_first_from(hay@, needle@, 0); }
    if needle.len() == 0 {
        assert(hay@.subrange(0, 0) =~= needle@);
        return Some(0);
    }
    if needle.len() > hay.len() {
        return None;
    }
    let end = hay.len() - needle.len();
    let mut i: usize = 0;
    while i <= end
        invariant
            end == hay@.len() - needle@.len(),
            end < usize::MAX,
            first_from(hay@, needle@, 0) == first_from(hay@, needle@, i as int),
        decreases end + 1 - i,
    {
        if bytes_at_exec(hay, needle, i) {
            return Some(i);
        }
        i = i + 1;
    }
    None
}

/// The search pattern of a string-valued key: `"key":"`.
pub open spec fn json_key_pattern(key: Seq<u8>) -> Seq<u8> {
    seq![0x22u8] + key + seq![0x22u8, 0x3Au8, 0x22u8]
}

/// Where the JSON string body starting at `i` ends: the first `"` not
/// escaped by a backslash; none when the text runs out first.
pub open spec fn json_str_end(t: Seq<u8>, i: int) -> Option<int>
    decreases t.len() + 1 - i,
{
    if i < 0 || i >= t.len() {
        None
    } else if t[i] == 0x5C {
        json_str_end(t, i + 2)
    } else if t[i] == 0x22 {
        Some(i)
    } else {
        json_str_end(t, i + 1)
    }
}

/// The body of the first `"key":"..."` string in `json`, as a byte range;
/// keys longer than 124 bytes are never found.
pub open spec fn spec_extract_json_str(json: Seq<u8>, key: Seq<u8>) -> Option<(int, int)> {
    if key.len() > 124 {
        None
    } else {
        let pat = json_key_pattern(key);
        match first_from(json, pat, 0) {
            None => None,
            Some(p) => match json_str_end(json, p + pat.len()) {
                None => None,
                Some(e) => Some((p + pat.len(), e)),
            },
        }
    }
}

pub proof fn lemma_json_str_end(t: Seq<u8>, i: int)
    requires
        0 <= i,
    ensures
        json_str_end(t, i) matches Some(e) ==> i <= e < t.len(),
    decreases t.len() + 1 - i,
{
    if i < t.len() && t[i] != 0x22 {
        if t[i] == 0x5C {
            lemma_json_str_end(t, i + 2);
        } else {
            lemma_json_str_end(t, i + 1);
        }
    }
}

pub proof fn lemma_extract_bounds(json: Seq<u8>, key: Seq<u8>)
    ensures
        spec_extract_json_str(json, key) matches Some(p) ==> 0 <= p.0 <= p.1 < json.len(),
{
    lemma_first_from(json, json_key_pattern(key), 0);
    if let Some(p) = first_from(json, json_key_pattern(key), 0) {
        lemma_json_str_end(json, p + json_key_pattern(key).len());
    }
}

/// The value of the string field `key` in `json`, as the byte range of
/// its body (escapes left as they are).
pub fn ai_extract_json_str(json: &[u8], key: &[u8]) -> (r: Option<(usize, usize)>)
    ensures
        r == (match spec_extract_json_str(json@, key@) {
            Some(p) => Some((p.0 as usize, p.1 as usize)),
            None => None::<(usize, usize)>,
        }),
        r matches Some(p) ==> p.0 <= p.1 < json@.len(),
{
    if key.len() > 124 {
        return None;
    }
    let mut pat: Vec<u8> = Vec::new();
    pat.push(0x22);
    let mut k: usize = 0;
    while k < key.len()
        invariant
            k <= key@.len() <= 124,
            pat@ == seq![0x22u8] + key@.take(k as int),
        decreases key@.len() - k,
    {
        pat.push(key[k]);
        assert(seq![0x22u8] + key@.take(k + 1) =~= (seq![0x22u8] + key@.take(k as int)).push(key@[k as int]));
        k = k + 1;
    }
    pat.push(0x22);
    pat.push(0x3A);
    pat.push(0x22);
    assert(key@.take(key@.len() as int) =~= key@);
    assert(pat@ =~= json_key_pattern(key@));
    let jl = json.len();
    proof { lemma_first_from(json@, pat@, 0); }
    let found = ai_find_bytes(json, pat.as_slice());
    let p = match found {
        Some(p) => p,
        None => return None,
    };
    assert(p + pat@.len() <= json@.len());
    let start = p + pat.len();
    proof { lemma_json_str_end(json@, start as int); }
    let mut end = start;
    while end < json.len()
        invariant
            jl == json@.len(),
            start <= end,
            json_str_end(json@, start as int) == json_str_end(json@, end as int),
            spec_extract_json_str(json@, key@) == (match json_str_end(json@, start as int) {
                None => None,
                Some(e) => Some((start as int, e)),
            }),
        decreases json@.len() - end,
    {
        if json[end] == 0x5C {
            if end + 1 >= json.len() {
                assert(json_str_end(json@, end + 2) is None);
                return None;
            }
            end = end + 2;
        } else if json[end] == 0x22 {
            return Some((start, end));
        } else {
            end = end + 1;
        }
    }
    None
}

/// ASCII lower case of a prompt byte.
pub fn ascii_fold(byte: u8) -> (r: u8)
    ensures
        r == lower(byte),
{
    ascii_lower(byte)
}

/// `needle` occurs in `prompt` at `s` once the prompt is folded to lower
/// case (the needle itself is compared as it is).
pub open spec fn folded_at(prompt: Seq<u8>, needle: Seq<u8>, s: int) -> bool {
    &&& 0 <= s
    &&& s + needle.len() <= prompt.len()
    &&& forall|k: int| 0 <= k < needle.len() ==> lower(#[trigger] prompt[s + k]) == needle[k]
}

/// A non-empty `needle` occurs somewhere in the lower-cased prompt.
pub fn prompt_contains(prompt: &[u8], needle: &[u8]) -> (r: bool)
    ensures
        r == (needle@.len() > 0 && exists|s: int| folded_at(prompt@, needle@, s)),
{
    if needle.len() == 0 || needle.len() > prompt.len() {
        return false;
    }
    let pl = prompt.len();
    let end = prompt.len() - needle.len();
    let mut start: usize = 0;
    while start <= end
        invariant
            pl == prompt@.len(),
            needle@.len() > 0,
            end == prompt@.len() - needle@.len(),
            end < usize::MAX,
            forall|s: int| 0 <= s < start ==> !folded_at(prompt@, needle@, s),
        decreases end + 1 - start,
    {
        let mut matched = true;
        let mut idx: usize = 0;
        while idx < needle.len()
            invariant_except_break
                matched,
                forall|k: int| 0 <= k < idx ==> lower(#[trigger] prompt@[start + k]) == needle@[k],
            invariant
                pl == prompt@.len(),
                start <= end,
                end == prompt@.len() - needle@.len(),
                idx <= needle@.len(),
            ensures
                matched ==> forall|k: int| 0 <= k < needle@.len() ==> lower(#[trigger] prompt@[start + k]) == needle@[k],
                !matched ==> !folded_at(prompt@, needle@, start as int),
            decreases needle@.len() - idx,
        {
            if ascii_fold(prompt[start + idx]) != needle[idx] {
                assert(!(lower(prompt@[start + idx as int]) == needle@[idx as int]));
                matched = false;
                break;
            }
            idx = idx + 1;
        }
        if matched {
            assert(folded_at(prompt@, needle@, start as int));
            return true;
        }
        start = start + 1;
    }
    assert forall|s: int| !folded_at(prompt@, needle@, s) by {
        if 0 <= s && s + needle@.len() <= prompt@.len() {
            assert(s < start);
        }
    }
    false
}

/// The opening of the chat body, up to the model name.
pub const BODY_OPEN: &'static str = "{\"model\":\"";
/// Between the model name and the system message.
pub const BODY_MESSAGES: &'static str = "\",\"messages\":[{\"role\":\"system\",\"content\":\"";
/// Between the system message and the user's prompt.
pub const BODY_USER: &'static str = "\"},{\"role\":\"user\",\"content\":\"";
/// The end of the chat body.
pub const BODY_CLOSE: &'static str = "\"}],\"stream\":false}";
/// The system message sent ahead of every prompt.
pub const SYSTEM_PROMPT: &'static str = "You are a helpful AI assistant embedded in the GOS graph-native bare-metal kernel. Respond concisely in plain text, no markdown.";

/// The non-streaming chat request body for `model` with the system
/// message and the user's prompt, all escaped as JSON strings.
pub open spec fn ollama_body(model: Seq<u8>, user_msg: Seq<u8>) -> Seq<u8> {
    BODY_OPEN.spec_bytes() + json_escape(model) + BODY_MESSAGES.spec_bytes()
        + json_escape(SYSTEM_PROMPT.spec_bytes()) + BODY_USER.spec_bytes()
        + json_escape(user_msg) + BODY_CLOSE.spec_bytes()
}

pub proof fn lemma_prefix_of(acc: Seq<u8>, mid: Seq<u8>, part: Seq<u8>, rest: Seq<u8>)
    requires
        part.len() <= mid.len(),
        mid.take(part.len() as int) == part,
    ensures
        (acc + mid + rest).take((acc + part).len() as int) == acc + part,
{
    let whole = acc + mid + rest;
    let pre = acc + part;
    assert forall|i: int| 0 <= i < pre.len() implies whole.take(pre.len() as int)[i] == pre[i] by {
        if i >= acc.len() {
            assert(mid.take(part.len() as int)[i - acc.len()] == mid[i - acc.len()]);
        }
    }
    assert(whole.take(pre.len() as int) =~= pre);
}

/// One piece of a larger text `acc + data + rest` appended after the
/// pieces `acc` already in `buf`; on failure what is in `buf` is a prefix
/// of the whole text, and the whole text does not fit.
fn push_piece(buf: &mut [u8], pos: &mut usize, data: &[u8],
    Ghost(orig): Ghost<Seq<u8>>, Ghost(acc): Ghost<Seq<u8>>, Ghost(rest): Ghost<Seq<u8>>) -> (ok: bool)
    requires
        old(buf)@ == written(orig, 0, acc),
        old(buf)@.len() == orig.len(),
        *old(pos) == acc.len(),
    ensures
        final(buf)@.len() == orig.len(),
        ok == (acc.len() + data@.len() <= orig.len()),
        ok ==> final(buf)@ == written(orig, 0, acc + data@) && *final(pos) == acc.len() + data@.len(),
        !ok ==> (acc + data@ + rest).len() > orig.len(),
        !ok ==> exists|m: int| 0 <= m <= orig.len() && m <= (acc + data@ + rest).len()
            && final(buf)@ == written(orig, 0, (acc + data@ + rest).take(m)),
{
    let ok = ai_buf_append(buf, pos, data);
    proof {
        if ok {
            lemma_written_concat(orig, 0, acc, data@);
        } else {
            assert(data@.take(0) =~= Seq::<u8>::empty());
            lemma_prefix_of(acc, data@, Seq::empty(), rest);
            assert(acc + Seq::<u8>::empty() =~= acc);
            assert(acc.len() <= orig.len());
        }
    }
    ok
}

/// Like `push_piece`, for the JSON escape of `s`: a failure leaves the
/// escapes that fitted in `buf`.
fn push_json_piece(buf: &mut [u8], pos: &mut usize, s: &[u8],
    Ghost(orig): Ghost<Seq<u8>>, Ghost(acc): Ghost<Seq<u8>>, Ghost(rest): Ghost<Seq<u8>>) -> (ok: bool)
    requires
        old(buf)@ == written(orig, 0, acc),
        old(buf)@.len() == orig.len(),
        *old(pos) == acc.len(),
    ensures
        final(buf)@.len() == orig.len(),
        ok == (acc.len() + json_escape(s@).len() <= orig.len()),
        ok ==> final(buf)@ == written(orig, 0, acc + json_escape(s@))
            && *final(pos) == acc.len() + json_escape(s@).len(),
        !ok ==> (acc + json_escape(s@) + rest).len() > orig.len(),
        !ok ==> exists|m: int| 0 <= m <= orig.len() && m <= (acc + json_escape(s@) + rest).len()
            && final(buf)@ == written(orig, 0, (acc + json_escape(s@) + rest).take(m)),
{
    let ghost room = orig.len() - acc.len();
    let ok = ai_buf_append_json(buf, pos, s);
    proof {
        let k = json_fit(s@, room);
        let e = json_escape(s@.take(k));
        lemma_json_escape_prefix(s@, k);
        lemma_json_fit_bounds(s@, room, 0);
        lemma_json_fit_stops(s@, room, 0);
        assert(s@.take(s@.len() as int) =~= s@);
        if k > 0 {
            lemma_written_concat(orig, 0, acc, e);
            assert(e.len() <= room);
        } else {
            assert(s@.take(0) =~= Seq::<u8>::empty());
            assert(acc + e =~= acc);
        }
        if !ok {
            lemma_json_escape_prefix(s@, k + 1);
            lemma_prefix_of(acc, json_escape(s@), e, rest);
        }
    }
    ok
}

pub proof fn lemma_json_fit_stops(s: Seq<u8>, room: int, k: int)
    requires
        0 <= k <= s.len(),
    ensures
        json_fit_from(s, room, k) < s.len() ==>
            json_escape(s.take(json_fit_from(s, room, k) + 1)).len() > room,
        k == 0 || json_escape(s.take(k)).len() <= room ==>
            json_fit_from(s, room, k) == 0 || json_escape(s.take(json_fit_from(s, room, k))).len() <= room,
    decreases s.len() - k,
{
    if k < s.len() && json_escape(s.take(k + 1)).len() <= room {
        lemma_json_fit_stops(s, room, k + 1);
    }
}

/// Build the chat body for `model` and `user_msg` at the start of `buf`;
/// its length, or 0 when it does not fit.
pub fn build_ai_ollama_body(buf: &mut [u8], model: &[u8], user_msg: &[u8]) -> (r: usize)
    ensures
        final(buf)@.len() == old(buf)@.len(),
        r == (if ollama_body(model@, user_msg@).len() <= old(buf)@.len() {
            ollama_body(model@, user_msg@).len()
        } else {
            0
        }),
        r > 0 ==> final(buf)@ == written(old(buf)@, 0, ollama_body(model@, user_msg@)),
        r == 0 ==> exists|m: int| 0 <= m <= old(buf)@.len() && m <= ollama_body(model@, user_msg@).len()
            && final(buf)@ == written(old(buf)@, 0, ollama_body(model@, user_msg@).take(m)),
{
    let ghost orig = buf@;
    let ghost body = ollama_body(model@, user_msg@);
    let ghost p1 = BODY_OPEN.spec_bytes();
    let ghost e1 = json_escape(model@);
    let ghost p2 = BODY_MESSAGES.spec_bytes();
    let ghost e2 = json_escape(SYSTEM_PROMPT.spec_bytes());
    let ghost p3 = BODY_USER.spec_bytes();
    let ghost e3 = json_escape(user_msg@);
    let ghost p4 = BODY_CLOSE.spec_bytes();
    assert(body.len() > 0) by {
        assert(BODY_CLOSE.spec_bytes().len() > 0) by { reveal_strlit("\"}],\"stream\":false}"); }
    }
    let mut p: usize = 0;
    assert(written(orig, 0, Seq::<u8>::empty()) =~= orig);
    assert(Seq::<u8>::empty() + p1 + (e1 + p2 + e2 + p3 + e3 + p4) =~= body);
    if !push_piece(buf, &mut p, BODY_OPEN.as_bytes(), Ghost(orig), Ghost(Seq::empty()), Ghost(e1 + p2 + e2 + p3 + e3 + p4)) {
        return 0;
    }
    assert(Seq::<u8>::empty() + p1 =~= p1);
    assert(p1 + e1 + (p2 + e2 + p3 + e3 + p4) =~= body);
    if !push_json_piece(buf, &mut p, model, Ghost(orig), Ghost(p1), Ghost(p2 + e2 + p3 + e3 + p4)) {
        return 0;
    }
    assert(p1 + e1 + p2 + (e2 + p3 + e3 + p4) =~= body);
    if !push_piece(buf, &mut p, BODY_MESSAGES.as_bytes(), Ghost(orig), Ghost(p1 + e1), Ghost(e2 + p3 + e3 + p4)) {
        return 0;
    }
    assert(p1 + e1 + p2 + e2 + (p3 + e3 + p4) =~= body);
    if !push_json_piece(buf, &mut p, SYSTEM_PROMPT.as_bytes(), Ghost(orig), Ghost(p1 + e1 + p2), Ghost(p3 + e3 + p4)) {
        return 0;
    }
    assert(p1 + e1 + p2 + e2 + p3 + (e3 + p4) =~= body);
    if !push_piece(buf, &mut p, BODY_USER.as_bytes(), Ghost(orig), Ghost(p1 + e1 + p2 + e2), Ghost(e3 + p4)) {
        return 0;
    }
    assert(p1 + e1 + p2 + e2 + p3 + e3 + p4 =~= body);
    if !push_json_piece(buf, &mut p, user_msg, Ghost(orig), Ghost(p1 + e1 + p2 + e2 + p3), Ghost(p4)) {
        return 0;
    }
    assert(p1 + e1 + p2 + e2 + p3 + e3 + p4 + Seq::<u8>::empty() =~= body);
    if !push_piece(buf, &mut p, BODY_CLOSE.as_bytes(), Ghost(orig), Ghost(p1 + e1 + p2 + e2 + p3 + e3), Ghost(Seq::empty())) {
        return 0;
    }
    p
}

/// The request line's verb.
pub const REQ_POST: &'static str = "POST ";
/// After the path, up to the host address.
pub const REQ_HOST: &'static str = " HTTP/1.0\r\nHost: ";
/// After the host's port.
pub const REQ_CTYPE: &'static str = "\r\nContent-Type: application/json\r\n";
/// Ahead of the body length.
pub const REQ_CLEN: &'static str = "Content-Length: ";
/// The end of the header block.
pub const REQ_END: &'static str = "\r\n\r\n";

/// The first `n` octets of `ip` in dotted decimal.
pub open spec fn dotted(ip: Seq<u8>, n: int) -> Seq<u8>
    decreases n,
{
    if n <= 0 {
        Seq::empty()
    } else if n == 1 {
        dec_digits(ip[0] as nat)
    } else {
        dotted(ip, n - 1) + seq![0x2Eu8] + dec_digits(ip[n - 1] as nat)
    }
}

/// `POST <path> HTTP/1.0` and the start of the `Host` header.
pub open spec fn request_head(path: Seq<u8>) -> Seq<u8> {
    REQ_POST.spec_bytes() + path + REQ_HOST.spec_bytes()
}

/// Everything after the host's dotted address.
pub open spec fn request_tail(port: u16, auth_hdr: Seq<u8>, body: Seq<u8>) -> Seq<u8> {
    seq![0x3Au8] + dec_digits(port as nat) + REQ_CTYPE.spec_bytes() + auth_hdr + REQ_CLEN.spec_bytes()
        + dec_digits((body.len() as u32) as nat) + REQ_END.spec_bytes() + body
}

/// The HTTP/1.0 POST of `body` to `path` on `ip:port`, with the extra
/// header lines `auth_hdr`; the body length is written as a `u32`.
pub open spec fn http_request(path: Seq<u8>, ip: Seq<u8>, port: u16, auth_hdr: Seq<u8>, body: Seq<u8>) -> Seq<u8> {
    request_head(path) + dotted(ip, 4) + request_tail(port, auth_hdr, body)
}

pub open spec fn add_if_fits(p: int, d: int, cap: int) -> int {
    if p + d <= cap { p + d } else { p }
}

/// Where the writer stands after octet `i` of the host address: a dot is
/// written ahead of every octet but the first whether or not it fits, the
/// digits only when they fit.
pub open spec fn octet_end(head: int, ip: Seq<u8>, cap: int, i: int) -> int
    decreases i,
{
    if i <= 0 {
        add_if_fits(head, dec_digits(ip[0] as nat).len() as int, cap)
    } else {
        add_if_fits(octet_end(head, ip, cap, i - 1) + 1, dec_digits(ip[i] as nat).len() as int, cap)
    }
}

/// The dots and the colon after the host address, which are written
/// without a bounds check, land inside a buffer of `cap` bytes.
pub open spec fn host_in_bounds(path: Seq<u8>, ip: Seq<u8>, cap: int) -> bool {
    request_head(path).len() <= cap ==> octet_end(request_head(path).len() as int, ip, cap, 3) < cap
}

pub proof fn lemma_dec_digits_len(n: nat)
    ensures
        dec_digits(n).len() >= 1,
        n < 10 ==> dec_digits(n).len() == 1,
        n < 100 ==> dec_digits(n).len() <= 2,
        n < 1000 ==> dec_digits(n).len() <= 3,
        n < 10000 ==> dec_digits(n).len() <= 4,
        n < 100000 ==> dec_digits(n).len() <= 5,
    decreases n,
{
    if n >= 10 {
        lemma_dec_digits_len(n / 10);
    }
}

pub proof fn lemma_octet_end_mono(head: int, ip: Seq<u8>, cap: int, i: int, j: int)
    requires
        0 <= i <= j,
    ensures
        octet_end(head, ip, cap, i) + (j - i) <= octet_end(head, ip, cap, j),
    decreases j - i,
{
    if i < j {
        lemma_octet_end_mono(head, ip, cap, i, j - 1);
    }
}

pub proof fn lemma_dotted_mono(ip: Seq<u8>, i: int, j: int)
    requires
        0 <= i <= j,
    ensures
        dotted(ip, i).len() <= dotted(ip, j).len(),
    decreases j - i,
{
    if i < j {
        lemma_dotted_mono(ip, i, j - 1);
    }
}

/// The host address and port after the request head already in `buf`:
/// dotted octets, a colon and the port.  The dots and the colon are written
/// unchecked; digits that do not fit are skipped, and then the address
/// reports failure.
fn write_host(buf: &mut [u8], pos: &mut usize, ip: [u8; 4], port: u16,
    Ghost(orig): Ghost<Seq<u8>>, Ghost(head): Ghost<Seq<u8>>) -> (ok: bool)
    requires
        old(buf)@ == written(orig, 0, head),
        old(buf)@.len() == orig.len(),
        *old(pos) == head.len(),
        head.len() <= orig.len(),
        octet_end(head.len() as int, ip@, orig.len() as int, 3) < orig.len(),
    ensures
        final(buf)@.len() == orig.len(),
        ok ==> final(buf)@ == written(orig, 0, head + dotted(ip@, 4) + seq![0x3Au8] + dec_digits(port as nat)),
        ok ==> *final(pos) == (head + dotted(ip@, 4) + seq![0x3Au8] + dec_digits(port as nat)).len(),
        !ok ==> (head + dotted(ip@, 4) + seq![0x3Au8] + dec_digits(port as nat)).len() > orig.len(),
{
    let ghost cap = orig.len() as int;
    let ghost hl = head.len() as int;
    let ghost whole = head + dotted(ip@, 4) + seq![0x3Au8] + dec_digits(port as nat);
    proof {
        lemma_dotted_mono(ip@, 0, 4);
        assert(head + dotted(ip@, 0) =~= head);
    }
    let mut fit = true;
    let mut i: usize = 0;
    while i < 4
        invariant
            buf@.len() == cap,
            cap == orig.len(),
            hl == head.len(),
            hl <= cap,
            octet_end(hl, ip@, cap, 3) < cap,
            whole == head + dotted(ip@, 4) + seq![0x3Au8] + dec_digits(port as nat),
            i <= 4,
            *pos == (if i == 0 { hl } else { octet_end(hl, ip@, cap, i - 1) }),
            fit ==> buf@ == written(orig, 0, head + dotted(ip@, i as int)) && *pos == hl + dotted(ip@, i as int).len(),
            !fit ==> whole.len() > cap,
        decreases 4 - i,
    {
        if i > 0 {
            proof { lemma_octet_end_mono(hl, ip@, cap, i - 1, 3); }
            let at = *pos;
            buf[at] = 0x2E;
            *pos = at + 1;
            proof {
                if fit {
                    assert(buf@ =~= written(orig, 0, head + dotted(ip@, i as int) + seq![0x2Eu8]));
                }
            }
        }
        let ghost mid = buf@;
        let ghost pre = if i == 0 { head } else { head + dotted(ip@, i as int) + seq![0x2Eu8] };
        proof {
            lemma_dotted_mono(ip@, i + 1, 4);
            assert(dotted(ip@, i + 1) == (if i == 0 { dec_digits(ip@[0] as nat) } else {
                dotted(ip@, i as int) + seq![0x2Eu8] + dec_digits(ip@[i as int] as nat) }));
        }
        let d_ok = ai_buf_append_u32(buf, pos, ip[i] as u32);
        proof {
            let d = dec_digits(ip@[i as int] as nat);
            if fit {
                assert(mid == written(orig, 0, pre));
                assert(pre + d =~= head + dotted(ip@, i + 1));
                if d_ok {
                    lemma_written_concat(orig, 0, pre, d);
                }
            }
        }
        if !d_ok {
            fit = false;
        }
        i = i + 1;
    }
    let at = *pos;
    buf[at] = 0x3A;
    *pos = at + 1;
    let ghost acc1 = head + dotted(ip@, 4) + seq![0x3Au8];
    proof {
        if fit {
            assert(buf@ =~= written(orig, 0, acc1));
        }
    }
    let port_ok = ai_buf_append_u32(buf, pos, port as u32);
    proof {
        if fit && port_ok {
            lemma_written_concat(orig, 0, acc1, dec_digits(port as nat));
        }
    }
    fit && port_ok
}

/// Build the HTTP request at the start of `buf`; its length, or 0 when it
/// does not fit.  The host's dots and colon are written unchecked, so the
/// caller keeps them inside the buffer.
#[verifier::rlimit(80)]
pub fn build_ai_http_request(buf: &mut [u8], path: &[u8], ip: [u8; 4], port: u16,
    auth_hdr: &[u8], body: &[u8]) -> (r: usize)
    requires
        host_in_bounds(path@, ip@, old(buf)@.len() as int),
    ensures
        final(buf)@.len() == old(buf)@.len(),
        r == (if http_request(path@, ip@, port, auth_hdr@, body@).len() <= old(buf)@.len() {
            http_request(path@, ip@, port, auth_hdr@, body@).len()
        } else {
            0
        }),
        r > 0 ==> final(buf)@ == written(old(buf)@, 0, http_request(path@, ip@, port, auth_hdr@, body@)),
{
    let ghost orig = buf@;
    let ghost head = request_head(path@);
    let ghost req = http_request(path@, ip@, port, auth_hdr@, body@);
    let ghost h1 = REQ_POST.spec_bytes();
    let ghost h2 = REQ_HOST.spec_bytes();
    let ghost host = dotted(ip@, 4) + seq![0x3Au8] + dec_digits(port as nat);
    let ghost ct = REQ_CTYPE.spec_bytes();
    let ghost cl = REQ_CLEN.spec_bytes();
    let ghost bl = dec_digits((body@.len() as u32) as nat);
    let ghost en = REQ_END.spec_bytes();
    let ghost tail = ct + auth_hdr@ + cl + bl + en + body@;
    assert(req =~= h1 + path@ + h2 + host + tail);
    let mut p: usize = 0;
    assert(written(orig, 0, Seq::<u8>::empty()) =~= orig);
    assert(Seq::<u8>::empty() + h1 + (path@ + h2 + host + tail) =~= req);
    if !push_piece(buf, &mut p, REQ_POST.as_bytes(), Ghost(orig), Ghost(Seq::empty()), Ghost(path@ + h2 + host + tail)) {
        return 0;
    }
    assert(Seq::<u8>::empty() + h1 =~= h1);
    assert(h1 + path@ + (h2 + host + tail) =~= req);
    if !push_piece(buf, &mut p, path, Ghost(orig), Ghost(h1), Ghost(h2 + host + tail)) {
        return 0;
    }
    assert(h1 + path@ + h2 + (host + tail) =~= req);
    if !push_piece(buf, &mut p, REQ_HOST.as_bytes(), Ghost(orig), Ghost(h1 + path@), Ghost(host + tail)) {
        return 0;
    }
    assert(h1 + path@ + h2 == head);
    if !write_host(buf, &mut p, ip, port, Ghost(orig), Ghost(head)) {
        assert(req.len() >= (head + host).len());
        assert(head + dotted(ip@, 4) + seq![0x3Au8] + dec_digits(port as nat) =~= head + host);
        return 0;
    }
    let ghost acc = head + host;
    assert(head + dotted(ip@, 4) + seq![0x3Au8] + dec_digits(port as nat) =~= acc);
    assert(acc + ct + (auth_hdr@ + cl + bl + en + body@) =~= req);
    if !push_piece(buf, &mut p, REQ_CTYPE.as_bytes(), Ghost(orig), Ghost(acc), Ghost(auth_hdr@ + cl + bl + en + body@)) {
        return 0;
    }
    if !auth_hdr.is_empty() {
        assert(acc + ct + auth_hdr@ + (cl + bl + en + body@) =~= req);
        if !push_piece(buf, &mut p, auth_hdr, Ghost(orig), Ghost(acc + ct), Ghost(cl + bl + en + body@)) {
            return 0;
        }
    } else {
        assert(acc + ct + auth_hdr@ =~= acc + ct);
    }
    let ghost acc4 = acc + ct + auth_hdr@;
    assert(acc4 + cl + (bl + en + body@) =~= req);
    if !push_piece(buf, &mut p, REQ_CLEN.as_bytes(), Ghost(orig), Ghost(acc4), Ghost(bl + en + body@)) {
        return 0;
    }
    let digits = dec_vec(body.len() as u32 as u64);
    assert(acc4 + cl + bl + (en + body@) =~= req);
    if !push_piece(buf, &mut p, digits.as_slice(), Ghost(orig), Ghost(acc4 + cl), Ghost(en + body@)) {
        return 0;
    }
    assert(acc4 + cl + bl + en + body@ =~= req);
    if !push_piece(buf, &mut p, REQ_END.as_bytes(), Ghost(orig), Ghost(acc4 + cl + bl), Ghost(body@)) {
        return 0;
    }
    assert(acc4 + cl + bl + en + body@ + Seq::<u8>::empty() =~= req);
    if !push_piece(buf, &mut p, body, Ghost(orig), Ghost(acc4 + cl + bl + en), Ghost(Seq::empty())) {
        return 0;
    }
    p
}

/// The model asked for by default.
pub const DEFAULT_MODEL: &'static str = "qwen2.5:7b";
/// The chat endpoint's path.
pub const CHAT_PATH: &'static str = "/api/chat";
/// The start of the bearer-token header line.
pub const AUTH_PREFIX: &'static str = "Authorization: Bearer ";
/// A header line's end.
pub const CRLF: &'static str = "\r\n";
/// The LLM endpoint as reached from the guest: the user-mode network's
/// gateway.
pub const OLLAMA_IP: [u8; 4] = [10, 0, 2, 2];
/// The LLM endpoint's port.
pub const OLLAMA_PORT: u16 = 11434;
/// Capacity of the request buffer; the body is built in its second half.
pub const AI_HTTP_REQ_BUF: usize = 2048;
/// Capacity of the body scratch.
pub const AI_BODY_BUF: usize = 1024;
/// Capacity of the bearer-token header line.
pub const AI_AUTH_BUF: usize = 192;
/// Capacity of the captured API key.
pub const API_KEY_CAP: usize = 128;
/// Capacity of the captured prompt.
pub const PROMPT_CAP: usize = 160;

/// The kinds of control-plane messages the supervisor counts.
#[derive(Debug, Clone, Copy, PartialEq, Eq, Structural)]
pub enum ControlKind {
    PluginDiscovered,
    NodeUpsert,
    EdgeUpsert,
    StateDelta,
    Fault,
    Other,
}

/// The shell's control commands to the AI plugin.
#[derive(Debug, Clone, Copy, PartialEq, Eq, Structural)]
pub enum AiControl {
    ApiBegin,
    ApiCommit,
    ChatBegin,
    ChatCommit,
    Other,
}

/// What a committed prompt is answered with.
#[derive(Debug, Clone, Copy, PartialEq, Eq, Structural)]
pub enum ChatReply {
    /// The prompt is empty.
    NeedPrompt,
    /// No API key is armed.
    NeedKey,
    /// A summary of the graph's counts.
    Status,
    /// The fixed note on the CUDA bridge.
    Cuda,
    /// The fixed note on networking.
    Net,
    /// The fixed note on the API key.
    ApiKey,
    /// The prompt goes to the LLM endpoint.
    Llm,
}

/// What the plugin does for a control command, beyond its own state.
#[derive(Debug, Clone, Copy, PartialEq, Eq, Structural)]
pub enum AiAction {
    Nothing,
    /// Report that the uplink key is armed.
    KeyArmed,
    /// Answer the committed prompt.
    Reply(ChatReply),
    /// Drain the control plane into the counters.
    Drain,
}

/// The AI plugin's state: where its output goes, the control-plane
/// counters, and the API key and prompt being captured from the shell.
pub struct AiState {
    pub console_target: u64,
    pub shell_target: u64,
    pub drained_messages: usize,
    pub plugin_events: usize,
    pub node_events: usize,
    pub edge_events: usize,
    pub state_deltas: usize,
    pub fault_events: usize,
    pub shell_handoff_complete: bool,
    pub api_key: Vec<u8>,
    pub api_capture_active: bool,
    pub api_ready: bool,
    pub prompt: Vec<u8>,
    pub prompt_capture_active: bool,
}

/// `word` occurs, ignoring the prompt's case.
pub open spec fn mentions(prompt: Seq<u8>, word: &str) -> bool {
    word.spec_bytes().len() > 0 && exists|s: int| folded_at(prompt, word.spec_bytes(), s)
}

/// How a committed prompt is answered: status words first, then the
/// CUDA, network and key notes, and the LLM for anything else.
pub open spec fn spec_chat_reply(prompt: Seq<u8>, api_ready: bool) -> ChatReply {
    if prompt.len() == 0 {
        ChatReply::NeedPrompt
    } else if !api_ready {
        ChatReply::NeedKey
    } else if mentions(prompt, "graph") || mentions(prompt, "status") {
        ChatReply::Status
    } else if mentions(prompt, "cuda") || mentions(prompt, "gpu") || mentions(prompt, "nvidia") {
        ChatReply::Cuda
    } else if mentions(prompt, "net") || mentions(prompt, "wifi") || mentions(prompt, "network") {
        ChatReply::Net
    } else if mentions(prompt, "api") || mentions(prompt, "key") {
        ChatReply::ApiKey
    } else {
        ChatReply::Llm
    }
}

/// The bearer-token header line for an armed, non-empty key.
pub open spec fn auth_header(key: Seq<u8>, ready: bool) -> Seq<u8> {
    if ready && key.len() > 0 {
        AUTH_PREFIX.spec_bytes() + key + CRLF.spec_bytes()
    } else {
        Seq::empty()
    }
}

/// Why a prompt could not be turned into a request.
#[derive(Debug, Clone, Copy, PartialEq, Eq, Structural)]
pub enum LlmRequestError {
    /// The JSON body does not fit its scratch buffer.
    BodyTooLarge,
    /// The HTTP request does not fit the request buffer.
    RequestOverflow,
}

/// The request for `prompt`, or why there is none.
pub open spec fn spec_llm_request(prompt: Seq<u8>, key: Seq<u8>, ready: bool) -> Result<Seq<u8>, LlmRequestError> {
    let body = ollama_body(DEFAULT_MODEL.spec_bytes(), prompt);
    let req = http_request(CHAT_PATH.spec_bytes(), OLLAMA_IP@, OLLAMA_PORT, auth_header(key, ready), body);
    if body.len() > AI_BODY_BUF {
        Err(LlmRequestError::BodyTooLarge)
    } else if req.len() > AI_HTTP_REQ_BUF {
        Err(LlmRequestError::RequestOverflow)
    } else {
        Ok(req)
    }
}

impl AiState {
    pub open spec fn wf(&self) -> bool {
        self.api_key@.len() <= API_KEY_CAP && self.prompt@.len() <= PROMPT_CAP
    }

    /// A fresh state; output goes to `console_target`, or to `fallback`
    /// when that is 0.
    pub fn new(console_target: u64, shell_target: u64, fallback: u64) -> (r: Self)
        ensures
            r.wf(),
            r.console_target == (if console_target == 0 { fallback } else { console_target }),
            r.shell_target == shell_target,
            r.drained_messages == 0 && r.plugin_events == 0 && r.node_events == 0,
            r.edge_events == 0 && r.state_deltas == 0 && r.fault_events == 0,
            !r.shell_handoff_complete,
            r.api_key@.len() == 0 && !r.api_capture_active && !r.api_ready,
            r.prompt@.len() == 0 && !r.prompt_capture_active,
    {
        AiState {
            console_target: if console_target == 0 { fallback } else { console_target },
            shell_target,
            drained_messages: 0,
            plugin_events: 0,
            node_events: 0,
            edge_events: 0,
            state_deltas: 0,
            fault_events: 0,
            shell_handoff_complete: false,
            api_key: Vec::new(),
            api_capture_active: false,
            api_ready: false,
            prompt: Vec::new(),
            prompt_capture_active: false,
        }
    }

    /// Start capturing an API key: the old key is dropped and disarmed.
    pub fn begin_api_capture(&mut self)
        requires
            old(self).wf(),
        ensures
            final(self).wf(),
            final(self).api_key@.len() == 0,
            final(self).api_capture_active,
            !final(self).api_ready,
            final(self).prompt@ == old(self).prompt@,
            final(self).prompt_capture_active == old(self).prompt_capture_active,
    {
        self.api_key = Vec::new();
        self.api_capture_active = true;
        self.api_ready = false;
    }

    /// Add a key byte while capturing, up to the key's capacity.
    pub fn append_api_byte(&mut self, byte: u8)
        requires
            old(self).wf(),
        ensures
            final(self).wf(),
            final(self).api_key@ == (if old(self).api_capture_active && old(self).api_key@.len() < API_KEY_CAP {
                old(self).api_key@.push(byte)
            } else {
                old(self).api_key@
            }),
            final(self).api_capture_active == old(self).api_capture_active,
            final(self).api_ready == old(self).api_ready,
            final(self).prompt@ == old(self).prompt@,
            final(self).prompt_capture_active == old(self).prompt_capture_active,
    {
        if self.api_capture_active && self.api_key.len() < API_KEY_CAP {
            self.api_key.push(byte);
        }
    }

    /// Stop capturing; the key is armed when it is not empty.
    pub fn commit_api_capture(&mut self)
        requires
            old(self).wf(),
        ensures
            final(self).wf(),
            !final(self).api_capture_active,
            final(self).api_ready == (old(self).api_key@.len() > 0),
            final(self).api_key@ == old(self).api_key@,
            final(self).prompt@ == old(self).prompt@,
            final(self).prompt_capture_active == old(self).prompt_capture_active,
    {
        self.api_capture_active = false;
        self.api_ready = self.api_key.len() > 0;
    }

    /// Start capturing a prompt.
    pub fn begin_chat_capture(&mut self)
        requires
            old(self).wf(),
        ensures
            final(self).wf(),
            final(self).prompt@.len() == 0,
            final(self).prompt_capture_active,
            final(self).api_key@ == old(self).api_key@,
            final(self).api_capture_active == old(self).api_capture_active,
            final(self).api_ready == old(self).api_ready,
    {
        self.prompt = Vec::new();
        self.prompt_capture_active = true;
    }

    /// Add a prompt byte while capturing, up to the prompt's capacity.
    pub fn append_chat_byte(&mut self, byte: u8)
        requires
            old(self).wf(),
        ensures
            final(self).wf(),
            final(self).prompt@ == (if old(self).prompt_capture_active && old(self).prompt@.len() < PROMPT_CAP {
                old(self).prompt@.push(byte)
            } else {
                old(self).prompt@
            }),
            final(self).prompt_capture_active == old(self).prompt_capture_active,
            final(self).api_key@ == old(self).api_key@,
            final(self).api_capture_active == old(self).api_capture_active,
            final(self).api_ready == old(self).api_ready,
    {
        if self.prompt_capture_active && self.prompt.len() < PROMPT_CAP {
            self.prompt.push(byte);
        }
    }

    /// Stop capturing the prompt and decide how it is answered.
    pub fn commit_chat_capture(&mut self) -> (r: ChatReply)
        requires
            old(self).wf(),
        ensures
            final(self).wf(),
            !final(self).prompt_capture_active,
            final(self).prompt@ == old(self).prompt@,
            final(self).api_key@ == old(self).api_key@,
            final(self).api_capture_active == old(self).api_capture_active,
            final(self).api_ready == old(self).api_ready,
            r == spec_chat_reply(old(self).prompt@, old(self).api_ready),
    {
        self.prompt_capture_active = false;
        if self.prompt.len() == 0 {
            return ChatReply::NeedPrompt;
        }
        if !self.api_ready {
            return ChatReply::NeedKey;
        }
        let p = self.prompt.as_slice();
        if prompt_contains(p, "graph".as_bytes()) || prompt_contains(p, "status".as_bytes()) {
            ChatReply::Status
        } else if prompt_contains(p, "cuda".as_bytes()) || prompt_contains(p, "gpu".as_bytes())
            || prompt_contains(p, "nvidia".as_bytes()) {
            ChatReply::Cuda
        } else if prompt_contains(p, "net".as_bytes()) || prompt_contains(p, "wifi".as_bytes())
            || prompt_contains(p, "network".as_bytes()) {
            ChatReply::Net
        } else if prompt_contains(p, "api".as_bytes()) || prompt_contains(p, "key".as_bytes()) {
            ChatReply::ApiKey
        } else {
            ChatReply::Llm
        }
    }

    /// Count one drained control-plane message.
    pub fn note_control_message(&mut self, kind: ControlKind)
        requires
            old(self).drained_messages < usize::MAX,
            kind == ControlKind::PluginDiscovered ==> old(self).plugin_events < usize::MAX,
            kind == ControlKind::NodeUpsert ==> old(self).node_events < usize::MAX,
            kind == ControlKind::EdgeUpsert ==> old(self).edge_events < usize::MAX,
            kind == ControlKind::StateDelta ==> old(self).state_deltas < usize::MAX,
            kind == ControlKind::Fault ==> old(self).fault_events < usize::MAX,
        ensures
            final(self).drained_messages == old(self).drained_messages + 1,
            final(self).plugin_events == old(self).plugin_events + (if kind == ControlKind::PluginDiscovered { 1int } else { 0 }),
            final(self).node_events == old(self).node_events + (if kind == ControlKind::NodeUpsert { 1int } else { 0 }),
            final(self).edge_events == old(self).edge_events + (if kind == ControlKind::EdgeUpsert { 1int } else { 0 }),
            final(self).state_deltas == old(self).state_deltas + (if kind == ControlKind::StateDelta { 1int } else { 0 }),
            final(self).fault_events == old(self).fault_events + (if kind == ControlKind::Fault { 1int } else { 0 }),
            final(self).api_key@ == old(self).api_key@ && final(self).prompt@ == old(self).prompt@,
            final(self).api_capture_active == old(self).api_capture_active,
            final(self).api_ready == old(self).api_ready,
            final(self).prompt_capture_active == old(self).prompt_capture_active,
            final(self).shell_handoff_complete == old(self).shell_handoff_complete,
    {
        self.drained_messages = self.drained_messages + 1;
        match kind {
            ControlKind::PluginDiscovered => self.plugin_events = self.plugin_events + 1,
            ControlKind::NodeUpsert => self.node_events = self.node_events + 1,
            ControlKind::EdgeUpsert => self.edge_events = self.edge_events + 1,
            ControlKind::StateDelta => self.state_deltas = self.state_deltas + 1,
            ControlKind::Fault => self.fault_events = self.fault_events + 1,
            ControlKind::Other => {},
        }
    }

    /// Hand the shell over once: true the first time, when the shell is
    /// to be spawned and the handoff announced.
    pub fn handoff_shell(&mut self) -> (r: bool)
        ensures
            r == !old(self).shell_handoff_complete,
            final(self).shell_handoff_complete,
            final(self).api_key@ == old(self).api_key@ && final(self).prompt@ == old(self).prompt@,
            final(self).api_capture_active == old(self).api_capture_active,
            final(self).api_ready == old(self).api_ready,
            final(self).prompt_capture_active == old(self).prompt_capture_active,
            final(self).drained_messages == old(self).drained_messages,
    {
        if self.shell_handoff_complete {
            return false;
        }
        self.shell_handoff_complete = true;
        true
    }

    /// A data byte from the shell: part of the key while one is captured,
    /// else part of the prompt while one is captured.
    pub fn on_data(&mut self, byte: u8)
        requires
            old(self).wf(),
        ensures
            final(self).wf(),
            old(self).api_capture_active ==> final(self).api_key@ == (if old(self).api_key@.len() < API_KEY_CAP {
                old(self).api_key@.push(byte) } else { old(self).api_key@ })
                && final(self).prompt@ == old(self).prompt@,
            !old(self).api_capture_active ==> final(self).api_key@ == old(self).api_key@
                && final(self).prompt@ == (if old(self).prompt_capture_active && old(self).prompt@.len() < PROMPT_CAP {
                    old(self).prompt@.push(byte) } else { old(self).prompt@ }),
            final(self).api_capture_active == old(self).api_capture_active,
            final(self).api_ready == old(self).api_ready,
            final(self).prompt_capture_active == old(self).prompt_capture_active,
    {
        if self.api_capture_active {
            self.append_api_byte(byte);
        } else if self.prompt_capture_active {
            self.append_chat_byte(byte);
        }
    }

    /// A control command from the shell.
    pub fn on_control(&mut self, cmd: AiControl) -> (r: AiAction)
        requires
            old(self).wf(),
        ensures
            final(self).wf(),
            cmd == AiControl::ApiBegin ==> r == AiAction::Nothing && final(self).api_key@.len() == 0
                && final(self).api_capture_active && !final(self).api_ready,
            cmd == AiControl::ApiCommit ==> r == AiAction::KeyArmed && !final(self).api_capture_active
                && final(self).api_ready == (old(self).api_key@.len() > 0),
            cmd == AiControl::ChatBegin ==> r == AiAction::Nothing && final(self).prompt@.len() == 0
                && final(self).prompt_capture_active,
            cmd == AiControl::ChatCommit ==> r == AiAction::Reply(spec_chat_reply(old(self).prompt@, old(self).api_ready))
                && !final(self).prompt_capture_active,
            cmd == AiControl::Other ==> r == AiAction::Drain,
            cmd != AiControl::ApiBegin && cmd != AiControl::ApiCommit ==> final(self).api_key@ == old(self).api_key@
                && final(self).api_ready == old(self).api_ready && final(self).api_capture_active == old(self).api_capture_active,
            cmd != AiControl::ChatBegin && cmd != AiControl::ChatCommit ==> final(self).prompt@ == old(self).prompt@
                && final(self).prompt_capture_active == old(self).prompt_capture_active,
            cmd == AiControl::ApiBegin || cmd == AiControl::ApiCommit ==> final(self).prompt@ == old(self).prompt@,
            cmd == AiControl::ChatBegin || cmd == AiControl::ChatCommit ==> final(self).api_key@ == old(self).api_key@,
    {
        match cmd {
            AiControl::ApiBegin => {
                self.begin_api_capture();
                AiAction::Nothing
            },
            AiControl::ApiCommit => {
                self.commit_api_capture();
                AiAction::KeyArmed
            },
            AiControl::ChatBegin => {
                self.begin_chat_capture();
                AiAction::Nothing
            },
            AiControl::ChatCommit => AiAction::Reply(self.commit_chat_capture()),
            AiControl::Other => AiAction::Drain,
        }
    }
}

/// The byte lengths of the fixed texts.
pub proof fn lemma_literal_lens()
    ensures
        REQ_POST.spec_bytes().len() == 5,
        REQ_HOST.spec_bytes().len() == 17,
        REQ_CTYPE.spec_bytes().len() == 34,
        REQ_CLEN.spec_bytes().len() == 16,
        REQ_END.spec_bytes().len() == 4,
        BODY_CLOSE.spec_bytes().len() == 19,
        CHAT_PATH.spec_bytes().len() == 9,
        AUTH_PREFIX.spec_bytes().len() == 22,
        CRLF.spec_bytes().len() == 2,
{
    broadcast use vstd::string::group_string_axioms;
    reveal_strlit("POST ");
    reveal_strlit(" HTTP/1.0\r\nHost: ");
    reveal_strlit("\r\nContent-Type: application/json\r\n");
    reveal_strlit("Content-Length: ");
    reveal_strlit("\r\n\r\n");
    reveal_strlit("\"}],\"stream\":false}");
    reveal_strlit("/api/chat");
    reveal_strlit("Authorization: Bearer ");
    reveal_strlit("\r\n");
    assert(vstd::string::is_ascii(REQ_POST));
    assert(vstd::string::is_ascii(REQ_HOST));
    assert(vstd::string::is_ascii(REQ_CTYPE));
    assert(vstd::string::is_ascii(REQ_CLEN));
    assert(vstd::string::is_ascii(REQ_END));
    assert(vstd::string::is_ascii(BODY_CLOSE));
    assert(vstd::string::is_ascii(CHAT_PATH));
    assert(vstd::string::is_ascii(AUTH_PREFIX));
    assert(vstd::string::is_ascii(CRLF));
}

pub proof fn lemma_octet_end_bound(head: int, ip: Seq<u8>, cap: int, i: int)
    requires
        0 <= i < ip.len(),
    ensures
        octet_end(head, ip, cap, i) <= head + 4 * i + 3,
    decreases i,
{
    lemma_dec_digits_len(ip[i] as nat);
    if i > 0 {
        lemma_octet_end_bound(head, ip, cap, i - 1);
    }
}

impl AiState {
    /// The bearer-token header line for the armed key, empty without one.
    pub fn auth_header_bytes(&self) -> (r: Vec<u8>)
        requires
            self.wf(),
        ensures
            r@ == auth_header(self.api_key@, self.api_ready),
    {
        if !(self.api_ready && self.api_key.len() > 0) {
            return Vec::new();
        }
        proof { lemma_literal_lens(); }
        let mut buf = vec![0u8; AI_AUTH_BUF];
        let mut p: usize = 0;
        let ghost orig = buf@;
        let ok1 = ai_buf_append(buf.as_mut_slice(), &mut p, AUTH_PREFIX.as_bytes());
        let ok2 = ai_buf_append(buf.as_mut_slice(), &mut p, self.api_key.as_slice());
        let ok3 = ai_buf_append(buf.as_mut_slice(), &mut p, CRLF.as_bytes());
        assert(ok1 && ok2 && ok3);
        proof {
            let a = AUTH_PREFIX.spec_bytes();
            let k = self.api_key@;
            let c = CRLF.spec_bytes();
            assert(written(orig, 0, Seq::<u8>::empty()) =~= orig);
            assert(Seq::<u8>::empty() + a =~= a);
            lemma_written_concat(orig, 0, Seq::<u8>::empty(), a);
            lemma_written_concat(orig, 0, a, k);
            lemma_written_concat(orig, 0, a + k, c);
        }
        buf.truncate(p);
        assert(buf@ =~= auth_header(self.api_key@, self.api_ready));
        buf
    }

    /// The HTTP request that carries the captured prompt to the LLM
    /// endpoint: the JSON body is built in a scratch of `AI_BODY_BUF`
    /// bytes, the request in one of `AI_HTTP_REQ_BUF` bytes.
    pub fn prepare_llm_request(&self) -> (r: Result<Vec<u8>, LlmRequestError>)
        requires
            self.wf(),
        ensures
            match spec_llm_request(self.prompt@, self.api_key@, self.api_ready) {
                Ok(req) => r is Ok && r->Ok_0@ == req,
                Err(e) => r == Err::<Vec<u8>, LlmRequestError>(e),
            },
    {
        proof { lemma_literal_lens(); }
        let ghost body = ollama_body(DEFAULT_MODEL.spec_bytes(), self.prompt@);
        let mut body_buf = vec![0u8; AI_BODY_BUF];
        let ghost borig = body_buf@;
        let body_len = build_ai_ollama_body(body_buf.as_mut_slice(), DEFAULT_MODEL.as_bytes(), self.prompt.as_slice());
        if body_len == 0 {
            return Err(LlmRequestError::BodyTooLarge);
        }
        body_buf.truncate(body_len);
        assert(body_buf@ =~= body);
        let auth = self.auth_header_bytes();
        let ghost req = http_request(CHAT_PATH.spec_bytes(), OLLAMA_IP@, OLLAMA_PORT, auth@, body);
        let mut out = vec![0u8; AI_HTTP_REQ_BUF];
        proof {
            lemma_octet_end_bound(request_head(CHAT_PATH.spec_bytes()).len() as int, OLLAMA_IP@, AI_HTTP_REQ_BUF as int, 3);
            assert(request_head(CHAT_PATH.spec_bytes()).len() == 31);
        }
        let n = build_ai_http_request(out.as_mut_slice(), CHAT_PATH.as_bytes(), OLLAMA_IP, OLLAMA_PORT,
            auth.as_slice(), body_buf.as_slice());
        proof {
            assert(req.len() >= REQ_POST.spec_bytes().len());
        }
        if n == 0 {
            return Err(LlmRequestError::RequestOverflow);
        }
        out.truncate(n);
        assert(out@ =~= req);
        Ok(out)
    }
}

/// The end of the HTTP header block.
pub open spec fn header_end() -> Seq<u8> {
    seq![0x0Du8, 0x0Au8, 0x0Du8, 0x0Au8]
}

/// The JSON key of the reply text.
pub const CONTENT_KEY: &'static str = "content";

/// What an LLM reply shows: the `content` string's byte range, or only
/// the size of the body when it has none.
#[derive(Debug, Clone, Copy, PartialEq, Eq, Structural)]
pub enum LlmReply {
    Content { start: usize, end: usize },
    Raw { len: usize },
}

/// Where the body of an HTTP response starts: after the first blank line,
/// or at 0 without one.
pub open spec fn body_offset(resp: Seq<u8>) -> int {
    match first_from(resp, header_end(), 0) {
        Some(i) => i + 4,
        None => 0,
    }
}

pub open spec fn spec_llm_reply(resp: Seq<u8>) -> LlmReply {
    let off = body_offset(resp);
    match spec_extract_json_str(resp.subrange(off, resp.len() as int), CONTENT_KEY.spec_bytes()) {
        Some(p) => LlmReply::Content { start: (off + p.0) as usize, end: (off + p.1) as usize },
        None => LlmReply::Raw { len: (resp.len() - off) as usize },
    }
}

/// Read the LLM's HTTP response: the `content` field of its JSON body.
pub fn llm_reply(resp: &[u8]) -> (r: LlmReply)
    ensures
        r == spec_llm_reply(resp@),
        r matches LlmReply::Content { start, end } ==> start <= end < resp@.len(),
{
    let hdr: [u8; 4] = [0x0D, 0x0A, 0x0D, 0x0A];
    assert(hdr@ =~= header_end());
    proof { lemma_first_from(resp@, header_end(), 0); }
    let rl = resp.len();
    let found = ai_find_bytes(resp, hdr.as_slice());
    let off = match found {
        Some(i) => {
            assert(i + 4 <= rl);
            i + 4
        },
        None => 0,
    };
    assert(off == body_offset(resp@));
    let json = slice_subrange(resp, off, resp.len());
    proof { lemma_extract_bounds(json@, CONTENT_KEY.spec_bytes()); }
    match ai_extract_json_str(json, CONTENT_KEY.as_bytes()) {
        Some((s, e)) => LlmReply::Content { start: off + s, end: off + e },
        None => LlmReply::Raw { len: resp.len() - off },
    }
}

/// How a reply byte is shown in the shell: printable ASCII and space as
/// they are, other bytes below 0x80 as a space, the rest as `#`.
pub open spec fn chat_display_byte(b: u8) -> u8 {
    if (0x21 <= b && b <= 0x7E) || b == 0x20 {
        b
    } else if b >= 0x80 {
        0x23
    } else {
        0x20
    }
}

/// The first `limit` bytes of `bytes` as shown in the shell.
pub fn chat_display(bytes: &[u8], limit: usize) -> (r: Vec<u8>)
    ensures
        r@.len() == (if bytes@.len() < limit { bytes@.len() } else { limit as nat }),
        forall|i: int| 0 <= i < r@.len() ==> r@[i] == chat_display_byte(#[trigger] bytes@[i]),
{
    let n = if bytes.len() < limit { bytes.len() } else { limit };
    let mut out: Vec<u8> = Vec::new();
    let mut i: usize = 0;
    while i < n
        invariant
            n <= bytes@.len(),
            i <= n,
            out@.len() == i,
            forall|k: int| 0 <= k < i ==> out@[k] == chat_display_byte(#[trigger] bytes@[k]),
        decreases n - i,
    {
        let b = bytes[i];
        let shown = if (0x21 <= b && b <= 0x7E) || b == 0x20 {
            b
        } else if b >= 0x80 {
            0x23
        } else {
            0x20
        };
        out.push(shown);
        i = i + 1;
    }
    out
}

} // verus!

verus! {

/// The lower-case word `w` occurs in `p` at `s`, ignoring the case of `p`.
pub open spec fn occurs_folded(p: Seq<u8>, w: Seq<u8>, s: int) -> bool {
    &&& 0 <= s
    &&& s + w.len() <= p.len()
    &&& forall|k: int| 0 <= k < w.len() ==> lower(#[trigger] p[s + k]) == w[k]
}

proof fn lemma_reply_words()
    ensures
        "graph".spec_bytes() == seq![0x67u8, 0x72u8, 0x61u8, 0x70u8, 0x68u8],
        "status".spec_bytes() == seq![0x73u8, 0x74u8, 0x61u8, 0x74u8, 0x75u8, 0x73u8],
        "cuda".spec_bytes() == seq![0x63u8, 0x75u8, 0x64u8, 0x61u8],
        "gpu".spec_bytes() == seq![0x67u8, 0x70u8, 0x75u8],
        "nvidia".spec_bytes() == seq![0x6eu8, 0x76u8, 0x69u8, 0x64u8, 0x69u8, 0x61u8],
        "net".spec_bytes() == seq![0x6eu8, 0x65u8, 0x74u8],
        "wifi".spec_bytes() == seq![0x77u8, 0x69u8, 0x66u8, 0x69u8],
        "network".spec_bytes() == seq![0x6eu8, 0x65u8, 0x74u8, 0x77u8, 0x6fu8, 0x72u8, 0x6bu8],
        "api".spec_bytes() == seq![0x61u8, 0x70u8, 0x69u8],
        "key".spec_bytes() == seq![0x6bu8, 0x65u8, 0x79u8],
{
    broadcast use vstd::string::group_string_axioms;
    reveal_strlit("graph");
    assert(vstd::string::is_ascii("graph"));
    assert("graph".spec_bytes() =~= seq![0x67u8, 0x72u8, 0x61u8, 0x70u8, 0x68u8]);
    reveal_strlit("status");
    assert(vstd::string::is_ascii("status"));
    assert("status".spec_bytes() =~= seq![0x73u8, 0x74u8, 0x61u8, 0x74u8, 0x75u8, 0x73u8]);
    reveal_strlit("cuda");
    assert(vstd::string::is_ascii("cuda"));
    assert("cuda".spec_bytes() =~= seq![0x63u8, 0x75u8, 0x64u8, 0x61u8]);
    reveal_strlit("gpu");
    assert(vstd::string::is_ascii("gpu"));
    assert("gpu".spec_bytes() =~= seq![0x67u8, 0x70u8, 0x75u8]);
    reveal_strlit("nvidia");
    assert(vstd::string::is_ascii("nvidia"));
    assert("nvidia".spec_bytes() =~= seq![0x6eu8, 0x76u8, 0x69u8, 0x64u8, 0x69u8, 0x61u8]);
    reveal_strlit("net");
    assert(vstd::string::is_ascii("net"));
    assert("net".spec_bytes() =~= seq![0x6eu8, 0x65u8, 0x74u8]);
    reveal_strlit("wifi");
    assert(vstd::string::is_ascii("wifi"));
    assert("wifi".spec_bytes() =~= seq![0x77u8, 0x69u8, 0x66u8, 0x69u8]);
    reveal_strlit("network");
    assert(vstd::string::is_ascii("network"));
    assert("network".spec_bytes() =~= seq![0x6eu8, 0x65u8, 0x74u8, 0x77u8, 0x6fu8, 0x72u8, 0x6bu8]);
    reveal_strlit("api");
    assert(vstd::string::is_ascii("api"));
    assert("api".spec_bytes() =~= seq![0x61u8, 0x70u8, 0x69u8]);
    reveal_strlit("key");
    assert(vstd::string::is_ascii("key"));
    assert("key".spec_bytes() =~= seq![0x6bu8, 0x65u8, 0x79u8]);
}

/// The lower-case word `w` occurs nowhere in `p`, ignoring case.
pub open spec fn absent_folded(p: Seq<u8>, w: Seq<u8>) -> bool {
    forall|t: int| !occurs_folded(p, w, t)
}

proof fn lemma_absent_not_mentioned(p: Seq<u8>, word: &str)
    requires
        word.spec_bytes().len() > 0,
        absent_folded(p, word.spec_bytes()),
    ensures
        !mentions(p, word),
{
    if mentions(p, word) {
        let t = choose|t: int| folded_at(p, word.spec_bytes(), t);
        assert(occurs_folded(p, word.spec_bytes(), t));
    }
}

proof fn lemma_present_mentioned(p: Seq<u8>, word: &str, s: int)
    requires
        word.spec_bytes().len() > 0,
        occurs_folded(p, word.spec_bytes(), s),
    ensures
        mentions(p, word),
{
    assert(folded_at(p, word.spec_bytes(), s));
}

/// With a prompt and an armed key, a prompt naming the graph or its status
/// (in any case) is answered with the status summary.
pub proof fn lemma_status_prompts_get_status(p: Seq<u8>, w: Seq<u8>, s: int)
    requires
        w == seq![0x67u8, 0x72u8, 0x61u8, 0x70u8, 0x68u8] || w == seq![0x73u8, 0x74u8, 0x61u8, 0x74u8, 0x75u8, 0x73u8],
        occurs_folded(p, w, s),
    ensures
        spec_chat_reply(p, true) == ChatReply::Status,
{
    lemma_reply_words();
    if w == seq![0x67u8, 0x72u8, 0x61u8, 0x70u8, 0x68u8] { lemma_present_mentioned(p, "graph", s); } else { lemma_present_mentioned(p, "status", s); }
}

/// A prompt naming the network or Wi-Fi, and none of the words answered
/// before it, gets the networking note.
pub proof fn lemma_net_prompts_get_net_note(p: Seq<u8>, w: Seq<u8>, s: int)
    requires
        w == seq![0x6eu8, 0x65u8, 0x74u8] || w == seq![0x77u8, 0x69u8, 0x66u8, 0x69u8] || w == seq![0x6eu8, 0x65u8, 0x74u8, 0x77u8, 0x6fu8, 0x72u8, 0x6bu8],
        occurs_folded(p, w, s),
        absent_folded(p, seq![0x67u8, 0x72u8, 0x61u8, 0x70u8, 0x68u8]), absent_folded(p, seq![0x73u8, 0x74u8, 0x61u8, 0x74u8, 0x75u8, 0x73u8]), absent_folded(p, seq![0x63u8, 0x75u8, 0x64u8, 0x61u8]),
        absent_folded(p, seq![0x67u8, 0x70u8, 0x75u8]), absent_folded(p, seq![0x6eu8, 0x76u8, 0x69u8, 0x64u8, 0x69u8, 0x61u8]),
    ensures
        spec_chat_reply(p, true) == ChatReply::Net,
{
    lemma_reply_words();
    lemma_absent_not_mentioned(p, "graph");
    lemma_absent_not_mentioned(p, "status");
    lemma_absent_not_mentioned(p, "cuda");
    lemma_absent_not_mentioned(p, "gpu");
    lemma_absent_not_mentioned(p, "nvidia");
    if w == seq![0x6eu8, 0x65u8, 0x74u8] { lemma_present_mentioned(p, "net", s); }
    else if w == seq![0x77u8, 0x69u8, 0x66u8, 0x69u8] { lemma_present_mentioned(p, "wifi", s); }
    else { lemma_present_mentioned(p, "network", s); }
}

/// A prompt about the API key, and none of the words answered before it,
/// gets the key note.
pub proof fn lemma_key_prompts_get_key_note(p: Seq<u8>, w: Seq<u8>, s: int)
    requires
        w == seq![0x61u8, 0x70u8, 0x69u8] || w == seq![0x6bu8, 0x65u8, 0x79u8],
        occurs_folded(p, w, s),
        absent_folded(p, seq![0x67u8, 0x72u8, 0x61u8, 0x70u8, 0x68u8]), absent_folded(p, seq![0x73u8, 0x74u8, 0x61u8, 0x74u8, 0x75u8, 0x73u8]), absent_folded(p, seq![0x63u8, 0x75u8, 0x64u8, 0x61u8]),
        absent_folded(p, seq![0x67u8, 0x70u8, 0x75u8]), absent_folded(p, seq![0x6eu8, 0x76u8, 0x69u8, 0x64u8, 0x69u8, 0x61u8]), absent_folded(p, seq![0x6eu8, 0x65u8, 0x74u8]),
        absent_folded(p, seq![0x77u8, 0x69u8, 0x66u8, 0x69u8]), absent_folded(p, seq![0x6eu8, 0x65u8, 0x74u8, 0x77u8, 0x6fu8, 0x72u8, 0x6bu8]),
    ensures
        spec_chat_reply(p, true) == ChatReply::ApiKey,
{
    lemma_reply_words();
    lemma_absent_not_mentioned(p, "graph");
    lemma_absent_not_mentioned(p, "status");
    lemma_absent_not_mentioned(p, "cuda");
    lemma_absent_not_mentioned(p, "gpu");
    lemma_absent_not_mentioned(p, "nvidia");
    lemma_absent_not_mentioned(p, "net");
    lemma_absent_not_mentioned(p, "wifi");
    lemma_absent_not_mentioned(p, "network");
    if w == seq![0x61u8, 0x70u8, 0x69u8] { lemma_present_mentioned(p, "api", s); } else { lemma_present_mentioned(p, "key", s); }
}

/// A non-empty prompt naming none of the answered words goes to the LLM
/// once a key is armed; without a key it is asked for.
pub proof fn lemma_other_prompts_go_to_llm(p: Seq<u8>)
    requires
        p.len() > 0,
        absent_folded(p, seq![0x67u8, 0x72u8, 0x61u8, 0x70u8, 0x68u8]), absent_folded(p, seq![0x73u8, 0x74u8, 0x61u8, 0x74u8, 0x75u8, 0x73u8]), absent_folded(p, seq![0x63u8, 0x75u8, 0x64u8, 0x61u8]),
        absent_folded(p, seq![0x67u8, 0x70u8, 0x75u8]), absent_folded(p, seq![0x6eu8, 0x76u8, 0x69u8, 0x64u8, 0x69u8, 0x61u8]), absent_folded(p, seq![0x6eu8, 0x65u8, 0x74u8]),
        absent_folded(p, seq![0x77u8, 0x69u8, 0x66u8, 0x69u8]), absent_folded(p, seq![0x6eu8, 0x65u8, 0x74u8, 0x77u8, 0x6fu8, 0x72u8, 0x6bu8]), absent_folded(p, seq![0x61u8, 0x70u8, 0x69u8]),
        absent_folded(p, seq![0x6bu8, 0x65u8, 0x79u8]),
    ensures
        spec_chat_reply(p, true) == ChatReply::Llm,
        spec_chat_reply(p, false) == ChatReply::NeedKey,
        spec_chat_reply(Seq::empty(), true) == ChatReply::NeedPrompt,
{
    lemma_reply_words();
    lemma_absent_not_mentioned(p, "graph");
    lemma_absent_not_mentioned(p, "status");
    lemma_absent_not_mentioned(p, "cuda");
    lemma_absent_not_mentioned(p, "gpu");
    lemma_absent_not_mentioned(p, "nvidia");
    lemma_absent_not_mentioned(p, "net");
    lemma_absent_not_mentioned(p, "wifi");
    lemma_absent_not_mentioned(p, "network");
    lemma_absent_not_mentioned(p, "api");
    lemma_absent_not_mentioned(p, "key");
}

/// A committed prompt that names CUDA, a GPU or NVIDIA (in any case) and
/// asks nothing of the graph or its status gets the CUDA bridge note once
/// a key is armed, never the LLM.
pub proof fn lemma_cuda_prompts_get_cuda_note(p: Seq<u8>, w: Seq<u8>, s: int)
    requires
        w == seq![0x63u8, 0x75u8, 0x64u8, 0x61u8] || w == seq![0x67u8, 0x70u8, 0x75u8]
            || w == seq![0x6Eu8, 0x76u8, 0x69u8, 0x64u8, 0x69u8, 0x61u8],
        occurs_folded(p, w, s),
        forall|t: int| !occurs_folded(p, seq![0x67u8, 0x72u8, 0x61u8, 0x70u8, 0x68u8], t),
        forall|t: int| !occurs_folded(p, seq![0x73u8, 0x74u8, 0x61u8, 0x74u8, 0x75u8, 0x73u8], t),
    ensures
        spec_chat_reply(p, true) == ChatReply::Cuda,
{
    lemma_reply_words();
    assert(p.len() > 0);
    assert(folded_at(p, w, s));
    assert(!mentions(p, "graph")) by {
        if mentions(p, "graph") {
            let t = choose|t: int| folded_at(p, "graph".spec_bytes(), t);
            assert(occurs_folded(p, seq![0x67u8, 0x72u8, 0x61u8, 0x70u8, 0x68u8], t));
        }
    }
    assert(!mentions(p, "status")) by {
        if mentions(p, "status") {
            let t = choose|t: int| folded_at(p, "status".spec_bytes(), t);
            assert(occurs_folded(p, seq![0x73u8, 0x74u8, 0x61u8, 0x74u8, 0x75u8, 0x73u8], t));
        }
    }
    if w == seq![0x63u8, 0x75u8, 0x64u8, 0x61u8] {
        assert(mentions(p, "cuda"));
    } else if w == seq![0x67u8, 0x70u8, 0x75u8] {
        assert(mentions(p, "gpu"));
    } else {
        assert(mentions(p, "nvidia"));
    }
}

} // verus!
