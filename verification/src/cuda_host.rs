//! The CUDA host bridge plugin: it captures a job payload byte by byte and
//! frames it as one ASCII line for the host bridge on the serial port.

use vstd::prelude::*;
use vstd::string::StringSliceAdditionalSpecFns;
use crate::bytebuf::{append_capped, dec_digits, lemma_append_capped_assoc, lemma_append_capped_step};

verus! {

/// A line under construction: at most `N` bytes, extra bytes are dropped.
pub struct LineBuf<const N: usize> {
    bytes: Vec<u8>,
}

impl<const N: usize> View for LineBuf<N> {
    type V = Seq<u8>;

    closed spec fn view(&self) -> Seq<u8> {
        self.bytes@
    }
}

impl<const N: usize> LineBuf<N> {
    pub open spec fn wf(&self) -> bool {
        self@.len() <= N
    }

    pub fn new() -> (r: Self)
        ensures
            r.wf(),
            r@ == Seq::<u8>::empty(),
    {
        LineBuf { bytes: Vec::new() }
    }

    pub fn len(&self) -> (r: usize)
        ensures
            r == self@.len(),
    {
        self.bytes.len()
    }

    pub fn push_byte(&mut self, byte: u8)
        requires
            old(self).wf(),
        ensures
            final(self).wf(),
            final(self)@ == append_capped(old(self)@, seq![byte], N as nat),
    {
        if self.bytes.len() < N {
            self.bytes.push(byte);
        }
        proof {
            assert(old(self)@ + seq![byte] =~= old(self)@.push(byte));
            if old(self)@.len() >= N {
                assert((old(self)@ + seq![byte]).subrange(0, N as int) =~= old(self)@);
            }
        }
    }

    pub fn push_bytes(&mut self, bytes: &[u8])
        requires
            old(self).wf(),
        ensures
            final(self).wf(),
            final(self)@ == append_capped(old(self)@, bytes@, N as nat),
    {
        let ghost start = self@;
        let mut i: usize = 0;
        while i < bytes.len()
            invariant
                start.len() <= N,
                0 <= i <= bytes@.len(),
                self.wf(),
                self@ == append_capped(start, bytes@.subrange(0, i as int), N as nat),
            decreases bytes@.len() - i,
        {
            proof {
                lemma_append_capped_step(start, bytes@, i as int, N as nat);
            }
            let b = bytes[i];
            if self.bytes.len() < N {
                self.bytes.push(b);
            }
            i = i + 1;
        }
        assert(bytes@.subrange(0, bytes@.len() as int) =~= bytes@);
    }

    pub fn push_str(&mut self, text: &str)
        requires
            old(self).wf(),
        ensures
            final(self).wf(),
            final(self)@ == append_capped(old(self)@, text.spec_bytes(), N as nat),
    {
        self.push_bytes(text.as_bytes());
    }

    pub fn push_dec(&mut self, value: u64)
        requires
            old(self).wf(),
        ensures
            final(self).wf(),
            final(self)@ == append_capped(old(self)@, dec_digits(value as nat), N as nat),
        decreases value,
    {
        let digit: u8 = (48 + value % 10) as u8;
        if value >= 10 {
            self.push_dec(value / 10);
        }
        self.push_byte(digit);
        proof {
            let o = old(self)@;
            let cap = N as nat;
            if value >= 10 {
                let d = dec_digits((value / 10) as nat);
                let mid = append_capped(o, d, cap);
                assert(dec_digits(value as nat) =~= d.push(digit));
                lemma_append_capped_step(o, d.push(digit), d.len() as int, cap);
                assert(d.push(digit).subrange(0, d.len() as int) =~= d);
                assert(d.push(digit).subrange(0, d.len() + 1int) =~= d.push(digit));
                if mid.len() < cap {
                    assert(append_capped(mid, seq![digit], cap) =~= mid.push(digit));
                } else {
                    assert(append_capped(mid, seq![digit], cap) =~= mid);
                }
            } else {
                assert(dec_digits(value as nat) =~= seq![digit]);
            }
        }
    }

    pub fn into_vec(self) -> (r: Vec<u8>)
        ensures
            r@ == self@,
    {
        self.bytes
    }

    pub fn as_slice(&self) -> (r: &[u8])
        ensures
            r@ == self@,
    {
        self.bytes.as_slice()
    }
}


/// What the host frame carries in place of a payload byte: the frame's own
/// delimiters become `_`, printable ASCII and space stay, other whitespace
/// becomes a space and everything else `#`.
pub open spec fn spec_sanitize_host_byte(byte: u8) -> u8 {
    if byte == 0x22 || byte == 0x7C || byte == 0x5C {
        0x5F
    } else if (0x21 <= byte && byte <= 0x7E) || byte == 0x20 {
        byte
    } else if byte == 0x09 || byte == 0x0A || byte == 0x0C || byte == 0x0D {
        0x20
    } else {
        0x23
    }
}

pub open spec fn sanitized(bytes: Seq<u8>) -> Seq<u8> {
    Seq::new(bytes.len(), |i: int| spec_sanitize_host_byte(bytes[i]))
}

pub fn sanitize_host_byte(byte: u8) -> (r: u8)
    ensures
        r == spec_sanitize_host_byte(byte),
{
    if byte == 0x22 || byte == 0x7C || byte == 0x5C {
        0x5F
    } else if (byte >= 0x21 && byte <= 0x7E) || byte == 0x20 {
        byte
    } else if byte == 0x09 || byte == 0x0A || byte == 0x0C || byte == 0x0D {
        0x20
    } else {
        0x23
    }
}

impl<const N: usize> LineBuf<N> {
    pub fn push_payload_ascii(&mut self, bytes: &[u8])
        requires
            old(self).wf(),
        ensures
            final(self).wf(),
            final(self)@ == append_capped(old(self)@, sanitized(bytes@), N as nat),
    {
        let ghost start = self@;
        let ghost clean = sanitized(bytes@);
        let mut i: usize = 0;
        while i < bytes.len()
            invariant
                start.len() <= N,
                0 <= i <= bytes@.len(),
                clean == sanitized(bytes@),
                self.wf(),
                self@ == append_capped(start, clean.subrange(0, i as int), N as nat),
            decreases bytes@.len() - i,
        {
            proof {
                lemma_append_capped_step(start, clean, i as int, N as nat);
            }
            let b = sanitize_host_byte(bytes[i]);
            let ghost before = self@;
            self.push_byte(b);
            proof {
                if before.len() < N {
                    assert(append_capped(before, seq![b], N as nat) =~= before.push(b));
                } else {
                    assert(append_capped(before, seq![b], N as nat) =~= before);
                }
            }
            i = i + 1;
        }
        assert(clean.subrange(0, bytes@.len() as int) =~= clean);
    }
}


/// Largest job payload the bridge captures.
pub const MAX_JOB_BYTES: usize = 160;

/// This plugin's own graph address (`6.7.0.0`).
pub const NODE_VEC_L4: u64 = 6;
pub const NODE_VEC_L3: u64 = 7;
pub const NODE_VEC_L2: u64 = 0;
pub const NODE_VEC_OFFSET: u64 = 0;

pub open spec fn dot() -> Seq<u8> {
    seq![46u8]
}

/// `@gos.cuda hello vector=6.7.0.0 transport=serial\n`
pub open spec fn spec_hello_frame() -> Seq<u8> {
    append_capped(
        Seq::empty(),
        "@gos.cuda hello vector=".spec_bytes() + dec_digits(NODE_VEC_L4 as nat) + dot()
            + dec_digits(NODE_VEC_L3 as nat) + dot() + dec_digits(NODE_VEC_L2 as nat) + dot()
            + dec_digits(NODE_VEC_OFFSET as nat) + " transport=serial\n".spec_bytes(),
        96,
    )
}

/// `@gos.cuda reset submitted=<jobs>\n`
pub open spec fn spec_reset_frame(jobs: u32) -> Seq<u8> {
    append_capped(
        Seq::empty(),
        "@gos.cuda reset submitted=".spec_bytes() + dec_digits(jobs as nat) + "\n".spec_bytes(),
        80,
    )
}

/// `@gos.cuda submit id=<id> bytes=<n> trunc=<t> payload="<sanitized>"\n`
pub open spec fn spec_submit_frame(id: u32, payload: Seq<u8>, trunc: u8) -> Seq<u8> {
    append_capped(
        Seq::empty(),
        "@gos.cuda submit id=".spec_bytes() + dec_digits(id as nat) + " bytes=".spec_bytes()
            + dec_digits(payload.len()) + " trunc=".spec_bytes() + dec_digits(trunc as nat)
            + " payload=\"".spec_bytes() + sanitized(payload) + "\"\n".spec_bytes(),
        320,
    )
}

/// The bridge's state between events.
pub struct CudaHostState {
    pub console_target: u64,
    pub serial_target: u64,
    pub capture: Vec<u8>,
    pub capture_active: u8,
    pub capture_truncated: u8,
    pub jobs_submitted: u32,
    pub last_payload_len: u16,
}

/// What a commit did with the captured payload.
pub enum CommitOutcome {
    /// Nothing was captured: nothing is sent.
    EmptyPayload,
    /// No serial bridge was resolved at init: nothing is sent.
    BridgeUnresolved,
    /// The frame to send to the serial bridge, with the job number, the
    /// payload length and the truncation flag it reports.
    Submit { frame: Vec<u8>, id: u32, bytes: usize, truncated: u8 },
}

/// A decoded event for the bridge.
pub enum CudaInput {
    Spawn,
    JobBegin,
    JobCommit,
    Report,
    Reset,
    Byte(u8),
    Other,
}

/// What the caller has to send or print after an event.
pub enum CudaEffect {
    /// Print the online banner; send `hello` to the serial bridge if present.
    Online { hello: Option<Vec<u8>> },
    Committed(CommitOutcome),
    /// Print the status report of the (unchanged) state.
    Report,
    /// Send `frame` (if present) and print that the counters were reset.
    Reset { frame: Option<Vec<u8>> },
    Nothing,
}

impl CudaHostState {
    pub open spec fn wf(&self) -> bool {
        &&& self.capture@.len() <= MAX_JOB_BYTES
        &&& self.capture_active <= 1
        &&& self.capture_truncated <= 1
    }

    /// The state right after init: the console falls back to `fallback_console`
    /// when the console capability did not resolve (reported as 0).
    pub fn new(console_target: u64, serial_target: u64, fallback_console: u64) -> (r: Self)
        ensures
            r.wf(),
            r.console_target == (if console_target == 0 { fallback_console } else { console_target }),
            r.serial_target == serial_target,
            r.capture@ == Seq::<u8>::empty(),
            r.capture_active == 0,
            r.capture_truncated == 0,
            r.jobs_submitted == 0,
            r.last_payload_len == 0,
    {
        CudaHostState {
            console_target: if console_target == 0 { fallback_console } else { console_target },
            serial_target,
            capture: Vec::new(),
            capture_active: 0,
            capture_truncated: 0,
            jobs_submitted: 0,
            last_payload_len: 0,
        }
    }

    pub fn begin_capture(&mut self)
        ensures
            final(self).wf(),
            final(self).capture@ == Seq::<u8>::empty(),
            final(self).capture_active == 1,
            final(self).capture_truncated == 0,
            final(self).console_target == old(self).console_target,
            final(self).serial_target == old(self).serial_target,
            final(self).jobs_submitted == old(self).jobs_submitted,
            final(self).last_payload_len == old(self).last_payload_len,
    {
        self.capture = Vec::new();
        self.capture_active = 1;
        self.capture_truncated = 0;
    }

    pub fn clear_capture(&mut self)
        ensures
            final(self).wf(),
            final(self).capture@ == Seq::<u8>::empty(),
            final(self).capture_active == 0,
            final(self).capture_truncated == 0,
            final(self).console_target == old(self).console_target,
            final(self).serial_target == old(self).serial_target,
            final(self).jobs_submitted == old(self).jobs_submitted,
            final(self).last_payload_len == old(self).last_payload_len,
    {
        self.capture = Vec::new();
        self.capture_active = 0;
        self.capture_truncated = 0;
    }

    /// Outside a capture bytes are ignored; a full capture marks itself truncated.
    pub fn append_capture_byte(&mut self, byte: u8)
        requires
            old(self).wf(),
        ensures
            final(self).wf(),
            old(self).capture_active == 0 ==> *final(self) == *old(self),
            old(self).capture_active != 0 && old(self).capture@.len() < MAX_JOB_BYTES ==> {
                &&& final(self).capture@ == old(self).capture@.push(byte)
                &&& final(self).capture_truncated == old(self).capture_truncated
            },
            old(self).capture_active != 0 && old(self).capture@.len() >= MAX_JOB_BYTES ==> {
                &&& final(self).capture@ == old(self).capture@
                &&& final(self).capture_truncated == 1
            },
            final(self).capture_active == old(self).capture_active,
            final(self).console_target == old(self).console_target,
            final(self).serial_target == old(self).serial_target,
            final(self).jobs_submitted == old(self).jobs_submitted,
            final(self).last_payload_len == old(self).last_payload_len,
    {
        if self.capture_active == 0 {
            return;
        }
        if self.capture.len() < MAX_JOB_BYTES {
            self.capture.push(byte);
        } else {
            self.capture_truncated = 1;
        }
    }

    /// The hello line for the serial bridge, if one was resolved.
    pub fn hello_frame(&self) -> (r: Option<Vec<u8>>)
        ensures
            self.serial_target == 0 ==> r.is_none(),
            self.serial_target != 0 ==> r is Some && r->0@ == spec_hello_frame(),
    {
        if self.serial_target == 0 {
            return None;
        }
        let mut line = LineBuf::<96>::new();
        line.push_str("@gos.cuda hello vector=");
        let ghost acc = "@gos.cuda hello vector=".spec_bytes();
        line.push_dec(NODE_VEC_L4);
        proof { lemma_append_capped_assoc(Seq::empty(), acc, dec_digits(NODE_VEC_L4 as nat), 96); }
        let ghost acc = acc + dec_digits(NODE_VEC_L4 as nat);
        line.push_byte(46);
        proof { lemma_append_capped_assoc(Seq::empty(), acc, dot(), 96); }
        let ghost acc = acc + dot();
        line.push_dec(NODE_VEC_L3);
        proof { lemma_append_capped_assoc(Seq::empty(), acc, dec_digits(NODE_VEC_L3 as nat), 96); }
        let ghost acc = acc + dec_digits(NODE_VEC_L3 as nat);
        line.push_byte(46);
        proof { lemma_append_capped_assoc(Seq::empty(), acc, dot(), 96); }
        let ghost acc = acc + dot();
        line.push_dec(NODE_VEC_L2);
        proof { lemma_append_capped_assoc(Seq::empty(), acc, dec_digits(NODE_VEC_L2 as nat), 96); }
        let ghost acc = acc + dec_digits(NODE_VEC_L2 as nat);
        line.push_byte(46);
        proof { lemma_append_capped_assoc(Seq::empty(), acc, dot(), 96); }
        let ghost acc = acc + dot();
        line.push_dec(NODE_VEC_OFFSET);
        proof { lemma_append_capped_assoc(Seq::empty(), acc, dec_digits(NODE_VEC_OFFSET as nat), 96); }
        let ghost acc = acc + dec_digits(NODE_VEC_OFFSET as nat);
        line.push_str(" transport=serial\n");
        proof { lemma_append_capped_assoc(Seq::empty(), acc, " transport=serial\n".spec_bytes(), 96); }
        Some(line.into_vec())
    }

    /// The reset line for the serial bridge, if one was resolved.
    pub fn reset_frame(&self) -> (r: Option<Vec<u8>>)
        ensures
            self.serial_target == 0 ==> r.is_none(),
            self.serial_target != 0 ==> r is Some && r->0@ == spec_reset_frame(self.jobs_submitted),
    {
        if self.serial_target == 0 {
            return None;
        }
        let mut line = LineBuf::<80>::new();
        line.push_str("@gos.cuda reset submitted=");
        let ghost acc = "@gos.cuda reset submitted=".spec_bytes();
        line.push_dec(self.jobs_submitted as u64);
        proof { lemma_append_capped_assoc(Seq::empty(), acc, dec_digits(self.jobs_submitted as nat), 80); }
        let ghost acc = acc + dec_digits(self.jobs_submitted as nat);
        line.push_str("\n");
        proof { lemma_append_capped_assoc(Seq::empty(), acc, "\n".spec_bytes(), 80); }
        Some(line.into_vec())
    }

    /// Closes the capture.  With a payload and a resolved bridge the job
    /// counter advances, the frame is built and the capture is cleared.
    pub fn commit_capture(&mut self) -> (r: CommitOutcome)
        requires
            old(self).wf(),
        ensures
            final(self).wf(),
            final(self).console_target == old(self).console_target,
            final(self).serial_target == old(self).serial_target,
            old(self).capture@.len() == 0 ==> {
                &&& r is EmptyPayload
                &&& final(self).capture@ == old(self).capture@
                &&& final(self).capture_active == 0
                &&& final(self).capture_truncated == old(self).capture_truncated
                &&& final(self).jobs_submitted == old(self).jobs_submitted
                &&& final(self).last_payload_len == old(self).last_payload_len
            },
            old(self).capture@.len() != 0 && old(self).serial_target == 0 ==> {
                &&& r is BridgeUnresolved
                &&& final(self).capture@ == old(self).capture@
                &&& final(self).capture_active == 0
                &&& final(self).capture_truncated == old(self).capture_truncated
                &&& final(self).jobs_submitted == old(self).jobs_submitted
                &&& final(self).last_payload_len == old(self).last_payload_len
            },
            old(self).capture@.len() != 0 && old(self).serial_target != 0 ==> {
                let id = (old(self).jobs_submitted + 1) as u32;
                let id = if old(self).jobs_submitted == u32::MAX { 0u32 } else { id };
                &&& r matches CommitOutcome::Submit { frame, id: rid, bytes, truncated } && {
                    &&& rid == id
                    &&& bytes == old(self).capture@.len()
                    &&& truncated == old(self).capture_truncated
                    &&& frame@ == spec_submit_frame(id, old(self).capture@, old(self).capture_truncated)
                }
                &&& final(self).jobs_submitted == id
                &&& final(self).last_payload_len == old(self).capture@.len() as u16
                &&& final(self).capture@ == Seq::<u8>::empty()
                &&& final(self).capture_active == 0
                &&& final(self).capture_truncated == 0
            },
    {
        self.capture_active = 0;
        if self.capture.len() == 0 {
            return CommitOutcome::EmptyPayload;
        }
        if self.serial_target == 0 {
            return CommitOutcome::BridgeUnresolved;
        }
        self.jobs_submitted = self.jobs_submitted.wrapping_add(1);
        self.last_payload_len = self.capture.len() as u16;
        let id = self.jobs_submitted;
        let n = self.capture.len();
        let t = self.capture_truncated;
        let ghost payload = self.capture@;

        let mut line = LineBuf::<320>::new();
        line.push_str("@gos.cuda submit id=");
        let ghost acc = "@gos.cuda submit id=".spec_bytes();
        line.push_dec(id as u64);
        proof { lemma_append_capped_assoc(Seq::empty(), acc, dec_digits(id as nat), 320); }
        let ghost acc = acc + dec_digits(id as nat);
        line.push_str(" bytes=");
        proof { lemma_append_capped_assoc(Seq::empty(), acc, " bytes=".spec_bytes(), 320); }
        let ghost acc = acc + " bytes=".spec_bytes();
        line.push_dec(n as u64);
        proof { lemma_append_capped_assoc(Seq::empty(), acc, dec_digits(n as nat), 320); }
        let ghost acc = acc + dec_digits(n as nat);
        line.push_str(" trunc=");
        proof { lemma_append_capped_assoc(Seq::empty(), acc, " trunc=".spec_bytes(), 320); }
        let ghost acc = acc + " trunc=".spec_bytes();
        line.push_dec(t as u64);
        proof { lemma_append_capped_assoc(Seq::empty(), acc, dec_digits(t as nat), 320); }
        let ghost acc = acc + dec_digits(t as nat);
        line.push_str(" payload=\"");
        proof { lemma_append_capped_assoc(Seq::empty(), acc, " payload=\"".spec_bytes(), 320); }
        let ghost acc = acc + " payload=\"".spec_bytes();
        line.push_payload_ascii(self.capture.as_slice());
        proof { lemma_append_capped_assoc(Seq::empty(), acc, sanitized(payload), 320); }
        let ghost acc = acc + sanitized(payload);
        line.push_str("\"\n");
        proof { lemma_append_capped_assoc(Seq::empty(), acc, "\"\n".spec_bytes(), 320); }

        self.clear_capture();
        CommitOutcome::Submit { frame: line.into_vec(), id, bytes: n, truncated: t }
    }

    /// One event: update the state and say what to send or print.
    pub fn process(&mut self, input: CudaInput) -> (r: CudaEffect)
        requires
            old(self).wf(),
        ensures
            final(self).wf(),
            input is Spawn ==> *final(self) == *old(self) && (r matches CudaEffect::Online { hello }
                && (old(self).serial_target == 0 ==> hello.is_none())
                && (old(self).serial_target != 0 ==> hello is Some && hello->0@ == spec_hello_frame())),
            input is JobBegin ==> r is Nothing && final(self).capture@ == Seq::<u8>::empty()
                && final(self).capture_active == 1 && final(self).capture_truncated == 0
                && final(self).jobs_submitted == old(self).jobs_submitted,
            input is JobCommit ==> r is Committed,
            input is Report ==> r is Report && *final(self) == *old(self),
            input is Reset ==> (r matches CudaEffect::Reset { frame }
                && (old(self).serial_target == 0 ==> frame.is_none())
                && (old(self).serial_target != 0 ==> frame is Some
                    && frame->0@ == spec_reset_frame(old(self).jobs_submitted)))
                && final(self).capture@ == Seq::<u8>::empty() && final(self).capture_active == 0
                && final(self).capture_truncated == 0 && final(self).jobs_submitted == 0
                && final(self).last_payload_len == 0,
            input is Other ==> r is Nothing && *final(self) == *old(self),
            input matches CudaInput::Byte(b) ==> r is Nothing && (
                if old(self).capture_active == 0 {
                    *final(self) == *old(self)
                } else if old(self).capture@.len() < MAX_JOB_BYTES {
                    final(self).capture@ == old(self).capture@.push(b)
                        && final(self).capture_truncated == old(self).capture_truncated
                } else {
                    final(self).capture@ == old(self).capture@ && final(self).capture_truncated == 1
                }),
            input is Byte ==> final(self).capture_active == old(self).capture_active
                && final(self).jobs_submitted == old(self).jobs_submitted
                && final(self).last_payload_len == old(self).last_payload_len,
            input is JobCommit ==> final(self).capture_active == 0,
            final(self).console_target == old(self).console_target,
            final(self).serial_target == old(self).serial_target,
    {
        match input {
            CudaInput::Spawn => CudaEffect::Online { hello: self.hello_frame() },
            CudaInput::JobBegin => {
                self.begin_capture();
                CudaEffect::Nothing
            },
            CudaInput::JobCommit => CudaEffect::Committed(self.commit_capture()),
            CudaInput::Report => CudaEffect::Report,
            CudaInput::Reset => {
                let frame = self.reset_frame();
                self.clear_capture();
                self.jobs_submitted = 0;
                self.last_payload_len = 0;
                CudaEffect::Reset { frame }
            },
            CudaInput::Byte(b) => {
                self.append_capture_byte(b);
                CudaEffect::Nothing
            },
            CudaInput::Other => CudaEffect::Nothing,
        }
    }
}

} // verus!
