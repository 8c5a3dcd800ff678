//! The chat bridge plugin: single-line frames exchanged with a host bridge
//! over a serial link, the reply accumulator, and the chat input state.
//! The serial port itself is driven outside; these functions decide what
//! is sent and what is kept.

use vstd::prelude::*;
use vstd::string::StringSliceAdditionalSpecFns;

verus! {

/// Capacity of the user's message.
pub const MSG_BUF_SIZE: usize = 512;
/// Capacity of the accumulated reply.
pub const RESP_BUF_SIZE: usize = 4096;
/// Capacity of the stored API key.
pub const API_KEY_BUF: usize = 256;
/// Bytes a streamed key keeps: its length is counted in a byte that stops
/// at 255.
pub const API_KEY_MAX: usize = 255;
/// Bytes kept of a streamed model name.
pub const MODEL_MAX: usize = 64;
/// The API dialects the direct HTTP path speaks.
pub const API_OLLAMA: u8 = 0;
pub const API_OPENAI: u8 = 1;
pub const API_ANTHROPIC: u8 = 2;

/// Sent to the bridge with the user's message.
pub const FRAME_CHAT: &'static str = "GCHAT:";
/// One line of reply text from the bridge.
pub const FRAME_RESP: &'static str = "GRESP:";
/// A tool request from the bridge.
pub const FRAME_TOOL: &'static str = "GTOOL:";
/// The end of the bridge's turn.
pub const FRAME_DONE: &'static str = "GDONE:";
/// The bridge's answer to the probe.
pub const FRAME_OKAY: &'static str = "GOKAY:";
/// A tool's result, sent back to the bridge.
pub const FRAME_RESULT: &'static str = "GRSLT:";
/// The reply stored when no bridge answered the probe.
pub const NOT_READY_TEXT: &'static str = "[CHAT] COM2 bridge not ready. Start chat-bridge.py on the host.";

/// `msg` with its carriage returns and line feeds left out.
pub open spec fn strip_crlf(msg: Seq<u8>) -> Seq<u8>
    decreases msg.len(),
{
    if msg.len() == 0 {
        Seq::empty()
    } else if msg.last() == 0x0A || msg.last() == 0x0D {
        strip_crlf(msg.drop_last())
    } else {
        strip_crlf(msg.drop_last()).push(msg.last())
    }
}

/// The bytes of one frame: the prefix, the message kept on one line, and
/// a line feed.
pub fn frame_line(prefix: &[u8], msg: &[u8]) -> (r: Vec<u8>)
    ensures
        r@ == prefix@ + strip_crlf(msg@) + seq![0x0Au8],
{
    let mut out: Vec<u8> = Vec::new();
    let mut i: usize = 0;
    while i < prefix.len()
        invariant
            i <= prefix@.len(),
            out@ == prefix@.take(i as int),
        decreases prefix@.len() - i,
    {
        out.push(prefix[i]);
        assert(prefix@.take(i + 1) =~= prefix@.take(i as int).push(prefix@[i as int]));
        i = i + 1;
    }
    assert(prefix@.take(prefix@.len() as int) =~= prefix@);
    let mut j: usize = 0;
    while j < msg.len()
        invariant
            j <= msg@.len(),
            out@ == prefix@ + strip_crlf(msg@.take(j as int)),
        decreases msg@.len() - j,
    {
        let b = msg[j];
        assert(msg@.take(j + 1).drop_last() =~= msg@.take(j as int));
        if b != 0x0A && b != 0x0D {
            out.push(b);
            assert(prefix@ + strip_crlf(msg@.take(j + 1)) =~= (prefix@ + strip_crlf(msg@.take(j as int))).push(b));
        }
        j = j + 1;
    }
    assert(msg@.take(msg@.len() as int) =~= msg@);
    out.push(0x0A);
    out
}

/// One byte read while assembling a line of at most `cap` bytes: a line
/// feed ends the line, a carriage return is dropped, other bytes are kept
/// while there is room.  True when the line has ended.
pub fn read_line_step(line: &mut Vec<u8>, cap: usize, b: u8) -> (done: bool)
    ensures
        done == (b == 0x0A),
        final(line)@ == (if b != 0x0A && b != 0x0D && old(line)@.len() < cap {
            old(line)@.push(b)
        } else {
            old(line)@
        }),
{
    if b == 0x0A {
        return true;
    }
    if b != 0x0D && line.len() < cap {
        line.push(b);
    }
    false
}

/// `t` begins with the bytes of `lit`.
pub open spec fn starts_with_lit(t: Seq<u8>, lit: &str) -> bool {
    lit.spec_bytes().len() <= t.len() && t.take(lit.spec_bytes().len() as int) == lit.spec_bytes()
}

fn starts_with_exec(t: &[u8], lit: &str) -> (r: bool)
    ensures
        r == starts_with_lit(t@, lit),
{
    let p = lit.as_bytes();
    if p.len() > t.len() {
        return false;
    }
    let mut i: usize = 0;
    while i < p.len()
        invariant
            p@ == lit.spec_bytes(),
            p@.len() <= t@.len(),
            i <= p@.len(),
            forall|k: int| 0 <= k < i ==> t@[k] == p@[k],
        decreases p@.len() - i,
    {
        if t[i] != p[i] {
            assert(t@.take(p@.len() as int)[i as int] != p@[i as int]);
            return false;
        }
        i = i + 1;
    }
    assert(t@.take(p@.len() as int) =~= p@);
    true
}

/// The bridge acknowledged the probe.
pub fn is_probe_ack(line: &[u8]) -> (r: bool)
    ensures
        r == starts_with_lit(line@, FRAME_OKAY),
{
    starts_with_exec(line, FRAME_OKAY)
}

/// The kinds of frames the bridge sends.
#[derive(Debug, Clone, Copy, PartialEq, Eq, Structural)]
pub enum BridgeFrame {
    Resp,
    Tool,
    Done,
    Other,
}

pub open spec fn spec_classify_frame(frame: Seq<u8>) -> BridgeFrame {
    if starts_with_lit(frame, FRAME_RESP) {
        BridgeFrame::Resp
    } else if starts_with_lit(frame, FRAME_TOOL) {
        BridgeFrame::Tool
    } else if starts_with_lit(frame, FRAME_DONE) {
        BridgeFrame::Done
    } else {
        BridgeFrame::Other
    }
}

/// Tell a bridge frame's kind by its prefix.
pub fn classify_frame(frame: &[u8]) -> (r: BridgeFrame)
    ensures
        r == spec_classify_frame(frame@),
{
    if starts_with_exec(frame, FRAME_RESP) {
        BridgeFrame::Resp
    } else if starts_with_exec(frame, FRAME_TOOL) {
        BridgeFrame::Tool
    } else if starts_with_exec(frame, FRAME_DONE) {
        BridgeFrame::Done
    } else {
        BridgeFrame::Other
    }
}

/// The tools the bridge may ask for.
#[derive(Debug, Clone, Copy, PartialEq, Eq, Structural)]
pub enum ToolKind {
    /// `ping:<ip>`: ask the network node to ping.
    Ping,
    /// `net:status` or `net`: ask the network node for a report.
    NetStatus,
    /// `clear`: clear the screen.
    Clear,
    Unknown,
}

pub open spec fn spec_classify_tool(tool: Seq<u8>) -> ToolKind {
    if starts_with_lit(tool, "ping:") {
        ToolKind::Ping
    } else if tool == "net:status".spec_bytes() || tool == "net".spec_bytes() {
        ToolKind::NetStatus
    } else if tool == "clear".spec_bytes() {
        ToolKind::Clear
    } else {
        ToolKind::Unknown
    }
}

fn eq_lit(t: &[u8], lit: &str) -> (r: bool)
    ensures
        r == (t@ == lit.spec_bytes()),
{
    let same_len = t.len() == lit.as_bytes().len();
    let r = same_len && starts_with_exec(t, lit);
    proof {
        if same_len {
            assert(t@.take(t@.len() as int) =~= t@);
        }
    }
    r
}

/// Tell which tool a `GTOOL:` frame asks for.
pub fn classify_tool(tool: &[u8]) -> (r: ToolKind)
    ensures
        r == spec_classify_tool(tool@),
{
    if starts_with_exec(tool, "ping:") {
        ToolKind::Ping
    } else if eq_lit(tool, "net:status") || eq_lit(tool, "net") {
        ToolKind::NetStatus
    } else if eq_lit(tool, "clear") {
        ToolKind::Clear
    } else {
        ToolKind::Unknown
    }
}

/// The result line reported to the bridge after a tool ran.
pub fn tool_result_text(kind: ToolKind) -> (r: &'static str)
    ensures
        kind == ToolKind::Ping ==> r == "ping dispatched to k-net; reply will appear in console",
        kind == ToolKind::NetStatus ==> r == "net status dispatched to k-net",
        kind == ToolKind::Clear ==> r == "screen cleared",
        kind == ToolKind::Unknown ==> r == "unknown tool",
{
    match kind {
        ToolKind::Ping => "ping dispatched to k-net; reply will appear in console",
        ToolKind::NetStatus => "net status dispatched to k-net",
        ToolKind::Clear => "screen cleared",
        ToolKind::Unknown => "unknown tool",
    }
}

/// The reply after one more `GRESP:` line: as much of `text` as leaves
/// room for a separating line feed, then the line feed while there is
/// room.
pub open spec fn resp_after_line(resp: Seq<u8>, text: Seq<u8>) -> Seq<u8> {
    let room = RESP_BUF_SIZE - resp.len();
    let n = if text.len() < room - 1 { text.len() as int } else if room >= 1 { room - 1 } else { 0 };
    let grown = resp + text.take(n);
    if grown.len() < RESP_BUF_SIZE { grown.push(0x0Au8) } else { grown }
}

/// The reply with its trailing line feeds removed.
pub open spec fn trim_newlines(resp: Seq<u8>) -> Seq<u8>
    decreases resp.len(),
{
    if resp.len() > 0 && resp.last() == 0x0A { trim_newlines(resp.drop_last()) } else { resp }
}

/// What to do after a bridge frame.
#[derive(Debug, Clone, Copy, PartialEq, Eq, Structural)]
pub enum FrameAction {
    /// Keep reading frames.
    Continue,
    /// Run the tool named from this offset of the frame on, then keep
    /// reading.
    RunTool(usize),
    /// The turn is over.
    Stop,
}

/// How a chat input was handled.
#[derive(Debug, Clone, Copy, PartialEq, Eq, Structural)]
pub enum ChatOutput {
    Spawned,
    Echo(u8),
    /// The reply is in `resp`.
    ResponseReady,
    Exited,
    /// The stored configuration (the API key) changed.
    ConfigChanged,
    NoOp,
}

/// The chat inputs.
#[derive(Debug, Clone, Copy, PartialEq, Eq, Structural)]
pub enum InputKind {
    Spawn,
    Byte(u8),
    Send,
    Exit,
    KeyBegin,
    KeyCommit,
    ModelBegin,
    ModelCommit,
    ApiType(u8),
    HttpMode(u8),
}

/// A data byte is chat input when it is printable, a tab or NUL.
pub fn data_input(byte: u8) -> (r: Option<InputKind>)
    ensures
        r == (if byte >= 0x20 || byte == 0x09 || byte == 0x00 { Some(InputKind::Byte(byte)) } else { None::<InputKind> }),
{
    if byte >= 0x20 || byte == 0x09 || byte == 0x00 {
        Some(InputKind::Byte(byte))
    } else {
        None
    }
}

/// What a send asks of the bridge link.
#[derive(Debug, Clone, PartialEq, Eq)]
pub enum SendAction {
    /// Nothing was typed.
    Nothing,
    /// No bridge: the reply holds the not-ready notice.
    NotReady,
    /// HTTP mode: send this message straight to the configured endpoint.
    DirectHttp(Vec<u8>),
    /// Write this frame to the bridge and collect its turn.
    Bridge(Vec<u8>),
}

/// The chat plugin's state.
pub struct ChatState {
    pub console_target: u64,
    pub net_target: u64,
    /// 1 when the bridge answered the probe.
    pub com2_ready: u8,
    pub input: Vec<u8>,
    pub resp: Vec<u8>,
    pub api_key: Vec<u8>,
    /// Data bytes go to the API key (between `KeyBegin` and `KeyCommit`).
    pub key_streaming: bool,
    /// The model name, streamed between `ModelBegin` and `ModelCommit`.
    pub model: Vec<u8>,
    /// Data bytes go to the model name.
    pub model_streaming: bool,
    /// `API_OLLAMA`, `API_OPENAI` or `API_ANTHROPIC`.
    pub api_type: u8,
    /// 1: messages go out over direct HTTP, 0: over the bridge.
    pub http_mode: u8,
}

impl ChatState {
    pub open spec fn wf(&self) -> bool {
        &&& self.input@.len() <= MSG_BUF_SIZE
        &&& self.resp@.len() <= RESP_BUF_SIZE
        &&& self.api_key@.len() <= API_KEY_BUF
        &&& self.model@.len() <= MODEL_MAX
        &&& !(self.key_streaming && self.model_streaming)
    }

    pub fn new(console_target: u64, net_target: u64, com2_ready: bool) -> (r: Self)
        ensures
            r.wf(),
            r.console_target == console_target,
            r.net_target == net_target,
            r.com2_ready == (if com2_ready { 1u8 } else { 0u8 }),
            r.input@.len() == 0 && r.resp@.len() == 0 && r.api_key@.len() == 0 && r.model@.len() == 0,
            !r.key_streaming && !r.model_streaming,
            r.api_type == API_OLLAMA && r.http_mode == 0,
    {
        ChatState {
            console_target,
            net_target,
            com2_ready: if com2_ready { 1 } else { 0 },
            input: Vec::new(),
            resp: Vec::new(),
            api_key: Vec::new(),
            key_streaming: false,
            model: Vec::new(),
            model_streaming: false,
            api_type: API_OLLAMA,
            http_mode: 0,
        }
    }

    /// Start streaming a new API key: the stored key is cleared and data
    /// bytes go to it until `on_key_commit`.
    pub fn on_key_begin(&mut self) -> (r: ChatOutput)
        requires
            old(self).wf(),
        ensures
            final(self).wf(),
            r == ChatOutput::NoOp,
            final(self).api_key@.len() == 0,
            final(self).key_streaming && !final(self).model_streaming,
            final(self).input@ == old(self).input@ && final(self).resp@ == old(self).resp@,
            final(self).model@ == old(self).model@,
    {
        self.api_key = Vec::new();
        self.key_streaming = true;
        self.model_streaming = false;
        ChatOutput::NoOp
    }

    /// End the key stream; the key streamed so far is kept.
    pub fn on_key_commit(&mut self) -> (r: ChatOutput)
        requires
            old(self).wf(),
        ensures
            final(self).wf(),
            r == ChatOutput::ConfigChanged,
            !final(self).key_streaming && !final(self).model_streaming,
            final(self).api_key@ == old(self).api_key@,
            final(self).model@ == old(self).model@,
            final(self).input@ == old(self).input@ && final(self).resp@ == old(self).resp@,
    {
        self.key_streaming = false;
        self.model_streaming = false;
        ChatOutput::ConfigChanged
    }

    /// Start streaming a model name: the stored name is cleared and data
    /// bytes go to it until `on_model_commit`.
    pub fn on_model_begin(&mut self) -> (r: ChatOutput)
        requires
            old(self).wf(),
        ensures
            final(self).wf(),
            r == ChatOutput::NoOp,
            final(self).model@.len() == 0,
            final(self).model_streaming && !final(self).key_streaming,
            final(self).api_key@ == old(self).api_key@,
            final(self).input@ == old(self).input@ && final(self).resp@ == old(self).resp@,
    {
        self.model = Vec::new();
        self.model_streaming = true;
        self.key_streaming = false;
        ChatOutput::NoOp
    }

    /// End the model-name stream; the name streamed so far is kept.
    pub fn on_model_commit(&mut self) -> (r: ChatOutput)
        requires
            old(self).wf(),
        ensures
            final(self).wf(),
            r == ChatOutput::ConfigChanged,
            !final(self).key_streaming && !final(self).model_streaming,
            final(self).model@ == old(self).model@,
            final(self).api_key@ == old(self).api_key@,
            final(self).input@ == old(self).input@ && final(self).resp@ == old(self).resp@,
    {
        self.key_streaming = false;
        self.model_streaming = false;
        ChatOutput::ConfigChanged
    }

    /// Pick the API dialect: OpenAI and Anthropic by their codes, Ollama
    /// for anything else.
    pub fn on_api_type(&mut self, t: u8) -> (r: ChatOutput)
        requires
            old(self).wf(),
        ensures
            final(self).wf(),
            r == ChatOutput::ConfigChanged,
            final(self).api_type == (if t == API_OPENAI { API_OPENAI } else if t == API_ANTHROPIC { API_ANTHROPIC }
                else { API_OLLAMA }),
            final(self).http_mode == old(self).http_mode,
            final(self).key_streaming == old(self).key_streaming && final(self).model_streaming == old(self).model_streaming,
            final(self).model@ == old(self).model@ && final(self).api_key@ == old(self).api_key@,
            final(self).input@ == old(self).input@ && final(self).resp@ == old(self).resp@,
    {
        self.api_type = if t == API_OPENAI { API_OPENAI } else if t == API_ANTHROPIC { API_ANTHROPIC } else { API_OLLAMA };
        ChatOutput::ConfigChanged
    }

    /// Switch direct HTTP on (any nonzero value) or off.
    pub fn on_http_mode(&mut self, m: u8) -> (r: ChatOutput)
        requires
            old(self).wf(),
        ensures
            final(self).wf(),
            r == ChatOutput::ConfigChanged,
            final(self).http_mode == (if m == 0 { 0u8 } else { 1u8 }),
            final(self).api_type == old(self).api_type,
            final(self).key_streaming == old(self).key_streaming && final(self).model_streaming == old(self).model_streaming,
            final(self).model@ == old(self).model@ && final(self).api_key@ == old(self).api_key@,
            final(self).input@ == old(self).input@ && final(self).resp@ == old(self).resp@,
    {
        self.http_mode = if m == 0 { 0 } else { 1 };
        ChatOutput::ConfigChanged
    }

    /// Append one `GRESP:` line's text to the reply.
    pub fn append_response_line(&mut self, text: &[u8])
        requires
            old(self).wf(),
        ensures
            final(self).wf(),
            final(self).resp@ == resp_after_line(old(self).resp@, text@),
            final(self).input@ == old(self).input@,
    {
        let room = RESP_BUF_SIZE - self.resp.len();
        let limit = if room >= 1 { room - 1 } else { 0 };
        let n = if text.len() < limit { text.len() } else { limit };
        let ghost start = self.resp@;
        let mut i: usize = 0;
        while i < n
            invariant
                n <= text@.len(),
                start.len() + n <= RESP_BUF_SIZE,
                i <= n,
                self.resp@ == start + text@.take(i as int),
                self.input@ == old(self).input@,
                self.input@.len() <= MSG_BUF_SIZE,
                self.api_key@.len() <= API_KEY_BUF,
                self.model@.len() <= MODEL_MAX,
                !(self.key_streaming && self.model_streaming),
            decreases n - i,
        {
            self.resp.push(text[i]);
            assert(start + text@.take(i + 1) =~= (start + text@.take(i as int)).push(text@[i as int]));
            i = i + 1;
        }
        if self.resp.len() < RESP_BUF_SIZE {
            self.resp.push(0x0A);
        }
    }

    /// Drop the reply's trailing line feeds.
    pub fn trim_response(&mut self)
        requires
            old(self).wf(),
        ensures
            final(self).wf(),
            final(self).resp@ == trim_newlines(old(self).resp@),
            final(self).input@ == old(self).input@,
    {
        while self.resp.len() > 0 && self.resp[self.resp.len() - 1] == 0x0A
            invariant
                self.wf(),
                trim_newlines(old(self).resp@) == trim_newlines(self.resp@),
                self.input@ == old(self).input@,
            decreases self.resp@.len(),
        {
            self.resp.pop();
        }
    }

    /// One frame of a turn while tools can be run.
    pub fn collect_frame(&mut self, frame: &[u8]) -> (r: FrameAction)
        requires
            old(self).wf(),
        ensures
            final(self).wf(),
            final(self).input@ == old(self).input@,
            spec_classify_frame(frame@) == BridgeFrame::Resp ==> r == FrameAction::Continue
                && final(self).resp@ == resp_after_line(old(self).resp@, frame@.skip(6)),
            spec_classify_frame(frame@) == BridgeFrame::Tool ==> r == FrameAction::RunTool(6) && final(self).resp@ == old(self).resp@,
            spec_classify_frame(frame@) == BridgeFrame::Done ==> r == FrameAction::Stop && final(self).resp@ == old(self).resp@,
            spec_classify_frame(frame@) == BridgeFrame::Other ==> r == FrameAction::Continue && final(self).resp@ == old(self).resp@,
    {
        proof { frame_prefix_lens(); }
        match classify_frame(frame) {
            BridgeFrame::Resp => {
                let text = vstd::slice::slice_subrange(frame, 6, frame.len());
                assert(text@ =~= frame@.skip(6));
                self.append_response_line(text);
                FrameAction::Continue
            },
            BridgeFrame::Tool => FrameAction::RunTool(6),
            BridgeFrame::Done => FrameAction::Stop,
            BridgeFrame::Other => FrameAction::Continue,
        }
    }

    /// One frame of a turn when tools cannot be run: tool frames are
    /// skipped.  False when the turn is over.
    pub fn collect_text_only(&mut self, frame: &[u8]) -> (more: bool)
        requires
            old(self).wf(),
        ensures
            final(self).wf(),
            final(self).input@ == old(self).input@,
            more == (spec_classify_frame(frame@) != BridgeFrame::Done),
            final(self).resp@ == (if spec_classify_frame(frame@) == BridgeFrame::Resp {
                resp_after_line(old(self).resp@, frame@.skip(6))
            } else {
                old(self).resp@
            }),
    {
        match self.collect_frame(frame) {
            FrameAction::Stop => false,
            _ => true,
        }
    }

    /// A typed byte: kept while the message has room, and echoed.
    pub fn on_byte(&mut self, b: u8) -> (r: ChatOutput)
        requires
            old(self).wf(),
        ensures
            final(self).wf(),
            final(self).resp@ == old(self).resp@,
            final(self).key_streaming == old(self).key_streaming,
            final(self).model_streaming == old(self).model_streaming,
            old(self).key_streaming ==> r == ChatOutput::NoOp && final(self).input@ == old(self).input@
                && final(self).model@ == old(self).model@
                && final(self).api_key@ == (if old(self).api_key@.len() < API_KEY_MAX { old(self).api_key@.push(b) }
                    else { old(self).api_key@ }),
            old(self).model_streaming ==> r == ChatOutput::NoOp && final(self).input@ == old(self).input@
                && final(self).api_key@ == old(self).api_key@
                && final(self).model@ == (if old(self).model@.len() < MODEL_MAX { old(self).model@.push(b) }
                    else { old(self).model@ }),
            !old(self).key_streaming && !old(self).model_streaming ==> r == ChatOutput::Echo(b)
                && final(self).api_key@ == old(self).api_key@ && final(self).model@ == old(self).model@
                && final(self).input@ == (if old(self).input@.len() < MSG_BUF_SIZE { old(self).input@.push(b) }
                    else { old(self).input@ }),
    {
        if self.key_streaming {
            if self.api_key.len() < API_KEY_MAX {
                self.api_key.push(b);
            }
            return ChatOutput::NoOp;
        }
        if self.model_streaming {
            if self.model.len() < MODEL_MAX {
                self.model.push(b);
            }
            return ChatOutput::NoOp;
        }
        if self.input.len() < MSG_BUF_SIZE {
            self.input.push(b);
        }
        ChatOutput::Echo(b)
    }

    /// Submit the message: the reply is cleared; without a bridge it holds
    /// the not-ready notice, with one the message goes out as a `GCHAT:`
    /// frame.  The message is cleared either way.
    pub fn on_send(&mut self) -> (r: SendAction)
        requires
            old(self).wf(),
        ensures
            final(self).wf(),
            old(self).input@.len() == 0 ==> r == SendAction::Nothing && final(self).resp@ == old(self).resp@
                && final(self).input@ == old(self).input@,
            old(self).input@.len() > 0 ==> final(self).input@.len() == 0,
            old(self).input@.len() > 0 && old(self).http_mode == 1 ==> final(self).resp@.len() == 0
                && (r matches SendAction::DirectHttp(m) && m@ == old(self).input@),
            old(self).input@.len() > 0 && old(self).http_mode != 1 && old(self).com2_ready == 0 ==> r == SendAction::NotReady
                && final(self).resp@ == NOT_READY_TEXT.spec_bytes(),
            old(self).input@.len() > 0 && old(self).http_mode != 1 && old(self).com2_ready != 0 ==> final(self).resp@.len() == 0
                && (r matches SendAction::Bridge(f) && f@ == FRAME_CHAT.spec_bytes() + strip_crlf(old(self).input@) + seq![0x0Au8]),
    {
        if self.input.len() == 0 {
            return SendAction::Nothing;
        }
        self.resp = Vec::new();
        let r = if self.http_mode == 1 {
            SendAction::DirectHttp(vstd::slice::slice_to_vec(self.input.as_slice()))
        } else if self.com2_ready == 0 {
            let t = NOT_READY_TEXT.as_bytes();
            proof { frame_prefix_lens(); }
            self.resp = vstd::slice::slice_to_vec(t);
            SendAction::NotReady
        } else {
            SendAction::Bridge(frame_line(FRAME_CHAT.as_bytes(), self.input.as_slice()))
        };
        self.input = Vec::new();
        r
    }

    /// Leave the chat: message and reply are cleared.
    pub fn on_exit(&mut self) -> (r: ChatOutput)
        requires
            old(self).wf(),
        ensures
            final(self).wf(),
            r == ChatOutput::Exited,
            final(self).input@.len() == 0 && final(self).resp@.len() == 0,
            !final(self).key_streaming && !final(self).model_streaming,
            final(self).api_key@ == old(self).api_key@,
            final(self).model@ == old(self).model@,
    {
        self.input = Vec::new();
        self.resp = Vec::new();
        self.key_streaming = false;
        self.model_streaming = false;
        ChatOutput::Exited
    }
}

/// The byte lengths of the frame prefixes and of the not-ready notice.
pub proof fn frame_prefix_lens()
    ensures
        FRAME_RESP.spec_bytes().len() == 6,
        FRAME_TOOL.spec_bytes().len() == 6,
        FRAME_DONE.spec_bytes().len() == 6,
        NOT_READY_TEXT.spec_bytes().len() <= RESP_BUF_SIZE,
{
    broadcast use vstd::string::group_string_axioms;
    reveal_strlit("GRESP:");
    reveal_strlit("GTOOL:");
    reveal_strlit("GDONE:");
    reveal_strlit("[CHAT] COM2 bridge not ready. Start chat-bridge.py on the host.");
    assert(vstd::string::is_ascii(FRAME_RESP));
    assert(vstd::string::is_ascii(FRAME_TOOL));
    assert(vstd::string::is_ascii(FRAME_DONE));
    assert(vstd::string::is_ascii(NOT_READY_TEXT));
}

} // verus!
