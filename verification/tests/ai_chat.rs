use gos_kernel::ai::{
    ai_buf_append, ai_buf_append_json, ai_buf_append_u32, ai_extract_json_str, ai_find_bytes, ascii_fold,
    build_ai_http_request, build_ai_ollama_body, chat_display, llm_reply, prompt_contains, AiAction, AiControl,
    AiState, ChatReply, ControlKind, LlmReply, LlmRequestError,
};
use gos_kernel::chat::{
    classify_frame, classify_tool, data_input, frame_line, is_probe_ack, read_line_step, tool_result_text,
    BridgeFrame, ChatOutput, ChatState, FrameAction, InputKind, SendAction, ToolKind, RESP_BUF_SIZE,
};

#[test]
fn buffer_append_fits_or_refuses() {
    let mut buf = [0u8; 8];
    let mut p = 0usize;
    assert!(ai_buf_append(&mut buf, &mut p, b"abc"));
    assert!(ai_buf_append_u32(&mut buf, &mut p, 407));
    assert_eq!(p, 6);
    assert!(!ai_buf_append(&mut buf, &mut p, b"xyz"));
    assert_eq!(p, 6);
    assert_eq!(&buf, b"abc407\0\0");
    assert!(!ai_buf_append_u32(&mut buf, &mut p, 123));
    assert!(ai_buf_append_u32(&mut buf, &mut p, 0));
    assert_eq!(&buf[..7], b"abc4070");
}

#[test]
fn json_escaping_stops_at_the_first_misfit() {
    let mut buf = [b'.'; 16];
    let mut p = 0usize;
    assert!(ai_buf_append_json(&mut buf, &mut p, b"a\"b\\c\nd\re"));
    assert_eq!(&buf[..p], b"a\\\"b\\\\c\\nd\\re");
    let mut small = [b'.'; 3];
    let mut q = 0usize;
    assert!(!ai_buf_append_json(&mut small, &mut q, b"ab\"c"));
    assert_eq!(q, 2);
    assert_eq!(&small, b"ab.");
}

#[test]
fn find_and_extract() {
    assert_eq!(ai_find_bytes(b"hello world", b"o w"), Some(4));
    assert_eq!(ai_find_bytes(b"hello", b""), Some(0));
    assert_eq!(ai_find_bytes(b"hi", b"hello"), None);
    assert_eq!(ai_find_bytes(b"aaab", b"ab"), Some(2));
    let json = br#"{"role":"assistant","content":"hi \"there\"","x":1}"#;
    let (s, e) = ai_extract_json_str(json, b"content").unwrap();
    assert_eq!(&json[s..e], br#"hi \"there\""#);
    assert_eq!(ai_extract_json_str(json, b"missing"), None);
    assert_eq!(ai_extract_json_str(br#"{"content":"open"#, b"content"), None);
}

#[test]
fn prompt_matching_folds_case() {
    assert_eq!(ascii_fold(b'G'), b'g');
    assert!(prompt_contains(b"Show GRAPH status", b"graph"));
    assert!(!prompt_contains(b"Show GRAPH", b"GRAPH"));
    assert!(!prompt_contains(b"abc", b""));
    assert!(!prompt_contains(b"ab", b"abc"));
}

#[test]
fn ollama_body_is_built_or_refused() {
    let mut buf = [0u8; 512];
    let n = build_ai_ollama_body(&mut buf, b"m1", b"say \"hi\"");
    let body = std::str::from_utf8(&buf[..n]).unwrap();
    assert!(body.starts_with("{\"model\":\"m1\",\"messages\":[{\"role\":\"system\",\"content\":\"You are a helpful"));
    assert!(body.ends_with("{\"role\":\"user\",\"content\":\"say \\\"hi\\\"\"}],\"stream\":false}"));
    let mut tiny = [0u8; 20];
    assert_eq!(build_ai_ollama_body(&mut tiny, b"m1", b"hi"), 0);
}

#[test]
fn http_request_is_built_or_refused() {
    let mut buf = [0u8; 256];
    let n = build_ai_http_request(&mut buf, b"/api/chat", [10, 0, 2, 2], 11434, b"X-A: 1\r\n", b"{}");
    assert_eq!(
        &buf[..n],
        b"POST /api/chat HTTP/1.0\r\nHost: 10.0.2.2:11434\r\nContent-Type: application/json\r\nX-A: 1\r\nContent-Length: 2\r\n\r\n{}"
    );
    let mut small = [0u8; 60];
    assert_eq!(build_ai_http_request(&mut small, b"/api/chat", [10, 0, 2, 2], 11434, b"", b"{}"), 0);
}

#[test]
fn key_and_prompt_capture() {
    let mut st = AiState::new(0, 9, 77);
    assert_eq!(st.console_target, 77);
    assert_eq!(st.on_control(AiControl::ApiBegin), AiAction::Nothing);
    for b in b"sk-1" {
        st.on_data(*b);
    }
    assert_eq!(st.api_key, b"sk-1".to_vec());
    assert_eq!(st.on_control(AiControl::ApiCommit), AiAction::KeyArmed);
    assert!(st.api_ready);
    st.on_data(b'z');
    assert!(st.prompt.is_empty());
    st.on_control(AiControl::ChatBegin);
    for b in b"GPU status?" {
        st.on_data(*b);
    }
    assert_eq!(st.on_control(AiControl::ChatCommit), AiAction::Reply(ChatReply::Status));
    assert!(!st.prompt_capture_active);
    assert_eq!(st.on_control(AiControl::Other), AiAction::Drain);
    st.on_control(AiControl::ChatBegin);
    for b in &[b'a'; 200] {
        st.on_data(*b);
    }
    assert_eq!(st.prompt.len(), 160);
}

fn replies(prompt: &[u8], armed: bool) -> ChatReply {
    let mut st = AiState::new(1, 2, 3);
    if armed {
        st.begin_api_capture();
        st.append_api_byte(b'k');
        st.commit_api_capture();
    }
    st.begin_chat_capture();
    for b in prompt {
        st.append_chat_byte(*b);
    }
    st.commit_chat_capture()
}

#[test]
fn chat_replies_by_topic() {
    assert_eq!(replies(b"", true), ChatReply::NeedPrompt);
    assert_eq!(replies(b"hello", false), ChatReply::NeedKey);
    assert_eq!(replies(b"run on the NVIDIA card", true), ChatReply::Cuda);
    assert_eq!(replies(b"wifi please", true), ChatReply::Net);
    assert_eq!(replies(b"my KEY", true), ChatReply::ApiKey);
    assert_eq!(replies(b"tell me a joke", true), ChatReply::Llm);
}

#[test]
fn counters_and_handoff() {
    let mut st = AiState::new(1, 2, 3);
    st.note_control_message(ControlKind::NodeUpsert);
    st.note_control_message(ControlKind::Other);
    assert_eq!((st.drained_messages, st.node_events, st.fault_events), (2, 1, 0));
    assert!(st.handoff_shell());
    assert!(!st.handoff_shell());
}

#[test]
fn llm_request_carries_prompt_and_key() {
    let mut st = AiState::new(1, 2, 3);
    st.begin_api_capture();
    for b in b"K1" {
        st.append_api_byte(*b);
    }
    st.commit_api_capture();
    assert_eq!(st.auth_header_bytes(), b"Authorization: Bearer K1\r\n".to_vec());
    st.begin_chat_capture();
    for b in b"hi" {
        st.append_chat_byte(*b);
    }
    let req = st.prepare_llm_request().unwrap();
    let text = std::str::from_utf8(&req).unwrap();
    assert!(text.starts_with("POST /api/chat HTTP/1.0\r\nHost: 10.0.2.2:11434\r\nContent-Type: application/json\r\nAuthorization: Bearer K1\r\nContent-Length: "));
    assert!(text.ends_with("\"content\":\"hi\"}],\"stream\":false}"));
    assert!(text.contains("\"model\":\"qwen2.5:7b\""));
    let no_key = AiState::new(1, 2, 3);
    assert!(no_key.auth_header_bytes().is_empty());
    let _ = LlmRequestError::BodyTooLarge;
}

#[test]
fn llm_reply_reads_content() {
    let resp = b"HTTP/1.0 200 OK\r\nX: y\r\n\r\n{\"message\":{\"content\":\"pong\"}}";
    match llm_reply(resp) {
        LlmReply::Content { start, end } => assert_eq!(&resp[start..end], b"pong"),
        other => panic!("{:?}", other),
    }
    assert_eq!(llm_reply(b"HTTP/1.0 500\r\n\r\n{}"), LlmReply::Raw { len: 2 });
    assert_eq!(llm_reply(b"abc"), LlmReply::Raw { len: 3 });
    assert_eq!(chat_display(b"a\tb\xC3", 10), b"a b#".to_vec());
    assert_eq!(chat_display(b"abcdef", 3), b"abc".to_vec());
}

#[test]
fn chat_frames_and_lines() {
    assert_eq!(frame_line(b"GCHAT:", b"hi\r\nthere"), b"GCHAT:hithere\n".to_vec());
    let mut line = Vec::new();
    assert!(!read_line_step(&mut line, 3, b'a'));
    assert!(!read_line_step(&mut line, 3, b'\r'));
    assert!(!read_line_step(&mut line, 3, b'b'));
    assert!(!read_line_step(&mut line, 3, b'c'));
    assert!(!read_line_step(&mut line, 3, b'd'));
    assert!(read_line_step(&mut line, 3, b'\n'));
    assert_eq!(line, b"abc".to_vec());
    assert!(is_probe_ack(b"GOKAY:v1"));
    assert!(!is_probe_ack(b"GOKA"));
    assert_eq!(classify_frame(b"GRESP:x"), BridgeFrame::Resp);
    assert_eq!(classify_frame(b"GTOOL:clear"), BridgeFrame::Tool);
    assert_eq!(classify_frame(b"GDONE:"), BridgeFrame::Done);
    assert_eq!(classify_frame(b"HELLO"), BridgeFrame::Other);
    assert_eq!(classify_tool(b"ping:10.0.2.2"), ToolKind::Ping);
    assert_eq!(classify_tool(b"net"), ToolKind::NetStatus);
    assert_eq!(classify_tool(b"net:status"), ToolKind::NetStatus);
    assert_eq!(classify_tool(b"clear"), ToolKind::Clear);
    assert_eq!(classify_tool(b"reboot"), ToolKind::Unknown);
    assert_eq!(tool_result_text(ToolKind::Clear), "screen cleared");
    assert_eq!(data_input(b'a'), Some(InputKind::Byte(b'a')));
    assert_eq!(data_input(b'\t'), Some(InputKind::Byte(b'\t')));
    assert_eq!(data_input(b'\n'), None);
}

#[test]
fn bridge_turn_accumulates_reply() {
    let mut st = ChatState::new(1, 2, true);
    assert_eq!(st.collect_frame(b"GRESP:hello"), FrameAction::Continue);
    assert_eq!(st.collect_frame(b"GTOOL:clear"), FrameAction::RunTool(6));
    assert_eq!(st.collect_frame(b"junk"), FrameAction::Continue);
    assert_eq!(st.collect_frame(b"GRESP:world"), FrameAction::Continue);
    assert_eq!(st.collect_frame(b"GDONE:"), FrameAction::Stop);
    assert_eq!(st.resp, b"hello\nworld\n".to_vec());
    st.trim_response();
    assert_eq!(st.resp, b"hello\nworld".to_vec());
    assert!(st.collect_text_only(b"GTOOL:x"));
    assert!(!st.collect_text_only(b"GDONE:"));
}

#[test]
fn reply_accumulator_is_bounded() {
    let mut st = ChatState::new(1, 2, true);
    let long = vec![b'x'; 5000];
    st.append_response_line(&long);
    assert_eq!(st.resp.len(), RESP_BUF_SIZE);
    assert_eq!(st.resp[RESP_BUF_SIZE - 1], b'\n');
    st.append_response_line(b"more");
    assert_eq!(st.resp.len(), RESP_BUF_SIZE);
}

#[test]
fn send_exit_and_typing() {
    let mut st = ChatState::new(1, 2, true);
    assert_eq!(st.on_send(), SendAction::Nothing);
    assert_eq!(st.on_byte(b'h'), ChatOutput::Echo(b'h'));
    st.on_byte(b'i');
    assert_eq!(st.on_send(), SendAction::Bridge(b"GCHAT:hi\n".to_vec()));
    assert!(st.input.is_empty());
    let mut off = ChatState::new(1, 2, false);
    off.on_byte(b'x');
    assert_eq!(off.on_send(), SendAction::NotReady);
    assert_eq!(off.resp, b"[CHAT] COM2 bridge not ready. Start chat-bridge.py on the host.".to_vec());
    assert_eq!(off.on_exit(), ChatOutput::Exited);
    assert!(off.resp.is_empty());
}

#[test]
fn api_key_streaming_between_begin_and_commit() {
    let mut st = ChatState::new(1, 2, true);
    st.api_key = b"old".to_vec();
    assert_eq!(st.on_key_begin(), ChatOutput::NoOp);
    assert!(st.api_key.is_empty());
    assert_eq!(st.on_byte(b'k'), ChatOutput::NoOp);
    assert_eq!(st.on_byte(b'1'), ChatOutput::NoOp);
    assert!(st.input.is_empty());
    assert_eq!(st.on_key_commit(), ChatOutput::ConfigChanged);
    assert_eq!(st.api_key, b"k1".to_vec());
    assert_eq!(st.on_byte(b'x'), ChatOutput::Echo(b'x'));
    assert_eq!(st.api_key, b"k1".to_vec());
    st.on_key_begin();
    for _ in 0..300 {
        st.on_byte(b'z');
    }
    assert_eq!(st.api_key.len(), 255);
}

#[test]
fn model_name_api_type_and_http_mode() {
    let mut st = ChatState::new(1, 2, true);
    assert_eq!(st.on_model_begin(), ChatOutput::NoOp);
    assert_eq!(st.on_byte(b'l'), ChatOutput::NoOp);
    assert_eq!(st.on_byte(b'3'), ChatOutput::NoOp);
    assert_eq!(st.on_model_commit(), ChatOutput::ConfigChanged);
    assert_eq!(st.model, b"l3".to_vec());
    assert!(st.input.is_empty());
    assert_eq!(st.on_byte(b'x'), ChatOutput::Echo(b'x'));
    st.on_model_begin();
    for _ in 0..100 {
        st.on_byte(b'm');
    }
    assert_eq!(st.model.len(), 64);
    st.on_key_begin();
    assert!(!st.model_streaming);
    st.on_exit();
    assert_eq!(st.on_api_type(2), ChatOutput::ConfigChanged);
    assert_eq!(st.api_type, 2);
    st.on_api_type(9);
    assert_eq!(st.api_type, 0);
    assert_eq!(st.on_http_mode(7), ChatOutput::ConfigChanged);
    assert_eq!(st.http_mode, 1);
    st.on_byte(b'h');
    st.on_byte(b'i');
    assert_eq!(st.on_send(), SendAction::DirectHttp(b"hi".to_vec()));
    assert!(st.input.is_empty());
    st.on_http_mode(0);
    st.on_byte(b'y');
    assert_eq!(st.on_send(), SendAction::Bridge(b"GCHAT:y\n".to_vec()));
}
