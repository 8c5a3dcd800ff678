use gos_kernel::cuda_host::{sanitize_host_byte, CommitOutcome, CudaEffect, CudaHostState, CudaInput, LineBuf};

#[test]
fn host_frame_sanitizes_reserved_bytes() {
    assert_eq!(sanitize_host_byte(b'"'), b'_');
    assert_eq!(sanitize_host_byte(b'|'), b'_');
    assert_eq!(sanitize_host_byte(0xF0), b'#');
}

#[test]
fn line_buf_serializes_decimal_and_payload() {
    let mut line = LineBuf::<64>::new();
    line.push_str("id=");
    line.push_dec(42);
    line.push_str(" payload=\"");
    line.push_payload_ascii(b"a|b");
    line.push_str("\"");
    assert_eq!(line.as_slice(), b"id=42 payload=\"a_b\"");
}

#[test]
fn sanitize_keeps_printable_and_folds_whitespace() {
    assert_eq!(sanitize_host_byte(b'\\'), b'_');
    assert_eq!(sanitize_host_byte(b'A'), b'A');
    assert_eq!(sanitize_host_byte(b' '), b' ');
    assert_eq!(sanitize_host_byte(b'\t'), b' ');
    assert_eq!(sanitize_host_byte(b'\n'), b' ');
    assert_eq!(sanitize_host_byte(0x0B), b'#');
    assert_eq!(sanitize_host_byte(0x7F), b'#');
}

#[test]
fn line_buf_truncates_at_capacity() {
    let mut line = LineBuf::<4>::new();
    line.push_str("abc");
    line.push_dec(12345);
    assert_eq!(line.as_slice(), b"abc1");
    let mut zero = LineBuf::<8>::new();
    zero.push_dec(0);
    zero.push_dec(18446744073709551615);
    assert_eq!(zero.as_slice(), b"01844674");
}

#[test]
fn commit_builds_submit_frame_and_clears() {
    let mut st = CudaHostState::new(0, 77, 5);
    assert_eq!(st.console_target, 5);
    assert!(matches!(st.process(CudaInput::JobBegin), CudaEffect::Nothing));
    for b in b"a\"b|" {
        st.process(CudaInput::Byte(*b));
    }
    match st.process(CudaInput::JobCommit) {
        CudaEffect::Committed(CommitOutcome::Submit { frame, id, bytes, truncated }) => {
            assert_eq!(id, 1);
            assert_eq!(bytes, 4);
            assert_eq!(truncated, 0);
            assert_eq!(frame, b"@gos.cuda submit id=1 bytes=4 trunc=0 payload=\"a_b_\"\n".to_vec());
        }
        _ => panic!("expected a submitted frame"),
    }
    assert_eq!(st.jobs_submitted, 1);
    assert_eq!(st.last_payload_len, 4);
    assert!(st.capture.is_empty());
}

#[test]
fn commit_without_payload_or_bridge() {
    let mut st = CudaHostState::new(3, 0, 5);
    assert!(matches!(st.process(CudaInput::JobCommit), CudaEffect::Committed(CommitOutcome::EmptyPayload)));
    st.process(CudaInput::JobBegin);
    st.process(CudaInput::Byte(b'x'));
    assert!(matches!(st.process(CudaInput::JobCommit), CudaEffect::Committed(CommitOutcome::BridgeUnresolved)));
    assert_eq!(st.jobs_submitted, 0);
    assert_eq!(st.capture, b"x".to_vec());
}

#[test]
fn capture_truncates_and_reset_clears() {
    let mut st = CudaHostState::new(3, 9, 5);
    st.process(CudaInput::Byte(b'z'));
    assert!(st.capture.is_empty());
    st.process(CudaInput::JobBegin);
    for _ in 0..200 {
        st.process(CudaInput::Byte(b'q'));
    }
    assert_eq!(st.capture.len(), 160);
    assert_eq!(st.capture_truncated, 1);
    match st.process(CudaInput::Spawn) {
        CudaEffect::Online { hello: Some(h) } => assert_eq!(h, b"@gos.cuda hello vector=6.7.0.0 transport=serial\n".to_vec()),
        _ => panic!("expected hello"),
    }
    match st.process(CudaInput::Reset) {
        CudaEffect::Reset { frame: Some(f) } => assert_eq!(f, b"@gos.cuda reset submitted=0\n".to_vec()),
        _ => panic!("expected reset frame"),
    }
    assert_eq!(st.capture_truncated, 0);
    assert_eq!(st.capture_active, 0);
}
