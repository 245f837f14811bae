//! The framing codec: canonical JSON encoding, decoding, the length
//! prefix, and the frame cap.

use carapace::codec::{MessageCodec, encode_message, parse_message, MAX_FRAME_SIZE};
use carapace::messages::{
    Message, CliRequest, CliResponse, HttpRequest, HttpResponse, SseEvent, ErrorMessage, PingPong,
};
use carapace::strmap::StrMap;
use carapace::util::str_to_chars;
use carapace::listener::{SseAccumulator, make_sse_event, Listener, ListenerAction};
use carapace::dispatch::{CliDispatcher, HttpDispatcher};
use carapace::policy::{PolicyConfig, ToolPolicy, CliPolicy, HttpPolicy, AuditConfig};
use carapace::connection::ConnectionState;
use carapace::ingress::{route_rpc_body, rpc_reply, sse_block, sse_stream_step, StreamStep};
use carapace::multiplexer::RecvOutcome;

fn strs(v: &[&str]) -> Vec<String> {
    v.iter().map(|s| s.to_string()).collect()
}

fn create_cli_request(id: &str) -> Message {
    Message::CliRequest(CliRequest {
        id: id.to_string(),
        tool: "gh".to_string(),
        argv: strs(&["pr", "list"]),
        env: StrMap::new(),
        stdin: None,
        cwd: "/".to_string(),
    })
}

fn roundtrip(msg: &Message) -> Message {
    let mut codec = MessageCodec;
    let mut buffer: Vec<u8> = Vec::new();
    codec.encode(msg, &mut buffer).expect("encode failed");
    codec
        .decode(&mut buffer)
        .expect("decode failed")
        .expect("no message")
}

#[test]
fn test_framing_encode_decode_roundtrip() {
    let msg = create_cli_request("test-001");
    let decoded = roundtrip(&msg);

    match (&msg, &decoded) {
        (Message::CliRequest(orig), Message::CliRequest(dec)) => {
            assert_eq!(orig.id, dec.id);
            assert_eq!(orig.tool, dec.tool);
            assert_eq!(orig.argv, dec.argv);
        }
        _ => panic!("Message type mismatch"),
    }
}

#[test]
fn test_framing_partial_read() {
    let mut codec = MessageCodec;
    let msg = create_cli_request("test-002");

    let mut buffer: Vec<u8> = Vec::new();
    codec.encode(&msg, &mut buffer).expect("encode failed");

    let mut partial: Vec<u8> = buffer[..4].to_vec();
    let result = codec.decode(&mut partial).expect("decode should not error");
    assert!(result.is_none(), "Should return None when incomplete");

    partial.extend_from_slice(&buffer[4..14]);
    let result = codec.decode(&mut partial).expect("decode should not error");
    assert!(result.is_none(), "Should still return None when incomplete");

    partial.extend_from_slice(&buffer[14..]);
    let result = codec.decode(&mut partial).expect("decode should not error");
    assert!(result.is_some(), "Should decode when complete");
}

#[test]
fn test_framing_various_sizes() {
    let test_sizes = vec![1, 10, 100, 1000, 10_000];

    for size in test_sizes {
        let mut argv = vec!["arg0".to_string()];
        argv.extend((0..size).map(|i| format!("arg-{}", i)));

        let msg = Message::CliRequest(CliRequest {
            id: "size-test".to_string(),
            tool: "tool".to_string(),
            argv,
            env: StrMap::new(),
            stdin: None,
            cwd: "/".to_string(),
        });

        let decoded = roundtrip(&msg);
        assert!(matches!(decoded, Message::CliRequest(_)));
    }
}

#[test]
fn test_length_prefix_overflow() {
    let mut buffer: Vec<u8> = Vec::new();
    let huge_length: u32 = MAX_FRAME_SIZE + 1;
    buffer.extend_from_slice(&huge_length.to_be_bytes());
    buffer.extend_from_slice(b"some data");

    let mut codec = MessageCodec;
    let result = codec.decode(&mut buffer);

    assert!(result.is_err(), "Should reject frames larger than the cap");
}

#[test]
fn test_zero_length_frame() {
    let mut buffer: Vec<u8> = vec![0, 0, 0, 0];

    let mut codec = MessageCodec;
    let result = codec.decode(&mut buffer);

    assert!(result.is_err(), "Zero-length payload should fail to deserialize");
}

#[test]
fn test_invalid_utf8_in_json() {
    let mut buffer: Vec<u8> = Vec::new();
    let invalid_json = b"Not valid JSON at all \xff\xfe";
    buffer.extend_from_slice(&(invalid_json.len() as u32).to_be_bytes());
    buffer.extend_from_slice(invalid_json);

    let mut codec = MessageCodec;
    let result = codec.decode(&mut buffer);

    assert!(result.is_err(), "Invalid JSON should cause error");
}

#[test]
fn test_multiple_messages_in_buffer() {
    let mut codec = MessageCodec;

    let msg1 = create_cli_request("first");
    let msg2 = create_cli_request("second");

    let mut buffer: Vec<u8> = Vec::new();
    codec.encode(&msg1, &mut buffer).expect("encode 1 failed");
    codec.encode(&msg2, &mut buffer).expect("encode 2 failed");

    let decoded1 = codec.decode(&mut buffer).expect("decode 1 failed").expect("no message 1");
    assert!(matches!(decoded1, Message::CliRequest(ref r) if r.id == "first"));

    let decoded2 = codec.decode(&mut buffer).expect("decode 2 failed").expect("no message 2");
    assert!(matches!(decoded2, Message::CliRequest(ref r) if r.id == "second"));

    assert_eq!(buffer.len(), 0);
}

#[test]
fn test_all_message_types_framing() {
    let mut headers = StrMap::new();
    headers.insert("Content-Type".to_string(), "application/json".to_string());

    let mut env = StrMap::new();
    env.insert("HOME".to_string(), "/home/user".to_string());

    let messages = vec![
        Message::CliRequest(CliRequest {
            id: "cli-req".to_string(),
            tool: "gh".to_string(),
            argv: vec![],
            env,
            stdin: Some("input\nwith \"quotes\" and \\slashes\\".to_string()),
            cwd: "/".to_string(),
        }),
        Message::CliResponse(CliResponse {
            id: "cli-res".to_string(),
            exit_code: -7,
            stdout: "output".to_string(),
            stderr: "".to_string(),
        }),
        Message::HttpRequest(HttpRequest {
            id: "http-req".to_string(),
            tool: "signal-cli".to_string(),
            method: "POST".to_string(),
            path: "/api".to_string(),
            headers,
            body: None,
        }),
        Message::HttpResponse(HttpResponse {
            id: "http-res".to_string(),
            status: 200,
            headers: StrMap::new(),
            body: Some("{}".to_string()),
        }),
        Message::SseEvent(SseEvent {
            id: "sse".to_string(),
            tool: "signal-cli".to_string(),
            event: "message".to_string(),
            data: "{\"seq\":0}".to_string(),
        }),
        Message::Error(ErrorMessage {
            id: Some("err".to_string()),
            code: "DENIED".to_string(),
            message: "Policy denied this request".to_string(),
        }),
        Message::Error(ErrorMessage {
            id: None,
            code: "invalid_message".to_string(),
            message: "control \u{1} char".to_string(),
        }),
        Message::Ping(PingPong { id: "ping-1".to_string(), timestamp: 1707920000 }),
        Message::Pong(PingPong { id: "ping-1".to_string(), timestamp: 1707920000 }),
    ];

    for msg in messages {
        let text = encode_message(&msg);
        let chars = str_to_chars(&text);
        let back = parse_message(&chars).expect("canonical text parses");
        assert_eq!(encode_message(&back), text, "re-encoding reproduces the text");

        let decoded = roundtrip(&msg);
        assert_eq!(encode_message(&decoded), text);
    }
}

#[test]
fn test_message_enum_serialization() {
    let cli_req = create_cli_request("test");
    let json = encode_message(&cli_req);
    assert!(json.contains("\"type\":\"cli_request\""));

    let chars = str_to_chars(&json);
    let deserialized = parse_message(&chars).expect("deserialization failed");
    assert!(matches!(deserialized, Message::CliRequest(_)));
}

#[test]
fn test_sse_event_serialization_with_id() {
    let event = Message::SseEvent(SseEvent {
        id: "stream-001".to_string(),
        tool: "signal-cli".to_string(),
        event: "message".to_string(),
        data: r#"{"type":"message","sender":"+15551234567"}"#.to_string(),
    });

    let json = encode_message(&event);
    assert!(json.contains("\"id\":\"stream-001\""));
}

#[test]
fn test_missing_optional_fields() {
    let json_no_stdin =
        r#"{"type":"cli_request","id":"test","tool":"gh","argv":[],"env":{},"cwd":"/"}"#;
    let chars = str_to_chars(json_no_stdin);
    let msg = parse_message(&chars).expect("deserialization failed");
    match msg {
        Message::CliRequest(req) => assert_eq!(req.stdin, None),
        _ => panic!("wrong variant"),
    }

    let json_no_body = r#"{"type":"http_request","id":"test","tool":"signal-cli","method":"GET","path":"/","headers":{}}"#;
    let chars = str_to_chars(json_no_body);
    let msg = parse_message(&chars).expect("deserialization failed");
    match msg {
        Message::HttpRequest(req) => assert_eq!(req.body, None),
        _ => panic!("wrong variant"),
    }
}

#[test]
fn test_malformed_json_missing_fields() {
    let malformed = r#"{"type":"cli_request","id":"test","tool":"gh"}"#;
    let chars = str_to_chars(malformed);
    assert!(parse_message(&chars).is_none(), "Should fail with missing required fields");
}

#[test]
fn test_wrong_field_types() {
    let malformed =
        r#"{"type":"cli_response","id":123,"exit_code":"not_a_number","stdout":"out","stderr":""}"#;
    let chars = str_to_chars(malformed);
    assert!(parse_message(&chars).is_none(), "Should fail with wrong types");
}

#[test]
fn test_exact_wire_text() {
    let msg = Message::Ping(PingPong { id: "ping-1".to_string(), timestamp: 42 });
    assert_eq!(
        encode_message(&msg),
        "{\"type\":\"ping\",\"id\":\"ping-1\",\"timestamp\":42}"
    );

    let msg = Message::CliResponse(CliResponse {
        id: "r".to_string(),
        exit_code: -1,
        stdout: "a\"b".to_string(),
        stderr: "".to_string(),
    });
    assert_eq!(
        encode_message(&msg),
        "{\"type\":\"cli_response\",\"id\":\"r\",\"exit_code\":-1,\"stdout\":\"a\\\"b\",\"stderr\":\"\"}"
    );
}

#[test]
fn test_duplicate_header_keys_rejected() {
    let text = r#"{"type":"http_request","id":"t","tool":"x","method":"GET","path":"/","headers":{"A":"1","A":"2"}}"#;
    let chars = str_to_chars(text);
    assert!(parse_message(&chars).is_none(), "Duplicate member keys are refused");
}

#[test]
fn test_frame_prefix_encodes_payload_length() {
    let mut codec = MessageCodec;
    let msg = create_cli_request("framed");
    let mut buffer: Vec<u8> = Vec::new();
    codec.encode(&msg, &mut buffer).expect("encode failed");

    let len = u32::from_be_bytes([buffer[0], buffer[1], buffer[2], buffer[3]]) as usize;
    assert_eq!(len, buffer.len() - 4, "One complete frame: prefix plus payload");
    assert_eq!(&buffer[4..], encode_message(&msg).as_bytes());
}

#[test]
fn test_sse_accumulator_blank_line_emits() {
    let mut acc = SseAccumulator::new();
    assert_eq!(acc.push_line("data: {\"seq\":0}"), None);
    assert_eq!(acc.push_line(""), Some("data: {\"seq\":0}".to_string()));
    assert_eq!(acc.push_line(""), None, "A blank line with nothing buffered emits nothing");
    assert_eq!(acc.push_line("data: a"), None);
    assert_eq!(acc.push_line("data: b"), None);
    assert_eq!(acc.push_line(""), Some("data: a\ndata: b".to_string()));
    assert_eq!(acc.finish(), None);

    let mut acc = SseAccumulator::new();
    assert_eq!(acc.push_line("tail"), None);
    assert_eq!(acc.finish(), Some("tail".to_string()), "Upstream close flushes the buffer");
}

#[test]
fn test_make_sse_event_shape() {
    let e = make_sse_event(&"id-1".to_string(), &"signal-cli".to_string(), "{\"seq\":2}".to_string());
    assert_eq!(e.id, "id-1");
    assert_eq!(e.tool, "signal-cli");
    assert_eq!(e.event, "message");
    assert_eq!(e.data, "{\"seq\":2}");
}

#[test]
fn test_listener_answers_ping_with_pong() {
    let mut listener = Listener::new(CliDispatcher::new(), HttpDispatcher::new());
    let ping = Message::Ping(PingPong { id: "ping-9".to_string(), timestamp: 1234 });
    match listener.handle_message(&ping, 0) {
        ListenerAction::RespondPong(Message::Pong(p)) => {
            assert_eq!(p.id, "ping-9");
            assert_eq!(p.timestamp, 1234);
        },
        _ => panic!("a ping is answered with a pong before any dispatch"),
    }
}

#[test]
fn test_listener_rejects_unknown_tool() {
    let mut listener = Listener::new(CliDispatcher::new(), HttpDispatcher::new());
    let req = create_cli_request("no-such-tool");
    match listener.handle_message(&req, 0) {
        ListenerAction::Reject(Message::Error(e)) => {
            assert_eq!(e.id, Some("no-such-tool".to_string()));
        },
        _ => panic!("an unknown tool is rejected"),
    }
}

#[test]
fn test_listener_runs_admitted_cli_request() {
    let mut tools = StrMap::new();
    let mut env_inject = StrMap::new();
    env_inject.insert("GH_TOKEN".to_string(), "from-policy".to_string());
    tools.insert(
        "gh".to_string(),
        ToolPolicy::Cli(CliPolicy {
            binary: "/usr/bin/gh".to_string(),
            argv_allow_patterns: strs(&["pr list*"]),
            argv_deny_patterns: vec![],
            env_inject,
            cwd_allowed: None,
            timeout_secs: 30,
            audit: AuditConfig::default(),
        }),
    );
    let policy = PolicyConfig { tools };
    let mut listener = Listener::new(
        CliDispatcher::with_policy(policy),
        HttpDispatcher::new(),
    );
    let req = create_cli_request("ok-1");
    match listener.handle_message(&req, 0) {
        ListenerAction::RunCli(cmd) => {
            assert_eq!(cmd.binary, "/usr/bin/gh");
            assert_eq!(cmd.argv, strs(&["pr", "list"]));
            assert_eq!(cmd.env.get("GH_TOKEN"), Some(&"from-policy".to_string()));
            assert_eq!(cmd.timeout_secs, 30);
        },
        _ => panic!("an admitted request becomes a command"),
    }
}

#[test]
fn test_http_plan_adds_content_type_and_timeout() {
    let mut tools = StrMap::new();
    tools.insert(
        "signal-cli".to_string(),
        ToolPolicy::Http(HttpPolicy {
            upstream: "http://127.0.0.1:18080".to_string(),
            jsonrpc_allow_methods: strs(&["send"]),
            jsonrpc_deny_methods: vec![],
            jsonrpc_param_filters: StrMap::new(),
            rate_limit: None,
            timeout_secs: None,
            audit: AuditConfig::default(),
        }),
    );
    let dispatcher = HttpDispatcher::with_policy(PolicyConfig { tools });

    let req = HttpRequest {
        id: "h1".to_string(),
        tool: "signal-cli".to_string(),
        method: "POST".to_string(),
        path: "/api/v1/rpc".to_string(),
        headers: StrMap::new(),
        body: Some(r#"{"jsonrpc":"2.0","id":"u1","method":"send","params":{}}"#.to_string()),
    };
    let plan = dispatcher.check_http_request(&req).expect("admitted");
    assert_eq!(plan.url, "http://127.0.0.1:18080/api/v1/rpc");
    assert_eq!(plan.timeout_secs, 30, "Default timeout when the policy names none");
    assert!(!plan.is_sse);
    assert_eq!(plan.headers.get("Content-Type"), Some(&"application/json".to_string()));

    let events = HttpRequest {
        id: "h2".to_string(),
        tool: "signal-cli".to_string(),
        method: "GET".to_string(),
        path: "/api/v1/events?timeout=30".to_string(),
        headers: StrMap::new(),
        body: None,
    };
    let plan = dispatcher.check_http_request(&events).expect("admitted");
    assert_eq!(plan.timeout_secs, 300, "The streaming path gets the streaming deadline");
    assert!(plan.is_sse);

    let denied = HttpRequest {
        id: "h3".to_string(),
        tool: "signal-cli".to_string(),
        method: "POST".to_string(),
        path: "/api/v1/rpc".to_string(),
        headers: StrMap::new(),
        body: Some(r#"{"jsonrpc":"2.0","id":"u1","method":"deleteAccount","params":{}}"#.to_string()),
    };
    assert!(dispatcher.check_http_request(&denied).is_err());

    let smuggle = HttpRequest {
        id: "h4".to_string(),
        tool: "signal-cli".to_string(),
        method: "POST".to_string(),
        path: "/api\r\nX-Injected: 1".to_string(),
        headers: StrMap::new(),
        body: None,
    };
    assert!(dispatcher.check_http_request(&smuggle).is_err());
}

#[test]
fn test_cli_happy_path_decision() {
    let mut tools = StrMap::new();
    tools.insert(
        "gh".to_string(),
        ToolPolicy::Cli(CliPolicy {
            binary: "/usr/bin/gh".to_string(),
            argv_allow_patterns: strs(&["pr list*"]),
            argv_deny_patterns: vec![],
            env_inject: StrMap::new(),
            cwd_allowed: None,
            timeout_secs: 30,
            audit: AuditConfig::default(),
        }),
    );
    let dispatcher = CliDispatcher::with_policy(PolicyConfig { tools });
    let req = CliRequest {
        id: "s-1".to_string(),
        tool: "gh".to_string(),
        argv: strs(&["pr", "list"]),
        env: StrMap::new(),
        stdin: None,
        cwd: "/".to_string(),
    };
    let cmd = dispatcher.check_cli_request(&req).expect("policy allows gh pr list");
    assert_eq!(cmd.id, "s-1");
    assert_eq!(cmd.binary, "/usr/bin/gh");
    let response = dispatcher.make_cli_response(&cmd.id, Some(0), "output".to_string(), String::new());
    assert_eq!(response.exit_code, 0);
    assert_eq!(response.stdout, "output");
    let killed = dispatcher.make_cli_response(&cmd.id, None, String::new(), String::new());
    assert_eq!(killed.exit_code, -1, "A killed process reports -1");
}

#[test]
fn test_env_merge_policy_wins() {
    let mut tools = StrMap::new();
    let mut env_inject = StrMap::new();
    env_inject.insert("GH_TOKEN".to_string(), "from-policy".to_string());
    tools.insert(
        "gh".to_string(),
        ToolPolicy::Cli(CliPolicy {
            binary: "/usr/bin/gh".to_string(),
            argv_allow_patterns: strs(&["*"]),
            argv_deny_patterns: vec![],
            env_inject,
            cwd_allowed: None,
            timeout_secs: 30,
            audit: AuditConfig::default(),
        }),
    );
    let dispatcher = CliDispatcher::with_policy(PolicyConfig { tools });
    let mut env = StrMap::new();
    env.insert("GH_TOKEN".to_string(), "from-request".to_string());
    env.insert("HOME".to_string(), "/home/user".to_string());
    let req = CliRequest {
        id: "s-2".to_string(),
        tool: "gh".to_string(),
        argv: strs(&["pr"]),
        env,
        stdin: None,
        cwd: "/".to_string(),
    };
    let cmd = dispatcher.check_cli_request(&req).expect("admitted");
    assert_eq!(cmd.env.get("GH_TOKEN"), Some(&"from-policy".to_string()), "Policy wins on conflicts");
    assert_eq!(cmd.env.get("HOME"), Some(&"/home/user".to_string()));
}

#[test]
fn test_connection_backoff_schedule() {
    let state = ConnectionState::new(5, 100);
    assert_eq!(state.backoff_for_attempt(0), 100);
    assert_eq!(state.backoff_for_attempt(1), 200);
    assert_eq!(state.backoff_for_attempt(4), 1600);
    assert_eq!(state.backoff_for_attempt(40), 3_600_000, "The backoff is capped");
}

#[test]
fn test_connection_health_transitions() {
    let mut state = ConnectionState::new(5, 100);
    assert!(!state.is_healthy());
    state.mark_connected();
    assert!(state.is_healthy());
    state.mark_disconnected();
    assert!(!state.is_healthy());
}

#[test]
fn test_route_rpc_body_strips_tool() {
    let body = r#"{"jsonrpc":"2.0","id":"u1","method":"send","tool":"signal-cli"}"#;
    let (tool, stripped) = route_rpc_body(body, "unknown").expect("valid JSON routes");
    assert_eq!(tool, "signal-cli");
    assert!(!stripped.contains("tool"), "The routing member is stripped");
    assert!(stripped.contains("\"method\":\"send\""));

    let (tool, _) = route_rpc_body(r#"{"jsonrpc":"2.0"}"#, "signal-cli").expect("valid");
    assert_eq!(tool, "signal-cli", "The endpoint default stands in");

    assert!(route_rpc_body("not json", "x").is_none());
}

#[test]
fn test_rpc_reply_mapping() {
    let (status, body) = rpc_reply(None);
    assert_eq!(status, 504);
    assert_eq!(body, "No response from server");

    let (status, body) = rpc_reply(Some(Message::HttpResponse(HttpResponse {
        id: "r".to_string(),
        status: 200,
        headers: StrMap::new(),
        body: Some("{\"ok\":true}".to_string()),
    })));
    assert_eq!(status, 200);
    assert_eq!(body, "{\"ok\":true}");

    let (status, body) = rpc_reply(Some(Message::Error(ErrorMessage {
        id: Some("r".to_string()),
        code: "rate_limited".to_string(),
        message: "too many".to_string(),
    })));
    assert_eq!(status, 429, "Rate limiting maps to 429");
    assert_eq!(body, "too many");

    let (status, _) = rpc_reply(Some(Message::Error(ErrorMessage {
        id: Some("r".to_string()),
        code: "request_timeout".to_string(),
        message: "late".to_string(),
    })));
    assert_eq!(status, 504);

    let (status, _) = rpc_reply(Some(Message::Error(ErrorMessage {
        id: Some("r".to_string()),
        code: "policy_denied".to_string(),
        message: "no".to_string(),
    })));
    assert_eq!(status, 403);

    let (status, _) = rpc_reply(Some(Message::Ping(PingPong {
        id: "p".to_string(),
        timestamp: 1,
    })));
    assert_eq!(status, 500);
}

#[test]
fn test_sse_stream_steps() {
    assert_eq!(sse_block("{\"seq\":1}"), "data: {\"seq\":1}\n\n");

    let step = sse_stream_step(RecvOutcome::Msg(Message::SseEvent(SseEvent {
        id: "s".to_string(),
        tool: "signal-cli".to_string(),
        event: "message".to_string(),
        data: "{\"seq\":0}".to_string(),
    })));
    match step {
        StreamStep::Emit(b) => assert_eq!(b, "data: {\"seq\":0}\n\n"),
        _ => panic!("an event is emitted"),
    }
    assert!(matches!(sse_stream_step(RecvOutcome::Closed), StreamStep::Done));
    assert!(matches!(sse_stream_step(RecvOutcome::Pending), StreamStep::Wait));
    assert!(matches!(
        sse_stream_step(RecvOutcome::Msg(Message::HttpResponse(HttpResponse {
            id: "s".to_string(),
            status: 200,
            headers: StrMap::new(),
            body: None,
        }))),
        StreamStep::Done
    ));
}

#[test]
fn test_listener_rate_limited_code() {
    let mut tools = StrMap::new();
    tools.insert(
        "gh".to_string(),
        ToolPolicy::Cli(CliPolicy {
            binary: "/usr/bin/gh".to_string(),
            argv_allow_patterns: strs(&["pr list*"]),
            argv_deny_patterns: vec![],
            env_inject: StrMap::new(),
            cwd_allowed: None,
            timeout_secs: 30,
            audit: AuditConfig::default(),
        }),
    );
    let mut limiter = carapace::rate_limiter::RateLimiter::new(1000, 60);
    limiter.set_limit("gh", 1, 60, 0);
    let mut listener = Listener::with_audit_and_rate_limit(
        CliDispatcher::with_policy(PolicyConfig { tools }),
        HttpDispatcher::new(),
        carapace::audit::AuditLogger::new(),
        limiter,
    );
    let req = create_cli_request("first");
    assert!(matches!(listener.handle_message(&req, 10), ListenerAction::RunCli(_)));
    let req2 = create_cli_request("second");
    match listener.handle_message(&req2, 11) {
        ListenerAction::Reject(Message::Error(e)) => {
            assert_eq!(e.code, "rate_limited");
            assert_eq!(e.id, Some("second".to_string()));
        },
        _ => panic!("the exhausted window rejects with the rate_limited code"),
    }
}

#[test]
fn test_cli_reject_codes() {
    let mut tools = StrMap::new();
    tools.insert(
        "gh".to_string(),
        ToolPolicy::Cli(CliPolicy {
            binary: "/usr/bin/gh".to_string(),
            argv_allow_patterns: strs(&["*"]),
            argv_deny_patterns: vec![],
            env_inject: StrMap::new(),
            cwd_allowed: None,
            timeout_secs: 30,
            audit: AuditConfig::default(),
        }),
    );
    tools.insert(
        "signal-cli".to_string(),
        ToolPolicy::Http(HttpPolicy {
            upstream: "http://127.0.0.1:18080".to_string(),
            jsonrpc_allow_methods: vec![],
            jsonrpc_deny_methods: vec![],
            jsonrpc_param_filters: StrMap::new(),
            rate_limit: None,
            timeout_secs: None,
            audit: AuditConfig::default(),
        }),
    );
    tools.insert(
        "narrow".to_string(),
        ToolPolicy::Cli(CliPolicy {
            binary: "/usr/bin/narrow".to_string(),
            argv_allow_patterns: strs(&["status*"]),
            argv_deny_patterns: vec![],
            env_inject: StrMap::new(),
            cwd_allowed: None,
            timeout_secs: 30,
            audit: AuditConfig::default(),
        }),
    );
    tools.insert(
        "badbin".to_string(),
        ToolPolicy::Cli(CliPolicy {
            binary: "../../etc/passwd".to_string(),
            argv_allow_patterns: strs(&["*"]),
            argv_deny_patterns: vec![],
            env_inject: StrMap::new(),
            cwd_allowed: None,
            timeout_secs: 30,
            audit: AuditConfig::default(),
        }),
    );
    tools.insert(
        "badpat".to_string(),
        ToolPolicy::Cli(CliPolicy {
            binary: "/usr/bin/tool".to_string(),
            argv_allow_patterns: strs(&["[invalid"]),
            argv_deny_patterns: vec![],
            env_inject: StrMap::new(),
            cwd_allowed: None,
            timeout_secs: 30,
            audit: AuditConfig::default(),
        }),
    );
    let dispatcher = CliDispatcher::with_policy(PolicyConfig { tools });

    let mk = |tool: &str, argv: &[&str]| CliRequest {
        id: "c".to_string(),
        tool: tool.to_string(),
        argv: strs(argv),
        env: StrMap::new(),
        stdin: None,
        cwd: "/".to_string(),
    };

    assert_eq!(dispatcher.check_cli_request(&mk("nope", &["x"])).unwrap_err().code, "tool_not_found");
    assert_eq!(
        dispatcher.check_cli_request(&mk("signal-cli", &["x"])).unwrap_err().code,
        "invalid_tool_type"
    );
    assert_eq!(dispatcher.check_cli_request(&mk("badpat", &["x"])).unwrap_err().code, "config_error");
    assert_eq!(
        dispatcher.check_cli_request(&mk("narrow", &["delete"])).unwrap_err().code,
        "policy_denied"
    );
    assert_eq!(dispatcher.check_cli_request(&mk("badbin", &["x"])).unwrap_err().code, "invalid_binary");
    assert_eq!(
        dispatcher.check_cli_request(&mk("gh", &["a;b"])).unwrap_err().code,
        "shell_injection"
    );
}
