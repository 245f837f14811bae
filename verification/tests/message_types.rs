//! Message construction, id correlation and the record types around them.

use carapace::messages::{Message, CliRequest, CliResponse, HttpRequest, HttpResponse, SseEvent};
use carapace::strmap::StrMap;
use carapace::policy::PolicyConfig;
use carapace::dispatch::{CliDispatcher, HttpDispatcher};
use carapace::rate_limiter::current_timestamp;
use carapace::config::{AgentConfig, TcpServerConfig, HttpConfig, LoggingConfig};
use carapace::connection::ConnectionState;

fn strs(v: &[&str]) -> Vec<String> {
    v.iter().map(|s| s.to_string()).collect()
}

#[test]
fn test_message_id_extraction() {
    let msg = Message::CliRequest(CliRequest {
        id: "req-123".to_string(),
        tool: "gh".to_string(),
        argv: vec![],
        env: StrMap::new(),
        stdin: None,
        cwd: "/".to_string(),
    });

    assert_eq!(msg.id(), Some("req-123"));
}

#[test]
fn test_sse_event_with_id_correlation() {
    let event = Message::SseEvent(SseEvent {
        id: "sse-request-123".to_string(),
        tool: "signal-cli".to_string(),
        event: "message".to_string(),
        data: r#"{"from":"+15551234567","body":"Hello"}"#.to_string(),
    });

    assert_eq!(event.id(), Some("sse-request-123"));
}

#[test]
fn test_cli_request_creation() {
    let req = CliRequest {
        id: "test-001".to_string(),
        tool: "gh".to_string(),
        argv: strs(&["pr", "list"]),
        env: StrMap::new(),
        stdin: None,
        cwd: "/home/user".to_string(),
    };

    assert_eq!(req.id, "test-001");
    assert_eq!(req.tool, "gh");
    assert_eq!(req.argv.len(), 2);
}

#[test]
fn test_cli_request_with_large_argv() {
    let mut argv = vec!["cmd".to_string()];
    for i in 0..10000 {
        argv.push(format!("arg{}", i));
    }

    let req = CliRequest {
        id: "large".to_string(),
        tool: "test".to_string(),
        argv,
        env: StrMap::new(),
        stdin: None,
        cwd: "/".to_string(),
    };

    assert_eq!(req.argv.len(), 10001);
}

#[test]
fn test_cli_request_with_env_vars() {
    let mut env = StrMap::new();
    env.insert("PATH".to_string(), "/usr/bin".to_string());
    env.insert("HOME".to_string(), "/home/user".to_string());

    let req = CliRequest {
        id: "env-test".to_string(),
        tool: "gh".to_string(),
        argv: vec![],
        env,
        stdin: None,
        cwd: "/".to_string(),
    };

    assert_eq!(req.env.get("PATH"), Some(&"/usr/bin".to_string()));
    assert_eq!(req.env.get("HOME"), Some(&"/home/user".to_string()));
}

#[test]
fn connection_test_test_cli_request_with_stdin() {
    let stdin_data = "POST data here\nLine 2\n".to_string();

    let req = CliRequest {
        id: "stdin-test".to_string(),
        tool: "curl".to_string(),
        argv: strs(&["https://example.com"]),
        env: StrMap::new(),
        stdin: Some(stdin_data.clone()),
        cwd: "/".to_string(),
    };

    assert_eq!(req.stdin, Some(stdin_data));
}

#[test]
fn test_cwd_with_special_paths() {
    let paths = vec![
        "/home/user",
        "/tmp",
        "/",
        "/very/deep/nested/directory/structure/here",
        "/path with spaces",
    ];

    for path in paths {
        let req = CliRequest {
            id: "path-test".to_string(),
            tool: "test".to_string(),
            argv: vec![],
            env: StrMap::new(),
            stdin: None,
            cwd: path.to_string(),
        };

        assert_eq!(req.cwd, path);
    }
}

#[test]
fn test_tool_name_validation() {
    let valid_tools = vec!["gh", "op", "curl", "signal-cli", "my-custom-tool"];

    for tool in valid_tools {
        let req = CliRequest {
            id: "tool-test".to_string(),
            tool: tool.to_string(),
            argv: vec![],
            env: StrMap::new(),
            stdin: None,
            cwd: "/".to_string(),
        };

        assert_eq!(req.tool, tool);
    }
}

#[test]
fn test_unicode_in_argv_elements() {
    let req = CliRequest {
        id: "unicode".to_string(),
        tool: "gh".to_string(),
        argv: strs(&["issue", "create", "--title", "Test 中文 🎉 العربية"]),
        env: StrMap::new(),
        stdin: None,
        cwd: "/".to_string(),
    };

    assert_eq!(req.argv[3], "Test 中文 🎉 العربية");
}

#[test]
fn test_empty_env_vars() {
    let req = CliRequest {
        id: "empty-env".to_string(),
        tool: "test".to_string(),
        argv: vec![],
        env: StrMap::new(),
        stdin: None,
        cwd: "/".to_string(),
    };

    assert!(req.env.is_empty());
}

#[test]
fn test_null_bytes_in_argv() {
    let req = CliRequest {
        id: "null-test".to_string(),
        tool: "test".to_string(),
        argv: strs(&["arg\0hidden"]),
        env: StrMap::new(),
        stdin: None,
        cwd: "/".to_string(),
    };

    assert!(req.argv[0].contains('\0'));
}

#[test]
fn test_negative_exit_code_representation() {
    let neg_code: i32 = -1;
    assert!(neg_code < 0);
    assert_eq!(neg_code, -1);
}

#[test]
fn test_valid_json_rpc_request() {
    let mut h = StrMap::new();
    h.insert("Content-Type".to_string(), "application/json".to_string());

    let req = HttpRequest {
        id: "http-001".to_string(),
        tool: "signal-cli".to_string(),
        method: "POST".to_string(),
        path: "/api/v1/rpc".to_string(),
        headers: h,
        body: Some(r#"{"jsonrpc":"2.0","method":"send","params":{}}"#.to_string()),
    };

    assert_eq!(req.method, "POST");
    assert!(req.body.is_some());
}

#[test]
fn test_http_request_smuggling_attempt() {
    let req = HttpRequest {
        id: "smuggle".to_string(),
        tool: "signal-cli".to_string(),
        method: "POST".to_string(),
        path: "/api/v1/rpc\r\nHost: attacker.com".to_string(),
        headers: StrMap::new(),
        body: None,
    };

    assert!(req.path.contains("\r\n"));
}

#[test]
fn test_oversized_request_body() {
    let huge_body = "x".repeat(200 * 1024 * 1024);

    let req = HttpRequest {
        id: "huge".to_string(),
        tool: "signal-cli".to_string(),
        method: "POST".to_string(),
        path: "/api".to_string(),
        headers: StrMap::new(),
        body: Some(huge_body),
    };

    assert!(req.body.as_ref().unwrap().len() > 100 * 1024 * 1024);
}

#[test]
fn test_missing_content_type_header() {
    let req = HttpRequest {
        id: "no-ct".to_string(),
        tool: "signal-cli".to_string(),
        method: "POST".to_string(),
        path: "/api".to_string(),
        headers: StrMap::new(),
        body: Some("{}".to_string()),
    };

    assert!(!req.headers.contains_key("Content-Type"));
}

#[test]
fn test_http_response_creation() {
    let mut h = StrMap::new();
    h.insert("Content-Type".to_string(), "application/json".to_string());

    let resp = HttpResponse {
        id: "http-001".to_string(),
        status: 200,
        headers: h,
        body: Some(r#"{"result":"success"}"#.to_string()),
    };

    assert_eq!(resp.status, 200);
    assert!(resp.body.is_some());
}

#[test]
fn test_sse_response_detection() {
    let mut h = StrMap::new();
    h.insert("Content-Type".to_string(), "text/event-stream".to_string());
    h.insert("Cache-Control".to_string(), "no-cache".to_string());

    let resp = HttpResponse {
        id: "sse-001".to_string(),
        status: 200,
        headers: h,
        body: None,
    };

    let is_sse = resp
        .headers
        .get("Content-Type")
        .map(|ct: &String| ct.contains("event-stream"))
        .unwrap_or(false);

    assert!(is_sse);
    assert!(carapace::config::is_sse_response(&resp.headers));
}

#[test]
fn test_multiple_concurrent_http_requests() {
    let mut requests = Vec::new();

    for i in 0..100 {
        let req = HttpRequest {
            id: format!("concurrent-{}", i),
            tool: "signal-cli".to_string(),
            method: "POST".to_string(),
            path: "/api".to_string(),
            headers: StrMap::new(),
            body: Some(format!(r#"{{"id":{}}}"#, i)),
        };
        requests.push(req);
    }

    assert_eq!(requests.len(), 100);
}

#[test]
fn test_http_status_codes() {
    let status_codes = vec![200, 201, 204, 400, 401, 403, 404, 500, 502, 503];

    for status in status_codes {
        let resp = HttpResponse {
            id: format!("status-{}", status),
            status: status as u16,
            headers: StrMap::new(),
            body: None,
        };

        assert_eq!(resp.status, status as u16);
    }
}

#[test]
fn test_request_method_types() {
    let methods = vec!["GET", "POST", "PUT", "DELETE", "PATCH", "HEAD", "OPTIONS"];

    for method in methods {
        let req = HttpRequest {
            id: format!("method-{}", method),
            tool: "signal-cli".to_string(),
            method: method.to_string(),
            path: "/api".to_string(),
            headers: StrMap::new(),
            body: None,
        };

        assert_eq!(req.method, method);
    }
}

#[test]
fn test_path_with_query_parameters() {
    let req = HttpRequest {
        id: "query".to_string(),
        tool: "signal-cli".to_string(),
        method: "GET".to_string(),
        path: "/api/v1/messages?limit=10&offset=0&sort=date".to_string(),
        headers: StrMap::new(),
        body: None,
    };

    assert!(req.path.contains("?"));
    assert!(req.path.contains("limit=10"));
}

#[test]
fn test_response_headers_preservation() {
    let mut headers = StrMap::new();
    headers.insert("Content-Type".to_string(), "application/json".to_string());
    headers.insert("Cache-Control".to_string(), "no-cache".to_string());
    headers.insert("X-Custom-Header".to_string(), "value".to_string());

    let resp = HttpResponse {
        id: "headers".to_string(),
        status: 200,
        headers,
        body: None,
    };

    assert_eq!(resp.headers.len(), 3);
    assert_eq!(resp.headers.get("X-Custom-Header"), Some(&"value".to_string()));
}

#[test]
fn test_null_body_vs_empty_body() {
    let resp_null = HttpResponse {
        id: "null".to_string(),
        status: 200,
        headers: StrMap::new(),
        body: None,
    };

    let resp_empty = HttpResponse {
        id: "empty".to_string(),
        status: 200,
        headers: StrMap::new(),
        body: Some("".to_string()),
    };

    assert!(resp_null.body.is_none());
    assert!(resp_empty.body.is_some());
    assert_eq!(resp_empty.body.unwrap(), "");
}

#[test]
fn test_unicode_in_response_body() {
    let resp = HttpResponse {
        id: "unicode".to_string(),
        status: 200,
        headers: StrMap::new(),
        body: Some(r#"{"message":"你好 العربية 🎉"}"#.to_string()),
    };

    assert!(resp.body.is_some());
}

#[test]
fn test_large_response_body() {
    let large_body = "x".repeat(50 * 1024 * 1024);

    let resp = HttpResponse {
        id: "large".to_string(),
        status: 200,
        headers: StrMap::new(),
        body: Some(large_body),
    };

    assert!(resp.body.is_some());
}

#[test]
fn test_request_response_correlation() {
    let req_id = "audit-123";
    let req = Message::CliRequest(CliRequest {
        id: req_id.to_string(),
        tool: "gh".to_string(),
        argv: vec![],
        env: StrMap::new(),
        stdin: None,
        cwd: "/".to_string(),
    });

    let resp = Message::CliResponse(CliResponse {
        id: req_id.to_string(),
        exit_code: 0,
        stdout: "".to_string(),
        stderr: "".to_string(),
    });

    assert_eq!(req.id(), Some(req_id));
    assert_eq!(resp.id(), Some(req_id));
}

#[test]
fn test_sensitive_env_vars_not_leaked() {
    let req = CliRequest {
        id: "test".to_string(),
        tool: "gh".to_string(),
        argv: vec![],
        env: StrMap::new(),
        stdin: None,
        cwd: "/".to_string(),
    };

    assert!(req.env.is_empty());
}

#[test]
fn test_credentials_only_injected_by_server() {
    let client_request = CliRequest {
        id: "req".to_string(),
        tool: "gh".to_string(),
        argv: strs(&["pr", "list"]),
        env: StrMap::new(),
        stdin: None,
        cwd: "/".to_string(),
    };

    assert!(client_request.env.is_empty());
}

#[test]
fn test_cli_dispatcher_creation() {
    let _dispatcher = CliDispatcher::new();
}

#[test]
fn test_cli_dispatcher_creation_with_empty_policy() {
    let policy = PolicyConfig::new();
    let _dispatcher = CliDispatcher::with_policy(policy);
}

#[test]
fn test_missing_policy_file() {
    let config = PolicyConfig::new();
    assert!(config.tools.is_empty(), "Empty config means deny all");
}

#[test]
fn test_http_dispatcher_creation() {
    let _dispatcher = HttpDispatcher::new();
}

#[test]
fn test_current_timestamp() {
    let ts = current_timestamp();
    assert!(ts > 0);
}

#[test]
fn config_test_config_defaults() {
    let cfg = AgentConfig {
        server: TcpServerConfig {
            host: "localhost".to_string(),
            port: 8765,
            reconnect_attempts: carapace::config::default_reconnect_attempts(),
            reconnect_backoff_ms: carapace::config::default_reconnect_backoff_ms(),
        },
        cli_socket: "/tmp/carapace-agent.sock".to_string(),
        http: HttpConfig {
            port: 8080,
            listen_addr: carapace::config::default_listen_addr(),
            timeout_secs: carapace::config::default_timeout(),
            max_body_size: carapace::config::default_max_body_size(),
        },
        logging: LoggingConfig {
            level: carapace::config::default_log_level(),
            log_file: None,
            json: true,
        },
    };
    assert!(!cfg.server.host.is_empty());
    assert!(!cfg.cli_socket.is_empty());
    assert_eq!(carapace::config::default_window_secs(), 60);
    assert_eq!(carapace::config::default_keep_logs(), 10);
}

#[test]
fn test_config_defaults() {
    let rate = carapace::config::RateLimitingConfig {
        enabled: false,
        default_requests_per_window: carapace::config::default_requests_per_window(),
        default_window_secs: carapace::config::default_window_secs(),
        per_tool_limits: vec![],
    };
    assert_eq!(rate.default_window_secs, 60);
    assert_eq!(carapace::config::default_keep_logs(), 10);
    assert_eq!(carapace::config::default_max_log_size(), 100 * 1024 * 1024);
}

#[test]
fn test_connection_struct_creation() {
    let state = ConnectionState::new(5, 100);
    assert!(!state.is_healthy());
}

#[test]
fn test_cli_handler_compilation() {
    // The CLI ingress builds requests through the library's message types;
    // the socket handling itself lives outside it.
}

#[test]
fn test_http_proxy_state_type() {
    // The HTTP ingress shares the multiplexer and connection state by
    // handle; the routing itself lives outside the library.
}

#[test]
fn test_request_path_control_char_detection() {
    let req = HttpRequest {
        id: "smuggle".to_string(),
        tool: "signal-cli".to_string(),
        method: "POST".to_string(),
        path: "/api\r\nX-Injected: header".to_string(),
        headers: StrMap::new(),
        body: None,
    };

    assert!(req.path.contains('\r') || req.path.contains('\n'));
}

#[test]
fn test_oversized_body_detection() {
    let huge_body = "x".repeat(150 * 1024 * 1024);

    let req = HttpRequest {
        id: "huge".to_string(),
        tool: "signal-cli".to_string(),
        method: "POST".to_string(),
        path: "/api".to_string(),
        headers: StrMap::new(),
        body: Some(huge_body),
    };

    assert!(req.body.as_ref().unwrap().len() > 100 * 1024 * 1024);
}

#[test]
fn test_content_type_header_case_insensitive() {
    let mut headers = StrMap::new();
    headers.insert("content-type".to_string(), "application/json".to_string());

    let has_content_type = headers.get("content-type").is_some();

    assert!(has_content_type, "Should detect content-type regardless of case");
}
