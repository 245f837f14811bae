//! HTTP dispatch decisions: method lists, parameter filters, response
//! shapes and the rate-limit structure.

use carapace::validator::PolicyValidator;
use carapace::policy::ParamFilter;
use carapace::strmap::StrMap;
use carapace::messages::{HttpRequest, HttpResponse};
use carapace::rate_limiter::{RateLimiter, RateLimitWindow};

fn strs(v: &[&str]) -> Vec<String> {
    v.iter().map(|s| s.to_string()).collect()
}

fn one_filter(method: &str, field: &str, allow: &[&str], deny: &[&str]) -> StrMap<ParamFilter> {
    let mut filters = StrMap::new();
    filters.insert(
        method.to_string(),
        ParamFilter {
            field: field.to_string(),
            allow_patterns: strs(allow),
            deny_patterns: strs(deny),
        },
    );
    filters
}

#[test]
fn test_json_rpc_method_validation_allowed() {
    let allowed = strs(&["send", "receive"]);
    let denied: Vec<String> = vec![];

    let result = PolicyValidator::validate_jsonrpc_method("send", &allowed, &denied);
    assert!(result.is_ok());
}

#[test]
fn test_json_rpc_method_validation_denied() {
    let allowed = strs(&["send"]);
    let denied: Vec<String> = vec![];

    let result = PolicyValidator::validate_jsonrpc_method("deleteAllMessages", &allowed, &denied);
    assert!(result.is_err());
}

#[test]
fn test_json_rpc_method_in_deny_list() {
    let allowed = strs(&["send"]);
    let denied = strs(&["deleteEverything"]);

    let result = PolicyValidator::validate_jsonrpc_method("deleteEverything", &allowed, &denied);
    assert!(result.is_err());
}

#[test]
fn test_json_rpc_deny_takes_precedence() {
    let allowed = strs(&["send", "deleteEverything"]);
    let denied = strs(&["deleteEverything"]);

    let result = PolicyValidator::validate_jsonrpc_method("deleteEverything", &allowed, &denied);
    assert!(result.is_err(), "Deny should take precedence over allow");
}

#[test]
fn test_http_response_status_codes() {
    let statuses = vec![200, 201, 400, 401, 403, 404, 500, 502, 503];

    for status in statuses {
        let resp = HttpResponse {
            id: format!("test-{}", status),
            status: status as u16,
            headers: StrMap::new(),
            body: None,
        };

        assert_eq!(resp.status, status as u16);
    }
}

#[test]
fn test_http_response_headers_preservation() {
    let mut headers = StrMap::new();
    headers.insert("Content-Type".to_string(), "application/json".to_string());
    headers.insert("Cache-Control".to_string(), "no-cache".to_string());

    let resp = HttpResponse {
        id: "test".to_string(),
        status: 200,
        headers,
        body: None,
    };

    assert_eq!(resp.headers.len(), 2);
    assert!(resp.headers.contains_key("Content-Type"));
}

#[test]
fn test_http_response_smuggling_attempt() {
    let malicious_body = "HTTP/1.1 200 OK\r\nX-Injected: header";

    let resp = HttpResponse {
        id: "smuggle".to_string(),
        status: 200,
        headers: StrMap::new(),
        body: Some(malicious_body.to_string()),
    };

    assert!(resp.body.is_some());
}

#[test]
fn test_sse_stream_parsing() {
    let sse_data = "data: {\"event\":\"message\",\"from\":\"+15551234567\"}\n\n";

    assert!(sse_data.contains("data: "));
}

#[test]
fn test_rate_limiting_structure() {
    let limits = vec![
        carapace::policy::RateLimit { max_requests: 10, window_secs: 60 },
        carapace::policy::RateLimit { max_requests: 100, window_secs: 3600 },
        carapace::policy::RateLimit { max_requests: 0, window_secs: 1 },
    ];

    assert_eq!(limits[0].max_requests, 10);
    assert_eq!(limits[2].max_requests, 0);
}

#[test]
fn test_upstream_connection_handling() {
    struct UpstreamResult {
        connected: bool,
        error: Option<String>,
    }

    let failed = UpstreamResult {
        connected: false,
        error: Some("Connection refused".to_string()),
    };

    assert!(!failed.connected);
    assert!(failed.error.is_some());
}

#[test]
fn test_response_body_encoding() {
    let mut h = StrMap::new();
    h.insert(
        "Content-Type".to_string(),
        "application/json; charset=utf-8".to_string(),
    );

    let resp = HttpResponse {
        id: "encoding".to_string(),
        status: 200,
        headers: h,
        body: Some(r#"{"status":"ok","message":"你好"}"#.to_string()),
    };

    assert!(resp.body.is_some());
}

#[test]
fn test_http_request_timeout() {
    struct HttpContext {
        timeout_ms: u64,
        elapsed_ms: u64,
    }

    let ctx = HttpContext { timeout_ms: 5000, elapsed_ms: 6000 };

    assert!(ctx.elapsed_ms > ctx.timeout_ms, "Request should timeout");
}

#[test]
fn test_concurrent_http_requests_isolation() {
    let reqs = vec![
        HttpRequest {
            id: "req-1".to_string(),
            tool: "signal-cli".to_string(),
            method: "POST".to_string(),
            path: "/api".to_string(),
            headers: StrMap::new(),
            body: Some(r#"{"method":"send","to":"+15551234567"}"#.to_string()),
        },
        HttpRequest {
            id: "req-2".to_string(),
            tool: "signal-cli".to_string(),
            method: "POST".to_string(),
            path: "/api".to_string(),
            headers: StrMap::new(),
            body: Some(r#"{"method":"receive"}"#.to_string()),
        },
    ];

    assert_ne!(reqs[0].id, reqs[1].id);
}

#[test]
fn test_param_filter_allow_pattern() {
    let filters = one_filter("send", "recipientNumber", &["+1555*"], &[]);
    let body = r#"{"jsonrpc":"2.0","id":"1","method":"send","params":{"recipientNumber":"+15551234567"}}"#;

    let result = PolicyValidator::validate_jsonrpc_params("send", body, &filters);
    assert!(result.is_ok());
}

#[test]
fn test_param_filter_deny_pattern() {
    let filters = one_filter("send", "recipientNumber", &["+1*"], &["+15551234567"]);
    let body = r#"{"jsonrpc":"2.0","id":"1","method":"send","params":{"recipientNumber":"+15551234567"}}"#;

    let result = PolicyValidator::validate_jsonrpc_params("send", body, &filters);
    assert!(result.is_err());
}

#[test]
fn test_param_filter_deny_takes_precedence() {
    let filters = one_filter("send", "recipientNumber", &["+1555*"], &["+15551234567"]);
    let body = r#"{"jsonrpc":"2.0","id":"1","method":"send","params":{"recipientNumber":"+15551234567"}}"#;

    let result = PolicyValidator::validate_jsonrpc_params("send", body, &filters);
    assert!(result.is_err(), "Deny should take precedence over allow");
}

#[test]
fn test_param_filter_no_filter_for_method() {
    let filters: StrMap<ParamFilter> = StrMap::new();
    let body = r#"{"jsonrpc":"2.0","id":"1","method":"receive","params":{}}"#;

    let result = PolicyValidator::validate_jsonrpc_params("receive", body, &filters);
    assert!(result.is_ok(), "No filter = allow all");
}

#[test]
fn test_param_filter_missing_field() {
    let filters = one_filter("send", "recipientNumber", &["+1*"], &[]);
    let body = r#"{"jsonrpc":"2.0","id":"1","method":"send","params":{"message":"hello"}}"#;

    let result = PolicyValidator::validate_jsonrpc_params("send", body, &filters);
    assert!(result.is_err(), "Missing required field should fail");
}

#[test]
fn test_param_filter_multiple_allowed_patterns() {
    let filters = one_filter("send", "recipientNumber", &["+1555*", "+1777*", "+1888*"], &[]);

    let body1 = r#"{"jsonrpc":"2.0","id":"1","method":"send","params":{"recipientNumber":"+15559999999"}}"#;
    assert!(PolicyValidator::validate_jsonrpc_params("send", body1, &filters).is_ok());

    let body2 = r#"{"jsonrpc":"2.0","id":"1","method":"send","params":{"recipientNumber":"+17778888888"}}"#;
    assert!(PolicyValidator::validate_jsonrpc_params("send", body2, &filters).is_ok());

    let body3 = r#"{"jsonrpc":"2.0","id":"1","method":"send","params":{"recipientNumber":"+18889999999"}}"#;
    assert!(PolicyValidator::validate_jsonrpc_params("send", body3, &filters).is_ok());

    let body4 = r#"{"jsonrpc":"2.0","id":"1","method":"send","params":{"recipientNumber":"+19999999999"}}"#;
    assert!(PolicyValidator::validate_jsonrpc_params("send", body4, &filters).is_err());
}

#[test]
fn test_param_filter_allow_without_deny() {
    let filters = one_filter("send", "recipientNumber", &["+1555*"], &[]);

    let body1 = r#"{"jsonrpc":"2.0","id":"1","method":"send","params":{"recipientNumber":"+15551234567"}}"#;
    assert!(PolicyValidator::validate_jsonrpc_params("send", body1, &filters).is_ok());

    let body2 = r#"{"jsonrpc":"2.0","id":"1","method":"send","params":{"recipientNumber":"+18009999999"}}"#;
    assert!(PolicyValidator::validate_jsonrpc_params("send", body2, &filters).is_err());
}

#[test]
fn test_param_filter_deny_without_allow() {
    let filters = one_filter("send", "recipientNumber", &[], &["+15551234567", "+18005551212"]);

    let body1 = r#"{"jsonrpc":"2.0","id":"1","method":"send","params":{"recipientNumber":"+15551234567"}}"#;
    assert!(PolicyValidator::validate_jsonrpc_params("send", body1, &filters).is_err());

    let body2 = r#"{"jsonrpc":"2.0","id":"1","method":"send","params":{"recipientNumber":"+19999999999"}}"#;
    assert!(PolicyValidator::validate_jsonrpc_params("send", body2, &filters).is_ok());
}

#[test]
fn test_param_filter_wildcard_patterns() {
    let filters = one_filter("send", "recipientNumber", &["+1*"], &["*5551234*"]);

    let body1 = r#"{"jsonrpc":"2.0","id":"1","method":"send","params":{"recipientNumber":"+14155552222"}}"#;
    assert!(PolicyValidator::validate_jsonrpc_params("send", body1, &filters).is_ok());

    let body2 = r#"{"jsonrpc":"2.0","id":"1","method":"send","params":{"recipientNumber":"+15551234567"}}"#;
    assert!(PolicyValidator::validate_jsonrpc_params("send", body2, &filters).is_err());

    let body3 = r#"{"jsonrpc":"2.0","id":"1","method":"send","params":{"recipientNumber":"+441234567890"}}"#;
    assert!(PolicyValidator::validate_jsonrpc_params("send", body3, &filters).is_err());
}

#[test]
fn test_param_filter_malformed_json() {
    let filters = one_filter("send", "recipientNumber", &["+1*"], &[]);
    let body = "not json at all";

    let result = PolicyValidator::validate_jsonrpc_params("send", body, &filters);
    assert!(result.is_err());
}

#[test]
fn test_param_filter_missing_params_object() {
    let filters = one_filter("send", "recipientNumber", &["+1*"], &[]);
    let body = r#"{"jsonrpc":"2.0","id":"1","method":"send"}"#;

    let result = PolicyValidator::validate_jsonrpc_params("send", body, &filters);
    assert!(result.is_err());
}

#[test]
fn test_param_filter_integer_field_value() {
    let filters = one_filter("receive", "timeout", &[], &[]);
    let body = r#"{"jsonrpc":"2.0","id":"1","method":"receive","params":{"timeout":30}}"#;

    let result = PolicyValidator::validate_jsonrpc_params("receive", body, &filters);
    assert!(result.is_err());
}

#[test]
fn test_param_filter_array_first_element() {
    let filters = one_filter("send", "recipient", &["+1*"], &[]);
    let body = r#"{"jsonrpc":"2.0","id":"u1","method":"send","params":{"recipient":["+12025551234"],"message":"hi"}}"#;

    assert!(PolicyValidator::validate_jsonrpc_params("send", body, &filters).is_ok());

    let body_uk = r#"{"jsonrpc":"2.0","id":"u1","method":"send","params":{"recipient":["+442071234567"],"message":"hi"}}"#;
    let denied = PolicyValidator::validate_jsonrpc_params("send", body_uk, &filters);
    assert!(denied.is_err());
    assert!(denied.unwrap_err().message().contains("not in allow list"));
}

#[test]
fn test_rate_limit_allows_requests() {
    let mut limiter = RateLimiter::new(5, 60);

    for _ in 0..5 {
        assert!(limiter.check_request("test_tool").is_ok());
    }
}

#[test]
fn test_rate_limit_denies_after_max() {
    let mut limiter = RateLimiter::new(5, 60);

    for _ in 0..5 {
        let _ = limiter.check_request("test_tool");
    }

    assert!(limiter.check_request("test_tool").is_err());
}

#[test]
fn test_rate_limit_window_reset_at_boundary() {
    let mut w = RateLimitWindow::new(2, 10, 1000);
    assert!(w.check_and_increment(1000));
    assert!(w.check_and_increment(1005));
    assert!(!w.check_and_increment(1009));
    assert!(w.check_and_increment(1010), "Window resets at window_start + window_secs");
    assert_eq!(w.window_start, 1010);
    assert_eq!(w.requests, 1);
}

#[test]
fn test_per_tool_limits() {
    let mut limiter = RateLimiter::new(10, 60);

    limiter.set_limit("tool1", 2, 60, 0);

    assert!(limiter.check_request("tool1").is_ok());
    assert!(limiter.check_request("tool1").is_ok());
    assert!(limiter.check_request("tool1").is_err());

    for _ in 0..10 {
        assert!(limiter.check_request("tool2").is_ok());
    }
    assert!(limiter.check_request("tool2").is_err());
}

#[test]
fn test_window_expiry_exact() {
    let w = RateLimitWindow::new(3, 60, 100);
    assert!(!w.is_expired(100));
    assert!(!w.is_expired(159));
    assert!(w.is_expired(160));
    assert!(w.is_expired(1000));
}
