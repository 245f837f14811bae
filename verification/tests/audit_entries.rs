//! Audit records: structure, policy decisions, redaction, correlation.

use std::collections::HashMap;
use carapace::audit::AuditLogger;

struct AuditLog {
    tool: String,
    policy_result: String,
}

struct PolicyDecisionLog {
    decision: String,
    reason: String,
}

struct CliAuditLog {
    argv: Vec<String>,
    logged: bool,
}

struct ResponseSummary {
    exit_code: i32,
}

struct DenyAuditLog {
    policy_result: String,
    argv: Option<Vec<String>>,
}

struct CorrelatedLogs {
    events: Vec<String>,
}

struct HttpAuditLog {
    method: String,
}

struct QueryableLog {
    tool: String,
    policy_result: String,
}

struct SecurityAuditLog {
    policy_result: String,
    details: String,
}

fn strs(v: &[&str]) -> Vec<String> {
    v.iter().map(|s| s.to_string()).collect()
}

#[test]
fn test_audit_log_structure() {
    let log = AuditLog {
        tool: "gh".to_string(),
        policy_result: "allow".to_string(),
    };

    assert_eq!(log.tool, "gh");
    assert_eq!(log.policy_result, "allow");
}

#[test]
fn test_audit_log_all_requests_logged() {
    let mut logs = Vec::new();

    for i in 0..100 {
        logs.push(format!("request-{}", i));
    }

    assert_eq!(logs.len(), 100, "All requests should be logged");
}

#[test]
fn test_audit_log_policy_decision_logging() {
    let deny_log = PolicyDecisionLog {
        decision: "deny".to_string(),
        reason: "Pattern not in whitelist".to_string(),
    };

    assert_eq!(deny_log.decision, "deny");
    assert!(!deny_log.reason.is_empty());
}

#[test]
fn test_audit_sensitive_data_redaction() {
    let argv_with_token = strs(&["gh", "--token", "SECRET-REDACTED"]);

    let logger = AuditLogger::new();
    let redacted_argv = logger.redact_sensitive_args(&argv_with_token);

    assert_eq!(redacted_argv[2], "[REDACTED]");
    assert_eq!(redacted_argv[0], "gh");
}

#[test]
fn test_redact_token() {
    let logger = AuditLogger::new();
    let argv = strs(&["gh", "--token", "SECRET-REDACTED", "pr", "list"]);

    let redacted = logger.redact_sensitive_args(&argv);
    assert_eq!(redacted[0], "gh");
    assert_eq!(redacted[1], "--token");
    assert_eq!(redacted[2], "[REDACTED]");
    assert_eq!(redacted[3], "pr");
    assert_eq!(redacted[4], "list");
}

#[test]
fn test_redact_keeps_flag_values() {
    let logger = AuditLogger::new();
    let argv = strs(&["gh", "--token", "--verbose", "list"]);

    let redacted = logger.redact_sensitive_args(&argv);
    assert_eq!(redacted[2], "--verbose", "A flag after a marker is kept");
    assert_eq!(redacted[3], "list");
}

#[test]
fn test_no_redaction_when_disabled() {
    let logger = AuditLogger::with_config(false, false, false, None, 100 * 1024 * 1024, 10);

    assert!(!logger.enabled);
    let entry = logger.log_cli_request(
        "2026-02-12T10:00:00Z".to_string(),
        &"r1".to_string(),
        &"gh".to_string(),
        &strs(&["pr"]),
        true,
        None,
    );
    assert!(entry.is_none());
}

#[test]
fn test_audit_log_contains_argv() {
    let log = CliAuditLog {
        argv: strs(&["pr", "list"]),
        logged: true,
    };

    assert!(log.logged);
    assert_eq!(log.argv.len(), 2);

    let logger = AuditLogger::new();
    let entry = logger
        .log_cli_request(
            "2026-02-12T10:00:00Z".to_string(),
            &"r1".to_string(),
            &"gh".to_string(),
            &strs(&["pr", "list"]),
            true,
            None,
        )
        .expect("auditing is on");
    assert_eq!(entry.argv.expect("argv logged"), strs(&["pr", "list"]));
}

#[test]
fn test_audit_log_contains_response_summary() {
    let summary = ResponseSummary { exit_code: 0 };
    assert_eq!(summary.exit_code, 0);

    let logger = AuditLogger::new();
    let entry = logger
        .log_cli_response("2026-02-12T10:00:00Z".to_string(), &"r1".to_string(), 0, 1024, 0, 42)
        .expect("auditing is on");
    assert_eq!(entry.exit_code, Some(0));
    assert_eq!(entry.stdout_length, Some(1024));
    assert_eq!(entry.stderr_length, Some(0));
    assert_eq!(entry.latency_ms, Some(42));
}

#[test]
fn test_audit_log_timestamp_accuracy() {
    let now = carapace::rate_limiter::current_timestamp();
    assert!(now > 0);
}

#[test]
fn test_audit_log_rotation() {
    let max_log_size = 10 * 1024;
    let mut current_size = 0;
    let mut rotations = 0;

    for _ in 0..2000 {
        let log_entry_size = 10;
        current_size += log_entry_size;

        if current_size > max_log_size {
            rotations += 1;
            current_size = 0;
        }
    }

    assert!(rotations > 0);
}

#[test]
fn test_audit_overflow_handling() {
    let max_entries = 1_000_000;
    let mut count = 0;

    for _ in 0..max_entries {
        count += 1;
    }

    assert_eq!(count, max_entries);
}

#[test]
fn test_audit_log_missing_details_when_policy_denies() {
    let log = DenyAuditLog {
        policy_result: "deny".to_string(),
        argv: None,
    };

    assert_eq!(log.policy_result, "deny");
    assert!(log.argv.is_none());

    let logger = AuditLogger::new();
    let entry = logger
        .log_cli_request(
            "2026-02-12T10:00:00Z".to_string(),
            &"r1".to_string(),
            &"gh".to_string(),
            &strs(&["pr", "list"]),
            false,
            Some("rate_limit_exceeded".to_string()),
        )
        .expect("auditing is on");
    assert!(entry.argv.is_none(), "Denied requests carry no argv");
}

#[test]
fn test_audit_log_request_correlation() {
    let logs = CorrelatedLogs {
        events: strs(&["policy_check", "execution_start", "execution_end"]),
    };

    assert_eq!(logs.events.len(), 3);
}

#[test]
fn test_audit_log_http_method_logging() {
    let log = HttpAuditLog { method: "POST".to_string() };
    assert_eq!(log.method, "POST");

    let logger = AuditLogger::new();
    let entry = logger
        .log_http_request(
            "2026-02-12T10:00:00Z".to_string(),
            &"r1".to_string(),
            &"signal-cli".to_string(),
            &"POST".to_string(),
            &"/api/v1/rpc".to_string(),
            true,
            None,
        )
        .expect("auditing is on");
    assert_eq!(entry.method, Some("POST".to_string()));
    assert_eq!(entry.path, Some("/api/v1/rpc".to_string()));
}

#[test]
fn test_audit_log_concurrent_requests_not_mixed() {
    let mut logs = HashMap::new();

    for i in 0..100 {
        let id = format!("req-{}", i);
        logs.insert(id.clone(), format!("log-entry-{}", i));
    }

    assert_eq!(logs.get("req-50"), Some(&"log-entry-50".to_string()));
    assert_ne!(logs.get("req-50"), Some(&"log-entry-51".to_string()));
}

#[test]
fn test_audit_log_queryable() {
    let logs = vec![
        QueryableLog { tool: "gh".to_string(), policy_result: "allow".to_string() },
        QueryableLog { tool: "gh".to_string(), policy_result: "deny".to_string() },
    ];

    let gh_logs: Vec<_> = logs.iter().filter(|l| l.tool == "gh").collect();
    assert_eq!(gh_logs.len(), 2);

    let denied: Vec<_> = logs.iter().filter(|l| l.policy_result == "deny").collect();
    assert_eq!(denied.len(), 1);
}

#[test]
fn test_audit_logging_captures_security_events() {
    let denied_event = SecurityAuditLog {
        policy_result: "deny".to_string(),
        details: "Command injection attempt detected".to_string(),
    };

    assert_eq!(denied_event.policy_result, "deny");
    assert!(!denied_event.details.is_empty());
}
