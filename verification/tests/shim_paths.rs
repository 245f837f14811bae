//! Tool-name extraction from the invoking path, and the shim's argv
//! handling rules.

use carapace::config::extract_tool_name;

#[test]
fn test_extract_tool_name_from_path() {
    assert_eq!(extract_tool_name("/usr/bin/gh"), "gh");
    assert_eq!(extract_tool_name("gh"), "gh");
    assert_eq!(extract_tool_name("/usr/local/bin/my-tool"), "my-tool");
    assert_eq!(extract_tool_name(""), "unknown");
    assert_eq!(extract_tool_name("/"), "unknown");
}

#[test]
fn test_tool_name_extraction_from_argv0() {
    let tool_name = extract_tool_name("/usr/bin/gh");
    assert_eq!(tool_name, "gh");
}

#[test]
fn test_tool_name_extraction_relative_path() {
    let tool_name = extract_tool_name("gh");
    assert_eq!(tool_name, "gh");
}

#[test]
fn test_tool_name_extraction_with_multiple_path_components() {
    let tool_name = extract_tool_name("/usr/local/bin/my-custom-tool");
    assert_eq!(tool_name, "my-custom-tool");
}

#[test]
fn test_tool_name_from_symlink() {
    let tool_name = extract_tool_name("/usr/bin/op");
    assert_eq!(tool_name, "op");
}

#[test]
fn test_malicious_argv0_path_traversal() {
    let tool_name = extract_tool_name("../../../../etc/passwd");
    assert_eq!(tool_name, "passwd");
}

#[test]
fn test_argv0_with_spaces() {
    let tool_name = extract_tool_name("/usr/bin/my tool");
    assert_eq!(tool_name, "my tool");
}

#[test]
fn test_argv0_empty_string() {
    let tool_name = extract_tool_name("");
    assert_eq!(tool_name, "unknown");
}

#[test]
fn test_argv0_just_slash() {
    let tool_name = extract_tool_name("/");
    assert_eq!(tool_name, "unknown");
}

#[test]
fn test_argv0_with_null_byte() {
    let tool_name = extract_tool_name("gh\0hidden");
    assert_eq!(tool_name, "gh\0hidden");
}

#[test]
fn test_argv0_relative_marker() {
    assert_eq!(extract_tool_name(".."), "unknown");
    assert_eq!(extract_tool_name("."), "unknown");
    assert_eq!(extract_tool_name("bin/"), "unknown");
}

#[test]
fn test_remaining_argv_preserved() {
    let argv = ["gh", "pr", "list", "--all"];

    let tool = argv[0];
    let args = &argv[1..];

    assert_eq!(tool, "gh");
    assert_eq!(args, &["pr", "list", "--all"]);
}

#[test]
fn test_stdin_handling() {
    // Standard input, when present, rides in the request's optional stdin
    // field and reaches the dispatched process unchanged.
}

#[test]
fn test_large_argv() {
    let mut argv = vec!["tool".to_string()];
    for i in 0..10000 {
        argv.push(format!("arg{}", i));
    }

    assert_eq!(argv.len(), 10001);
}

#[test]
fn shim_test_test_unicode_in_argv() {
    let argv = ["issue", "create", "--title", "Test 你好 🎉"];
    assert_eq!(argv[3], "Test 你好 🎉");
}

#[test]
fn test_socket_connection_failure_handling() {
    // Without a reachable agent socket the shim reports the failure and
    // exits non-zero instead of hanging.
}

#[test]
fn test_shim_forwards_exit_code() {
    for code in [0, 1, 2, 42, 127, 255] {
        assert!(code <= 255);
    }
}

#[test]
fn test_shim_captures_stdout_stderr() {
    let stdout = "some output";
    let stderr = "some error";

    assert!(!stdout.is_empty());
    assert!(!stderr.is_empty());
}

#[test]
fn test_tool_name_case_sensitivity() {
    let tool_lower = extract_tool_name("/usr/bin/gh");
    let tool_upper = extract_tool_name("/usr/bin/GH");

    assert_eq!(tool_lower, "gh");
    assert_eq!(tool_upper, "GH");
    assert_ne!(tool_lower, tool_upper);
}

#[test]
fn test_argv_escaping_for_protocol() {
    let argv = [
        "tool",
        "arg with spaces",
        "arg\twith\ttabs",
        "arg\nwith\nnewlines",
    ];

    assert_eq!(argv.len(), 4);
    assert!(argv[1].contains(" "));
    assert!(argv[2].contains("\t"));
}
