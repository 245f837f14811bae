//! Audit log entries and their construction rules.  Writing entries to a
//! sink (tracing, files, rotation) happens outside the library; everything
//! that decides what an entry holds is here.

use vstd::prelude::*;
use crate::util::{str_to_chars, chars_contain_seq, contains_seq, push_str_chars};
use crate::ext::chars_to_string;

verus! {

/// One structured audit record.
#[derive(Debug, Clone)]
pub struct AuditLogEntry {
    pub timestamp: String,
    pub request_id: String,
    pub tool: String,
    pub action_type: String,
    pub policy_result: String,
    pub reason: Option<String>,
    pub argv: Option<Vec<String>>,
    pub method: Option<String>,
    pub path: Option<String>,
    pub exit_code: Option<i32>,
    pub stdout_length: Option<usize>,
    pub stderr_length: Option<usize>,
    pub latency_ms: Option<u64>,
}

/// Whether an argument names one of the sensitive markers.
pub open spec fn is_sensitive(patterns: Seq<Seq<char>>, arg: Seq<char>) -> bool {
    exists|i: int| 0 <= i < patterns.len() && contains_seq(arg, #[trigger] patterns[i])
}

/// The redacted argv: after an argument holding a sensitive marker, the
/// next argument is replaced by the redaction mark unless it looks like a
/// flag; the marker argument itself is kept.
pub open spec fn redact_spec(patterns: Seq<Seq<char>>, argv: Seq<Seq<char>>, skip: bool) -> Seq<
    Seq<char>,
>
    decreases argv.len(),
{
    if argv.len() == 0 {
        Seq::empty()
    } else if skip {
        seq!["[REDACTED]"@] + redact_spec(patterns, argv.drop_first(), false)
    } else {
        let arg = argv[0];
        let skip_next = is_sensitive(patterns, arg) && argv.len() > 1 && !(argv[1].len() > 0
            && argv[1][0] == '-');
        seq![arg] + redact_spec(patterns, argv.drop_first(), skip_next)
    }
}

/// Audit logging: which requests are recorded, with which details, and how
/// sensitive argument values are redacted.
#[derive(Debug, Clone)]
pub struct AuditLogger {
    pub enabled: bool,
    pub log_argv: bool,
    pub log_body: bool,
    pub redact_patterns: Vec<String>,
    pub log_file: Option<String>,
    pub max_size_bytes: u64,
    pub keep_logs: u32,
}

impl AuditLogger {
    /// A logger with the default settings: enabled, argv logged, the
    /// standard markers redacted.
    pub fn new() -> (r: AuditLogger)
        ensures
            r.enabled,
            r.log_argv,
            !r.log_body,
            r.redact_patterns.deep_view() =~= seq![
                "--token"@,
                "--password"@,
                "--secret"@,
                "Authorization"@,
            ],
            r.log_file is None,
            r.max_size_bytes == 104857600,
            r.keep_logs == 10,
    {
        AuditLogger {
            enabled: true,
            log_argv: true,
            log_body: false,
            redact_patterns: crate::config::default_redact_patterns(),
            log_file: None,
            max_size_bytes: 104857600,
            keep_logs: 10,
        }
    }

    /// A logger with explicit settings.
    pub fn with_config(
        enabled: bool,
        log_argv: bool,
        log_body: bool,
        log_file: Option<String>,
        max_size_bytes: u64,
        keep_logs: u32,
    ) -> (r: AuditLogger)
        ensures
            r.enabled == enabled,
            r.log_argv == log_argv,
            r.log_body == log_body,
            r.log_file == log_file,
            r.max_size_bytes == max_size_bytes,
            r.keep_logs == keep_logs,
    {
        AuditLogger {
            enabled,
            log_argv,
            log_body,
            redact_patterns: crate::config::default_redact_patterns(),
            log_file,
            max_size_bytes,
            keep_logs,
        }
    }

    /// Redacts sensitive argument values: the value following an argument
    /// that holds a sensitive marker is replaced, unless it starts with a
    /// dash.
    pub fn redact_sensitive_args(&self, argv: &Vec<String>) -> (r: Vec<String>)
        ensures
            r.deep_view() == redact_spec(self.redact_patterns.deep_view(), argv.deep_view(), false),
            r@.len() == argv@.len(),
    {
        let ghost pats = self.redact_patterns.deep_view();
        let mut out: Vec<String> = Vec::new();
        let mut skip: bool = false;
        let n = argv.len();
        let mut i: usize = 0;
        proof {
            lemma_redact_len(pats, argv.deep_view(), false);
            assert(argv.deep_view().skip(0) =~= argv.deep_view());
            assert(out.deep_view() =~= Seq::<Seq<char>>::empty());
            assert(Seq::<Seq<char>>::empty() + redact_spec(pats, argv.deep_view(), false)
                =~= redact_spec(pats, argv.deep_view(), false));
        }
        while i < n
            invariant
                n == argv@.len(),
                pats == self.redact_patterns.deep_view(),
                0 <= i <= n,
                out@.len() == i,
                redact_spec(pats, argv.deep_view(), false) =~= out.deep_view() + redact_spec(
                    pats,
                    argv.deep_view().skip(i as int),
                    skip,
                ),
            decreases n - i,
        {
            let ghost rest = argv.deep_view().skip(i as int);
            let ghost o0 = out.deep_view();
            proof {
                assert(rest.len() == n - i);
                assert(rest[0] == argv.deep_view()[i as int]);
                assert(rest.drop_first() =~= argv.deep_view().skip(i as int + 1));
            }
            if skip {
                let m = str_to_chars("[REDACTED]");
                out.push(chars_to_string(&m));
                skip = false;
                proof {
                    assert(out.deep_view() =~= o0.push("[REDACTED]"@));
                    assert(o0 + (seq!["[REDACTED]"@] + redact_spec(pats, rest.drop_first(), false))
                        =~= out.deep_view() + redact_spec(pats, rest.drop_first(), false));
                }
            } else {
                let sensitive = self.arg_is_sensitive(argv[i].as_str());
                let next_flag = if i + 1 < n {
                    let nx = str_to_chars(argv[i + 1].as_str());
                    nx.len() > 0 && nx[0] == '-'
                } else {
                    false
                };
                out.push(argv[i].clone());
                let new_skip = sensitive && i + 1 < n && !next_flag;
                proof {
                    assert(out.deep_view() =~= o0.push(rest[0]));
                    assert(rest.len() > 1 <==> i as int + 1 < n);
                    if i + 1 < n {
                        assert(rest[1] == argv.deep_view()[i as int + 1]);
                        assert(rest[1] == argv@[i as int + 1]@);
                    }
                    assert(new_skip == (is_sensitive(pats, rest[0]) && rest.len() > 1 && !(
                    rest[1].len() > 0 && rest[1][0] == '-')));
                    assert(o0 + (seq![rest[0]] + redact_spec(pats, rest.drop_first(), new_skip))
                        =~= out.deep_view() + redact_spec(pats, rest.drop_first(), new_skip));
                }
                skip = new_skip;
            }
            i = i + 1;
        }
        proof {
            assert(argv.deep_view().skip(n as int) =~= Seq::<Seq<char>>::empty());
            assert(redact_spec(pats, argv.deep_view().skip(n as int), skip) =~= Seq::<
                Seq<char>,
            >::empty());
            assert(out.deep_view() + Seq::<Seq<char>>::empty() =~= out.deep_view());
            lemma_redact_len(pats, argv.deep_view(), false);
            assert(out@.len() == out.deep_view().len());
        }
        out
    }

    /// Whether one argument holds any sensitive marker.
    fn arg_is_sensitive(&self, arg: &str) -> (r: bool)
        ensures
            r == is_sensitive(self.redact_patterns.deep_view(), arg@),
    {
        let ac = str_to_chars(arg);
        let n = self.redact_patterns.len();
        let mut i: usize = 0;
        while i < n
            invariant
                ac@ == arg@,
                n == self.redact_patterns@.len(),
                0 <= i <= n,
                forall|j: int| 0 <= j < i ==> !contains_seq(
                    arg@,
                    #[trigger] self.redact_patterns.deep_view()[j],
                ),
            decreases n - i,
        {
            let pc = str_to_chars(self.redact_patterns[i].as_str());
            proof {
                assert(self.redact_patterns.deep_view()[i as int] == self.redact_patterns@[
                    i as int
                ]@);
            }
            if chars_contain_seq(&ac, &pc) {
                return true;
            }
            i = i + 1;
        }
        proof {
            if is_sensitive(self.redact_patterns.deep_view(), arg@) {
                let j = choose|j: int|
                    0 <= j < self.redact_patterns.deep_view().len() && contains_seq(
                        arg@,
                        #[trigger] self.redact_patterns.deep_view()[j],
                    );
            }
        }
        false
    }

    /// The entry recorded for one CLI request, or nothing when auditing is
    /// off.  Denied requests carry no argv; allowed requests carry the
    /// redacted argv when argv logging is on.
    pub fn log_cli_request(
        &self,
        timestamp: String,
        request_id: &String,
        tool: &String,
        argv: &Vec<String>,
        allowed: bool,
        reason: Option<String>,
    ) -> (r: Option<AuditLogEntry>)
        ensures
            r is Some <==> self.enabled,
            r matches Some(e) ==> ({
                &&& e.request_id@ == request_id@
                &&& e.tool@ == tool@
                &&& e.action_type@ == "cli"@
                &&& e.policy_result@ == (if allowed {
                    "allow"@
                } else {
                    "deny"@
                })
                &&& (e.argv is Some <==> (allowed && self.log_argv))
                &&& (e.argv matches Some(a) ==> a.deep_view() == redact_spec(
                    self.redact_patterns.deep_view(),
                    argv.deep_view(),
                    false,
                ))
            }),
    {
        if !self.enabled {
            return None;
        }
        let redacted = if allowed && self.log_argv {
            Some(self.redact_sensitive_args(argv))
        } else {
            None
        };
        Some(
            AuditLogEntry {
                timestamp,
                request_id: request_id.clone(),
                tool: tool.clone(),
                action_type: lit_string("cli"),
                policy_result: if allowed {
                    lit_string("allow")
                } else {
                    lit_string("deny")
                },
                reason,
                argv: redacted,
                method: None,
                path: None,
                exit_code: None,
                stdout_length: None,
                stderr_length: None,
                latency_ms: None,
            },
        )
    }

    /// The entry recorded for one CLI response, or nothing when auditing
    /// is off.
    pub fn log_cli_response(
        &self,
        timestamp: String,
        request_id: &String,
        exit_code: i32,
        stdout_len: usize,
        stderr_len: usize,
        latency_ms: u64,
    ) -> (r: Option<AuditLogEntry>)
        ensures
            r is Some <==> self.enabled,
            r matches Some(e) ==> (e.request_id@ == request_id@ && e.action_type@
                == "cli_response"@ && e.exit_code == Some(exit_code) && e.stdout_length == Some(
                stdout_len,
            ) && e.stderr_length == Some(stderr_len) && e.latency_ms == Some(latency_ms)),
    {
        if !self.enabled {
            return None;
        }
        Some(
            AuditLogEntry {
                timestamp,
                request_id: request_id.clone(),
                tool: lit_string(""),
                action_type: lit_string("cli_response"),
                policy_result: lit_string(""),
                reason: None,
                argv: None,
                method: None,
                path: None,
                exit_code: Some(exit_code),
                stdout_length: Some(stdout_len),
                stderr_length: Some(stderr_len),
                latency_ms: Some(latency_ms),
            },
        )
    }

    /// The entry recorded for one HTTP request, or nothing when auditing
    /// is off.
    pub fn log_http_request(
        &self,
        timestamp: String,
        request_id: &String,
        tool: &String,
        method: &String,
        path: &String,
        allowed: bool,
        reason: Option<String>,
    ) -> (r: Option<AuditLogEntry>)
        ensures
            r is Some <==> self.enabled,
            r matches Some(e) ==> ({
                &&& e.request_id@ == request_id@
                &&& e.tool@ == tool@
                &&& e.action_type@ == "http"@
                &&& e.policy_result@ == (if allowed {
                    "allow"@
                } else {
                    "deny"@
                })
                &&& (e.method matches Some(m) && m@ == method@)
                &&& (e.path matches Some(p) && p@ == path@)
            }),
    {
        if !self.enabled {
            return None;
        }
        Some(
            AuditLogEntry {
                timestamp,
                request_id: request_id.clone(),
                tool: tool.clone(),
                action_type: lit_string("http"),
                policy_result: if allowed {
                    lit_string("allow")
                } else {
                    lit_string("deny")
                },
                reason,
                argv: None,
                method: Some(method.clone()),
                path: Some(path.clone()),
                exit_code: None,
                stdout_length: None,
                stderr_length: None,
                latency_ms: None,
            },
        )
    }

    /// The entry recorded for one HTTP response, or nothing when auditing
    /// is off.
    pub fn log_http_response(
        &self,
        timestamp: String,
        request_id: &String,
        status: u16,
        latency_ms: u64,
    ) -> (r: Option<AuditLogEntry>)
        ensures
            r is Some <==> self.enabled,
            r matches Some(e) ==> (e.request_id@ == request_id@ && e.action_type@
                == "http_response"@ && e.exit_code == Some(status as i32) && e.latency_ms == Some(
                latency_ms,
            )),
    {
        if !self.enabled {
            return None;
        }
        Some(
            AuditLogEntry {
                timestamp,
                request_id: request_id.clone(),
                tool: lit_string(""),
                action_type: lit_string("http_response"),
                policy_result: lit_string(""),
                reason: None,
                argv: None,
                method: None,
                path: None,
                exit_code: Some(status as i32),
                stdout_length: None,
                stderr_length: None,
                latency_ms: Some(latency_ms),
            },
        )
    }
}

/// The redacted argv has the argv's length.
proof fn lemma_redact_len(patterns: Seq<Seq<char>>, argv: Seq<Seq<char>>, skip: bool)
    ensures
        redact_spec(patterns, argv, skip).len() == argv.len(),
    decreases argv.len(),
{
    if argv.len() > 0 {
        lemma_redact_len(patterns, argv.drop_first(), false);
        if !skip {
            let arg = argv[0];
            let skip_next = is_sensitive(patterns, arg) && argv.len() > 1 && !(argv[1].len() > 0
                && argv[1][0] == '-');
            lemma_redact_len(patterns, argv.drop_first(), skip_next);
        }
    }
}

/// Copies a literal into an owned string.
fn lit_string(text: &str) -> (r: String)
    ensures
        r@ == text@,
{
    let mut c: Vec<char> = Vec::new();
    push_str_chars(&mut c, text);
    chars_to_string(&c)
}

} // verus!
