//! Agent and server configuration records, their defaults, and small
//! helpers the ingress surfaces share.

use vstd::prelude::*;
use crate::strmap::{StrMap, has_key, value_of};
use crate::util::{contains_seq, str_to_chars, chars_contain_seq};

verus! {

/// Agent-side configuration.
#[derive(Debug, Clone)]
pub struct AgentConfig {
    pub server: TcpServerConfig,
    pub cli_socket: String,
    pub http: HttpConfig,
    pub logging: LoggingConfig,
}

/// Where the agent's transport connects, and how it retries.
#[derive(Debug, Clone)]
pub struct TcpServerConfig {
    pub host: String,
    pub port: u16,
    pub reconnect_attempts: u32,
    pub reconnect_backoff_ms: u64,
}

/// The agent's loopback HTTP ingress.
#[derive(Debug, Clone)]
pub struct HttpConfig {
    pub port: u16,
    pub listen_addr: String,
    pub timeout_secs: u64,
    pub max_body_size: usize,
}

/// Logging settings.
#[derive(Debug, Clone)]
pub struct LoggingConfig {
    pub level: String,
    pub log_file: Option<String>,
    pub json: bool,
}

/// Server-side configuration.
#[derive(Debug, Clone)]
pub struct ServerConfig {
    pub policy_path: String,
    pub audit: AuditConfig,
    pub rate_limiting: RateLimitingConfig,
}

/// Server-side audit settings.
#[derive(Debug, Clone)]
pub struct AuditConfig {
    pub enabled: bool,
    pub log_file: Option<String>,
    pub max_size_bytes: u64,
    pub keep_logs: u32,
    pub log_argv: bool,
    pub redact_patterns: Vec<String>,
}

/// Server-side rate-limit settings.
#[derive(Debug, Clone)]
pub struct RateLimitingConfig {
    pub enabled: bool,
    pub default_requests_per_window: u32,
    pub default_window_secs: u64,
    pub per_tool_limits: Vec<(String, u32, u64)>,
}

/// The default request timeout, in seconds.
pub fn default_timeout() -> (r: u64)
    ensures
        r == 30,
{
    30
}

/// How many connects are attempted before reconnection fails.
pub fn default_reconnect_attempts() -> (r: u32)
    ensures
        r == 5,
{
    5
}

/// The first reconnect backoff, in milliseconds.
pub fn default_reconnect_backoff_ms() -> (r: u64)
    ensures
        r == 100,
{
    100
}

/// The loopback address the HTTP ingress binds.
pub fn default_listen_addr() -> (r: String)
    ensures
        r@ == "127.0.0.1"@,
{
    let chars = str_to_chars("127.0.0.1");
    crate::ext::chars_to_string(&chars)
}

/// The largest request body the ingress accepts, in bytes.
pub fn default_max_body_size() -> (r: usize)
    ensures
        r == 104857600,
{
    104857600
}

/// The default log level.
pub fn default_log_level() -> (r: String)
    ensures
        r@ == "info"@,
{
    let chars = str_to_chars("info");
    crate::ext::chars_to_string(&chars)
}

/// The default audit-log size cap, in bytes.
pub fn default_max_log_size() -> (r: u64)
    ensures
        r == 104857600,
{
    104857600
}

/// How many rotated audit logs are kept.
pub fn default_keep_logs() -> (r: u32)
    ensures
        r == 10,
{
    10
}

/// The default per-window request allowance.
pub fn default_requests_per_window() -> (r: u32)
    ensures
        r == 1000,
{
    1000
}

/// The default rate-limit window, in seconds.
pub fn default_window_secs() -> (r: u64)
    ensures
        r == 60,
{
    60
}

/// The argument markers whose values the audit log redacts.
pub fn default_redact_patterns() -> (r: Vec<String>)
    ensures
        r.deep_view() =~= seq!["--token"@, "--password"@, "--secret"@, "Authorization"@],
{
    let mut out: Vec<String> = Vec::new();
    let c0 = str_to_chars("--token");
    out.push(crate::ext::chars_to_string(&c0));
    let c1 = str_to_chars("--password");
    out.push(crate::ext::chars_to_string(&c1));
    let c2 = str_to_chars("--secret");
    out.push(crate::ext::chars_to_string(&c2));
    let c3 = str_to_chars("Authorization");
    out.push(crate::ext::chars_to_string(&c3));
    proof {
        assert(out.deep_view() =~= seq!["--token"@, "--password"@, "--secret"@, "Authorization"@]);
    }
    out
}

/// The length of the longest suffix of `s` holding no separator.
pub open spec fn last_component_start(s: Seq<char>) -> int
    decreases s.len(),
{
    if s.len() == 0 {
        0
    } else if s[s.len() - 1] == '/' {
        s.len() as int
    } else {
        last_component_start(s.drop_last())
    }
}

/// The tool name an invocation path denotes: the final path component,
/// or `unknown` when there is none or it is a relative marker.
pub open spec fn tool_name_of(s: Seq<char>) -> Seq<char> {
    let comp = s.skip(last_component_start(s));
    if comp.len() == 0 || comp == "."@ || comp == ".."@ {
        "unknown"@
    } else {
        comp
    }
}

/// Extracts the tool name from the zeroth argument: the final path
/// component, with an empty or relative result replaced by `unknown`.
pub fn extract_tool_name(argv0: &str) -> (r: String)
    ensures
        r@ == tool_name_of(argv0@),
{
    let chars = str_to_chars(argv0);
    let n = chars.len();
    let mut start: usize = n;
    proof {
        assert(argv0@.take(n as int) =~= argv0@);
    }
    while start > 0 && chars[start - 1] != '/'
        invariant
            chars@ == argv0@,
            n == argv0@.len(),
            0 <= start <= n,
            forall|j: int| start <= j < n ==> argv0@[j] != '/',
            last_component_start(argv0@.take(start as int)) == last_component_start(argv0@),
        decreases start,
    {
        proof {
            lemma_last_component_step(argv0@, start as int);
        }
        start = start - 1;
    }
    proof {
        if start > 0 {
            lemma_last_component_at(argv0@, start as int);
        } else {
            assert(argv0@.take(0) =~= Seq::<char>::empty());
            assert(last_component_start(argv0@) == 0);
        }
        assert(last_component_start(argv0@) == start);
    }
    let mut comp: Vec<char> = Vec::new();
    let mut k: usize = start;
    while k < n
        invariant
            chars@ == argv0@,
            n == argv0@.len(),
            start <= k <= n,
            comp@ =~= argv0@.subrange(start as int, k as int),
        decreases n - k,
    {
        comp.push(chars[k]);
        k = k + 1;
    }
    proof {
        assert(comp@ =~= argv0@.skip(start as int));
        reveal_strlit(".");
        reveal_strlit("..");
        reveal_strlit("unknown");
    }
    let is_rel = (comp.len() == 1 && comp[0] == '.') || (comp.len() == 2 && comp[0] == '.'
        && comp[1] == '.');
    if comp.len() == 0 || is_rel {
        proof {
            if comp@.len() == 1 && comp@[0] == '.' {
                assert(comp@ =~= "."@);
            }
            if comp@.len() == 2 && comp@[0] == '.' && comp@[1] == '.' {
                assert(comp@ =~= ".."@);
            }
            if comp@ == "."@ {
                assert(comp@.len() == 1 && comp@[0] == '.');
            }
            if comp@ == ".."@ {
                assert(comp@.len() == 2 && comp@[0] == '.' && comp@[1] == '.');
            }
        }
        let u = str_to_chars("unknown");
        crate::ext::chars_to_string(&u)
    } else {
        crate::ext::chars_to_string(&comp)
    }
}

/// Where the last component starts, when the character before `start` is a
/// separator and nothing at or after `start` is.
proof fn lemma_last_component_at(s: Seq<char>, start: int)
    requires
        0 < start <= s.len(),
        s[start - 1] == '/',
        forall|j: int| start <= j < s.len() ==> s[j] != '/',
        last_component_start(s.take(start)) == last_component_start(s),
    ensures
        last_component_start(s) == start,
{
    assert(s.take(start).len() == start);
    assert(s.take(start)[start - 1] == s[start - 1]);
}

/// Stepping the scan one character left keeps the component start.
proof fn lemma_last_component_step(s: Seq<char>, start: int)
    requires
        0 < start <= s.len(),
        s[start - 1] != '/',
        last_component_start(s.take(start)) == last_component_start(s),
    ensures
        last_component_start(s.take(start - 1)) == last_component_start(s),
{
    assert(s.take(start)[start - 1] == s[start - 1]);
    assert(s.take(start).drop_last() =~= s.take(start - 1));
}

/// Whether a header map marks a streaming response: its `Content-Type`
/// holds `text/event-stream`.
pub open spec fn is_sse_headers(h: Seq<(Seq<char>, String)>) -> bool {
    has_key(h, "Content-Type"@) && contains_seq(value_of(h, "Content-Type"@)@, "text/event-stream"@)
}

/// Detects a Server-Sent-Events response by its `Content-Type` header.
pub fn is_sse_response(headers: &StrMap<String>) -> (r: bool)
    ensures
        r == is_sse_headers(headers@),
{
    match headers.get("Content-Type") {
        Some(ct) => {
            let hay = str_to_chars(ct.as_str());
            let needle = str_to_chars("text/event-stream");
            chars_contain_seq(&hay, &needle)
        },
        None => false,
    }
}

} // verus!
