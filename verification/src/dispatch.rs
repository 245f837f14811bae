//! The decision cores of the two dispatchers: policy lookup, validation
//! and request rewriting for CLI execution and upstream HTTP.  The process
//! spawn and the upstream call themselves happen outside the library; the
//! dispatchers here produce exact execution plans or exact errors.

use vstd::prelude::*;
use crate::ext::{json_str_field, json_string_field, chars_to_string};
use crate::matcher::{ArgvMatcher, argv_allowed, all_valid};
use crate::messages::{CliRequest, CliResponse, HttpRequest, ErrorMessage};
use crate::policy::{PolicyConfig, ToolPolicy, CliPolicy, HttpPolicy};
use crate::strmap::{StrMap, has_key, value_of, find_key, lemma_find_key, lemma_insert_lookup};
use crate::util::{join_spaces, push_str_chars, str_to_chars, chars_contain_seq, contains_seq,
    contains_char};
use crate::validator::{PolicyValidator, has_dangerous_chars, binary_path_ok, method_allowed,
    params_allowed};

verus! {

/// A CLI execution plan: what the process runner is handed once the policy
/// admits a request.
#[derive(Debug, Clone)]
pub struct CliCommand {
    pub id: String,
    pub binary: String,
    pub argv: Vec<String>,
    pub env: StrMap<String>,
    pub stdin: Option<String>,
    pub cwd: String,
    pub timeout_secs: u64,
}

/// The environment handed to the process: the request environment with the
/// policy's injected variables written over it.
pub fn merge_env(base: &StrMap<String>, inject: &StrMap<String>) -> (r: StrMap<String>)
    requires
        base.wf(),
        inject.wf(),
    ensures
        r.wf(),
        forall|k: Seq<char>| #[trigger] has_key(r@, k) <==> (has_key(base@, k) || has_key(
            inject@,
            k,
        )),
        forall|k: Seq<char>| #[trigger] has_key(inject@, k) ==> value_of(r@, k)@ == value_of(
            inject@,
            k,
        )@,
        forall|k: Seq<char>| #[trigger] has_key(base@, k) && !has_key(inject@, k) ==> value_of(
            r@,
            k,
        )@ == value_of(base@, k)@,
{
    let mut out: StrMap<String> = StrMap::new();
    let nb = base.len();
    let mut i: usize = 0;
    while i < nb
        invariant
            base.wf(),
            inject.wf(),
            out.wf(),
            nb == base@.len(),
            0 <= i <= nb,
            forall|k: Seq<char>| #[trigger] has_key(out@, k) <==> has_key(
                base@.take(i as int),
                k,
            ),
            forall|k: Seq<char>| #[trigger] has_key(out@, k) ==> value_of(out@, k)@ == value_of(
                base@,
                k,
            )@,
        decreases nb - i,
    {
        let k = base.key_at(i);
        let v = base.value_at(i);
        let kc = k.clone();
        let vc = v.clone();
        let ghost kv = kc@;
        let ghost vs = vc;
        let ghost o0 = out@;
        proof {
            lemma_find_key(out@, kv);
        }
        out.insert(kc, vc);
        proof {
            lemma_insert_lookup(o0, out@, kv, vs);
            lemma_insert_frame_base(o0, out@, base@, i as int);
            lemma_find_key(base@, kv);
            let j = find_key(base@, kv)->Some_0;
            if j != i as int {
                assert(base@[j].0 == base@[i as int].0);
                assert(false);
            }
            assert(value_of(base@, kv) == base@[i as int].1);
            assert(value_of(out@, kv)@ == value_of(base@, kv)@);
        }
        i = i + 1;
    }
    proof {
        assert(base@.take(nb as int) =~= base@);
    }
    let ni = inject.len();
    let mut j: usize = 0;
    while j < ni
        invariant
            base.wf(),
            inject.wf(),
            out.wf(),
            ni == inject@.len(),
            0 <= j <= ni,
            forall|k: Seq<char>| #[trigger] has_key(out@, k) <==> (has_key(base@, k) || has_key(
                inject@.take(j as int),
                k,
            )),
            forall|k: Seq<char>| #[trigger] has_key(inject@.take(j as int), k) ==> value_of(
                out@,
                k,
            )@ == value_of(inject@, k)@,
            forall|k: Seq<char>| #[trigger] has_key(out@, k) && !has_key(
                inject@.take(j as int),
                k,
            ) ==> (has_key(base@, k) && value_of(out@, k)@ == value_of(base@, k)@),
        decreases ni - j,
    {
        let k = inject.key_at(j);
        let v = inject.value_at(j);
        let kc = k.clone();
        let vc = v.clone();
        let ghost kv = kc@;
        let ghost vs = vc;
        let ghost o0 = out@;
        proof {
            lemma_find_key(out@, kv);
        }
        out.insert(kc, vc);
        proof {
            lemma_insert_lookup(o0, out@, kv, vs);
            lemma_insert_frame_inject(o0, out@, inject@, j as int);
            lemma_find_key(inject@, kv);
            let x = find_key(inject@, kv)->Some_0;
            if x != j as int {
                assert(inject@[x].0 == inject@[j as int].0);
                assert(false);
            }
            assert(value_of(inject@, kv) == inject@[j as int].1);
            assert(value_of(out@, kv)@ == value_of(inject@, kv)@);
            let jn = j as int + 1;
            assert forall|r: Seq<char>| #[trigger] has_key(inject@.take(jn), r) implies value_of(
                out@,
                r,
            )@ == value_of(inject@, r)@ by {
                if r != kv {
                    assert(has_key(inject@.take(j as int), r));
                    assert(has_key(o0, r));
                    assert(value_of(out@, r) == value_of(o0, r));
                }
            }
            assert forall|r: Seq<char>| #[trigger] has_key(out@, r) && !has_key(
                inject@.take(jn),
                r,
            ) implies (has_key(base@, r) && value_of(out@, r)@ == value_of(base@, r)@) by {
                assert(r != kv);
                assert(has_key(o0, r));
                assert(value_of(out@, r) == value_of(o0, r));
            }
        }
        j = j + 1;
    }
    proof {
        assert(inject@.take(ni as int) =~= inject@);
        assert forall|k: Seq<char>| #[trigger] has_key(base@, k) && !has_key(
            inject@,
            k,
        ) implies value_of(out@, k)@ == value_of(base@, k)@ by {
            assert(has_key(out@, k));
            assert(!has_key(inject@.take(ni as int), k));
        }
    }
    out
}

/// After inserting `base[i]`, lookups over the processed prefix extend by
/// one key.
proof fn lemma_insert_frame_base(
    o0: Seq<(Seq<char>, String)>,
    o1: Seq<(Seq<char>, String)>,
    base: Seq<(Seq<char>, String)>,
    i: int,
)
    requires
        0 <= i < base.len(),
        o1 == (match find_key(o0, base[i].0) {
            Some(x) => o0.update(x, (base[i].0, o1[x].1)),
            None => o0.push((base[i].0, o1[o0.len() as int].1)),
        }),
    ensures
        forall|k: Seq<char>| #[trigger] has_key(base.take(i + 1), k) <==> (has_key(
            base.take(i),
            k,
        ) || k == base[i].0),
{
    assert forall|k: Seq<char>| #[trigger] has_key(base.take(i + 1), k) implies (has_key(
        base.take(i),
        k,
    ) || k == base[i].0) by {
        let x = choose|x: int| 0 <= x < base.take(i + 1).len() && (#[trigger] base.take(i + 1)[x]).0 == k;
        if x < i {
            assert(base.take(i)[x].0 == k);
        } else {
            assert(base.take(i + 1)[x] == base[i]);
        }
    }
    assert forall|k: Seq<char>| (has_key(base.take(i), k) || k == base[i].0) implies #[trigger]
    has_key(base.take(i + 1), k) by {
        if has_key(base.take(i), k) {
            let x = choose|x: int| 0 <= x < base.take(i).len() && (#[trigger] base.take(i)[x]).0 == k;
            assert(base.take(i + 1)[x].0 == k);
        } else {
            assert(base.take(i + 1)[i].0 == k);
        }
    }
}

/// The same prefix-extension fact for the injected variables.
proof fn lemma_insert_frame_inject(
    o0: Seq<(Seq<char>, String)>,
    o1: Seq<(Seq<char>, String)>,
    inject: Seq<(Seq<char>, String)>,
    j: int,
)
    requires
        0 <= j < inject.len(),
    ensures
        forall|k: Seq<char>| #[trigger] has_key(inject.take(j + 1), k) <==> (has_key(
            inject.take(j),
            k,
        ) || k == inject[j].0),
{
    assert forall|k: Seq<char>| #[trigger] has_key(inject.take(j + 1), k) implies (has_key(
        inject.take(j),
        k,
    ) || k == inject[j].0) by {
        let x = choose|x: int|
            0 <= x < inject.take(j + 1).len() && (#[trigger] inject.take(j + 1)[x]).0 == k;
        if x < j {
            assert(inject.take(j)[x].0 == k);
        } else {
            assert(inject.take(j + 1)[x] == inject[j]);
        }
    }
    assert forall|k: Seq<char>| (has_key(inject.take(j), k) || k == inject[j].0) implies #[trigger]
    has_key(inject.take(j + 1), k) by {
        if has_key(inject.take(j), k) {
            let x = choose|x: int| 0 <= x < inject.take(j).len() && (#[trigger] inject.take(j)[x]).0 == k;
            assert(inject.take(j + 1)[x].0 == k);
        } else {
            assert(inject.take(j + 1)[j].0 == k);
        }
    }
}

/// Whether a CLI request clears its tool's policy: the tool is configured
/// as a CLI tool with valid patterns, the joined argv is allowed, the
/// binary path is clean, and no single argument is shell-dangerous.
pub open spec fn cli_admitted(tools: Seq<(Seq<char>, ToolPolicy)>, req: CliRequest) -> bool {
    &&& has_key(tools, req.tool@)
    &&& value_of(tools, req.tool@) is Cli
    &&& {
        let p = value_of(tools, req.tool@)->Cli_0;
        &&& all_valid(p.argv_allow_patterns.deep_view())
        &&& all_valid(p.argv_deny_patterns.deep_view())
        &&& argv_allowed(
            p.argv_allow_patterns.deep_view(),
            p.argv_deny_patterns.deep_view(),
            join_spaces(req.argv.deep_view()),
        )
        &&& binary_path_ok(p.binary@)
        &&& p.env_inject.wf()
        &&& (forall|i: int| 0 <= i < req.argv@.len() ==> !has_dangerous_chars(
            #[trigger] req.argv@[i]@,
        ))
    }
}

/// What an admitted CLI request's command must hold: the policy's binary
/// and timeout, the request's id, argv, stdin and cwd, and the merged
/// environment in which the policy's injected variables win.
pub open spec fn cli_plan_matches(
    tools: Seq<(Seq<char>, ToolPolicy)>,
    req: CliRequest,
    c: CliCommand,
) -> bool {
    let p = value_of(tools, req.tool@)->Cli_0;
    &&& c.id@ == req.id@
    &&& c.binary@ == p.binary@
    &&& c.argv.deep_view() == req.argv.deep_view()
    &&& (c.stdin is Some <==> req.stdin is Some)
    &&& (c.stdin matches Some(x) ==> req.stdin matches Some(y) && x@ == y@)
    &&& c.cwd@ == req.cwd@
    &&& c.timeout_secs == p.timeout_secs
    &&& c.env.wf()
    &&& (forall|k: Seq<char>| #[trigger] has_key(c.env@, k) <==> (has_key(req.env@, k)
        || has_key(p.env_inject@, k)))
    &&& (forall|k: Seq<char>| #[trigger] has_key(p.env_inject@, k) ==> value_of(c.env@, k)@
        == value_of(p.env_inject@, k)@)
    &&& (forall|k: Seq<char>| #[trigger] has_key(req.env@, k) && !has_key(p.env_inject@, k)
        ==> value_of(c.env@, k)@ == value_of(req.env@, k)@)
}

/// The stable code a refused CLI request carries, by the order the checks
/// run: unknown tool, wrong tool kind, malformed or invalid policy, argv
/// refusal, binary path, and last a shell-dangerous argument.
pub open spec fn cli_reject_code(tools: Seq<(Seq<char>, ToolPolicy)>, req: CliRequest) -> Seq<
    char,
> {
    if !has_key(tools, req.tool@) {
        "tool_not_found"@
    } else if !(value_of(tools, req.tool@) is Cli) {
        "invalid_tool_type"@
    } else {
        let p = value_of(tools, req.tool@)->Cli_0;
        if !p.env_inject.wf() {
            "config_error"@
        } else if !(all_valid(p.argv_allow_patterns.deep_view()) && all_valid(
            p.argv_deny_patterns.deep_view(),
        )) {
            "config_error"@
        } else if !argv_allowed(
            p.argv_allow_patterns.deep_view(),
            p.argv_deny_patterns.deep_view(),
            join_spaces(req.argv.deep_view()),
        ) {
            "policy_denied"@
        } else if !binary_path_ok(p.binary@) {
            "invalid_binary"@
        } else {
            "shell_injection"@
        }
    }
}

/// Handles CLI command execution with policy enforcement: validates each
/// request against its tool's policy and produces the exact command to run.
pub struct CliDispatcher {
    policy: PolicyConfig,
}

impl CliDispatcher {
    /// The policy table, as the contracts see it.
    pub closed spec fn tools_spec(&self) -> Seq<(Seq<char>, ToolPolicy)> {
        self.policy.tools@
    }

    /// A dispatcher with an empty policy: every request is refused.
    pub fn new() -> (r: CliDispatcher)
        ensures
            r.tools_spec().len() == 0,
    {
        CliDispatcher { policy: PolicyConfig::new() }
    }

    /// A dispatcher enforcing the given policy.
    pub fn with_policy(policy: PolicyConfig) -> (r: CliDispatcher)
        ensures
            r.tools_spec() == policy.tools@,
    {
        CliDispatcher { policy }
    }

    /// Decides one CLI request: admitted requests yield the command to run
    /// (the policy's binary, the request argv, the merged environment and
    /// the policy timeout); refused requests yield an error message naming
    /// the request id and a stable code.
    pub fn check_cli_request(&self, req: &CliRequest) -> (r: Result<CliCommand, ErrorMessage>)
        requires
            req.env.wf(),
        ensures
            r is Ok <==> cli_admitted(self.tools_spec(), *req),
            r matches Ok(c) ==> cli_plan_matches(self.tools_spec(), *req, c),
            r matches Err(e) ==> (e.id matches Some(s) && s@ == req.id@),
            r matches Err(e) ==> e.code@ == cli_reject_code(self.tools_spec(), *req),
    {
        let policy = match self.policy.tools.get(req.tool.as_str()) {
            Some(ToolPolicy::Cli(p)) => p,
            Some(ToolPolicy::Http(_)) => {
                return Err(error_for(&req.id, "invalid_tool_type", "tool is not a CLI tool"));
            },
            None => {
                return Err(error_for(&req.id, "tool_not_found", "tool is not in the policy"));
            },
        };
        if !policy.env_inject_wf() {
            return Err(error_for(&req.id, "config_error", "policy environment is malformed"));
        }
        let matcher = match ArgvMatcher::new(
            clone_strings(&policy.argv_allow_patterns),
            clone_strings(&policy.argv_deny_patterns),
        ) {
            Ok(m) => m,
            Err(_) => {
                return Err(error_for(&req.id, "config_error", "invalid glob pattern in policy"));
            },
        };
        if !matcher.matches(&req.argv) {
            return Err(error_for(&req.id, "policy_denied", "argv is not allowed by policy"));
        }
        match PolicyValidator::validate_binary_path(policy.binary.as_str()) {
            Ok(()) => {},
            Err(_) => {
                return Err(error_for(&req.id, "invalid_binary", "binary path is rejected"));
            },
        }
        let na = req.argv.len();
        let mut i: usize = 0;
        while i < na
            invariant
                na == req.argv@.len(),
                0 <= i <= na,
                has_key(self.tools_spec(), req.tool@),
                value_of(self.tools_spec(), req.tool@) is Cli,
                *policy == value_of(self.tools_spec(), req.tool@)->Cli_0,
                policy.env_inject.wf(),
                all_valid(policy.argv_allow_patterns.deep_view()),
                all_valid(policy.argv_deny_patterns.deep_view()),
                argv_allowed(
                    policy.argv_allow_patterns.deep_view(),
                    policy.argv_deny_patterns.deep_view(),
                    join_spaces(req.argv.deep_view()),
                ),
                binary_path_ok(policy.binary@),
                forall|j: int| 0 <= j < i ==> !has_dangerous_chars(#[trigger] req.argv@[j]@),
            decreases na - i,
        {
            if PolicyValidator::has_dangerous_shell_chars(req.argv[i].as_str()) {
                return Err(error_for(
                    &req.id,
                    "shell_injection",
                    "argument holds shell metacharacters",
                ));
            }
            i = i + 1;
        }
        let env = merge_env(&req.env, &policy.env_inject);
        Ok(
            CliCommand {
                id: req.id.clone(),
                binary: policy.binary.clone(),
                argv: clone_strings(&req.argv),
                env,
                stdin: match &req.stdin {
                    Some(x) => Some(x.clone()),
                    None => None,
                },
                cwd: req.cwd.clone(),
                timeout_secs: policy.timeout_secs,
            },
        )
    }

    /// Builds the response for a finished process: a missing exit status
    /// (a killed or signalled process) is reported as code -1.
    pub fn make_cli_response(
        &self,
        id: &String,
        exit_code: Option<i32>,
        stdout: String,
        stderr: String,
    ) -> (r: CliResponse)
        ensures
            r.id@ == id@,
            r.exit_code == (match exit_code {
                Some(c) => c,
                None => -1i32,
            }),
            r.stdout == stdout,
            r.stderr == stderr,
    {
        CliResponse {
            id: id.clone(),
            exit_code: match exit_code {
                Some(c) => c,
                None => -1,
            },
            stdout,
            stderr,
        }
    }
}

impl CliPolicy {
    /// Whether the injected environment keeps unique keys.
    pub open spec fn env_inject_wf_spec(&self) -> bool {
        self.env_inject.wf()
    }

    /// Checks the injected environment's keys.
    fn env_inject_wf(&self) -> (r: bool)
        ensures
            r == self.env_inject.wf(),
    {
        self.env_inject.check_wf()
    }
}

/// Copies a list of strings.
fn clone_strings(v: &Vec<String>) -> (r: Vec<String>)
    ensures
        r@.len() == v@.len(),
        forall|i: int| 0 <= i < v@.len() ==> (#[trigger] r@[i])@ == v@[i]@,
        r.deep_view() == v.deep_view(),
{
    let mut out: Vec<String> = Vec::new();
    let mut i: usize = 0;
    while i < v.len()
        invariant
            0 <= i <= v@.len(),
            out@.len() == i,
            forall|j: int| 0 <= j < i ==> (#[trigger] out@[j])@ == v@[j]@,
        decreases v@.len() - i,
    {
        out.push(v[i].clone());
        i = i + 1;
    }
    proof {
        assert(out.deep_view() =~= v.deep_view());
    }
    out
}

/// Builds an error message blaming one request.
fn error_for(id: &String, code: &str, message: &str) -> (r: ErrorMessage)
    ensures
        r.id matches Some(s) && s@ == id@,
        r.code@ == code@,
        r.message@ == message@,
{
    let mut c: Vec<char> = Vec::new();
    push_str_chars(&mut c, code);
    let mut m: Vec<char> = Vec::new();
    push_str_chars(&mut m, message);
    ErrorMessage { id: Some(id.clone()), code: chars_to_string(&c), message: chars_to_string(&m) }
}

/// An upstream HTTP plan: what the HTTP client is handed once the policy
/// admits a request.
#[derive(Debug, Clone)]
pub struct UpstreamPlan {
    pub id: String,
    pub tool: String,
    pub url: String,
    pub method: String,
    pub headers: StrMap<String>,
    pub body: Option<String>,
    pub timeout_secs: u64,
    pub is_sse: bool,
}

/// The lowercase form of an ASCII letter; other characters unchanged.
pub open spec fn lower_ascii(c: char) -> char {
    if 'A' <= c && c <= 'Z' {
        (((c as u32) + 32) as u8) as char
    } else {
        c
    }
}

/// Case-insensitive ASCII equality of two strings.
pub open spec fn eq_ignore_ascii_case(a: Seq<char>, b: Seq<char>) -> bool {
    a.len() == b.len() && (forall|i: int| 0 <= i < a.len() ==> lower_ascii(#[trigger] a[i])
        == lower_ascii(b[i]))
}

/// Whether some header key is `content-type`, compared case-insensitively.
pub open spec fn has_content_type(h: Seq<(Seq<char>, String)>) -> bool {
    exists|i: int| 0 <= i < h.len() && eq_ignore_ascii_case(#[trigger] h[i].0, "content-type"@)
}

/// Compares two characters ignoring ASCII case.
fn eq_char_ci(a: char, b: char) -> (r: bool)
    ensures
        r == (lower_ascii(a) == lower_ascii(b)),
{
    let la: char = if 'A' <= a && a <= 'Z' {
        (((a as u32) + 32) as u8) as char
    } else {
        a
    };
    let lb: char = if 'A' <= b && b <= 'Z' {
        (((b as u32) + 32) as u8) as char
    } else {
        b
    };
    la == lb
}

/// Compares two strings ignoring ASCII case.
fn str_eq_ci(a: &str, b: &str) -> (r: bool)
    ensures
        r == eq_ignore_ascii_case(a@, b@),
{
    let ac = str_to_chars(a);
    let bc = str_to_chars(b);
    if ac.len() != bc.len() {
        return false;
    }
    let n = ac.len();
    let mut i: usize = 0;
    while i < n
        invariant
            ac@ == a@,
            bc@ == b@,
            n == a@.len(),
            a@.len() == b@.len(),
            0 <= i <= n,
            forall|j: int| 0 <= j < i ==> lower_ascii(#[trigger] a@[j]) == lower_ascii(b@[j]),
        decreases n - i,
    {
        if !eq_char_ci(ac[i], bc[i]) {
            return false;
        }
        i = i + 1;
    }
    true
}

/// Scans the headers for a `content-type` key, case-insensitively.
fn headers_have_content_type(h: &StrMap<String>) -> (r: bool)
    ensures
        r == has_content_type(h@),
{
    let n = h.len();
    let mut i: usize = 0;
    while i < n
        invariant
            n == h@.len(),
            0 <= i <= n,
            forall|j: int| 0 <= j < i ==> !eq_ignore_ascii_case(
                (#[trigger] h@[j]).0,
                "content-type"@,
            ),
        decreases n - i,
    {
        let k = h.key_at(i);
        if str_eq_ci(k.as_str(), "content-type") {
            return true;
        }
        i = i + 1;
    }
    false
}

/// The effective upstream timeout: the streaming deadline for the events
/// path, else the policy's timeout, else the default.
pub open spec fn effective_timeout(path: Seq<char>, policy_timeout: Option<u64>) -> u64 {
    if contains_seq(path, "/api/v1/events"@) {
        300u64
    } else {
        match policy_timeout {
            Some(t) => t,
            None => 30u64,
        }
    }
}

/// Whether an HTTP request clears its tool's policy: the tool is an HTTP
/// tool, a JSON-RPC body's method clears the method lists and the
/// parameter filters, the path has no CR or LF, and the body is within the
/// size cap.
pub open spec fn http_admitted(tools: Seq<(Seq<char>, ToolPolicy)>, req: HttpRequest) -> bool {
    &&& has_key(tools, req.tool@)
    &&& value_of(tools, req.tool@) is Http
    &&& {
        let p = value_of(tools, req.tool@)->Http_0;
        &&& (match req.body {
            Some(b) => match json_str_field(b@, "method"@) {
                Some(m) => method_allowed(
                    m,
                    p.jsonrpc_allow_methods.deep_view(),
                    p.jsonrpc_deny_methods.deep_view(),
                ) && params_allowed(m, b@, p.jsonrpc_param_filters@),
                None => true,
            },
            None => true,
        })
        &&& !contains_char(req.path@, '\n')
        &&& !contains_char(req.path@, '\r')
        &&& (match req.body {
            Some(b) => b@.len() <= 104857600,
            None => true,
        })
    }
}

/// What an admitted HTTP request's upstream plan must hold: the request's
/// id and tool, the joined URL, the request method and body, the effective
/// timeout, and the request headers carried unchanged, with a default
/// `Content-Type` added only when a body names none.
pub open spec fn http_plan_matches(
    tools: Seq<(Seq<char>, ToolPolicy)>,
    req: HttpRequest,
    plan: UpstreamPlan,
) -> bool {
    let p = value_of(tools, req.tool@)->Http_0;
    &&& plan.id@ == req.id@
    &&& plan.tool@ == req.tool@
    &&& plan.url@ == p.upstream@ + req.path@
    &&& plan.method@ == req.method@
    &&& (plan.body is Some <==> req.body is Some)
    &&& (plan.body matches Some(x) ==> req.body matches Some(y) && x@ == y@)
    &&& plan.timeout_secs == effective_timeout(req.path@, p.timeout_secs)
    &&& plan.is_sse == contains_seq(req.path@, "/api/v1/events"@)
    &&& plan.headers.wf()
    &&& (req.body is Some && !has_content_type(req.headers@) ==> has_key(
        plan.headers@,
        "Content-Type"@,
    ) && value_of(plan.headers@, "Content-Type"@)@ == "application/json"@)
    &&& (forall|k: Seq<char>| #[trigger] has_key(req.headers@, k) ==> has_key(plan.headers@, k))
    &&& (forall|k: Seq<char>| #[trigger] has_key(req.headers@, k) ==> value_of(plan.headers@, k)@
        == value_of(req.headers@, k)@)
    &&& (forall|k: Seq<char>| #[trigger] has_key(plan.headers@, k) ==> (has_key(req.headers@, k)
        || k == "Content-Type"@))
}

/// The stable code a refused HTTP request carries: unknown tool, wrong
/// tool kind, and `policy_denied` for every validation refusal.
pub open spec fn http_reject_code(tools: Seq<(Seq<char>, ToolPolicy)>, req: HttpRequest) -> Seq<
    char,
> {
    if !has_key(tools, req.tool@) {
        "tool_not_found"@
    } else if !(value_of(tools, req.tool@) is Http) {
        "invalid_tool_type"@
    } else {
        "policy_denied"@
    }
}

/// A header map that names `Content-Type` exactly also names it
/// case-insensitively.
proof fn lemma_content_type_present(h: Seq<(Seq<char>, String)>)
    requires
        has_key(h, "Content-Type"@),
    ensures
        has_content_type(h),
{
    broadcast use vstd::utf8::char_u32_cast;
    broadcast use vstd::utf8::char_is_scalar;

    reveal_strlit("Content-Type");
    reveal_strlit("content-type");
    let i = choose|i: int| 0 <= i < h.len() && (#[trigger] h[i]).0 == "Content-Type"@;
    assert(eq_ignore_ascii_case(h[i].0, "content-type"@)) by {
        assert forall|j: int|
            0 <= j < "Content-Type"@.len() implies lower_ascii(#[trigger] "Content-Type"@[j])
            == lower_ascii("content-type"@[j]) by {
            assert(lower_ascii('C') == 'c');
            assert(lower_ascii('T') == 't');
        }
    }
}

/// HTTP request dispatcher with policy enforcement: validates each request
/// against its tool's policy and produces the exact upstream call to make.
pub struct HttpDispatcher {
    policy: PolicyConfig,
}

impl HttpDispatcher {
    /// The policy table, as the contracts see it.
    pub closed spec fn tools_spec(&self) -> Seq<(Seq<char>, ToolPolicy)> {
        self.policy.tools@
    }

    /// A dispatcher with an empty policy: every request is refused.
    pub fn new() -> (r: HttpDispatcher)
        ensures
            r.tools_spec().len() == 0,
    {
        HttpDispatcher { policy: PolicyConfig::new() }
    }

    /// A dispatcher enforcing the given policy.
    pub fn with_policy(policy: PolicyConfig) -> (r: HttpDispatcher)
        ensures
            r.tools_spec() == policy.tools@,
    {
        HttpDispatcher { policy }
    }

    /// Decides one HTTP request: admitted requests yield the upstream call
    /// (the policy's upstream joined with the request path, the request
    /// method and headers with a default `Content-Type` added for bodies
    /// that name none, and the effective timeout); refused requests yield
    /// an error naming the request id and a stable code.
    pub fn check_http_request(&self, req: &HttpRequest) -> (r: Result<UpstreamPlan, ErrorMessage>)
        requires
            req.headers.wf(),
        ensures
            r is Ok <==> http_admitted(self.tools_spec(), *req),
            r matches Ok(plan) ==> http_plan_matches(self.tools_spec(), *req, plan),
            r matches Err(e) ==> (e.id matches Some(s) && s@ == req.id@),
            r matches Err(e) ==> e.code@ == http_reject_code(self.tools_spec(), *req),
            ({
                let p = value_of(self.tools_spec(), req.tool@)->Http_0;
                has_key(self.tools_spec(), req.tool@) && value_of(self.tools_spec(), req.tool@)
                    is Http && (match req.body {
                    Some(b) => match crate::ext::json_str_field(b@, "method"@) {
                        Some(m) => crate::validator::method_allowed(
                            m,
                            p.jsonrpc_allow_methods.deep_view(),
                            p.jsonrpc_deny_methods.deep_view(),
                        ) && !crate::validator::params_allowed(m, b@, p.jsonrpc_param_filters@),
                        None => false,
                    },
                    None => false,
                }) ==> (r matches Err(e) && (match req.body {
                    Some(b) => e.message@ == crate::validator::params_reject_text(
                        value_of(
                            p.jsonrpc_param_filters@,
                            crate::ext::json_str_field(b@, "method"@)->Some_0,
                        ),
                        b@,
                    ),
                    None => true,
                }))
            }),
    {
        let policy = match self.policy.tools.get(req.tool.as_str()) {
            Some(ToolPolicy::Http(p)) => p,
            Some(ToolPolicy::Cli(_)) => {
                return Err(error_for(&req.id, "invalid_tool_type", "tool is not an HTTP tool"));
            },
            None => {
                return Err(error_for(&req.id, "tool_not_found", "tool is not in the policy"));
            },
        };
        match &req.body {
            Some(body) => {
                match json_string_field(body.as_str(), "method") {
                    Some(method) => {
                        match PolicyValidator::validate_jsonrpc_method(
                            method.as_str(),
                            &policy.jsonrpc_allow_methods,
                            &policy.jsonrpc_deny_methods,
                        ) {
                            Ok(()) => {},
                            Err(e) => {
                                return Err(error_for(&req.id, "policy_denied", e.message().as_str()));
                            },
                        }
                        match PolicyValidator::validate_jsonrpc_params(
                            method.as_str(),
                            body.as_str(),
                            &policy.jsonrpc_param_filters,
                        ) {
                            Ok(()) => {},
                            Err(e) => {
                                return Err(error_for(&req.id, "policy_denied", e.message().as_str()));
                            },
                        }
                    },
                    None => {},
                }
            },
            None => {},
        }
        if crate::util::str_contains_char(req.path.as_str(), '\n') || crate::util::str_contains_char(
            req.path.as_str(),
            '\r',
        ) {
            return Err(error_for(&req.id, "policy_denied", "path holds control characters"));
        }
        match &req.body {
            Some(body) => {
                let bc = str_to_chars(body.as_str());
                if bc.len() > 104857600 {
                    return Err(error_for(&req.id, "policy_denied", "request body is too large"));
                }
            },
            None => {},
        }
        let mut url_chars: Vec<char> = Vec::new();
        push_str_chars(&mut url_chars, policy.upstream.as_str());
        push_str_chars(&mut url_chars, req.path.as_str());
        let url = chars_to_string(&url_chars);
        let events_path = str_to_chars("/api/v1/events");
        let path_chars = str_to_chars(req.path.as_str());
        let is_sse = chars_contain_seq(&path_chars, &events_path);
        proof {
            reveal_strlit("/api/v1/events");
        }
        let timeout_secs: u64 = if is_sse {
            300
        } else {
            match policy.timeout_secs {
                Some(t) => t,
                None => 30,
            }
        };
        let mut headers = copy_headers(&req.headers);
        if req.body.is_some() && !headers_have_content_type(&req.headers) {
            let ghost h0 = headers@;
            let ctk = str_to_chars("Content-Type");
            let ctv = str_to_chars("application/json");
            let kc = chars_to_string(&ctk);
            let vc = chars_to_string(&ctv);
            let ghost kv = kc@;
            let ghost vs = vc;
            proof {
                lemma_find_key(headers@, kv);
            }
            headers.insert(kc, vc);
            proof {
                lemma_insert_lookup(h0, headers@, kv, vs);
                if has_key(req.headers@, "Content-Type"@) {
                    lemma_content_type_present(req.headers@);
                }
                assert forall|k: Seq<char>| #[trigger] has_key(req.headers@, k) implies value_of(
                    headers@,
                    k,
                )@ == value_of(req.headers@, k)@ by {
                    assert(k != kv);
                    assert(has_key(h0, k));
                    assert(value_of(headers@, k) == value_of(h0, k));
                }
                assert forall|k: Seq<char>| #[trigger] has_key(headers@, k) implies (has_key(
                    req.headers@,
                    k,
                ) || k == "Content-Type"@) by {
                    if k != kv {
                        assert(has_key(h0, k));
                    }
                }
            }
        }
        Ok(
            UpstreamPlan {
                id: req.id.clone(),
                tool: req.tool.clone(),
                url,
                method: req.method.clone(),
                headers,
                body: match &req.body {
                    Some(x) => Some(x.clone()),
                    None => None,
                },
                timeout_secs,
                is_sse,
            },
        )
    }
}

/// Copies a header map, keeping keys, values and order.
fn copy_headers(h: &StrMap<String>) -> (r: StrMap<String>)
    requires
        h.wf(),
    ensures
        r.wf(),
        forall|k: Seq<char>| #[trigger] has_key(r@, k) <==> has_key(h@, k),
        forall|k: Seq<char>| #[trigger] has_key(h@, k) ==> value_of(r@, k)@ == value_of(h@, k)@,
{
    let empty: StrMap<String> = StrMap::new();
    let r = merge_env(&empty, h);
    proof {
        assert forall|k: Seq<char>| !(#[trigger] has_key(empty@, k)) by {
            if has_key(empty@, k) {
                let x = choose|x: int| 0 <= x < empty@.len() && empty@[x].0 == k;
            }
        }
    }
    r
}

} // verus!

