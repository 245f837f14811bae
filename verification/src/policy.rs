//! Per-tool policy configuration and the policy error taxonomy.

use vstd::prelude::*;
use crate::strmap::StrMap;

verus! {

/// Errors raised while building or evaluating a policy.
#[derive(Debug, Clone)]
pub enum PolicyError {
    /// A glob pattern did not compile.
    InvalidPattern(String),
    /// A configuration file or value was rejected.
    ConfigError(String),
    /// A request was denied by the policy.
    Violation(String),
    /// A policy file could not be read.
    Io(String),
    /// A policy file was not valid YAML.
    YamlError(String),
    /// A tool without a policy entry was named.
    UnknownTool(String),
}

impl PolicyError {
    /// The human-readable text the error carries.
    pub fn message(&self) -> (r: &String)
        ensures
            r@ == self.message_spec(),
    {
        match self {
            PolicyError::InvalidPattern(s) => s,
            PolicyError::ConfigError(s) => s,
            PolicyError::Violation(s) => s,
            PolicyError::Io(s) => s,
            PolicyError::YamlError(s) => s,
            PolicyError::UnknownTool(s) => s,
        }
    }

    /// The text of the error, at the specification level.
    pub open spec fn message_spec(&self) -> Seq<char> {
        match self {
            PolicyError::InvalidPattern(s) => s@,
            PolicyError::ConfigError(s) => s@,
            PolicyError::Violation(s) => s@,
            PolicyError::Io(s) => s@,
            PolicyError::YamlError(s) => s@,
            PolicyError::UnknownTool(s) => s@,
        }
    }
}

/// A parameter filter for one JSON-RPC method: which field to read and the
/// glob patterns applied to its value.
#[derive(Debug, Clone)]
pub struct ParamFilter {
    pub field: String,
    pub allow_patterns: Vec<String>,
    pub deny_patterns: Vec<String>,
}

/// Policy for a CLI tool.
#[derive(Debug, Clone)]
pub struct CliPolicy {
    pub binary: String,
    pub argv_allow_patterns: Vec<String>,
    pub argv_deny_patterns: Vec<String>,
    pub env_inject: StrMap<String>,
    pub cwd_allowed: Option<Vec<String>>,
    pub timeout_secs: u64,
    pub audit: AuditConfig,
}

/// Policy for an HTTP tool.
#[derive(Debug, Clone)]
pub struct HttpPolicy {
    pub upstream: String,
    pub jsonrpc_allow_methods: Vec<String>,
    pub jsonrpc_deny_methods: Vec<String>,
    pub jsonrpc_param_filters: StrMap<ParamFilter>,
    pub rate_limit: Option<RateLimit>,
    pub timeout_secs: Option<u64>,
    pub audit: AuditConfig,
}

/// A per-tool rate-limit override.
#[derive(Debug, Clone)]
pub struct RateLimit {
    pub max_requests: u32,
    pub window_secs: u64,
}

/// Per-tool audit settings.
#[derive(Debug, Clone)]
pub struct AuditConfig {
    pub enabled: bool,
    pub log_argv: bool,
    pub log_body: bool,
    pub redact_patterns: Vec<String>,
}

impl Default for AuditConfig {
    /// Auditing defaults to on, with argv and body details off.
    fn default() -> (r: Self)
        ensures
            r.enabled == true,
            r.log_argv == false,
            r.log_body == false,
            r.redact_patterns@.len() == 0,
    {
        AuditConfig { enabled: true, log_argv: false, log_body: false, redact_patterns: Vec::new() }
    }
}

/// One tool's policy: a CLI policy or an HTTP policy.
#[derive(Debug, Clone)]
pub enum ToolPolicy {
    Cli(CliPolicy),
    Http(HttpPolicy),
}

/// The complete configuration: a mapping from tool name to one policy.
#[derive(Debug, Clone)]
pub struct PolicyConfig {
    pub tools: StrMap<ToolPolicy>,
}

impl PolicyConfig {
    /// A configuration with no tools; every lookup fails.
    pub fn new() -> (r: PolicyConfig)
        ensures
            r.tools@.len() == 0,
    {
        PolicyConfig { tools: StrMap::new() }
    }
}

/// The default CLI timeout, in seconds.
pub fn default_timeout() -> (r: u64)
    ensures
        r == 30,
{
    30
}

/// Whether auditing is on when the config does not say.
pub fn default_audit_enabled() -> (r: bool)
    ensures
        r == true,
{
    true
}

} // verus!
