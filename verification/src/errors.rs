//! Error taxonomies of the agent and the server sides of the pipeline.

use vstd::prelude::*;

verus! {

/// Errors raised on the agent side.
#[derive(Debug, Clone)]
pub enum AgentError {
    /// The transport to the server broke.
    ConnectionLost(String),
    /// The transport to the server could not be opened.
    ConnectionRefused(String),
    /// Re-establishing the transport failed after the given attempts.
    ReconnectionFailed(u32),
    /// A request hit its deadline.
    RequestTimeout(String),
    /// A request id had no registered waiter.
    RequestNotFound(String),
    /// A frame did not parse as a message.
    InvalidMessage,
    /// A local listening socket could not be bound.
    SocketBindFailed(String),
    /// The configuration was rejected.
    ConfigError(String),
    /// An I/O operation failed.
    IoError(String),
    /// A value could not be serialized or deserialized.
    SerializationError(String),
    /// Anything else.
    Other(String),
}

/// Errors raised on the server side.
#[derive(Debug, Clone)]
pub enum ServerError {
    /// The policy refused the request.
    PolicyViolation(String),
    /// An argument held shell metacharacters.
    ShellInjectionDetected(String),
    /// The configured binary path was rejected.
    InvalidBinaryPath(String),
    /// The dispatched process failed.
    ProcessExecutionFailed(i32, String),
    /// A dispatch hit its deadline.
    RequestTimeout,
    /// The tool exhausted its rate-limit window.
    RateLimitExceeded(String),
    /// The tool has no policy entry.
    ToolNotFound(String),
    /// The tool's policy kind does not fit the request kind.
    InvalidToolType(String),
    /// The configuration was rejected.
    ConfigError(String),
    /// An I/O operation failed.
    IoError(String),
    /// A value could not be serialized or deserialized.
    SerializationError(String),
    /// Anything else.
    Other(String),
}

} // verus!
