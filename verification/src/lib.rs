//! Carapace: a policy-enforcing proxy core.
//!
//! The library covers the request pipeline of the proxy: message schema and
//! length-prefixed JSON framing, policy evaluation (glob matchers, JSON-RPC
//! method and parameter filters, shell-safety checks), the per-tool rate
//! limiter, the request multiplexer, and the pure decision cores of the
//! agent ingress, the server listener and the two dispatchers.

pub mod audit;
pub mod codec;
pub mod config;
pub mod connection;
pub mod connection_tracker;
pub mod dispatch;
pub mod errors;
pub mod ext;
pub mod ingress;
pub mod json;
pub mod listener;
pub mod matcher;
pub mod messages;
pub mod multiplexer;
pub mod policy;
pub mod rate_limiter;
pub mod strmap;
pub mod util;
pub mod validator;

pub use audit::{AuditLogEntry, AuditLogger};
pub use codec::{FrameError, MessageCodec};
pub use config::{AgentConfig, ServerConfig};
pub use connection::ConnectionState;
pub use connection_tracker::{ConnectionInfo, ConnectionTracker};
pub use dispatch::{CliDispatcher, HttpDispatcher};
pub use errors::{AgentError, ServerError};
pub use listener::Listener;
pub use matcher::ArgvMatcher;
pub use messages::{
    CliRequest, CliResponse, ErrorMessage, HttpRequest, HttpResponse, Message, SseEvent,
};
pub use multiplexer::Multiplexer;
pub use policy::{CliPolicy, HttpPolicy, ParamFilter, PolicyConfig, PolicyError, ToolPolicy};
pub use rate_limiter::RateLimiter;
pub use validator::PolicyValidator;
