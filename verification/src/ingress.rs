//! The agent ingress's decision fragments: JSON-RPC routing, the mapping
//! from a delivered message to the HTTP reply, and the steps of the event
//! stream.  The sockets, routes and deadlines around them live outside the
//! library.

use vstd::prelude::*;
use crate::ext::{json_wf, json_str_field, json_without_tool, json_string_field, json_strip_tool,
    chars_to_string};
use crate::messages::Message;
use crate::multiplexer::RecvOutcome;
use crate::util::{push_str_chars, str_eq};

verus! {

/// The HTTP status an error reply maps to: 429 for rate limiting, 504 for
/// timeouts, 403 for everything else the policy refused.
pub open spec fn error_status(code: Seq<char>) -> u16 {
    if code == "rate_limited"@ {
        429u16
    } else if code == "request_timeout"@ {
        504u16
    } else {
        403u16
    }
}

/// Maps the first message delivered for an RPC request to the HTTP reply:
/// an `HttpResponse` keeps its status and body, an `Error` becomes the
/// status its code maps to with the error text as body, no message at all
/// is a gateway timeout, and any other variant is an internal error.
pub fn rpc_reply(m: Option<Message>) -> (r: (u16, String))
    ensures
        m is None ==> (r.0 == 504 && r.1@ == "No response from server"@),
        m matches Some(Message::HttpResponse(h)) ==> (r.0 == h.status && (match h.body {
            Some(b) => r.1@ == b@,
            None => r.1@.len() == 0,
        })),
        m matches Some(Message::Error(e)) ==> (r.0 == error_status(e.code@) && r.1@
            == e.message@),
        ({
            match m {
                Some(Message::HttpResponse(_)) => true,
                Some(Message::Error(_)) => true,
                Some(_) => r.0 == 500 && r.1@ == "Wrong response type"@,
                None => true,
            }
        }),
{
    match m {
        None => {
            let mut t: Vec<char> = Vec::new();
            push_str_chars(&mut t, "No response from server");
            (504, chars_to_string(&t))
        },
        Some(Message::HttpResponse(h)) => {
            let body = match h.body {
                Some(b) => b,
                None => String::new(),
            };
            (h.status, body)
        },
        Some(Message::Error(e)) => {
            let status: u16 = if str_eq(e.code.as_str(), "rate_limited") {
                429
            } else if str_eq(e.code.as_str(), "request_timeout") {
                504
            } else {
                403
            };
            (status, e.message)
        },
        Some(_) => {
            let mut t: Vec<char> = Vec::new();
            push_str_chars(&mut t, "Wrong response type");
            (500, chars_to_string(&t))
        },
    }
}

/// Routes one JSON-RPC ingress body: the `tool` member names the tool (the
/// endpoint's default stands in when it is absent), and the member is
/// stripped before the body travels upstream.  A body that is not JSON is
/// refused.
pub fn route_rpc_body(body: &str, default_tool: &str) -> (r: Option<(String, String)>)
    ensures
        r is Some <==> json_wf(body@),
        r matches Some(t) ==> t.0@ == (match json_str_field(body@, "tool"@) {
            Some(x) => x,
            None => default_tool@,
        }),
        r matches Some(t) ==> t.1@ == json_without_tool(body@),
{
    let stripped = match json_strip_tool(body) {
        Some(s) => s,
        None => {
            return None;
        },
    };
    let tool = match json_string_field(body, "tool") {
        Some(t) => t,
        None => {
            let mut d: Vec<char> = Vec::new();
            push_str_chars(&mut d, default_tool);
            chars_to_string(&d)
        },
    };
    Some((tool, stripped))
}

/// One Server-Sent-Events block on the wire: the event body behind
/// `data: `, closed by the blank line.
pub fn sse_block(data: &str) -> (r: String)
    ensures
        r@ == "data: "@ + data@ + "\n\n"@,
{
    let mut out: Vec<char> = Vec::new();
    push_str_chars(&mut out, "data: ");
    push_str_chars(&mut out, data);
    push_str_chars(&mut out, "\n\n");
    chars_to_string(&out)
}

/// What the event stream does next.
pub enum StreamStep {
    /// Write this block to the client now.
    Emit(String),
    /// The stream ended: a terminal response arrived or the waiter closed.
    Done,
    /// Nothing to forward yet.
    Wait,
}

/// The event stream's step: an event becomes its wire block, a terminal
/// response or closure ends the stream, and anything else waits.
pub fn sse_stream_step(outcome: RecvOutcome) -> (r: StreamStep)
    ensures
        ({
            match outcome {
                RecvOutcome::Msg(m) => match m {
                    Message::SseEvent(e) => r matches StreamStep::Emit(b) && b@ == "data: "@
                        + e.data@ + "\n\n"@,
                    Message::HttpResponse(_) => r is Done,
                    _ => r is Wait,
                },
                RecvOutcome::Closed => r is Done,
                RecvOutcome::Pending => r is Wait,
            }
        }),
{
    match outcome {
        RecvOutcome::Msg(Message::SseEvent(e)) => StreamStep::Emit(sse_block(e.data.as_str())),
        RecvOutcome::Msg(Message::HttpResponse(_)) => StreamStep::Done,
        RecvOutcome::Msg(_) => StreamStep::Wait,
        RecvOutcome::Closed => StreamStep::Done,
        RecvOutcome::Pending => StreamStep::Wait,
    }
}

} // verus!
