//! The server listener's decision core: what each inbound frame leads to.
//! The I/O loop around it reads frames, performs the chosen action and
//! writes the results back; every decision is made here.

use vstd::prelude::*;
use crate::dispatch::{CliDispatcher, HttpDispatcher, CliCommand, UpstreamPlan, cli_admitted,
    cli_plan_matches, cli_reject_code, http_admitted, http_plan_matches, http_reject_code};
use crate::audit::AuditLogger;
use crate::messages::{Message, MessageV, PingPong, ErrorMessage, SseEvent};
use crate::rate_limiter::{RateLimiter, limiter_check};
use crate::util::push_str_chars;

verus! {

/// Whether an action rejects with an error blaming request `id` under the
/// stable `code`.
pub open spec fn error_reply(r: ListenerAction, id: Seq<char>, code: Seq<char>) -> bool {
    match r {
        ListenerAction::Reject(e) => match e@ {
            MessageV::Error(em) => em.id == Some(id) && em.code == code,
            _ => false,
        },
        _ => false,
    }
}

/// What the listener does with one inbound frame.
pub enum ListenerAction {
    /// Answer a `Ping` at once with this `Pong`, before any dispatch.
    RespondPong(Message),
    /// Run this CLI command and answer with its response.
    RunCli(CliCommand),
    /// Make this upstream call and answer with its response or stream its
    /// events.
    RunHttp(UpstreamPlan),
    /// Answer at once with this error.
    Reject(Message),
    /// Drop the frame: responses and events are not dispatched by the
    /// server.
    Ignore,
}

/// Listens for inbound frames and dispatches them: `Ping` is answered
/// before anything else, requests pass the rate limiter and the policy,
/// and anything else is dropped.
pub struct Listener {
    pub cli_dispatcher: CliDispatcher,
    pub http_dispatcher: HttpDispatcher,
    pub audit_logger: AuditLogger,
    pub rate_limiter: RateLimiter,
}

impl Listener {
    /// A listener with default audit settings and the default rate limit.
    pub fn new(cli_dispatcher: CliDispatcher, http_dispatcher: HttpDispatcher) -> (r: Listener)
        ensures
            r.rate_limiter.wf(),
            r.rate_limiter.default_max_spec() == 1000,
            r.rate_limiter.default_window_spec() == 60,
            r.cli_dispatcher == cli_dispatcher,
            r.http_dispatcher == http_dispatcher,
    {
        Listener {
            cli_dispatcher,
            http_dispatcher,
            audit_logger: AuditLogger::new(),
            rate_limiter: RateLimiter::new(1000, 60),
        }
    }

    /// A listener with explicit audit and rate-limit components.
    pub fn with_audit_and_rate_limit(
        cli_dispatcher: CliDispatcher,
        http_dispatcher: HttpDispatcher,
        audit_logger: AuditLogger,
        rate_limiter: RateLimiter,
    ) -> (r: Listener)
        ensures
            r.cli_dispatcher == cli_dispatcher,
            r.http_dispatcher == http_dispatcher,
            r.audit_logger == audit_logger,
            r.rate_limiter == rate_limiter,
    {
        Listener { cli_dispatcher, http_dispatcher, audit_logger, rate_limiter }
    }

    /// Decides one inbound frame at time `now`.  A `Ping` is answered with
    /// a `Pong` echoing its id and timestamp, before and instead of any
    /// dispatch; a request first pays one admission decision at its tool's
    /// window and is rejected as `rate_limited` when the window refuses;
    /// an admitted request becomes exactly the plan its dispatcher's
    /// contract describes, and a refused one the error it describes; and
    /// responses, events and keepalive answers are ignored.
    pub fn handle_message(&mut self, msg: &Message, now: u64) -> (r: ListenerAction)
        requires
            old(self).rate_limiter.wf(),
        ensures
            final(self).rate_limiter.wf(),
            final(self).cli_dispatcher == old(self).cli_dispatcher,
            final(self).http_dispatcher == old(self).http_dispatcher,
            final(self).audit_logger == old(self).audit_logger,
            final(self).rate_limiter.default_max_spec() == old(self).rate_limiter.default_max_spec(),
            final(self).rate_limiter.default_window_spec() == old(self).rate_limiter.default_window_spec(),
            msg@ matches MessageV::Ping(p) ==> (r matches ListenerAction::RespondPong(out)
                && out@ == MessageV::Pong(p)),
            !(msg@ is CliRequest || msg@ is HttpRequest) ==> final(self).rate_limiter == old(self).rate_limiter,
            (msg@ is CliResponse || msg@ is HttpResponse || msg@ is SseEvent || msg@ is Error || msg@ is Pong) ==> r is Ignore,
            ({
                match msg {
                    Message::CliRequest(q) => {
                        let allowed_now = limiter_check(old(self).rate_limiter, q.tool@, now).1;
                        &&& (!q.env.wf() ==> (error_reply(r, q.id@, "invalid_message"@) && final(self).rate_limiter == old(self).rate_limiter))
                        &&& (q.env.wf() ==> final(self).rate_limiter.windows_spec()
                            == limiter_check(old(self).rate_limiter, q.tool@, now).0)
                        &&& (q.env.wf() && !allowed_now ==> error_reply(r, q.id@, "rate_limited"@))
                        &&& (q.env.wf() && allowed_now && cli_admitted(
                            old(self).cli_dispatcher.tools_spec(),
                            *q,
                        ) ==> (r matches ListenerAction::RunCli(c) && cli_plan_matches(
                            old(self).cli_dispatcher.tools_spec(),
                            *q,
                            c,
                        )))
                        &&& (q.env.wf() && allowed_now && !cli_admitted(
                            old(self).cli_dispatcher.tools_spec(),
                            *q,
                        ) ==> error_reply(
                            r,
                            q.id@,
                            cli_reject_code(old(self).cli_dispatcher.tools_spec(), *q),
                        ))
                    },
                    Message::HttpRequest(q) => {
                        let allowed_now = limiter_check(old(self).rate_limiter, q.tool@, now).1;
                        &&& (!q.headers.wf() ==> (error_reply(r, q.id@, "invalid_message"@)
                            && final(self).rate_limiter == old(self).rate_limiter))
                        &&& (q.headers.wf() ==> final(self).rate_limiter.windows_spec()
                            == limiter_check(old(self).rate_limiter, q.tool@, now).0)
                        &&& (q.headers.wf() && !allowed_now ==> error_reply(r, q.id@, "rate_limited"@))
                        &&& (q.headers.wf() && allowed_now && http_admitted(
                            old(self).http_dispatcher.tools_spec(),
                            *q,
                        ) ==> (r matches ListenerAction::RunHttp(plan) && http_plan_matches(
                            old(self).http_dispatcher.tools_spec(),
                            *q,
                            plan,
                        )))
                        &&& (q.headers.wf() && allowed_now && !http_admitted(
                            old(self).http_dispatcher.tools_spec(),
                            *q,
                        ) ==> error_reply(
                            r,
                            q.id@,
                            http_reject_code(old(self).http_dispatcher.tools_spec(), *q),
                        ))
                    },
                    _ => true,
                }
            }),
    {
        match msg {
            Message::Ping(p) => {
                ListenerAction::RespondPong(
                    Message::Pong(PingPong { id: p.id.clone(), timestamp: p.timestamp }),
                )
            },
            Message::CliRequest(q) => {
                if !q.env.check_wf() {
                    return ListenerAction::Reject(
                        Message::Error(reject_error(&q.id, "invalid_message")),
                    );
                }
                match self.rate_limiter.check_request_at(q.tool.as_str(), now) {
                    Ok(()) => {},
                    Err(_) => {
                        return ListenerAction::Reject(
                            Message::Error(reject_error(&q.id, "rate_limited")),
                        );
                    },
                }
                match self.cli_dispatcher.check_cli_request(q) {
                    Ok(cmd) => ListenerAction::RunCli(cmd),
                    Err(e) => ListenerAction::Reject(Message::Error(e)),
                }
            },
            Message::HttpRequest(q) => {
                if !q.headers.check_wf() {
                    return ListenerAction::Reject(
                        Message::Error(reject_error(&q.id, "invalid_message")),
                    );
                }
                match self.rate_limiter.check_request_at(q.tool.as_str(), now) {
                    Ok(()) => {},
                    Err(_) => {
                        return ListenerAction::Reject(
                            Message::Error(reject_error(&q.id, "rate_limited")),
                        );
                    },
                }
                match self.http_dispatcher.check_http_request(q) {
                    Ok(plan) => ListenerAction::RunHttp(plan),
                    Err(e) => ListenerAction::Reject(Message::Error(e)),
                }
            },
            _ => ListenerAction::Ignore,
        }
    }
}

/// Builds the error used for rate-limit and malformed-request rejections.
fn reject_error(id: &String, code: &str) -> (r: ErrorMessage)
    ensures
        r.id matches Some(s) && s@ == id@,
        r.code@ == code@,
{
    let mut c: Vec<char> = Vec::new();
    push_str_chars(&mut c, code);
    let mut m: Vec<char> = Vec::new();
    push_str_chars(&mut m, "request refused");
    ErrorMessage {
        id: Some(id.clone()),
        code: crate::ext::chars_to_string(&c),
        message: crate::ext::chars_to_string(&m),
    }
}

/// The streaming state of the SSE relay: lines accumulate into one event
/// body; a blank line emits the accumulated body.
pub struct SseAccumulator {
    acc: Vec<char>,
}

impl SseAccumulator {
    /// The accumulated characters.
    pub closed spec fn acc_spec(&self) -> Seq<char> {
        self.acc@
    }

    /// An accumulator with nothing buffered.
    pub fn new() -> (r: SseAccumulator)
        ensures
            r.acc_spec() == Seq::<char>::empty(),
    {
        SseAccumulator { acc: Vec::new() }
    }

    /// Feeds one upstream line.  A non-blank line is appended to the
    /// buffer, after a newline when the buffer was not empty; a blank line
    /// emits the buffered body, or nothing when the buffer was empty.
    pub fn push_line(&mut self, line: &str) -> (r: Option<String>)
        ensures
            line@.len() > 0 && old(self).acc_spec().len() == 0 ==> (r is None && final(self).acc_spec() == line@),
            line@.len() > 0 && old(self).acc_spec().len() > 0 ==> (r is None && final(self).acc_spec() == old(self).acc_spec() + seq!['\n'] + line@),
            line@.len() == 0 && old(self).acc_spec().len() == 0 ==> (r is None && final(self).acc_spec() == old(self).acc_spec()),
            line@.len() == 0 && old(self).acc_spec().len() > 0 ==> (r matches Some(d) && d@ == old(self).acc_spec() && final(self).acc_spec().len() == 0),
    {
        let lc = crate::util::str_to_chars(line);
        if lc.len() == 0 {
            if self.acc.len() == 0 {
                None
            } else {
                let data = crate::ext::chars_to_string(&self.acc);
                self.acc = Vec::new();
                Some(data)
            }
        } else {
            if self.acc.len() > 0 {
                self.acc.push('\n');
            }
            crate::util::push_str_chars(&mut self.acc, line);
            proof {
                if old(self).acc_spec().len() == 0 {
                    assert(self.acc@ =~= line@);
                }
            }
            None
        }
    }

    /// Ends the stream: the buffered body is emitted if any characters
    /// remain.
    pub fn finish(&mut self) -> (r: Option<String>)
        ensures
            old(self).acc_spec().len() == 0 ==> r is None,
            old(self).acc_spec().len() > 0 ==> (r matches Some(d) && d@ == old(self).acc_spec()),
            final(self).acc_spec().len() == 0,
    {
        if self.acc.len() == 0 {
            None
        } else {
            let data = crate::ext::chars_to_string(&self.acc);
            self.acc = Vec::new();
            Some(data)
        }
    }
}

/// Wraps one emitted SSE body as the event message sent to the waiter.
pub fn make_sse_event(id: &String, tool: &String, data: String) -> (r: SseEvent)
    ensures
        r.id@ == id@,
        r.tool@ == tool@,
        r.event@ == "message"@,
        r.data == data,
{
    let mut e: Vec<char> = Vec::new();
    push_str_chars(&mut e, "message");
    SseEvent { id: id.clone(), tool: tool.clone(), event: crate::ext::chars_to_string(&e), data }
}

} // verus!
