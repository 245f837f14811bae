//! The wire message schema: a tagged union of request, response, event and
//! keepalive records, with the specification-level views the codec and the
//! multiplexer contracts are stated over.

use vstd::prelude::*;
use crate::strmap::{StrMap, unique_keys};

verus! {

/// A request environment or header map, as the contracts see it: ordered
/// pairs of key and value characters.
pub type PairsV = Seq<(Seq<char>, Seq<char>)>;

/// The view of a string map whose values are strings.
pub open spec fn pairs_view(m: Seq<(Seq<char>, String)>) -> PairsV {
    Seq::new(m.len(), |i: int| (m[i].0, m[i].1@))
}

/// CLI tool invocation request.
#[derive(Debug, Clone)]
pub struct CliRequest {
    pub id: String,
    pub tool: String,
    pub argv: Vec<String>,
    pub env: StrMap<String>,
    pub stdin: Option<String>,
    pub cwd: String,
}

/// The view of a `CliRequest`.
pub struct CliRequestV {
    pub id: Seq<char>,
    pub tool: Seq<char>,
    pub argv: Seq<Seq<char>>,
    pub env: PairsV,
    pub stdin: Option<Seq<char>>,
    pub cwd: Seq<char>,
}

impl View for CliRequest {
    type V = CliRequestV;

    open spec fn view(&self) -> CliRequestV {
        CliRequestV {
            id: self.id@,
            tool: self.tool@,
            argv: self.argv.deep_view(),
            env: pairs_view(self.env@),
            stdin: match self.stdin {
                Some(ref s) => Some(s@),
                None => None,
            },
            cwd: self.cwd@,
        }
    }
}

/// CLI tool response.
#[derive(Debug, Clone)]
pub struct CliResponse {
    pub id: String,
    pub exit_code: i32,
    pub stdout: String,
    pub stderr: String,
}

/// The view of a `CliResponse`.
pub struct CliResponseV {
    pub id: Seq<char>,
    pub exit_code: i32,
    pub stdout: Seq<char>,
    pub stderr: Seq<char>,
}

impl View for CliResponse {
    type V = CliResponseV;

    open spec fn view(&self) -> CliResponseV {
        CliResponseV {
            id: self.id@,
            exit_code: self.exit_code,
            stdout: self.stdout@,
            stderr: self.stderr@,
        }
    }
}

/// HTTP request to proxy.
#[derive(Debug, Clone)]
pub struct HttpRequest {
    pub id: String,
    pub tool: String,
    pub method: String,
    pub path: String,
    pub headers: StrMap<String>,
    pub body: Option<String>,
}

/// The view of an `HttpRequest`.
pub struct HttpRequestV {
    pub id: Seq<char>,
    pub tool: Seq<char>,
    pub method: Seq<char>,
    pub path: Seq<char>,
    pub headers: PairsV,
    pub body: Option<Seq<char>>,
}

impl View for HttpRequest {
    type V = HttpRequestV;

    open spec fn view(&self) -> HttpRequestV {
        HttpRequestV {
            id: self.id@,
            tool: self.tool@,
            method: self.method@,
            path: self.path@,
            headers: pairs_view(self.headers@),
            body: match self.body {
                Some(ref s) => Some(s@),
                None => None,
            },
        }
    }
}

/// HTTP response.
#[derive(Debug, Clone)]
pub struct HttpResponse {
    pub id: String,
    pub status: u16,
    pub headers: StrMap<String>,
    pub body: Option<String>,
}

/// The view of an `HttpResponse`.
pub struct HttpResponseV {
    pub id: Seq<char>,
    pub status: u16,
    pub headers: PairsV,
    pub body: Option<Seq<char>>,
}

impl View for HttpResponse {
    type V = HttpResponseV;

    open spec fn view(&self) -> HttpResponseV {
        HttpResponseV {
            id: self.id@,
            status: self.status,
            headers: pairs_view(self.headers@),
            body: match self.body {
                Some(ref s) => Some(s@),
                None => None,
            },
        }
    }
}

/// Server-sent event from upstream, correlated to the `HttpRequest` id it
/// answers; many may precede the end of a stream.
#[derive(Debug, Clone)]
pub struct SseEvent {
    pub id: String,
    pub tool: String,
    pub event: String,
    pub data: String,
}

/// The view of an `SseEvent`.
pub struct SseEventV {
    pub id: Seq<char>,
    pub tool: Seq<char>,
    pub event: Seq<char>,
    pub data: Seq<char>,
}

impl View for SseEvent {
    type V = SseEventV;

    open spec fn view(&self) -> SseEventV {
        SseEventV { id: self.id@, tool: self.tool@, event: self.event@, data: self.data@ }
    }
}

/// Error response; the id is absent when no request can be blamed.
#[derive(Debug, Clone)]
pub struct ErrorMessage {
    pub id: Option<String>,
    pub code: String,
    pub message: String,
}

/// The view of an `ErrorMessage`.
pub struct ErrorMessageV {
    pub id: Option<Seq<char>>,
    pub code: Seq<char>,
    pub message: Seq<char>,
}

impl View for ErrorMessage {
    type V = ErrorMessageV;

    open spec fn view(&self) -> ErrorMessageV {
        ErrorMessageV {
            id: match self.id {
                Some(ref s) => Some(s@),
                None => None,
            },
            code: self.code@,
            message: self.message@,
        }
    }
}

/// Keepalive record: a `Ping` is answered by a `Pong` echoing both fields.
#[derive(Debug, Clone)]
pub struct PingPong {
    pub id: String,
    pub timestamp: u64,
}

/// The view of a `PingPong`.
pub struct PingPongV {
    pub id: Seq<char>,
    pub timestamp: u64,
}

impl View for PingPong {
    type V = PingPongV;

    open spec fn view(&self) -> PingPongV {
        PingPongV { id: self.id@, timestamp: self.timestamp }
    }
}

/// One protocol message.
#[derive(Debug, Clone)]
pub enum Message {
    CliRequest(CliRequest),
    CliResponse(CliResponse),
    HttpRequest(HttpRequest),
    HttpResponse(HttpResponse),
    SseEvent(SseEvent),
    Error(ErrorMessage),
    Ping(PingPong),
    Pong(PingPong),
}

/// The view of a `Message`.
pub enum MessageV {
    CliRequest(CliRequestV),
    CliResponse(CliResponseV),
    HttpRequest(HttpRequestV),
    HttpResponse(HttpResponseV),
    SseEvent(SseEventV),
    Error(ErrorMessageV),
    Ping(PingPongV),
    Pong(PingPongV),
}

impl View for Message {
    type V = MessageV;

    open spec fn view(&self) -> MessageV {
        match self {
            Message::CliRequest(m) => MessageV::CliRequest(m@),
            Message::CliResponse(m) => MessageV::CliResponse(m@),
            Message::HttpRequest(m) => MessageV::HttpRequest(m@),
            Message::HttpResponse(m) => MessageV::HttpResponse(m@),
            Message::SseEvent(m) => MessageV::SseEvent(m@),
            Message::Error(m) => MessageV::Error(m@),
            Message::Ping(m) => MessageV::Ping(m@),
            Message::Pong(m) => MessageV::Pong(m@),
        }
    }
}

/// The correlation id a message carries, if any.
pub open spec fn msg_id(m: MessageV) -> Option<Seq<char>> {
    match m {
        MessageV::CliRequest(r) => Some(r.id),
        MessageV::CliResponse(r) => Some(r.id),
        MessageV::HttpRequest(r) => Some(r.id),
        MessageV::HttpResponse(r) => Some(r.id),
        MessageV::SseEvent(r) => Some(r.id),
        MessageV::Error(r) => r.id,
        MessageV::Ping(r) => Some(r.id),
        MessageV::Pong(r) => Some(r.id),
    }
}

/// A message is well formed when the keys of its maps are unique.
pub open spec fn msg_wf(m: MessageV) -> bool {
    match m {
        MessageV::CliRequest(r) => unique_keys(r.env),
        MessageV::HttpRequest(r) => unique_keys(r.headers),
        MessageV::HttpResponse(r) => unique_keys(r.headers),
        _ => true,
    }
}

impl Message {
    /// The id accessor every variant exposes; `Error` may have none.
    pub fn id(&self) -> (r: Option<&str>)
        ensures
            match r {
                Some(s) => msg_id(self@) == Some(s@),
                None => msg_id(self@) is None,
            },
    {
        match self {
            Message::CliRequest(m) => Some(m.id.as_str()),
            Message::CliResponse(m) => Some(m.id.as_str()),
            Message::HttpRequest(m) => Some(m.id.as_str()),
            Message::HttpResponse(m) => Some(m.id.as_str()),
            Message::SseEvent(m) => Some(m.id.as_str()),
            Message::Error(m) => match &m.id {
                Some(s) => Some(s.as_str()),
                None => None,
            },
            Message::Ping(m) => Some(m.id.as_str()),
            Message::Pong(m) => Some(m.id.as_str()),
        }
    }
}

} // verus!
