//! The runtime control plane every sidecar serves: newline-delimited
//! JSON frames (`ping`/`pong`, `event`/`event_response`/`event_error`),
//! the decisions of answering them, and where the runtime socket lives.

use vstd::prelude::*;

use crate::platform::paths::{join_path, joined};
use crate::text::{
    concat, debug_quoted, decimal, decimal_string, owned, starts_with, str_debug, str_skip,
    str_starts_with, trim, trimmed,
};

verus! {

pub const FRAME_KIND_PING: &'static str = "ping";

pub const FRAME_KIND_PONG: &'static str = "pong";

pub const FRAME_KIND_EVENT: &'static str = "event";

pub const FRAME_KIND_EVENT_RESPONSE: &'static str = "event_response";

pub const FRAME_KIND_EVENT_ERROR: &'static str = "event_error";

/// The error code of a verb the sidecar does not implement.
pub const EVENT_ERROR_NOT_IMPLEMENTED: &'static str = "not_implemented";

/// The error code of a malformed frame or payload.
pub const EVENT_ERROR_INVALID_PAYLOAD: &'static str = "invalid_payload";

/// The error code of a failure inside a handler.
pub const EVENT_ERROR_INTERNAL: &'static str = "internal";

/// The environment variable that chooses the runtime endpoint.
pub const INSPECT_SOCKET_ENV: &'static str = "SIDECAR_INSPECT_SOCKET";

/// `serde_json::Value`, carried through frames as an opaque payload.
#[verifier::external_type_specification]
#[verifier::external_body]
pub struct ExJsonValue(serde_json::Value);

/// One control-plane frame.
#[derive(Debug, PartialEq, Eq)]
pub enum Frame {
    Ping { seq: u64 },
    Pong { seq: u64 },
    Event { id: String, verb: String, payload: serde_json::Value },
    EventResponse { id: String, payload: serde_json::Value },
    EventError { id: String, error: EventError },
}

/// The error an event is answered with.
#[derive(Debug, Clone, PartialEq, Eq)]
pub struct EventError {
    pub code: String,
    pub message: String,
}

impl EventError {
    /// The answer to a verb the handler does not know.
    pub fn not_implemented(verb: &str) -> (r: Self)
        ensures
            r.code@ == EVENT_ERROR_NOT_IMPLEMENTED@,
            r.message@ == "verb "@ + str_debug(verb@) + " is not implemented"@,
    {
        let quoted = debug_quoted(verb);
        let head = concat("verb ", quoted.as_str());
        EventError {
            code: owned(EVENT_ERROR_NOT_IMPLEMENTED),
            message: concat(head.as_str(), " is not implemented"),
        }
    }

    /// The answer to a malformed frame or payload.
    pub fn invalid_payload(message: String) -> (r: Self)
        ensures
            r.code@ == EVENT_ERROR_INVALID_PAYLOAD@,
            r.message == message,
    {
        EventError { code: owned(EVENT_ERROR_INVALID_PAYLOAD), message }
    }

    /// The answer to a failure inside a handler.
    pub fn internal(message: String) -> (r: Self)
        ensures
            r.code@ == EVENT_ERROR_INTERNAL@,
            r.message == message,
    {
        EventError { code: owned(EVENT_ERROR_INTERNAL), message }
    }
}

/// An event handler made from a closure.
pub struct ClosureHandler<F>(F);

impl<F> ClosureHandler<F> {
    /// The closure this handler calls.
    pub closed spec fn inner(&self) -> F {
        self.0
    }

    pub fn new(f: F) -> (r: Self)
        ensures
            r.inner() == f,
    {
        ClosureHandler(f)
    }

    /// The closure.
    pub fn closure(&self) -> (r: &F)
        ensures
            *r == self.inner(),
    {
        &self.0
    }
}

/// What to do with a frame that arrived.
pub enum DispatchAction {
    /// Answer with this frame.
    Reply(Frame),
    /// Hand the event to the handler; its outcome becomes the answer.
    Handle { id: String, verb: String, payload: serde_json::Value },
    /// Send nothing back.
    Ignore,
}

/// The decision for one incoming frame, as `dispatch` makes it.
pub open spec fn frame_action(frame: Frame) -> DispatchAction {
    match frame {
        Frame::Ping { seq } => DispatchAction::Reply(Frame::Pong { seq }),
        Frame::Event { id, verb, payload } => DispatchAction::Handle { id, verb, payload },
        _ => DispatchAction::Ignore,
    }
}

/// The decision for one incoming frame: a ping is answered by a pong
/// with the same sequence number, an event goes to the handler, and the
/// frames a sidecar itself sends are ignored.
pub fn dispatch(frame: Frame) -> (r: DispatchAction)
    ensures
        r == frame_action(frame),
{
    match frame {
        Frame::Ping { seq } => DispatchAction::Reply(Frame::Pong { seq }),
        Frame::Event { id, verb, payload } => DispatchAction::Handle { id, verb, payload },
        Frame::Pong { .. } | Frame::EventResponse { .. } | Frame::EventError { .. } => {
            DispatchAction::Ignore
        },
    }
}

/// The answer to event `id` once the handler returned `outcome`.
pub fn event_reply(id: String, outcome: Result<serde_json::Value, EventError>) -> (r: Frame)
    ensures
        match outcome {
            Ok(payload) => r == Frame::EventResponse { id, payload },
            Err(error) => r == Frame::EventError { id, error },
        },
{
    match outcome {
        Ok(payload) => Frame::EventResponse { id, payload },
        Err(error) => Frame::EventError { id, error },
    }
}

/// The answer to a line that is no frame: an `event_error` with an empty
/// id and an `invalid_payload` error that quotes the parser's message.
pub fn invalid_frame_reply(parse_message: &str) -> (r: Frame)
    ensures
        r matches Frame::EventError { id, error } && id@.len() == 0 && error.code@
            == EVENT_ERROR_INVALID_PAYLOAD@ && error.message@ == "invalid frame: "@
            + parse_message@,
{
    Frame::EventError {
        id: String::new(),
        error: EventError::invalid_payload(concat("invalid frame: ", parse_message)),
    }
}

/// Whether a line holds only whitespace and is skipped.
pub fn is_blank_line(line: &str) -> (r: bool)
    ensures
        r == (trimmed(line@).len() == 0),
{
    let t = trim(line);
    t.unicode_len() == 0
}

/// The decision for one line read from a connection, given what parsing
/// it as a frame gave (the frame, or the parser's message): a blank line
/// is skipped; a line that is no frame is answered with an
/// `invalid_payload` error with an empty id; a frame is decided by
/// `dispatch`.
pub fn line_action(line: &str, parsed: Result<Frame, String>) -> (r: DispatchAction)
    ensures
        trimmed(line@).len() == 0 ==> r == DispatchAction::Ignore,
        trimmed(line@).len() > 0 ==> match parsed {
            Ok(frame) => r == frame_action(frame),
            Err(message) => r matches DispatchAction::Reply(Frame::EventError { id, error })
                && id@.len() == 0 && error.code@ == EVENT_ERROR_INVALID_PAYLOAD@ && error.message@
                == "invalid frame: "@ + message@,
        },
{
    if is_blank_line(line) {
        return DispatchAction::Ignore;
    }
    match parsed {
        Ok(frame) => dispatch(frame),
        Err(message) => DispatchAction::Reply(invalid_frame_reply(message.as_str())),
    }
}

/// The endpoint configured through `INSPECT_SOCKET_ENV`: its value,
/// trimmed, unless that is empty.
pub fn configured_endpoint(value: Option<&str>) -> (r: Option<String>)
    ensures
        match value {
            Some(v) if trimmed(v@).len() > 0 => r matches Some(e) && e@ == trimmed(v@),
            _ => r is None,
        },
{
    match value {
        Some(v) => {
            let t = trim(v);
            if t.unicode_len() > 0 {
                Some(t)
            } else {
                None
            }
        },
        None => None,
    }
}

/// Where the runtime listens.
#[derive(Debug, Clone, PartialEq, Eq)]
pub enum RuntimeEndpoint {
    /// A Unix domain socket at an absolute path.
    Unix { path: String },
    /// A TCP address `host:port`.
    Tcp { address: String },
}

/// Why a configured endpoint is refused.
#[derive(Debug, Clone, PartialEq, Eq)]
pub enum EndpointError {
    /// A `unix://` endpoint whose path is not absolute.
    UnixPathNotAbsolute,
    /// Neither `unix://` nor `tcp://`.
    UnsupportedScheme,
}

pub open spec fn unix_scheme() -> Seq<char> {
    seq!['u', 'n', 'i', 'x', ':', '/', '/']
}

pub open spec fn tcp_scheme() -> Seq<char> {
    seq!['t', 'c', 'p', ':', '/', '/']
}

/// A configured endpoint: `unix://` followed by an absolute path, or
/// `tcp://` followed by an address.
pub fn parse_runtime_endpoint(endpoint: &str) -> (r: Result<RuntimeEndpoint, EndpointError>)
    ensures
        starts_with(endpoint@, unix_scheme()) ==> {
            let rest = endpoint@.skip(7);
            if rest.len() > 0 && rest[0] == '/' {
                r matches Ok(RuntimeEndpoint::Unix { path }) && path@ == rest
            } else {
                r == Err::<RuntimeEndpoint, EndpointError>(EndpointError::UnixPathNotAbsolute)
            }
        },
        !starts_with(endpoint@, unix_scheme()) && starts_with(endpoint@, tcp_scheme()) ==> (r matches Ok(
            RuntimeEndpoint::Tcp { address },
        ) && address@ == endpoint@.skip(6)),
        !starts_with(endpoint@, unix_scheme()) && !starts_with(endpoint@, tcp_scheme()) ==> r
            == Err::<RuntimeEndpoint, EndpointError>(EndpointError::UnsupportedScheme),
{
    proof {
        reveal_strlit("unix://");
        reveal_strlit("tcp://");
        assert("unix://"@ =~= unix_scheme());
        assert("tcp://"@ =~= tcp_scheme());
    }
    if str_starts_with(endpoint, "unix://") {
        let path = str_skip(endpoint, 7);
        let starts_with_root = str_starts_with(path.as_str(), "/");
        proof {
            reveal_strlit("/");
            assert("/"@ =~= seq!['/']);
            if path@.len() > 0 {
                assert(path@.take(1) =~= seq![path@[0]]);
            }
            if starts_with_root {
                assert(path@.take(1)[0] == path@[0]);
            }
        }
        if !starts_with_root {
            return Err(EndpointError::UnixPathNotAbsolute);
        }
        return Ok(RuntimeEndpoint::Unix { path });
    }
    if str_starts_with(endpoint, "tcp://") {
        let address = str_skip(endpoint, 6);
        return Ok(RuntimeEndpoint::Tcp { address });
    }
    Err(EndpointError::UnsupportedScheme)
}

/// The endpoint text of a Unix socket at `path`.
pub fn unix_endpoint(path: &str) -> (r: String)
    ensures
        r@ == unix_scheme() + path@,
{
    proof {
        reveal_strlit("unix://");
        assert("unix://"@ =~= unix_scheme());
    }
    concat("unix://", path)
}

/// The default runtime socket of process `pid`, the `counter`-th bound
/// by it: `/tmp/stim-sidecar-runtime-<pid>-<counter>.sock`.
pub fn runtime_socket_path(pid: u32, counter: u64) -> (r: String)
    ensures
        r@ == joined(
            "/tmp"@,
            "stim-sidecar-runtime-"@ + decimal(pid as nat) + "-"@ + decimal(counter as nat)
                + ".sock"@,
        ),
{
    let p = decimal_string(pid as u64);
    let c = decimal_string(counter);
    let a = concat("stim-sidecar-runtime-", p.as_str());
    let b = concat(a.as_str(), "-");
    let d = concat(b.as_str(), c.as_str());
    let name = concat(d.as_str(), ".sock");
    join_path("/tmp", name.as_str())
}

/// The endpoint text of an absolute socket path reads back as that
/// socket: `parse_runtime_endpoint(unix_endpoint(path))` is
/// `Ok(Unix { path })`.
pub proof fn law_unix_endpoint_round_trip(path: Seq<char>)
    requires
        path.len() > 0,
        path[0] == '/',
    ensures
        starts_with(unix_scheme() + path, unix_scheme()),
        (unix_scheme() + path).skip(7) == path,
{
    assert((unix_scheme() + path).take(7) =~= unix_scheme());
    assert((unix_scheme() + path).skip(7) =~= path);
}

} // verus!
