use serde_json::Value;
use stim_sidecar::runtime::{
    configured_endpoint, dispatch, event_reply, invalid_frame_reply, is_blank_line, line_action,
    parse_runtime_endpoint, runtime_socket_path, unix_endpoint, ClosureHandler, DispatchAction,
    EndpointError, EventError, Frame, RuntimeEndpoint, EVENT_ERROR_INTERNAL,
    EVENT_ERROR_INVALID_PAYLOAD, EVENT_ERROR_NOT_IMPLEMENTED,
};

type HandleFn = fn(&str, &Value) -> Result<Value, EventError>;

fn handler() -> ClosureHandler<HandleFn> {
    fn handle(verb: &str, payload: &Value) -> Result<Value, EventError> {
        match verb {
            "echo" => Ok(payload.clone()),
            "boom" => Err(EventError::internal("boom".to_string())),
            _ => Err(EventError::not_implemented(verb)),
        }
    }
    ClosureHandler::new(handle as HandleFn)
}

fn answer(frame: Frame) -> Option<Frame> {
    let h = handler();
    match dispatch(frame) {
        DispatchAction::Reply(reply) => Some(reply),
        DispatchAction::Handle { id, verb, payload } => {
            let outcome = (h.closure())(&verb, &payload);
            Some(event_reply(id, outcome))
        }
        DispatchAction::Ignore => None,
    }
}

fn hi_payload() -> Value {
    let mut map = serde_json::Map::new();
    map.insert("hi".to_string(), Value::from(1));
    Value::Object(map)
}

#[test]
fn ping_is_answered_with_same_seq() {
    assert_eq!(answer(Frame::Ping { seq: 42 }), Some(Frame::Pong { seq: 42 }));
}

#[test]
fn echo_event_returns_payload() {
    let reply = answer(Frame::Event {
        id: "req-1".into(),
        verb: "echo".into(),
        payload: hi_payload(),
    });
    match reply {
        Some(Frame::EventResponse { id, payload }) => {
            assert_eq!(id, "req-1");
            assert_eq!(payload, hi_payload());
        }
        other => panic!("expected EventResponse, got {other:?}"),
    }
}

#[test]
fn unknown_verb_is_not_implemented() {
    let reply = answer(Frame::Event {
        id: "req-2".into(),
        verb: "missing".into(),
        payload: Value::Object(serde_json::Map::new()),
    });
    match reply {
        Some(Frame::EventError { id, error }) => {
            assert_eq!(id, "req-2");
            assert_eq!(error.code, EVENT_ERROR_NOT_IMPLEMENTED);
            assert_eq!(error.message, "verb \"missing\" is not implemented");
        }
        other => panic!("expected EventError, got {other:?}"),
    }
}

#[test]
fn handler_failure_is_internal() {
    let reply = answer(Frame::Event {
        id: "req-3".into(),
        verb: "boom".into(),
        payload: Value::Object(serde_json::Map::new()),
    });
    match reply {
        Some(Frame::EventError { id, error }) => {
            assert_eq!(id, "req-3");
            assert_eq!(error.code, "internal");
            assert_eq!(error.message, "boom");
        }
        other => panic!("expected EventError, got {other:?}"),
    }
}

#[test]
fn sidecar_side_frames_are_ignored() {
    assert_eq!(answer(Frame::Pong { seq: 1 }), None);
    assert_eq!(
        answer(Frame::EventResponse {
            id: "x".into(),
            payload: Value::Null
        }),
        None
    );
}

#[test]
fn bad_frame_gets_invalid_payload() {
    match invalid_frame_reply("missing field `kind`") {
        Frame::EventError { id, error } => {
            assert_eq!(id, "");
            assert_eq!(error.code, "invalid_payload");
            assert_eq!(error.message, "invalid frame: missing field `kind`");
        }
        other => panic!("expected EventError, got {other:?}"),
    }
}

#[test]
fn error_codes() {
    assert_eq!(EventError::invalid_payload("m".into()).code, EVENT_ERROR_INVALID_PAYLOAD);
    assert_eq!(EventError::internal("m".into()).code, EVENT_ERROR_INTERNAL);
    assert_eq!(
        EventError::not_implemented("a\"b").message,
        "verb \"a\\\"b\" is not implemented"
    );
}

#[test]
fn blank_lines() {
    assert!(is_blank_line(""));
    assert!(is_blank_line("  \t\r\n"));
    assert!(!is_blank_line(" {} "));
}

#[test]
fn configured_endpoint_is_trimmed() {
    assert_eq!(configured_endpoint(None), None);
    assert_eq!(configured_endpoint(Some("   ")), None);
    assert_eq!(
        configured_endpoint(Some(" unix:///tmp/s.sock\n")),
        Some("unix:///tmp/s.sock".to_string())
    );
}

#[test]
fn endpoints_parse_by_scheme() {
    assert_eq!(
        parse_runtime_endpoint("unix:///tmp/a.sock"),
        Ok(RuntimeEndpoint::Unix {
            path: "/tmp/a.sock".into()
        })
    );
    assert_eq!(
        parse_runtime_endpoint("unix://tmp/a.sock"),
        Err(EndpointError::UnixPathNotAbsolute)
    );
    assert_eq!(
        parse_runtime_endpoint("tcp://127.0.0.1:4000"),
        Ok(RuntimeEndpoint::Tcp {
            address: "127.0.0.1:4000".into()
        })
    );
    assert_eq!(
        parse_runtime_endpoint("http://x"),
        Err(EndpointError::UnsupportedScheme)
    );
}

#[test]
fn unix_endpoint_round_trips() {
    let path = runtime_socket_path(4242, 7);
    assert_eq!(path, "/tmp/stim-sidecar-runtime-4242-7.sock");
    let endpoint = unix_endpoint(&path);
    assert_eq!(endpoint, "unix:///tmp/stim-sidecar-runtime-4242-7.sock");
    assert_eq!(
        parse_runtime_endpoint(&endpoint),
        Ok(RuntimeEndpoint::Unix { path })
    );
}

#[test]
fn line_decisions() {
    assert!(matches!(
        line_action("   ", Err("EOF while parsing".into())),
        DispatchAction::Ignore
    ));
    match line_action("{\"not\":\"a frame\"}", Err("missing field `kind`".into())) {
        DispatchAction::Reply(Frame::EventError { id, error }) => {
            assert_eq!(id, "");
            assert_eq!(error.code, "invalid_payload");
            assert_eq!(error.message, "invalid frame: missing field `kind`");
        }
        _ => panic!("expected an invalid_payload reply"),
    }
    match line_action("{}", Ok(Frame::Ping { seq: 7 })) {
        DispatchAction::Reply(frame) => assert_eq!(frame, Frame::Pong { seq: 7 }),
        _ => panic!("expected a pong"),
    }
}
