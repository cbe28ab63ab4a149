use stim_sidecar::{
    identity::{SidecarMode, SidecarStamp, SOURCE_APP_PACKAGED},
    ready::{
        ready_wait_step, ReadyLineWaitError, ReadyReadEvent, ReadyWaitStep, SidecarReadyLine,
        READY_LINE_KIND,
    },
};

fn packaged_stamp() -> SidecarStamp {
    SidecarStamp {
        app: "controller".into(),
        namespace: "default".into(),
        mode: SidecarMode::Runtime,
        source: SOURCE_APP_PACKAGED.into(),
    }
}

#[test]
fn ready_line_has_kind() {
    let line = SidecarReadyLine::new(
        packaged_stamp(),
        "controller-runtime".into(),
        "controller-1".into(),
        Some("http://127.0.0.1:43123".into()),
        "2026-04-27T00:00:00Z".into(),
    );

    assert_eq!(line.kind, READY_LINE_KIND);
    assert!(line.is_ready_line());
    assert_eq!(line.endpoint.as_deref(), Some("http://127.0.0.1:43123"));
}

#[test]
fn other_kinds_are_not_ready_lines() {
    let mut line = SidecarReadyLine::new(
        packaged_stamp(),
        "controller-runtime".into(),
        "controller-1".into(),
        None,
        "2026-04-27T00:00:00Z".into(),
    );
    line.kind = "stim-sidecar-ready-v2".into();
    assert!(!line.is_ready_line());
}

#[test]
fn wait_steps_skip_noise_and_stop_at_ready() {
    assert!(matches!(
        ready_wait_step(ReadyReadEvent::Line { parsed: None }),
        ReadyWaitStep::Continue
    ));
    let line = SidecarReadyLine::new(
        packaged_stamp(),
        "controller-runtime".into(),
        "controller-1".into(),
        None,
        "t".into(),
    );
    match ready_wait_step(ReadyReadEvent::Line {
        parsed: Some(line.clone()),
    }) {
        ReadyWaitStep::Finish(Ok(found)) => assert_eq!(found, line),
        _ => panic!("expected the ready line"),
    }
}

#[test]
fn wait_steps_end_on_close_or_failure() {
    match ready_wait_step(ReadyReadEvent::Closed) {
        ReadyWaitStep::Finish(Err(e)) => assert_eq!(e, ReadyLineWaitError::ExitedBeforeReady),
        _ => panic!("expected ExitedBeforeReady"),
    }
    match ready_wait_step(ReadyReadEvent::Failed("broken pipe".into())) {
        ReadyWaitStep::Finish(Err(e)) => {
            assert_eq!(e, ReadyLineWaitError::ReadFailed("broken pipe".into()))
        }
        _ => panic!("expected ReadFailed"),
    }
}

#[test]
fn wait_error_messages() {
    assert_eq!(
        ReadyLineWaitError::ExitedBeforeReady.describe(),
        "sidecar exited before ready"
    );
    assert_eq!(
        ReadyLineWaitError::ReadFailed("eof".into()).describe(),
        "failed to read sidecar ready line: eof"
    );
    assert_eq!(
        ReadyLineWaitError::TimedOut.describe(),
        "timed out waiting for sidecar ready line"
    );
}
