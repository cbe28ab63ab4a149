//! The ready line a sidecar prints once it serves, and the decisions of
//! waiting for it.

use vstd::prelude::*;

use crate::identity::SidecarStamp;
use crate::text::{concat, owned, str_eq};

verus! {

/// The `kind` every ready line carries.
pub const READY_LINE_KIND: &'static str = "stim-sidecar-ready";

/// The line a sidecar prints when it is ready: its stamp, role, instance,
/// endpoint and the time it became ready.
#[derive(Debug, Clone, PartialEq, Eq)]
pub struct SidecarReadyLine {
    pub kind: String,
    pub stamp: SidecarStamp,
    pub role: String,
    pub instance_id: String,
    pub endpoint: Option<String>,
    pub ready_at: String,
}

impl SidecarReadyLine {
    /// A ready line of kind `READY_LINE_KIND` with the given fields.
    pub fn new(
        stamp: SidecarStamp,
        role: String,
        instance_id: String,
        endpoint: Option<String>,
        ready_at: String,
    ) -> (r: Self)
        ensures
            r.kind@ == READY_LINE_KIND@,
            r.stamp == stamp,
            r.role == role,
            r.instance_id == instance_id,
            r.endpoint == endpoint,
            r.ready_at == ready_at,
    {
        SidecarReadyLine {
            kind: owned(READY_LINE_KIND),
            stamp,
            role,
            instance_id,
            endpoint,
            ready_at,
        }
    }

    /// Whether the line is of kind `READY_LINE_KIND`.
    pub fn is_ready_line(&self) -> (r: bool)
        ensures
            r == (self.kind@ == READY_LINE_KIND@),
    {
        str_eq(self.kind.as_str(), READY_LINE_KIND)
    }
}

/// Why no ready line came.
#[derive(Debug, Clone, PartialEq, Eq)]
pub enum ReadyLineWaitError {
    ExitedBeforeReady,
    ReadFailed(String),
    TimedOut,
}

impl ReadyLineWaitError {
    /// The message this error reads as.
    pub fn describe(&self) -> (r: String)
        ensures
            r@ == match self {
                ReadyLineWaitError::ExitedBeforeReady => "sidecar exited before ready"@,
                ReadyLineWaitError::ReadFailed(e) => "failed to read sidecar ready line: "@ + e@,
                ReadyLineWaitError::TimedOut => "timed out waiting for sidecar ready line"@,
            },
    {
        match self {
            ReadyLineWaitError::ExitedBeforeReady => owned("sidecar exited before ready"),
            ReadyLineWaitError::ReadFailed(e) => concat(
                "failed to read sidecar ready line: ",
                e.as_str(),
            ),
            ReadyLineWaitError::TimedOut => owned("timed out waiting for sidecar ready line"),
        }
    }
}

/// What reading one line of a sidecar's output gave.
pub enum ReadyReadEvent {
    /// The output ended.
    Closed,
    /// A line was read; `parsed` is the ready line it holds, if it holds
    /// one.
    Line { parsed: Option<SidecarReadyLine> },
    /// Reading failed with this message.
    Failed(String),
}

/// What to do after one read while waiting for a ready line.
pub enum ReadyWaitStep {
    /// Read the next line.
    Continue,
    /// Stop waiting with this outcome.
    Finish(Result<SidecarReadyLine, ReadyLineWaitError>),
}

/// One step of waiting for a ready line: the first line that holds a
/// ready line ends the wait with it; the end of the output or a failed
/// read ends it with an error; any other line is skipped.
pub fn ready_wait_step(event: ReadyReadEvent) -> (r: ReadyWaitStep)
    ensures
        match event {
            ReadyReadEvent::Closed => r == ReadyWaitStep::Finish(
                Err(ReadyLineWaitError::ExitedBeforeReady),
            ),
            ReadyReadEvent::Line { parsed: Some(line) } => r == ReadyWaitStep::Finish(Ok(line)),
            ReadyReadEvent::Line { parsed: None } => r == ReadyWaitStep::Continue,
            ReadyReadEvent::Failed(e) => r == ReadyWaitStep::Finish(
                Err(ReadyLineWaitError::ReadFailed(e)),
            ),
        },
{
    match event {
        ReadyReadEvent::Closed => ReadyWaitStep::Finish(Err(ReadyLineWaitError::ExitedBeforeReady)),
        ReadyReadEvent::Line { parsed } => match parsed {
            Some(line) => ReadyWaitStep::Finish(Ok(line)),
            None => ReadyWaitStep::Continue,
        },
        ReadyReadEvent::Failed(e) => ReadyWaitStep::Finish(Err(ReadyLineWaitError::ReadFailed(e))),
    }
}

} // verus!
