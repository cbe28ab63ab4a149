//! What a live sidecar reports when it is inspected.

use vstd::prelude::*;

use crate::identity::SidecarStamp;

verus! {

/// How an inspected sidecar answered.
#[derive(Debug, Clone, Copy, PartialEq, Eq, Structural)]
pub enum LiveInspectState {
    Ready,
    Degraded,
    Unreachable,
}

/// One inspection of a live sidecar: when it was taken, whom it
/// reached, and what that sidecar reported.
#[derive(Debug, Clone, PartialEq, Eq)]
pub struct LiveInspectEnvelope<T> {
    pub inspected_at: String,
    pub stamp: SidecarStamp,
    pub role: Option<String>,
    pub instance_id: Option<String>,
    pub state: LiveInspectState,
    pub detail: Option<String>,
    pub payload: T,
}

/// The payload of an inspection that reports nothing beyond its
/// envelope.
#[derive(Debug, Clone, Copy, PartialEq, Eq, Structural)]
pub struct EmptyInspectPayload {}

} // verus!
