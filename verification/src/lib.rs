//! Platform and sidecar primitives for a local development loop:
//! process-tree bookkeeping, sidecar stamps, readiness lines, the
//! sidecar registry and command construction, and the runtime frame
//! protocol, each with a machine-checked contract.

pub mod text;
pub mod platform;
pub mod identity;
pub mod stamp;
pub mod process;
pub mod layout;
pub mod ready;
pub mod inspect;
pub mod stdout;
pub mod registry;
pub mod runtime;
