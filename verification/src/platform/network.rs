//! Loopback networking constants.

use vstd::prelude::*;

verus! {

/// The host that local listeners bind to.
pub const LOOPBACK_HOST: &'static str = "127.0.0.1";

} // verus!
