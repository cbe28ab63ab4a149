//! The operating system family the tools run on.

use vstd::prelude::*;

use crate::text::str_eq;

verus! {

/// The operating system families the tools tell apart.
#[derive(Debug, Clone, Copy, PartialEq, Eq, Structural)]
pub enum PlatformKind {
    Darwin,
    Linux,
    Windows,
    Other,
}

/// The family of the operating system that Rust names `os`
/// (as in `std::env::consts::OS`).
pub open spec fn platform_kind_spec(os: Seq<char>) -> PlatformKind {
    if os == "macos"@ {
        PlatformKind::Darwin
    } else if os == "linux"@ {
        PlatformKind::Linux
    } else if os == "windows"@ {
        PlatformKind::Windows
    } else {
        PlatformKind::Other
    }
}

/// Classifies the operating system name `os`.
pub fn platform_kind_for(os: &str) -> (r: PlatformKind)
    ensures
        r == platform_kind_spec(os@),
{
    if str_eq(os, "macos") {
        PlatformKind::Darwin
    } else if str_eq(os, "linux") {
        PlatformKind::Linux
    } else if str_eq(os, "windows") {
        PlatformKind::Windows
    } else {
        PlatformKind::Other
    }
}

} // verus!
