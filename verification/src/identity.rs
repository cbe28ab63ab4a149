//! Sidecar identity: the mode a sidecar runs in, its namespace, and the
//! stamp that names a sidecar process.

use vstd::prelude::*;

use crate::text::{owned, str_eq, trim, trimmed};

verus! {

/// Environment variables that carry a stamp to a sidecar process.
pub const SIDECAR_APP_ENV: &'static str = "STIM_SIDECAR_APP";

pub const SIDECAR_NAMESPACE_ENV: &'static str = "STIM_SIDECAR_NAMESPACE";

pub const SIDECAR_MODE_ENV: &'static str = "STIM_SIDECAR_MODE";

pub const SIDECAR_SOURCE_ENV: &'static str = "STIM_SIDECAR_SOURCE";

/// Stamp source labels.
pub const SOURCE_TOOL_SIDECAR: &'static str = "tool:sidecar";

pub const SOURCE_TOOL_STIM_DEV: &'static str = "tool:stim-dev";

pub const SOURCE_APP_PACKAGED: &'static str = "app:packaged";

/// The namespace used when none is given.
pub const DEFAULT_NAMESPACE: &'static str = "default";

/// How a sidecar runs: from a development checkout or as a packaged
/// runtime.
#[derive(Debug, Clone, Copy, PartialEq, Eq, Structural)]
pub enum SidecarMode {
    Dev,
    Runtime,
}

/// The name of a mode, as it appears in stamps and environments.
pub open spec fn mode_name(mode: SidecarMode) -> Seq<char> {
    match mode {
        SidecarMode::Dev => seq!['d', 'e', 'v'],
        SidecarMode::Runtime => seq!['r', 'u', 'n', 't', 'i', 'm', 'e'],
    }
}

/// The mode whose name is `s`, if any.
pub open spec fn mode_named(s: Seq<char>) -> Option<SidecarMode> {
    if s == mode_name(SidecarMode::Dev) {
        Some(SidecarMode::Dev)
    } else if s == mode_name(SidecarMode::Runtime) {
        Some(SidecarMode::Runtime)
    } else {
        None
    }
}

/// A string that names no sidecar mode.
#[derive(Debug, Clone, PartialEq, Eq)]
pub struct InvalidSidecarMode {
    pub value: String,
}

impl SidecarMode {
    pub fn as_str(&self) -> (r: &'static str)
        ensures
            r@ == mode_name(*self),
    {
        match self {
            SidecarMode::Dev => {
                proof {
                    reveal_strlit("dev");
                    assert("dev"@ =~= mode_name(SidecarMode::Dev));
                }
                "dev"
            },
            SidecarMode::Runtime => {
                proof {
                    reveal_strlit("runtime");
                    assert("runtime"@ =~= mode_name(SidecarMode::Runtime));
                }
                "runtime"
            },
        }
    }

    /// The mode named by `s`.
    pub fn parse(s: &str) -> (r: Result<SidecarMode, InvalidSidecarMode>)
        ensures
            match r {
                Ok(mode) => mode_named(s@) == Some(mode),
                Err(e) => mode_named(s@) is None && e.value@ == s@,
            },
    {
        proof {
            reveal_strlit("dev");
            reveal_strlit("runtime");
            assert("dev"@ =~= mode_name(SidecarMode::Dev));
            assert("runtime"@ =~= mode_name(SidecarMode::Runtime));
        }
        if str_eq(s, "dev") {
            Ok(SidecarMode::Dev)
        } else if str_eq(s, "runtime") {
            Ok(SidecarMode::Runtime)
        } else {
            proof {
                reveal_strlit("dev");
                reveal_strlit("runtime");
            }
            Err(InvalidSidecarMode { value: owned(s) })
        }
    }
}

impl std::str::FromStr for SidecarMode {
    type Err = InvalidSidecarMode;

    fn from_str(s: &str) -> (r: Result<SidecarMode, InvalidSidecarMode>)
        ensures
            match r {
                Ok(mode) => mode_named(s@) == Some(mode),
                Err(e) => mode_named(s@) is None && e.value@ == s@,
            },
    {
        SidecarMode::parse(s)
    }
}

/// The identity a sidecar process carries: which app it is, the
/// namespace and mode it was started for, and who started it.
#[derive(Debug, Clone, PartialEq, Eq)]
pub struct SidecarStamp {
    pub app: String,
    pub namespace: String,
    pub mode: SidecarMode,
    pub source: String,
}

/// Two stamps name the same identity.
pub open spec fn same_stamp(a: SidecarStamp, b: SidecarStamp) -> bool {
    &&& a.app@ == b.app@
    &&& a.namespace@ == b.namespace@
    &&& a.mode == b.mode
    &&& a.source@ == b.source@
}

impl SidecarStamp {
    /// Whether `self` and `other` name the same identity.
    pub fn same_as(&self, other: &SidecarStamp) -> (r: bool)
        ensures
            r == same_stamp(*self, *other),
    {
        self.app == other.app && self.namespace == other.namespace && self.mode == other.mode
            && self.source == other.source
    }
}

/// The namespace a caller asked for, trimmed, or `default` when it gave
/// none or only whitespace.
pub open spec fn namespace_or_default_spec(namespace: Option<Seq<char>>) -> Seq<char> {
    match namespace {
        Some(n) if trimmed(n).len() > 0 => trimmed(n),
        _ => seq!['d', 'e', 'f', 'a', 'u', 'l', 't'],
    }
}

pub fn namespace_or_default(namespace: Option<&str>) -> (r: String)
    ensures
        r@ == namespace_or_default_spec(
            match namespace {
                Some(n) => Some(n@),
                None => None,
            },
        ),
{
    proof {
        reveal_strlit("default");
        assert(DEFAULT_NAMESPACE@ =~= seq!['d', 'e', 'f', 'a', 'u', 'l', 't']);
    }
    match namespace {
        Some(n) => {
            let t = trim(n);
            if t.unicode_len() > 0 {
                t
            } else {
                owned(DEFAULT_NAMESPACE)
            }
        },
        None => owned(DEFAULT_NAMESPACE),
    }
}

/// The mode named by `value`, or `default` when it is absent or names no
/// mode.
pub fn mode_or_default(value: Option<&str>, default: SidecarMode) -> (r: SidecarMode)
    ensures
        r == match value {
            Some(v) => match mode_named(v@) {
                Some(m) => m,
                None => default,
            },
            None => default,
        },
{
    match value {
        Some(v) => match SidecarMode::parse(v) {
            Ok(m) => m,
            Err(_) => default,
        },
        None => default,
    }
}

} // verus!
