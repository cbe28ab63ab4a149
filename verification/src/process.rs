//! Matching running processes against stamp criteria, by their command
//! line or by the stamp variables in their environment.

use vstd::prelude::*;

use crate::identity::{
    mode_name, SidecarMode, SIDECAR_APP_ENV, SIDECAR_MODE_ENV, SIDECAR_NAMESPACE_ENV,
    SIDECAR_SOURCE_ENV,
};
use crate::platform::process::ProcessSnapshot;
use crate::stamp::{
    command_contains_stamp, command_has_stamp, STAMP_APP_FLAG, STAMP_MODE_FLAG,
    STAMP_NAMESPACE_FLAG, STAMP_SOURCE_FLAG,
};
use crate::text::{split_once, split_once_spec, split_whitespace, str_eq, views, words};

verus! {

/// Which stamp values a process must carry; `None` accepts any value.
#[derive(Debug, Clone, Default, PartialEq, Eq)]
pub struct StampedProcessCriteria {
    pub app: Option<String>,
    pub namespace: Option<String>,
    pub mode: Option<SidecarMode>,
    pub source: Option<String>,
}

/// `command` carries every stamp value that `c` asks for.
pub open spec fn command_meets(command: Seq<char>, c: StampedProcessCriteria) -> bool {
    &&& c.app matches Some(v) ==> command_has_stamp(command, STAMP_APP_FLAG@, v@)
    &&& c.namespace matches Some(v) ==> command_has_stamp(command, STAMP_NAMESPACE_FLAG@, v@)
    &&& c.mode matches Some(m) ==> command_has_stamp(command, STAMP_MODE_FLAG@, mode_name(m))
    &&& c.source matches Some(v) ==> command_has_stamp(command, STAMP_SOURCE_FLAG@, v@)
}

/// Whether `command` carries every stamp value that `criteria` asks for.
pub fn command_matches_criteria(command: &str, criteria: &StampedProcessCriteria) -> (r: bool)
    ensures
        r == command_meets(command@, *criteria),
{
    (match &criteria.app {
        Some(v) => command_contains_stamp(command, STAMP_APP_FLAG, v.as_str()),
        None => true,
    }) && (match &criteria.namespace {
        Some(v) => command_contains_stamp(command, STAMP_NAMESPACE_FLAG, v.as_str()),
        None => true,
    }) && (match &criteria.mode {
        Some(m) => command_contains_stamp(command, STAMP_MODE_FLAG, m.as_str()),
        None => true,
    }) && (match &criteria.source {
        Some(v) => command_contains_stamp(command, STAMP_SOURCE_FLAG, v.as_str()),
        None => true,
    })
}

/// The views of an environment.
pub open spec fn env_view(env: Seq<(String, String)>) -> Seq<(Seq<char>, Seq<char>)> {
    env.map_values(|e: (String, String)| (e.0@, e.1@))
}

/// `key` names one of the four stamp variables.
pub open spec fn is_stamp_key(key: Seq<char>) -> bool {
    ||| key == SIDECAR_APP_ENV@
    ||| key == SIDECAR_NAMESPACE_ENV@
    ||| key == SIDECAR_MODE_ENV@
    ||| key == SIDECAR_SOURCE_ENV@
}

/// `env` binds `key` to `value`.
pub open spec fn env_binds(env: Seq<(Seq<char>, Seq<char>)>, key: Seq<char>, value: Seq<char>) -> bool {
    exists|i: int| 0 <= i < env.len() && #[trigger] env[i] == (key, value)
}

/// `env` holds some stamp variable and binds every stamp value that `c`
/// asks for.
pub open spec fn env_meets(env: Seq<(Seq<char>, Seq<char>)>, c: StampedProcessCriteria) -> bool {
    &&& exists|i: int| 0 <= i < env.len() && is_stamp_key(#[trigger] env[i].0)
    &&& c.app matches Some(v) ==> env_binds(env, SIDECAR_APP_ENV@, v@)
    &&& c.namespace matches Some(v) ==> env_binds(env, SIDECAR_NAMESPACE_ENV@, v@)
    &&& c.mode matches Some(m) ==> env_binds(env, SIDECAR_MODE_ENV@, mode_name(m))
    &&& c.source matches Some(v) ==> env_binds(env, SIDECAR_SOURCE_ENV@, v@)
}

/// Whether `key` names one of the four stamp variables.
pub fn is_stamp_env_key(key: &str) -> (r: bool)
    ensures
        r == is_stamp_key(key@),
{
    str_eq(key, SIDECAR_APP_ENV) || str_eq(key, SIDECAR_NAMESPACE_ENV) || str_eq(
        key,
        SIDECAR_MODE_ENV,
    ) || str_eq(key, SIDECAR_SOURCE_ENV)
}

/// Whether `env` binds `key` to `value`.
pub fn env_has_value(env: &[(String, String)], key: &str, value: &str) -> (r: bool)
    ensures
        r == env_binds(env_view(env@), key@, value@),
{
    let ghost e = env_view(env@);
    let mut i: usize = 0;
    while i < env.len()
        invariant
            e == env_view(env@),
            i <= env@.len(),
            forall|k: int| 0 <= k < i ==> #[trigger] e[k] != (key@, value@),
        decreases env@.len() - i,
    {
        assert(e[i as int] == (env@[i as int].0@, env@[i as int].1@));
        if str_eq(env[i].0.as_str(), key) && str_eq(env[i].1.as_str(), value) {
            return true;
        }
        i = i + 1;
    }
    false
}

fn env_has_stamp_key(env: &[(String, String)]) -> (r: bool)
    ensures
        r == exists|i: int|
            0 <= i < env_view(env@).len() && is_stamp_key(#[trigger] env_view(env@)[i].0),
{
    let ghost e = env_view(env@);
    let mut i: usize = 0;
    while i < env.len()
        invariant
            e == env_view(env@),
            i <= env@.len(),
            forall|k: int| 0 <= k < i ==> !is_stamp_key(#[trigger] e[k].0),
        decreases env@.len() - i,
    {
        assert(e[i as int].0 == env@[i as int].0@);
        if is_stamp_env_key(env[i].0.as_str()) {
            return true;
        }
        i = i + 1;
    }
    false
}

/// Whether `env` holds some stamp variable and binds every stamp value
/// that `criteria` asks for.
pub fn env_matches_criteria(env: &[(String, String)], criteria: &StampedProcessCriteria) -> (r:
    bool)
    ensures
        r == env_meets(env_view(env@), *criteria),
{
    if !env_has_stamp_key(env) {
        return false;
    }
    (match &criteria.app {
        Some(v) => env_has_value(env, SIDECAR_APP_ENV, v.as_str()),
        None => true,
    }) && (match &criteria.namespace {
        Some(v) => env_has_value(env, SIDECAR_NAMESPACE_ENV, v.as_str()),
        None => true,
    }) && (match &criteria.mode {
        Some(m) => env_has_value(env, SIDECAR_MODE_ENV, m.as_str()),
        None => true,
    }) && (match &criteria.source {
        Some(v) => env_has_value(env, SIDECAR_SOURCE_ENV, v.as_str()),
        None => true,
    })
}

/// A process matches when its command line carries the stamp, or when
/// `env`, its environment if one could be read, does.
pub fn process_matches_criteria(
    process: &ProcessSnapshot,
    env: Option<&[(String, String)]>,
    criteria: &StampedProcessCriteria,
) -> (r: bool)
    ensures
        r == (command_meets(process.command@, *criteria) || match env {
            Some(e) => env_meets(env_view(e@), *criteria),
            None => false,
        }),
{
    command_matches_criteria(process.command.as_str(), criteria) || match env {
        Some(e) => env_matches_criteria(e, criteria),
        None => false,
    }
}

/// `process`, whose environment is `env` when it could be read, carries
/// the stamp values that `c` asks for.
pub open spec fn process_meets(
    process: ProcessSnapshot,
    env: Option<Vec<(String, String)>>,
    c: StampedProcessCriteria,
) -> bool {
    command_meets(process.command@, c) || match env {
        Some(e) => env_meets(env_view(e@), c),
        None => false,
    }
}

/// The processes of `ps` that meet `c`, each with its environment at the
/// same index of `envs`, in their order.
pub open spec fn meeting_processes(
    ps: Seq<ProcessSnapshot>,
    envs: Seq<Option<Vec<(String, String)>>>,
    c: StampedProcessCriteria,
) -> Seq<ProcessSnapshot>
    decreases ps.len(),
{
    if ps.len() == 0 {
        Seq::empty()
    } else {
        let prev = meeting_processes(ps.drop_last(), envs, c);
        if process_meets(ps.last(), envs[ps.len() - 1], c) {
            prev.push(ps.last())
        } else {
            prev
        }
    }
}

/// The processes among `processes` that carry the stamp values `criteria`
/// asks for, on their command line or in their environment, where
/// `envs[i]` is the environment of `processes[i]` when it could be read.
pub fn matching_processes(
    processes: &[ProcessSnapshot],
    envs: &[Option<Vec<(String, String)>>],
    criteria: &StampedProcessCriteria,
) -> (r: Vec<ProcessSnapshot>)
    requires
        processes@.len() == envs@.len(),
    ensures
        r@ == meeting_processes(processes@, envs@, *criteria),
{
    let mut r: Vec<ProcessSnapshot> = Vec::new();
    let mut i: usize = 0;
    while i < processes.len()
        invariant
            processes@.len() == envs@.len(),
            i <= processes@.len(),
            r@ == meeting_processes(processes@.take(i as int), envs@, *criteria),
        decreases processes@.len() - i,
    {
        assert(processes@.take(i + 1).drop_last() =~= processes@.take(i as int));
        assert(processes@.take(i + 1).last() == processes@[i as int]);
        let p = &processes[i];
        let env: Option<&[(String, String)]> = match &envs[i] {
            Some(e) => Some(e.as_slice()),
            None => None,
        };
        if process_matches_criteria(p, env, criteria) {
            r.push(ProcessSnapshot { command: p.command.clone(), pid: p.pid, ppid: p.ppid });
        }
        i = i + 1;
    }
    assert(processes@.take(processes@.len() as int) =~= processes@);
    r
}

/// The stamp variables among the `key=value` words of a process's
/// environment listing, in order.
pub open spec fn stamp_env_entries(ws: Seq<Seq<char>>) -> Seq<(Seq<char>, Seq<char>)>
    decreases ws.len(),
{
    if ws.len() == 0 {
        Seq::empty()
    } else {
        let prev = stamp_env_entries(ws.drop_last());
        match split_once_spec(ws.last(), '=') {
            Some((k, v)) => if is_stamp_key(k) {
                prev.push((k, v))
            } else {
                prev
            },
            None => prev,
        }
    }
}

/// The stamp variables of a `ps eww` listing of one process.
pub fn parse_stamp_ps_env(output: &str) -> (r: Vec<(String, String)>)
    ensures
        env_view(r@) == stamp_env_entries(words(output@)),
{
    let parts = split_whitespace(output);
    let ghost w = words(output@);
    let mut r: Vec<(String, String)> = Vec::new();
    let mut i: usize = 0;
    while i < parts.len()
        invariant
            w == views(parts@),
            i <= parts@.len(),
            env_view(r@) == stamp_env_entries(w.take(i as int)),
        decreases parts@.len() - i,
    {
        let ghost before = r@;
        assert(w.take(i + 1).drop_last() =~= w.take(i as int));
        assert(w.take(i + 1).last() == parts@[i as int]@);
        match split_once(parts[i].as_str(), '=') {
            Some((key, value)) => {
                if is_stamp_env_key(key.as_str()) {
                    r.push((key, value));
                    assert(env_view(r@) =~= env_view(before).push((key@, value@)));
                }
            },
            None => {},
        }
        i = i + 1;
    }
    assert(w.take(parts@.len() as int) =~= w);
    r
}

/// An environment matches only if it binds every stamp variable that the
/// criteria ask for to exactly the asked value: for each field of `c`
/// that asks for a value, some entry of `env` is that variable with that
/// value. An environment that binds the variable only to other values
/// never matches, and one without any stamp variable never matches.
pub proof fn law_env_match_needs_bindings(env: Seq<(Seq<char>, Seq<char>)>, c: StampedProcessCriteria)
    requires
        env_meets(env, c),
    ensures
        exists|i: int| 0 <= i < env.len() && is_stamp_key(#[trigger] env[i].0),
        c.app matches Some(v) ==> exists|i: int|
            0 <= i < env.len() && #[trigger] env[i] == (SIDECAR_APP_ENV@, v@),
        c.namespace matches Some(v) ==> exists|i: int|
            0 <= i < env.len() && #[trigger] env[i] == (SIDECAR_NAMESPACE_ENV@, v@),
        c.mode matches Some(m) ==> exists|i: int|
            0 <= i < env.len() && #[trigger] env[i] == (SIDECAR_MODE_ENV@, mode_name(m)),
        c.source matches Some(v) ==> exists|i: int|
            0 <= i < env.len() && #[trigger] env[i] == (SIDECAR_SOURCE_ENV@, v@),
{
}

/// A namespace the criteria ask for that no entry of `env` binds, because
/// every namespace entry holds another value, makes the match fail.
pub proof fn law_env_other_namespace_rejected(
    env: Seq<(Seq<char>, Seq<char>)>,
    c: StampedProcessCriteria,
    v: String,
)
    requires
        c.namespace == Some(v),
        forall|i: int|
            0 <= i < env.len() && (#[trigger] env[i]).0 == SIDECAR_NAMESPACE_ENV@ ==> env[i].1
                != v@,
    ensures
        !env_meets(env, c),
{
    if env_meets(env, c) {
        law_env_match_needs_bindings(env, c);
        let i = choose|i: int| 0 <= i < env.len() && #[trigger] env[i] == (SIDECAR_NAMESPACE_ENV@, v@);
        assert(env[i].0 == SIDECAR_NAMESPACE_ENV@);
    }
}

} // verus!
