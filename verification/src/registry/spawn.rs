//! Turning a registry descriptor into a command, and the decisions a
//! spawn makes about ready lines.

use vstd::prelude::*;

use crate::identity::{
    mode_name, SidecarMode, SidecarStamp, SIDECAR_APP_ENV, SIDECAR_MODE_ENV,
    SIDECAR_NAMESPACE_ENV, SIDECAR_SOURCE_ENV, SOURCE_TOOL_SIDECAR,
};
use crate::layout::{latest_log, layout_spec, SidecarLayout};
use crate::platform::paths::{join_path, joined, DEV_ROOT_RELATIVE};
use crate::process::{command_meets, env_binds, env_meets, env_view, StampedProcessCriteria};
use crate::ready::SidecarReadyLine;
use crate::registry::manifest::{env_is_table, LaunchSpec, LoadedDescriptor, SidecarDescriptor};
use crate::stamp::{
    command_has_stamp, create_stamp_args, inline_arg, word_at, STAMP_APP_FLAG, STAMP_MODE_FLAG,
    STAMP_NAMESPACE_FLAG, STAMP_SOURCE_FLAG,
};
use crate::text::{
    concat, debug_quoted, decimal, decimal_string, has_no_space, io_error_text, is_space,
    join_with, lemma_words_join_space, lemma_words_of_parts_index, owned, starts_with, str_debug,
    str_eq, views, words, words_of_parts, zero_padded, zero_padded_decimal,
};

verus! {

/// How the spawned process's standard streams are connected.
#[derive(Debug, Clone, Copy, PartialEq, Eq, Structural)]
pub enum SpawnStdio {
    /// Inherit stdin and stderr; pipe stdout to read the ready line.
    Inherit,
    /// Detach from the process group; stdout and stderr go to the app's
    /// log under the namespace's layout.
    Detached,
}

/// What a caller chooses at spawn time.
#[derive(Debug, Clone)]
pub struct SpawnOptions {
    pub namespace: String,
    pub mode: SidecarMode,
    pub stdio: SpawnStdio,
    /// Arguments placed after the launch arguments and before the stamp.
    pub extra_args: Vec<String>,
    /// Environment placed after the descriptor's and the stamp's.
    pub extra_env: Vec<(String, String)>,
    /// How long to wait for a ready line; `None` means
    /// `DEFAULT_READY_TIMEOUT_SECS`.
    pub ready_timeout: Option<std::time::Duration>,
}

impl SpawnOptions {
    pub fn new(namespace: &str, mode: SidecarMode, stdio: SpawnStdio) -> (r: Self)
        ensures
            r.namespace@ == namespace@,
            r.mode == mode,
            r.stdio == stdio,
            r.extra_args@.len() == 0,
            r.extra_env@.len() == 0,
            r.ready_timeout is None,
    {
        SpawnOptions {
            namespace: owned(namespace),
            mode,
            stdio,
            extra_args: Vec::new(),
            extra_env: Vec::new(),
            ready_timeout: None,
        }
    }
}

/// Why a spawn failed.
#[derive(Debug)]
pub enum SpawnError {
    Io { context: String, error: std::io::Error },
    UnexpectedReady { role: String, line: String },
    EarlyExit { context: String, log_path: Option<String> },
    Timeout { context: String, log_path: Option<String> },
    ReadyChannelMissing { context: String },
}

impl SpawnError {
    /// The message this error reads as. The text of an I/O error is the
    /// outside error's own message, after the context.
    pub fn describe(&self) -> (r: String)
        ensures
            match self {
                SpawnError::Io { context, .. } => starts_with(r@, context@ + ": "@),
                SpawnError::UnexpectedReady { role, line } => r@
                    == "unexpected ready line for role "@ + str_debug(role@) + ": "@ + line@,
                SpawnError::EarlyExit { context, log_path } => r@ == match log_path {
                    Some(p) => context@ + "; see "@ + p@,
                    None => context@,
                },
                SpawnError::Timeout { context, log_path } => r@ == match log_path {
                    Some(p) => context@ + ": timed out waiting for ready line; see "@ + p@,
                    None => context@ + ": timed out waiting for ready line"@,
                },
                SpawnError::ReadyChannelMissing { context } => r@ == context@
                    + ": stdout was not piped; cannot read ready line"@,
            },
    {
        match self {
            SpawnError::Io { context, error } => {
                let head = concat(context.as_str(), ": ");
                let text = io_error_text(error);
                let r = concat(head.as_str(), text.as_str());
                assert(r@.take(head@.len() as int) =~= head@);
                r
            },
            SpawnError::UnexpectedReady { role, line } => {
                let quoted = debug_quoted(role.as_str());
                let a = concat("unexpected ready line for role ", quoted.as_str());
                let b = concat(a.as_str(), ": ");
                concat(b.as_str(), line.as_str())
            },
            SpawnError::EarlyExit { context, log_path } => match log_path {
                Some(p) => {
                    let a = concat(context.as_str(), "; see ");
                    concat(a.as_str(), p.as_str())
                },
                None => context.clone(),
            },
            SpawnError::Timeout { context, log_path } => match log_path {
                Some(p) => {
                    let a = concat(context.as_str(), ": timed out waiting for ready line; see ");
                    concat(a.as_str(), p.as_str())
                },
                None => concat(context.as_str(), ": timed out waiting for ready line"),
            },
            SpawnError::ReadyChannelMissing { context } => concat(
                context.as_str(),
                ": stdout was not piped; cannot read ready line",
            ),
        }
    }
}

/// A process to run: program, arguments, working directory and the
/// environment variables to set, in the order they are set.
#[derive(Debug, Clone, PartialEq, Eq)]
pub struct SidecarCommand {
    pub program: String,
    pub args: Vec<String>,
    pub current_dir: String,
    pub envs: Vec<(String, String)>,
}

/// The stamp source a descriptor asks for, `tool:sidecar` by default.
pub open spec fn stamp_source_of(d: SidecarDescriptor) -> Seq<char> {
    match d.stamp_source {
        Some(s) => s@,
        None => SOURCE_TOOL_SIDECAR@,
    }
}

/// The stamp a spawn of `d` injects.
pub fn build_stamp(descriptor: &SidecarDescriptor, namespace: &str, mode: SidecarMode) -> (r:
    SidecarStamp)
    ensures
        r.app@ == descriptor.app@,
        r.namespace@ == namespace@,
        r.mode == mode,
        r.source@ == stamp_source_of(*descriptor),
{
    SidecarStamp {
        app: descriptor.app.clone(),
        namespace: owned(namespace),
        mode,
        source: match &descriptor.stamp_source {
            Some(s) => s.clone(),
            None => owned(SOURCE_TOOL_SIDECAR),
        },
    }
}

/// The stamp arguments of a spawn of `d`.
pub open spec fn stamp_arg_views(d: SidecarDescriptor, namespace: Seq<char>, mode: SidecarMode) -> Seq<
    Seq<char>,
> {
    seq![
        inline_arg(STAMP_APP_FLAG@, d.app@),
        inline_arg(STAMP_NAMESPACE_FLAG@, namespace),
        inline_arg(STAMP_MODE_FLAG@, mode_name(mode)),
        inline_arg(STAMP_SOURCE_FLAG@, stamp_source_of(d)),
    ]
}

pub open spec fn opt_pair(flag: Seq<char>, value: Option<String>) -> Seq<Seq<char>> {
    match value {
        Some(v) => seq![flag, v@],
        None => Seq::empty(),
    }
}

/// The program a descriptor launches.
pub open spec fn command_program(d: SidecarDescriptor) -> Seq<char> {
    match d.launch {
        LaunchSpec::Cargo { .. } => "cargo"@,
        LaunchSpec::Shell { command, .. } => command@,
    }
}

/// The arguments of a spawn: for cargo `run --manifest-path <manifest>`,
/// the package and binary when given, the cargo flags, `--`, then the
/// launch arguments; for a shell command its arguments. Then the caller's
/// extra arguments, then the stamp arguments unless the stamp goes
/// through the environment.
pub open spec fn command_args(
    loaded: LoadedDescriptor,
    extra_args: Seq<Seq<char>>,
    namespace: Seq<char>,
    mode: SidecarMode,
) -> Seq<Seq<char>> {
    let d = loaded.descriptor;
    let stamp = if d.stamp_via_env {
        Seq::empty()
    } else {
        stamp_arg_views(d, namespace, mode)
    };
    match d.launch {
        LaunchSpec::Cargo { manifest_path, package, bin, cargo_args, args } => seq![
            "run"@,
            "--manifest-path"@,
            joined(loaded.manifest_dir@, manifest_path@),
        ] + opt_pair("-p"@, package) + opt_pair("--bin"@, bin) + views(cargo_args@) + seq![
            "--"@,
        ] + views(args@) + extra_args + stamp,
        LaunchSpec::Shell { command, args } => views(args@) + extra_args + stamp,
    }
}

/// The working directory of a spawn: the descriptor's, relative to its
/// manifest, or else the workspace root.
pub open spec fn command_dir(loaded: LoadedDescriptor, workspace_root: Seq<char>) -> Seq<char> {
    match loaded.descriptor.cwd {
        Some(rel) => joined(loaded.manifest_dir@, rel@),
        None => workspace_root,
    }
}

/// The environment of a spawn: the descriptor's, then the four stamp
/// variables when the stamp goes through the environment, then the
/// caller's extra variables.
pub open spec fn command_envs(
    d: SidecarDescriptor,
    extra_env: Seq<(Seq<char>, Seq<char>)>,
    namespace: Seq<char>,
    mode: SidecarMode,
) -> Seq<(Seq<char>, Seq<char>)> {
    env_view(d.env@) + (if d.stamp_via_env {
        seq![
            (SIDECAR_APP_ENV@, d.app@),
            (SIDECAR_NAMESPACE_ENV@, namespace),
            (SIDECAR_MODE_ENV@, mode_name(mode)),
            (SIDECAR_SOURCE_ENV@, stamp_source_of(d)),
        ]
    } else {
        Seq::empty()
    }) + extra_env
}

fn push_all(dst: &mut Vec<String>, src: &Vec<String>)
    ensures
        views(final(dst)@) == views(old(dst)@) + views(src@),
{
    let ghost start = dst@;
    let mut i: usize = 0;
    while i < src.len()
        invariant
            i <= src@.len(),
            views(dst@) == views(start) + views(src@.take(i as int)),
        decreases src@.len() - i,
    {
        let ghost prev = dst@;
        dst.push(src[i].clone());
        assert(views(dst@) =~= views(prev).push(src@[i as int]@));
        assert(views(src@.take(i + 1)) =~= views(src@.take(i as int)).push(src@[i as int]@));
        i = i + 1;
        assert(views(dst@) =~= views(start) + views(src@.take(i as int)));
    }
    assert(src@.take(src@.len() as int) =~= src@);
}

fn push_env_all(dst: &mut Vec<(String, String)>, src: &Vec<(String, String)>)
    ensures
        env_view(final(dst)@) == env_view(old(dst)@) + env_view(src@),
{
    let ghost start = dst@;
    let mut i: usize = 0;
    while i < src.len()
        invariant
            i <= src@.len(),
            env_view(dst@) == env_view(start) + env_view(src@.take(i as int)),
        decreases src@.len() - i,
    {
        let ghost prev = dst@;
        dst.push((src[i].0.clone(), src[i].1.clone()));
        let ghost e = (src@[i as int].0@, src@[i as int].1@);
        assert(env_view(dst@) =~= env_view(prev).push(e));
        assert(env_view(src@.take(i + 1)) =~= env_view(src@.take(i as int)).push(e));
        i = i + 1;
        assert(env_view(dst@) =~= env_view(start) + env_view(src@.take(i as int)));
    }
    assert(src@.take(src@.len() as int) =~= src@);
}

fn push_one(dst: &mut Vec<String>, s: &str)
    ensures
        views(final(dst)@) == views(old(dst)@).push(s@),
{
    let ghost start = dst@;
    dst.push(owned(s));
    assert(views(dst@) =~= views(start).push(s@));
}

/// The command that spawns `loaded` for `options`, relative to
/// `workspace_root`.
pub fn build_command(loaded: &LoadedDescriptor, workspace_root: &str, options: &SpawnOptions) -> (r:
    SidecarCommand)
    requires
        env_is_table(loaded.descriptor.env@),
    ensures
        r.program@ == command_program(loaded.descriptor),
        views(r.args@) == command_args(
            *loaded,
            views(options.extra_args@),
            options.namespace@,
            options.mode,
        ),
        r.current_dir@ == command_dir(*loaded, workspace_root@),
        env_view(r.envs@) == command_envs(
            loaded.descriptor,
            env_view(options.extra_env@),
            options.namespace@,
            options.mode,
        ),
{
    let d = &loaded.descriptor;
    let stamp = build_stamp(d, options.namespace.as_str(), options.mode);
    let stamp_args_v = if d.stamp_via_env {
        Vec::new()
    } else {
        create_stamp_args(&stamp)
    };
    proof {
        if !d.stamp_via_env {
            assert(views(stamp_args_v@) =~= stamp_arg_views(*d, options.namespace@, options.mode));
        }
    }
    let mut args: Vec<String> = Vec::new();
    let program = match &d.launch {
        LaunchSpec::Cargo { manifest_path, package, bin, cargo_args, args: launch_args } => {
            push_one(&mut args, "run");
            push_one(&mut args, "--manifest-path");
            let abs_manifest = join_path(loaded.manifest_dir.as_str(), manifest_path.as_str());
            let ghost prefix = views(args@);
            args.push(abs_manifest);
            assert(views(args@) =~= prefix.push(joined(loaded.manifest_dir@, manifest_path@)));
            let ghost after_manifest = views(args@);
            match package {
                Some(pkg) => {
                    push_one(&mut args, "-p");
                    push_one(&mut args, pkg.as_str());
                },
                None => {},
            }
            assert(views(args@) =~= after_manifest + opt_pair("-p"@, *package));
            let ghost after_package = views(args@);
            match bin {
                Some(b) => {
                    push_one(&mut args, "--bin");
                    push_one(&mut args, b.as_str());
                },
                None => {},
            }
            assert(views(args@) =~= after_package + opt_pair("--bin"@, *bin));
            push_all(&mut args, cargo_args);
            push_one(&mut args, "--");
            push_all(&mut args, launch_args);
            owned("cargo")
        },
        LaunchSpec::Shell { command, args: launch_args } => {
            push_all(&mut args, launch_args);
            command.clone()
        },
    };
    push_all(&mut args, &options.extra_args);
    push_all(&mut args, &stamp_args_v);
    proof {
        assert(views(args@) =~= command_args(
            *loaded,
            views(options.extra_args@),
            options.namespace@,
            options.mode,
        ));
    }
    let current_dir = match &d.cwd {
        Some(rel) => join_path(loaded.manifest_dir.as_str(), rel.as_str()),
        None => owned(workspace_root),
    };
    let mut envs: Vec<(String, String)> = Vec::new();
    push_env_all(&mut envs, &d.env);
    if d.stamp_via_env {
        let ghost before = envs@;
        envs.push((owned(SIDECAR_APP_ENV), stamp.app.clone()));
        envs.push((owned(SIDECAR_NAMESPACE_ENV), options.namespace.clone()));
        envs.push((owned(SIDECAR_MODE_ENV), owned(options.mode.as_str())));
        envs.push((owned(SIDECAR_SOURCE_ENV), stamp.source.clone()));
        assert(env_view(envs@) =~= env_view(before) + seq![
            (SIDECAR_APP_ENV@, d.app@),
            (SIDECAR_NAMESPACE_ENV@, options.namespace@),
            (SIDECAR_MODE_ENV@, mode_name(options.mode)),
            (SIDECAR_SOURCE_ENV@, stamp_source_of(*d)),
        ]);
    }
    push_env_all(&mut envs, &options.extra_env);
    proof {
        assert(env_view(envs@) =~= command_envs(
            *d,
            env_view(options.extra_env@),
            options.namespace@,
            options.mode,
        ));
    }
    SidecarCommand { program, args, current_dir, envs }
}


/// How a spawn waits for its sidecar to be ready.
#[derive(Debug, Clone, PartialEq, Eq)]
pub enum ReadyStrategy {
    /// No ready expectation: the spawn returns at once.
    Skip,
    /// Read a ready line from the piped stdout.
    StdoutLine { role: String },
    /// Watch the piped stdout for a line matching `pattern`.
    StdoutPattern { role: String, pattern: String },
    /// Poll the log file for a ready line.
    LogLine { role: String },
    /// Poll the log file for a line matching `pattern`.
    LogPattern { role: String, pattern: String },
}

/// The way a spawn of `descriptor` with `stdio` waits for readiness:
/// none without a ready expectation; with one, from stdout when it is
/// inherited and from the log when detached, by pattern when the
/// expectation names a stdout pattern and by ready line otherwise.
pub fn ready_strategy(descriptor: &SidecarDescriptor, stdio: SpawnStdio) -> (r: ReadyStrategy)
    ensures
        match descriptor.ready {
            None => r == ReadyStrategy::Skip,
            Some(e) => match (e.stdout_pattern, stdio) {
                (None, SpawnStdio::Inherit) => r matches ReadyStrategy::StdoutLine { role }
                    && role@ == e.role@,
                (Some(p), SpawnStdio::Inherit) => r matches ReadyStrategy::StdoutPattern {
                    role,
                    pattern,
                } && role@ == e.role@ && pattern@ == p@,
                (None, SpawnStdio::Detached) => r matches ReadyStrategy::LogLine { role }
                    && role@ == e.role@,
                (Some(p), SpawnStdio::Detached) => r matches ReadyStrategy::LogPattern {
                    role,
                    pattern,
                } && role@ == e.role@ && pattern@ == p@,
            },
        },
{
    match &descriptor.ready {
        None => ReadyStrategy::Skip,
        Some(e) => {
            let role = e.role.clone();
            match (&e.stdout_pattern, stdio) {
                (None, SpawnStdio::Inherit) => ReadyStrategy::StdoutLine { role },
                (Some(p), SpawnStdio::Inherit) => ReadyStrategy::StdoutPattern {
                    role,
                    pattern: p.clone(),
                },
                (None, SpawnStdio::Detached) => ReadyStrategy::LogLine { role },
                (Some(p), SpawnStdio::Detached) => ReadyStrategy::LogPattern {
                    role,
                    pattern: p.clone(),
                },
            }
        },
    }
}

/// What watching a sidecar's output for an endpoint pattern saw.
pub enum PatternReadEvent {
    /// A line was read; `endpoint` is what the pattern captured in it, and
    /// `timed_out` whether the wait had run out of time by then.
    Line { endpoint: Option<String>, timed_out: bool },
    /// The output ended, or the sidecar exited.
    Closed,
}

/// What to do after one read while watching for an endpoint pattern.
#[derive(Debug, Clone, PartialEq, Eq)]
pub enum PatternWaitStep {
    /// The endpoint was found.
    Found(String),
    /// Read on.
    Continue,
    /// Give up: the time ran out.
    TimedOut,
    /// Give up: the output ended before a match.
    Closed,
}

/// One step of watching for an endpoint pattern: a captured endpoint ends
/// the wait, even when the time has run out; otherwise the wait ends when
/// the time has run out or the output ended, and goes on after any other
/// line.
pub fn pattern_wait_step(event: PatternReadEvent) -> (r: PatternWaitStep)
    ensures
        match event {
            PatternReadEvent::Line { endpoint: Some(e), .. } => r == PatternWaitStep::Found(e),
            PatternReadEvent::Line { endpoint: None, timed_out } => r == if timed_out {
                PatternWaitStep::TimedOut
            } else {
                PatternWaitStep::Continue
            },
            PatternReadEvent::Closed => r == PatternWaitStep::Closed,
        },
{
    match event {
        PatternReadEvent::Line { endpoint, timed_out } => match endpoint {
            Some(e) => PatternWaitStep::Found(e),
            None => if timed_out {
                PatternWaitStep::TimedOut
            } else {
                PatternWaitStep::Continue
            },
        },
        PatternReadEvent::Closed => PatternWaitStep::Closed,
    }
}

/// `line` is of the ready kind, carries the stamp a spawn of `loaded` in
/// `namespace` and `mode` injects, and has role `role`.
pub open spec fn ready_line_accepted(
    loaded: LoadedDescriptor,
    line: SidecarReadyLine,
    namespace: Seq<char>,
    mode: SidecarMode,
    role: Seq<char>,
) -> bool {
    &&& line.kind@ == crate::ready::READY_LINE_KIND@
    &&& line.stamp.app@ == loaded.descriptor.app@
    &&& line.stamp.namespace@ == namespace
    &&& line.stamp.mode == mode
    &&& line.stamp.source@ == stamp_source_of(loaded.descriptor)
    &&& line.role@ == role
}

/// A ready line is the expected one when it is of the ready kind, carries
/// the stamp the spawn injected and has the expected role.
pub fn ready_line_expected(
    loaded: &LoadedDescriptor,
    line: &SidecarReadyLine,
    namespace: &str,
    mode: SidecarMode,
    expected_role: &str,
) -> (r: bool)
    ensures
        r == ready_line_accepted(*loaded, *line, namespace@, mode, expected_role@),
{
    let expected = build_stamp(&loaded.descriptor, namespace, mode);
    line.is_ready_line() && line.stamp.same_as(&expected) && str_eq(
        line.role.as_str(),
        expected_role,
    )
}

/// `<secs>-<millis>` with the milliseconds padded to three digits.
pub fn timestamp_text(secs: u64, millis: u64) -> (r: String)
    ensures
        r@ == decimal(secs as nat) + "-"@ + zero_padded(decimal(millis as nat), 3),
{
    let s = decimal_string(secs);
    let with_dash = concat(s.as_str(), "-");
    let m = zero_padded_decimal(millis, 3);
    concat(with_dash.as_str(), m.as_str())
}

/// The instance id of a synthesized ready line: `<app>-<pid mod 10^6>`.
pub open spec fn synthesized_instance_id(app: Seq<char>, pid: u32) -> Seq<char> {
    app + "-"@ + decimal((pid % 1_000_000) as nat)
}

/// `line` is the ready line a spawn of `loaded` in `namespace` and `mode`
/// makes up for role `role` from process `pid`: the injected stamp, the
/// role, and the instance id of the app and `pid`.
pub open spec fn synthesized_from(
    line: SidecarReadyLine,
    loaded: LoadedDescriptor,
    namespace: Seq<char>,
    mode: SidecarMode,
    role: Seq<char>,
    pid: u32,
) -> bool {
    &&& line.kind@ == crate::ready::READY_LINE_KIND@
    &&& line.stamp.app@ == loaded.descriptor.app@
    &&& line.stamp.namespace@ == namespace
    &&& line.stamp.mode == mode
    &&& line.stamp.source@ == stamp_source_of(loaded.descriptor)
    &&& line.role@ == role
    &&& line.instance_id@ == synthesized_instance_id(loaded.descriptor.app@, pid)
}

/// The ready line a spawn makes up for a sidecar that printed `endpoint`
/// instead of a ready line: the injected stamp, the expected role, an
/// instance id from the app and `pid`, and the time `ready_at`.
pub fn synthesized_ready_line(
    loaded: &LoadedDescriptor,
    options: &SpawnOptions,
    role: &str,
    endpoint: String,
    pid: u32,
    ready_at: String,
) -> (r: SidecarReadyLine)
    ensures
        synthesized_from(r, *loaded, options.namespace@, options.mode, role@, pid),
        r.endpoint == Some(endpoint),
        r.ready_at == ready_at,
{
    let stamp = build_stamp(&loaded.descriptor, options.namespace.as_str(), options.mode);
    let with_dash = concat(loaded.descriptor.app.as_str(), "-");
    let n = decimal_string((pid % 1_000_000) as u64);
    let instance_id = concat(with_dash.as_str(), n.as_str());
    SidecarReadyLine::new(stamp, owned(role), instance_id, Some(endpoint), ready_at)
}

/// A ready line that a spawn makes up passes the check that the spawn
/// applies to the ready lines sidecars print.
pub proof fn law_synthesized_line_accepted(
    line: SidecarReadyLine,
    loaded: LoadedDescriptor,
    namespace: Seq<char>,
    mode: SidecarMode,
    role: Seq<char>,
    pid: u32,
)
    requires
        synthesized_from(line, loaded, namespace, mode, role, pid),
    ensures
        ready_line_accepted(loaded, line, namespace, mode, role),
{
}

/// Where a detached spawn of `app` logs: the app's latest log in the
/// namespace's layout under the workspace's development root.
pub fn detached_log_path(workspace_root: &str, namespace: &str, app: &str) -> (r: String)
    ensures
        r@ == joined(
            joined(
                layout_spec(joined(workspace_root@, DEV_ROOT_RELATIVE@), Some(namespace@)).2,
                app@,
            ),
            latest_log(),
        ),
{
    let dev_root = join_path(workspace_root, DEV_ROOT_RELATIVE);
    let layout = SidecarLayout::new(dev_root.as_str(), Some(namespace));
    layout.app_log_path(app)
}

/// The command line that `ps` shows for a process started with
/// `program` and `args`: the argument vector joined with single spaces.
pub open spec fn command_line(program: Seq<char>, args: Seq<Seq<char>>) -> Seq<char> {
    join_with(seq![program] + args, seq![' '])
}

/// `criteria` asks for nothing that the stamp of a spawn of `d` in
/// `namespace` and `mode` does not carry.
pub open spec fn criteria_accept_spawn(
    c: StampedProcessCriteria,
    d: SidecarDescriptor,
    namespace: Seq<char>,
    mode: SidecarMode,
) -> bool {
    &&& c.app matches Some(v) ==> v@ == d.app@
    &&& c.namespace matches Some(v) ==> v@ == namespace
    &&& c.mode matches Some(m) ==> m == mode
    &&& c.source matches Some(v) ==> v@ == stamp_source_of(d)
}

proof fn lemma_inline_arg_one_word(flag: Seq<char>, value: Seq<char>)
    requires
        has_no_space(flag),
        has_no_space(value),
    ensures
        inline_arg(flag, value).len() > 0,
        has_no_space(inline_arg(flag, value)),
{
    let a = inline_arg(flag, value);
    assert forall|j: int| 0 <= j < a.len() implies !is_space(#[trigger] a[j]) by {
        if j < flag.len() {
            assert(a[j] == flag[j]);
        } else if j == flag.len() {
            assert(a[j] == '=');
        } else {
            assert(a[j] == value[j - flag.len() - 1]);
        }
    }
}

/// The stamp argument at `i` of the parts of a command line is one of
/// its words.
proof fn lemma_stamp_arg_is_word(parts: Seq<Seq<char>>, i: int, flag: Seq<char>, value: Seq<char>)
    requires
        0 <= i < parts.len(),
        parts[i] == inline_arg(flag, value),
        has_no_space(flag),
        has_no_space(value),
    ensures
        command_has_stamp(join_with(parts, seq![' ']), flag, value),
{
    lemma_inline_arg_one_word(flag, value);
    lemma_words_join_space(parts);
    lemma_words_of_parts_index(parts, i);
    let k = words_of_parts(parts.take(i)).len() as int;
    assert(word_at(words(join_with(parts, seq![' '])), k, inline_arg(flag, value)));
}

/// A sidecar started from `build_command` is found again by the stamp
/// it was given. With the stamp on the command line, the command line
/// as `ps` shows it meets every criteria that the stamp satisfies, as
/// long as the stamp's app, namespace and source hold no whitespace
/// (a value with whitespace falls apart into several words). With the
/// stamp in the environment, the variables the command sets meet them.
pub proof fn law_spawned_sidecar_matches_stamp(
    loaded: LoadedDescriptor,
    extra_args: Seq<Seq<char>>,
    extra_env: Seq<(Seq<char>, Seq<char>)>,
    namespace: Seq<char>,
    mode: SidecarMode,
    c: StampedProcessCriteria,
)
    requires
        criteria_accept_spawn(c, loaded.descriptor, namespace, mode),
        !loaded.descriptor.stamp_via_env ==> {
            &&& has_no_space(loaded.descriptor.app@)
            &&& has_no_space(namespace)
            &&& has_no_space(stamp_source_of(loaded.descriptor))
        },
    ensures
        !loaded.descriptor.stamp_via_env ==> command_meets(
            command_line(
                command_program(loaded.descriptor),
                command_args(loaded, extra_args, namespace, mode),
            ),
            c,
        ),
        loaded.descriptor.stamp_via_env ==> env_meets(
            command_envs(loaded.descriptor, extra_env, namespace, mode),
            c,
        ),
{
    let d = loaded.descriptor;
    if d.stamp_via_env {
        let env = command_envs(d, extra_env, namespace, mode);
        let base = env_view(d.env@).len() as int;
        assert(env[base] == (SIDECAR_APP_ENV@, d.app@));
        assert(env[base + 1] == (SIDECAR_NAMESPACE_ENV@, namespace));
        assert(env[base + 2] == (SIDECAR_MODE_ENV@, mode_name(mode)));
        assert(env[base + 3] == (SIDECAR_SOURCE_ENV@, stamp_source_of(d)));
        assert(crate::process::is_stamp_key(env[base].0));
        assert(env_binds(env, SIDECAR_APP_ENV@, d.app@));
        assert(env_binds(env, SIDECAR_NAMESPACE_ENV@, namespace));
        assert(env_binds(env, SIDECAR_MODE_ENV@, mode_name(mode)));
        assert(env_binds(env, SIDECAR_SOURCE_ENV@, stamp_source_of(d)));
    } else {
        let args = command_args(loaded, extra_args, namespace, mode);
        let parts = seq![command_program(d)] + args;
        let n = parts.len() as int;
        let st = stamp_arg_views(d, namespace, mode);
        assert(n >= 5);
        assert(parts.skip(n - 4) =~= st) by {
            assert(args.skip(args.len() - 4) =~= st);
        }
        assert(parts[n - 4] == st[0]);
        assert(parts[n - 3] == st[1]);
        assert(parts[n - 2] == st[2]);
        assert(parts[n - 1] == st[3]);
        reveal_strlit("--sidecar-stamp-app");
        reveal_strlit("--sidecar-stamp-namespace");
        reveal_strlit("--sidecar-stamp-mode");
        reveal_strlit("--sidecar-stamp-source");
        assert(has_no_space(STAMP_APP_FLAG@));
        assert(has_no_space(STAMP_NAMESPACE_FLAG@));
        assert(has_no_space(STAMP_MODE_FLAG@));
        assert(has_no_space(STAMP_SOURCE_FLAG@));
        assert(has_no_space(mode_name(mode)));
        lemma_stamp_arg_is_word(parts, n - 4, STAMP_APP_FLAG@, d.app@);
        lemma_stamp_arg_is_word(parts, n - 3, STAMP_NAMESPACE_FLAG@, namespace);
        lemma_stamp_arg_is_word(parts, n - 2, STAMP_MODE_FLAG@, mode_name(mode));
        lemma_stamp_arg_is_word(parts, n - 1, STAMP_SOURCE_FLAG@, stamp_source_of(d));
    }
}

/// The stamp arguments a spawn ends its argument list with: none when the
/// stamp goes through the environment, else the four `flag=value`
/// arguments for app, namespace, mode and source.
pub open spec fn trailing_stamp_args(
    d: SidecarDescriptor,
    namespace: Seq<char>,
    mode: SidecarMode,
) -> Seq<Seq<char>> {
    if d.stamp_via_env {
        Seq::empty()
    } else {
        seq![
            STAMP_APP_FLAG@ + seq!['='] + d.app@,
            STAMP_NAMESPACE_FLAG@ + seq!['='] + namespace,
            STAMP_MODE_FLAG@ + seq!['='] + mode_name(mode),
            STAMP_SOURCE_FLAG@ + seq!['='] + stamp_source_of(d),
        ]
    }
}

/// How the arguments of a spawn are laid out, for every launch kind: the
/// stamp arguments come last; directly before them stand the caller's
/// extra arguments, in order; directly before those the launch's own
/// arguments. A shell launch has nothing else, so its arguments are
/// `launch args ++ extra args ++ stamp args`; a cargo launch puts `--`
/// right before its launch arguments.
pub proof fn law_command_args_layout(
    loaded: LoadedDescriptor,
    extra: Seq<Seq<char>>,
    namespace: Seq<char>,
    mode: SidecarMode,
)
    ensures
        ({
            let a = command_args(loaded, extra, namespace, mode);
            let st = trailing_stamp_args(loaded.descriptor, namespace, mode);
            let n = a.len() as int;
            let s = st.len() as int;
            let e = extra.len() as int;
            &&& n >= s + e
            &&& a.skip(n - s) == st
            &&& a.subrange(n - s - e, n - s) == extra
            &&& match loaded.descriptor.launch {
                LaunchSpec::Shell { args, .. } => {
                    &&& n == args@.len() + e + s
                    &&& a.take(args@.len() as int) == views(args@)
                },
                LaunchSpec::Cargo { args, .. } => {
                    let l = args@.len() as int;
                    &&& n >= s + e + l + 1
                    &&& a.subrange(n - s - e - l, n - s - e) == views(args@)
                    &&& a[n - s - e - l - 1] == "--"@
                },
            }
        }),
{
    let d = loaded.descriptor;
    let a = command_args(loaded, extra, namespace, mode);
    let st = trailing_stamp_args(d, namespace, mode);
    let stamp = if d.stamp_via_env {
        Seq::<Seq<char>>::empty()
    } else {
        stamp_arg_views(d, namespace, mode)
    };
    assert(stamp =~= st);
    let n = a.len() as int;
    let s = st.len() as int;
    let e = extra.len() as int;
    match d.launch {
        LaunchSpec::Shell { args, .. } => {
            let la = views(args@);
            assert(a == la + extra + st);
            assert(a.skip(n - s) =~= st);
            assert(a.subrange(n - s - e, n - s) =~= extra);
            assert(a.take(args@.len() as int) =~= la);
        },
        LaunchSpec::Cargo { manifest_path, package, bin, cargo_args, args } => {
            let la = views(args@);
            let head = seq!["run"@, "--manifest-path"@, joined(loaded.manifest_dir@, manifest_path@)]
                + opt_pair("-p"@, package) + opt_pair("--bin"@, bin) + views(cargo_args@) + seq![
                "--"@,
            ];
            assert(a == head + la + extra + st);
            let l = la.len() as int;
            assert(a.skip(n - s) =~= st);
            assert(a.subrange(n - s - e, n - s) =~= extra);
            assert(a.subrange(n - s - e - l, n - s - e) =~= la);
            assert(a[n - s - e - l - 1] == head[head.len() - 1]);
        },
    }
}

/// A ready line passes the spawn's check exactly when it is of the ready
/// kind, has the expected role, and carries a stamp equal in every field
/// to the one `build_stamp` gives for the descriptor, namespace and mode;
/// so an accepted line always names the spawned app.
pub proof fn law_ready_line_needs_injected_stamp(
    loaded: LoadedDescriptor,
    line: SidecarReadyLine,
    namespace: Seq<char>,
    mode: SidecarMode,
    role: Seq<char>,
    injected: SidecarStamp,
)
    requires
        injected.app@ == loaded.descriptor.app@,
        injected.namespace@ == namespace,
        injected.mode == mode,
        injected.source@ == stamp_source_of(loaded.descriptor),
    ensures
        ready_line_accepted(loaded, line, namespace, mode, role) <==> (line.kind@
            == crate::ready::READY_LINE_KIND@ && crate::identity::same_stamp(line.stamp, injected)
            && line.role@ == role),
        ready_line_accepted(loaded, line, namespace, mode, role) ==> line.stamp.app@
            == loaded.descriptor.app@,
{
}

} // verus!
