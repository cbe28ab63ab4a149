//! Registry manifests: their shape, the checks that make a set of them a
//! registry, and lookups in it.

use vstd::prelude::*;

use crate::platform::paths::{parent_of, parent_or_current};
use crate::text::{
    concat, debug_quoted, lemma_lex_lt_transitive, owned, io_error_text, join_from, join_with, lex_lt, pieces, split_nonempty,
    starts_with, str_debug, str_eq, str_lt, views,
};

verus! {

/// The environment variable that lists registry manifests, separated by
/// `:`.
pub const REGISTRIES_ENV: &'static str = "STIM_DEV_REGISTRIES";

/// How long a spawn waits for a ready line unless told otherwise, in
/// seconds.
pub const DEFAULT_READY_TIMEOUT_SECS: u64 = 120;

/// A `sidecars.toml`: the project it belongs to and its sidecars.
#[derive(Debug, Clone)]
pub struct SidecarManifest {
    pub manifest_version: u32,
    pub project: String,
    pub sidecars: Vec<SidecarDescriptor>,
}

/// The manifest version assumed when a manifest names none.
pub fn default_manifest_version() -> (r: u32)
    ensures
        r == 1,
{
    1
}

/// One sidecar app of a manifest. `env` holds the static environment in
/// ascending key order, each key once, as the manifest's table gives it
/// (`env_is_table`).
#[derive(Debug, Clone)]
pub struct SidecarDescriptor {
    pub app: String,
    pub launch: LaunchSpec,
    pub ready: Option<ReadyExpectation>,
    pub stamp_source: Option<String>,
    pub stamp_via_env: bool,
    pub cwd: Option<String>,
    pub env: Vec<(String, String)>,
    pub endpoint_env: Option<String>,
    pub inherits_env: Vec<InheritEnvBinding>,
}

/// `env` lists its keys in strictly ascending order, so each key once, as
/// a table of the manifest does.
pub open spec fn env_is_table(env: Seq<(String, String)>) -> bool {
    forall|i: int, j: int| 0 <= i < j < env.len() ==> lex_lt(#[trigger] env[i].0@, #[trigger] env[j].0@)
}

/// Whether `env` lists its keys in strictly ascending order.
pub fn env_keys_ascending(env: &Vec<(String, String)>) -> (r: bool)
    ensures
        r == env_is_table(env@),
{
    let n = env.len();
    if n == 0 {
        return true;
    }
    let mut i: usize = 1;
    while i < n
        invariant
            n == env@.len(),
            1 <= i <= n,
            forall|a: int, b: int| 0 <= a < b < i ==> lex_lt(#[trigger] env@[a].0@, #[trigger] env@[b].0@),
        decreases n - i,
    {
        if !str_lt(env[i - 1].0.as_str(), env[i].0.as_str()) {
            assert(!lex_lt(env@[i - 1].0@, env@[i as int].0@));
            return false;
        }
        assert forall|a: int, b: int| 0 <= a < b < i + 1 implies lex_lt(
            #[trigger] env@[a].0@,
            #[trigger] env@[b].0@,
        ) by {
            if b == i && a < i - 1 {
                lemma_lex_lt_transitive(env@[a].0@, env@[i - 1].0@, env@[b].0@);
            }
        }
        i = i + 1;
    }
    true
}

/// What ready line a spawn waits for.
#[derive(Debug, Clone)]
pub struct ReadyExpectation {
    pub role: String,
    pub stdout_pattern: Option<String>,
}

/// An environment variable a sidecar takes from one launched earlier.
#[derive(Debug, Clone)]
pub struct InheritEnvBinding {
    pub name: String,
    pub from: String,
}

/// How a sidecar process is launched.
#[derive(Debug, Clone)]
pub enum LaunchSpec {
    /// `cargo run` against a manifest relative to the registry file.
    Cargo {
        manifest_path: String,
        package: Option<String>,
        bin: Option<String>,
        cargo_args: Vec<String>,
        args: Vec<String>,
    },
    /// Any executable.
    Shell { command: String, args: Vec<String> },
}

/// A descriptor together with the project and manifest it came from.
#[derive(Debug, Clone)]
pub struct LoadedDescriptor {
    pub project: String,
    pub descriptor: SidecarDescriptor,
    pub manifest_dir: String,
    pub manifest_path: String,
}

/// `std::io::Error`, carried in errors as an opaque value.
#[verifier::external_type_specification]
#[verifier::external_body]
pub struct ExIoError(std::io::Error);

/// `toml::de::Error`, carried in errors as an opaque value.
#[verifier::external_type_specification]
#[verifier::external_body]
pub struct ExTomlDeError(toml::de::Error);

/// Why a registry could not be loaded.
#[derive(Debug)]
pub enum RegistryError {
    EnvNotSet,
    Io { path: String, error: std::io::Error },
    Parse { path: String, error: toml::de::Error },
    DuplicateProject { project: String, paths: Vec<String> },
    DuplicateApp { project: String, app: String, paths: Vec<String> },
}

/// The `Display` text of a TOML parse error.
///
/// Nothing is stated of the text: it is the parser's own message.
#[verifier::external_body]
fn toml_error_text(error: &toml::de::Error) -> String {
    format!("{error}")
}

impl RegistryError {
    /// The message this error reads as. The text of an I/O or parse error
    /// is the outside error's own message, after the path.
    pub fn describe(&self) -> (r: String)
        ensures
            match self {
                RegistryError::EnvNotSet => r@ == REGISTRIES_ENV@
                    + " environment variable is not set"@,
                RegistryError::Io { path, .. } => starts_with(
                    r@,
                    "failed to read "@ + path@ + ": "@,
                ),
                RegistryError::Parse { path, .. } => starts_with(
                    r@,
                    "failed to parse "@ + path@ + ": "@,
                ),
                RegistryError::DuplicateProject { project, paths } => r@ == "project "@
                    + str_debug(project@) + " is declared by multiple manifests: "@ + join_with(
                    views(paths@),
                    ", "@,
                ),
                RegistryError::DuplicateApp { project, app, paths } => r@ == "sidecar app "@
                    + str_debug(app@) + " is declared twice within project "@ + str_debug(
                    project@,
                ) + ": "@ + join_with(views(paths@), ", "@),
            },
    {
        match self {
            RegistryError::EnvNotSet => concat(REGISTRIES_ENV, " environment variable is not set"),
            RegistryError::Io { path, error } => {
                let head = concat("failed to read ", path.as_str());
                let head = concat(head.as_str(), ": ");
                let text = io_error_text(error);
                let r = concat(head.as_str(), text.as_str());
                assert(r@.take(head@.len() as int) =~= head@);
                r
            },
            RegistryError::Parse { path, error } => {
                let head = concat("failed to parse ", path.as_str());
                let head = concat(head.as_str(), ": ");
                let text = toml_error_text(error);
                let r = concat(head.as_str(), text.as_str());
                assert(r@.take(head@.len() as int) =~= head@);
                r
            },
            RegistryError::DuplicateProject { project, paths } => {
                let quoted = debug_quoted(project.as_str());
                let a = concat("project ", quoted.as_str());
                let b = concat(a.as_str(), " is declared by multiple manifests: ");
                let listed = join_from(paths, 0, ", ");
                assert(views(paths@).skip(0) =~= views(paths@));
                concat(b.as_str(), listed.as_str())
            },
            RegistryError::DuplicateApp { project, app, paths } => {
                let quoted_app = debug_quoted(app.as_str());
                let quoted_project = debug_quoted(project.as_str());
                let a = concat("sidecar app ", quoted_app.as_str());
                let b = concat(a.as_str(), " is declared twice within project ");
                let c = concat(b.as_str(), quoted_project.as_str());
                let d = concat(c.as_str(), ": ");
                let listed = join_from(paths, 0, ", ");
                assert(views(paths@).skip(0) =~= views(paths@));
                concat(d.as_str(), listed.as_str())
            },
        }
    }
}

/// A manifest as read from `path`, whose directory is `manifest_dir`.
#[derive(Debug, Clone)]
pub struct ManifestSource {
    pub path: String,
    pub manifest_dir: String,
    pub manifest: SidecarManifest,
}

/// The manifest read from the file at `path`, with the directory that
/// relative paths in it start from: the file's parent directory, or `.`
/// when the path has none.
pub fn manifest_source(path: String, manifest: SidecarManifest) -> (r: ManifestSource)
    ensures
        r.path == path,
        r.manifest_dir@ == parent_or_current(path@),
        r.manifest == manifest,
{
    let manifest_dir = match parent_of(path.as_str()) {
        Some(p) => p,
        None => owned("."),
    };
    ManifestSource { path, manifest_dir, manifest }
}

/// The descriptors of one manifest, with their provenance.
pub open spec fn loaded_from(src: ManifestSource) -> Seq<LoadedDescriptor> {
    src.manifest.sidecars@.map_values(
        |d: SidecarDescriptor|
            LoadedDescriptor {
                project: src.manifest.project,
                descriptor: d,
                manifest_dir: src.manifest_dir,
                manifest_path: src.path,
            },
    )
}

/// The descriptors of all manifests, manifest by manifest, each in
/// declaration order.
pub open spec fn flatten_sources(ms: Seq<ManifestSource>) -> Seq<LoadedDescriptor>
    decreases ms.len(),
{
    if ms.len() == 0 {
        Seq::empty()
    } else {
        flatten_sources(ms.drop_last()) + loaded_from(ms.last())
    }
}

/// The paths of the manifests that declare project `p`, in order.
pub open spec fn project_paths(ms: Seq<ManifestSource>, p: Seq<char>) -> Seq<Seq<char>>
    decreases ms.len(),
{
    if ms.len() == 0 {
        Seq::empty()
    } else {
        let prev = project_paths(ms.drop_last(), p);
        if ms.last().manifest.project@ == p {
            prev.push(ms.last().path@)
        } else {
            prev
        }
    }
}

/// The manifest path of every descriptor of app `a` in project `p`, in
/// order.
pub open spec fn app_paths(ds: Seq<LoadedDescriptor>, p: Seq<char>, a: Seq<char>) -> Seq<Seq<char>>
    decreases ds.len(),
{
    if ds.len() == 0 {
        Seq::empty()
    } else {
        let prev = app_paths(ds.drop_last(), p, a);
        if ds.last().project@ == p && ds.last().descriptor.app@ == a {
            prev.push(ds.last().manifest_path@)
        } else {
            prev
        }
    }
}

/// More than one manifest declares project `p`.
pub open spec fn duplicate_project(ms: Seq<ManifestSource>, p: Seq<char>) -> bool {
    project_paths(ms, p).len() > 1
}

/// Project `p` declares app `a` more than once.
pub open spec fn duplicate_app(ds: Seq<LoadedDescriptor>, p: Seq<char>, a: Seq<char>) -> bool {
    app_paths(ds, p, a).len() > 1
}

/// `(p, a)` sorts before `(q, b)`.
pub open spec fn pair_lt(p: Seq<char>, a: Seq<char>, q: Seq<char>, b: Seq<char>) -> bool {
    lex_lt(p, q) || (p == q && lex_lt(a, b))
}

proof fn lemma_project_paths_witness(ms: Seq<ManifestSource>, p: Seq<char>)
    requires
        project_paths(ms, p).len() > 0,
    ensures
        exists|k: int| 0 <= k < ms.len() && (#[trigger] ms[k]).manifest.project@ == p,
    decreases ms.len(),
{
    if ms.last().manifest.project@ != p {
        lemma_project_paths_witness(ms.drop_last(), p);
        let k = choose|k: int|
            0 <= k < ms.drop_last().len() && (#[trigger] ms.drop_last()[k]).manifest.project@ == p;
        assert(ms[k] == ms.drop_last()[k]);
    } else {
        assert(ms[ms.len() - 1] == ms.last());
    }
}

proof fn lemma_app_paths_witness(ds: Seq<LoadedDescriptor>, p: Seq<char>, a: Seq<char>)
    requires
        app_paths(ds, p, a).len() > 0,
    ensures
        exists|k: int|
            0 <= k < ds.len() && (#[trigger] ds[k]).project@ == p && ds[k].descriptor.app@ == a,
    decreases ds.len(),
{
    if !(ds.last().project@ == p && ds.last().descriptor.app@ == a) {
        lemma_app_paths_witness(ds.drop_last(), p, a);
        let k = choose|k: int|
            0 <= k < ds.drop_last().len() && (#[trigger] ds.drop_last()[k]).project@ == p
                && ds.drop_last()[k].descriptor.app@ == a;
        assert(ds[k] == ds.drop_last()[k]);
    } else {
        assert(ds[ds.len() - 1] == ds.last());
    }
}

fn project_paths_of(sources: &Vec<ManifestSource>, project: &str) -> (r: Vec<String>)
    ensures
        views(r@) == project_paths(sources@, project@),
{
    let mut r: Vec<String> = Vec::new();
    let mut i: usize = 0;
    while i < sources.len()
        invariant
            i <= sources@.len(),
            views(r@) == project_paths(sources@.take(i as int), project@),
        decreases sources@.len() - i,
    {
        let ghost before = r@;
        assert(sources@.take(i + 1).drop_last() =~= sources@.take(i as int));
        assert(sources@.take(i + 1).last() == sources@[i as int]);
        if str_eq(sources[i].manifest.project.as_str(), project) {
            r.push(sources[i].path.clone());
            assert(views(r@) =~= views(before).push(sources@[i as int].path@));
        }
        i = i + 1;
    }
    assert(sources@.take(sources@.len() as int) =~= sources@);
    r
}

fn app_paths_of(loaded: &Vec<LoadedDescriptor>, project: &str, app: &str) -> (r: Vec<String>)
    ensures
        views(r@) == app_paths(loaded@, project@, app@),
{
    let mut r: Vec<String> = Vec::new();
    let mut i: usize = 0;
    while i < loaded.len()
        invariant
            i <= loaded@.len(),
            views(r@) == app_paths(loaded@.take(i as int), project@, app@),
        decreases loaded@.len() - i,
    {
        let ghost before = r@;
        assert(loaded@.take(i + 1).drop_last() =~= loaded@.take(i as int));
        assert(loaded@.take(i + 1).last() == loaded@[i as int]);
        if str_eq(loaded[i].project.as_str(), project) && str_eq(
            loaded[i].descriptor.app.as_str(),
            app,
        ) {
            r.push(loaded[i].manifest_path.clone());
            assert(views(r@) =~= views(before).push(loaded@[i as int].manifest_path@));
        }
        i = i + 1;
    }
    assert(loaded@.take(loaded@.len() as int) =~= loaded@);
    r
}

/// The descriptors of `sources`, in order, with their provenance.
fn flatten(sources: Vec<ManifestSource>) -> (r: Vec<LoadedDescriptor>)
    ensures
        r@ == flatten_sources(sources@),
{
    let ghost ms = sources@;
    let mut rest = sources;
    let mut loaded: Vec<LoadedDescriptor> = Vec::new();
    let ghost mut k: int = 0;
    while rest.len() > 0
        invariant
            0 <= k <= ms.len(),
            rest@ == ms.skip(k),
            loaded@ == flatten_sources(ms.take(k)),
        decreases rest@.len(),
    {
        let src = rest.remove(0);
        let ghost whole = src;
        assert(src == ms[k]);
        let ManifestSource { path, manifest_dir, manifest } = src;
        let SidecarManifest { manifest_version: _, project, sidecars } = manifest;
        let ghost base = loaded@;
        let mut ds = sidecars;
        let ghost mut j: int = 0;
        while ds.len() > 0
            invariant
                0 <= j <= whole.manifest.sidecars@.len(),
                ds@ == whole.manifest.sidecars@.skip(j),
                project == whole.manifest.project,
                manifest_dir == whole.manifest_dir,
                path == whole.path,
                loaded@ == base + loaded_from(whole).take(j),
            decreases ds@.len(),
        {
            let d = ds.remove(0);
            assert(d == whole.manifest.sidecars@[j]);
            loaded.push(
                LoadedDescriptor {
                    project: project.clone(),
                    descriptor: d,
                    manifest_dir: manifest_dir.clone(),
                    manifest_path: path.clone(),
                },
            );
            proof {
                j = j + 1;
            }
            assert(loaded@ =~= base + loaded_from(whole).take(j));
        }
        assert(loaded_from(whole).take(j) =~= loaded_from(whole));
        proof {
            k = k + 1;
        }
        assert(ms.take(k).drop_last() =~= ms.take(k - 1));
        assert(rest@ =~= ms.skip(k));
    }
    assert(ms.take(k) =~= ms);
    loaded
}

/// Checks `sources` as one registry and flattens their descriptors.
///
/// A project declared by more than one manifest is an error, reported for
/// the first such project in string order with the paths of all manifests
/// that declare it; otherwise an app declared more than once within one
/// project is an error, reported for the first such `(project, app)` in
/// string order with the manifest path of each declaration. Otherwise the
/// result is every descriptor, manifest by manifest, in declaration order.
pub fn load_registries(sources: Vec<ManifestSource>) -> (r: Result<
    Vec<LoadedDescriptor>,
    RegistryError,
>)
    ensures
        match r {
            Ok(v) => {
                &&& v@ == flatten_sources(sources@)
                &&& forall|p: Seq<char>| !#[trigger] duplicate_project(sources@, p)
                &&& forall|p: Seq<char>, a: Seq<char>|
                    !#[trigger] duplicate_app(flatten_sources(sources@), p, a)
            },
            Err(RegistryError::DuplicateProject { project, paths }) => {
                &&& duplicate_project(sources@, project@)
                &&& views(paths@) == project_paths(sources@, project@)
                &&& forall|q: Seq<char>| #[trigger]
                    duplicate_project(sources@, q) ==> !lex_lt(q, project@)
            },
            Err(RegistryError::DuplicateApp { project, app, paths }) => {
                let flat = flatten_sources(sources@);
                &&& forall|q: Seq<char>| !#[trigger] duplicate_project(sources@, q)
                &&& duplicate_app(flat, project@, app@)
                &&& views(paths@) == app_paths(flat, project@, app@)
                &&& forall|q: Seq<char>, b: Seq<char>| #[trigger]
                    duplicate_app(flat, q, b) ==> !pair_lt(q, b, project@, app@)
            },
            Err(_) => false,
        },
{
    let ghost ms = sources@;
    let mut best: Option<usize> = None;
    let mut i: usize = 0;
    while i < sources.len()
        invariant
            ms == sources@,
            i <= ms.len(),
            match best {
                None => forall|k: int|
                    0 <= k < i ==> !duplicate_project(ms, (#[trigger] ms[k]).manifest.project@),
                Some(b) => {
                    &&& b < i
                    &&& duplicate_project(ms, ms[b as int].manifest.project@)
                    &&& forall|k: int|
                        0 <= k < i && duplicate_project(ms, (#[trigger] ms[k]).manifest.project@)
                            ==> !lex_lt(ms[k].manifest.project@, ms[b as int].manifest.project@)
                },
            },
        decreases ms.len() - i,
    {
        let paths = project_paths_of(&sources, sources[i].manifest.project.as_str());
        if paths.len() > 1 {
            let better = match best {
                None => true,
                Some(b) => str_lt(
                    sources[i].manifest.project.as_str(),
                    sources[b].manifest.project.as_str(),
                ),
            };
            proof {
                crate::text::lemma_lex_lt_irreflexive(ms[i as int].manifest.project@);
                if better {
                    if let Some(b) = best {
                        assert forall|k: int|
                            0 <= k < i + 1 && duplicate_project(
                                ms,
                                (#[trigger] ms[k]).manifest.project@,
                            ) implies !lex_lt(
                            ms[k].manifest.project@,
                            ms[i as int].manifest.project@,
                        ) by {
                            if k < i && lex_lt(
                                ms[k].manifest.project@,
                                ms[i as int].manifest.project@,
                            ) {
                                crate::text::lemma_lex_lt_transitive(
                                    ms[k].manifest.project@,
                                    ms[i as int].manifest.project@,
                                    ms[b as int].manifest.project@,
                                );
                            }
                        }
                    }
                }
            }
            if better {
                best = Some(i);
            }
        }
        i = i + 1;
    }
    proof {
        assert forall|q: Seq<char>| #[trigger] duplicate_project(ms, q) implies exists|k: int|
            0 <= k < ms.len() && (#[trigger] ms[k]).manifest.project@ == q by {
            lemma_project_paths_witness(ms, q);
        }
    }
    if let Some(b) = best {
        let project = sources[b].manifest.project.clone();
        let paths = project_paths_of(&sources, project.as_str());
        return Err(RegistryError::DuplicateProject { project, paths });
    }
    let loaded = flatten(sources);
    let ghost flat = loaded@;
    let mut best_app: Option<usize> = None;
    let mut i: usize = 0;
    while i < loaded.len()
        invariant
            flat == loaded@,
            i <= flat.len(),
            match best_app {
                None => forall|k: int|
                    0 <= k < i ==> !duplicate_app(
                        flat,
                        (#[trigger] flat[k]).project@,
                        flat[k].descriptor.app@,
                    ),
                Some(b) => {
                    &&& b < i
                    &&& duplicate_app(flat, flat[b as int].project@, flat[b as int].descriptor.app@)
                    &&& forall|k: int|
                        0 <= k < i && duplicate_app(
                            flat,
                            (#[trigger] flat[k]).project@,
                            flat[k].descriptor.app@,
                        ) ==> !pair_lt(
                            flat[k].project@,
                            flat[k].descriptor.app@,
                            flat[b as int].project@,
                            flat[b as int].descriptor.app@,
                        )
                },
            },
        decreases flat.len() - i,
    {
        let paths = app_paths_of(
            &loaded,
            loaded[i].project.as_str(),
            loaded[i].descriptor.app.as_str(),
        );
        if paths.len() > 1 {
            let better = match best_app {
                None => true,
                Some(b) => str_lt(loaded[i].project.as_str(), loaded[b].project.as_str()) || (
                str_eq(loaded[i].project.as_str(), loaded[b].project.as_str()) && str_lt(
                    loaded[i].descriptor.app.as_str(),
                    loaded[b].descriptor.app.as_str(),
                )),
            };
            proof {
                let pi = flat[i as int].project@;
                let ai = flat[i as int].descriptor.app@;
                crate::text::lemma_lex_lt_irreflexive(pi);
                crate::text::lemma_lex_lt_irreflexive(ai);
                if better {
                    if let Some(b) = best_app {
                        let pb = flat[b as int].project@;
                        let ab = flat[b as int].descriptor.app@;
                        assert forall|k: int|
                            0 <= k < i + 1 && duplicate_app(
                                flat,
                                (#[trigger] flat[k]).project@,
                                flat[k].descriptor.app@,
                            ) implies !pair_lt(flat[k].project@, flat[k].descriptor.app@, pi, ai) by {
                            let pk = flat[k].project@;
                            let ak = flat[k].descriptor.app@;
                            if k < i && pair_lt(pk, ak, pi, ai) {
                                if lex_lt(pk, pi) && lex_lt(pi, pb) {
                                    crate::text::lemma_lex_lt_transitive(pk, pi, pb);
                                }
                                if pk == pi && pi == pb {
                                    if lex_lt(ak, ai) && lex_lt(ai, ab) {
                                        crate::text::lemma_lex_lt_transitive(ak, ai, ab);
                                    }
                                }
                            }
                        }
                    }
                }
            }
            if better {
                best_app = Some(i);
            }
        }
        i = i + 1;
    }
    proof {
        assert forall|q: Seq<char>, a: Seq<char>| #[trigger] duplicate_app(flat, q, a) implies exists|
            k: int,
        | 0 <= k < flat.len() && (#[trigger] flat[k]).project@ == q && flat[k].descriptor.app@
            == a by {
            lemma_app_paths_witness(flat, q, a);
        }
    }
    if let Some(b) = best_app {
        let project = loaded[b].project.clone();
        let app = loaded[b].descriptor.app.clone();
        let paths = app_paths_of(&loaded, project.as_str(), app.as_str());
        return Err(RegistryError::DuplicateApp { project, app, paths });
    }
    Ok(loaded)
}


/// The manifest paths listed in the value of `REGISTRIES_ENV`: its
/// non-empty `:`-separated pieces, in order.
pub fn split_registry_paths(value: &str) -> (r: Vec<String>)
    ensures
        views(r@) == pieces(value@, ':'),
{
    split_nonempty(value, ':')
}

/// `d` is app `a` of project `p`.
pub open spec fn descriptor_is(d: LoadedDescriptor, p: Seq<char>, a: Seq<char>) -> bool {
    d.project@ == p && d.descriptor.app@ == a
}

/// The first descriptor of app `app` in project `project`.
pub fn find_descriptor<'a>(loaded: &'a [LoadedDescriptor], project: &str, app: &str) -> (r: Option<
    &'a LoadedDescriptor,
>)
    ensures
        match r {
            Some(d) => exists|i: int|
                0 <= i < loaded@.len() && *d == loaded@[i] && descriptor_is(
                    loaded@[i],
                    project@,
                    app@,
                ) && forall|k: int|
                    0 <= k < i ==> !descriptor_is(#[trigger] loaded@[k], project@, app@),
            None => forall|k: int|
                0 <= k < loaded@.len() ==> !descriptor_is(#[trigger] loaded@[k], project@, app@),
        },
{
    let mut i: usize = 0;
    while i < loaded.len()
        invariant
            i <= loaded@.len(),
            forall|k: int| 0 <= k < i ==> !descriptor_is(#[trigger] loaded@[k], project@, app@),
        decreases loaded@.len() - i,
    {
        let d = &loaded[i];
        if str_eq(d.project.as_str(), project) && str_eq(d.descriptor.app.as_str(), app) {
            return Some(d);
        }
        i = i + 1;
    }
    None
}

/// The descriptors of project `p`, in order.
pub open spec fn project_descriptors(ds: Seq<LoadedDescriptor>, p: Seq<char>) -> Seq<
    LoadedDescriptor,
>
    decreases ds.len(),
{
    if ds.len() == 0 {
        Seq::empty()
    } else {
        let prev = project_descriptors(ds.drop_last(), p);
        if ds.last().project@ == p {
            prev.push(ds.last())
        } else {
            prev
        }
    }
}

/// All descriptors of `project`, in declaration order.
pub fn descriptors_for_project<'a>(loaded: &'a [LoadedDescriptor], project: &str) -> (r: Vec<
    &'a LoadedDescriptor,
>)
    ensures
        r@.map_values(|d: &LoadedDescriptor| *d) == project_descriptors(loaded@, project@),
{
    let mut r: Vec<&'a LoadedDescriptor> = Vec::new();
    let mut i: usize = 0;
    while i < loaded.len()
        invariant
            i <= loaded@.len(),
            r@.map_values(|d: &LoadedDescriptor| *d) == project_descriptors(
                loaded@.take(i as int),
                project@,
            ),
        decreases loaded@.len() - i,
    {
        let ghost before = r@;
        assert(loaded@.take(i + 1).drop_last() =~= loaded@.take(i as int));
        assert(loaded@.take(i + 1).last() == loaded@[i as int]);
        let d = &loaded[i];
        if str_eq(d.project.as_str(), project) {
            r.push(d);
            assert(r@.map_values(|d: &LoadedDescriptor| *d) =~= before.map_values(
                |d: &LoadedDescriptor| *d,
            ).push(*d));
        }
        i = i + 1;
    }
    assert(loaded@.take(loaded@.len() as int) =~= loaded@);
    r
}

/// The project names of `ds`, each once, in first-seen order.
pub open spec fn project_names(ds: Seq<LoadedDescriptor>) -> Seq<Seq<char>>
    decreases ds.len(),
{
    if ds.len() == 0 {
        Seq::empty()
    } else {
        let prev = project_names(ds.drop_last());
        if prev.contains(ds.last().project@) {
            prev
        } else {
            prev.push(ds.last().project@)
        }
    }
}

/// All registered project names, in first-seen order.
pub fn projects<'a>(loaded: &'a [LoadedDescriptor]) -> (r: Vec<&'a str>)
    ensures
        r@.map_values(|s: &str| s@) == project_names(loaded@),
{
    let mut seen: Vec<&'a str> = Vec::new();
    let mut i: usize = 0;
    while i < loaded.len()
        invariant
            i <= loaded@.len(),
            seen@.map_values(|s: &str| s@) == project_names(loaded@.take(i as int)),
        decreases loaded@.len() - i,
    {
        let ghost before = seen@;
        let ghost names = seen@.map_values(|s: &str| s@);
        assert(loaded@.take(i + 1).drop_last() =~= loaded@.take(i as int));
        assert(loaded@.take(i + 1).last() == loaded@[i as int]);
        let name = loaded[i].project.as_str();
        let mut j: usize = 0;
        let mut present = false;
        while j < seen.len()
            invariant
                names == seen@.map_values(|s: &str| s@),
                j <= seen@.len(),
                present ==> names.contains(name@),
                !present ==> forall|k: int| 0 <= k < j ==> names[k] != name@,
            decreases seen@.len() - j,
        {
            assert(names[j as int] == seen@[j as int]@);
            if str_eq(seen[j], name) {
                present = true;
            }
            j = j + 1;
        }
        if !present {
            seen.push(name);
            assert(seen@.map_values(|s: &str| s@) =~= names.push(name@));
        }
        i = i + 1;
    }
    assert(loaded@.take(loaded@.len() as int) =~= loaded@);
    seen
}

proof fn lemma_app_paths_grow(ds: Seq<LoadedDescriptor>, p: Seq<char>, a: Seq<char>, i: int)
    requires
        0 <= i < ds.len(),
        descriptor_is(ds[i], p, a),
    ensures
        app_paths(ds, p, a).len() >= 1,
        app_paths(ds, p, a).len() >= app_paths(ds.take(i), p, a).len() + 1,
    decreases ds.len(),
{
    if i < ds.len() - 1 {
        let d = ds.drop_last();
        assert(d[i] == ds[i]);
        assert(d.take(i) =~= ds.take(i));
        lemma_app_paths_grow(d, p, a, i);
    } else {
        assert(ds.take(i) =~= ds.drop_last());
    }
}

/// In a registry that `load_registries` accepted, an app of a project
/// is declared once: no two descriptors share project and app, so
/// `find_descriptor` finds each registered descriptor by its project and
/// app, and no other.
pub proof fn law_registered_apps_unique(sources: Seq<ManifestSource>, i: int, j: int)
    requires
        forall|p: Seq<char>, a: Seq<char>|
            !#[trigger] duplicate_app(flatten_sources(sources), p, a),
        0 <= i < flatten_sources(sources).len(),
        0 <= j < flatten_sources(sources).len(),
        i != j,
    ensures
        !descriptor_is(
            flatten_sources(sources)[j],
            flatten_sources(sources)[i].project@,
            flatten_sources(sources)[i].descriptor.app@,
        ),
{
    let ds = flatten_sources(sources);
    let (lo, hi) = if i < j { (i, j) } else { (j, i) };
    let p = ds[lo].project@;
    let a = ds[lo].descriptor.app@;
    if descriptor_is(ds[j], ds[i].project@, ds[i].descriptor.app@) {
        assert(descriptor_is(ds[hi], p, a));
        let t = ds.take(hi);
        assert(t[lo] == ds[lo]);
        lemma_app_paths_grow(t, p, a, lo);
        lemma_app_paths_grow(ds, p, a, hi);
        assert(duplicate_app(ds, p, a));
    }
}

proof fn lemma_project_names_contains(ds: Seq<LoadedDescriptor>, p: Seq<char>)
    ensures
        project_names(ds).contains(p) <==> project_descriptors(ds, p).len() > 0,
    decreases ds.len(),
{
    if ds.len() > 0 {
        lemma_project_names_contains(ds.drop_last(), p);
        let prev = project_names(ds.drop_last());
        if !prev.contains(ds.last().project@) {
            if prev.push(ds.last().project@).contains(p) && ds.last().project@ != p {
                let k = choose|k: int|
                    0 <= k < prev.push(ds.last().project@).len() && prev.push(
                        ds.last().project@,
                    )[k] == p;
                assert(prev[k] == p);
            }
            if prev.contains(p) {
                let k = choose|k: int| 0 <= k < prev.len() && prev[k] == p;
                assert(prev.push(ds.last().project@)[k] == p);
            }
            if ds.last().project@ == p {
                assert(prev.push(ds.last().project@)[prev.len() as int] == p);
            }
        }
    }
}

/// `projects` names exactly the projects that `descriptors_for_project`
/// finds descriptors for.
pub proof fn law_projects_have_descriptors(ds: Seq<LoadedDescriptor>, p: Seq<char>)
    ensures
        project_names(ds).contains(p) <==> project_descriptors(ds, p).len() > 0,
{
    lemma_project_names_contains(ds, p);
}

/// Sources made with `manifest_source` give every registered descriptor,
/// as `load_registries` flattens them, the parent directory of its own
/// manifest path (or `.`) as its manifest directory.
pub proof fn law_loaded_dirs_are_parents(sources: Seq<ManifestSource>)
    requires
        forall|i: int|
            0 <= i < sources.len() ==> (#[trigger] sources[i]).manifest_dir@ == parent_or_current(
                sources[i].path@,
            ),
    ensures
        forall|k: int|
            0 <= k < flatten_sources(sources).len() ==> (#[trigger] flatten_sources(
                sources,
            )[k]).manifest_dir@ == parent_or_current(flatten_sources(sources)[k].manifest_path@),
    decreases sources.len(),
{
    if sources.len() > 0 {
        let d = sources.drop_last();
        assert forall|i: int| 0 <= i < d.len() implies (#[trigger] d[i]).manifest_dir@
            == parent_or_current(d[i].path@) by {
            assert(d[i] == sources[i]);
        }
        law_loaded_dirs_are_parents(d);
        let prev = flatten_sources(d);
        let last = loaded_from(sources.last());
        assert(sources.last() == sources[sources.len() - 1]);
        assert forall|k: int| 0 <= k < flatten_sources(sources).len() implies (
        #[trigger] flatten_sources(sources)[k]).manifest_dir@ == parent_or_current(
            flatten_sources(sources)[k].manifest_path@,
        ) by {
            if k < prev.len() {
                assert(flatten_sources(sources)[k] == prev[k]);
            } else {
                assert(flatten_sources(sources)[k] == last[k - prev.len()]);
            }
        }
    }
}

/// `descriptors_for_project` keeps the order of the registry: the
/// descriptors of `p` in `a` followed by `b` are those in `a` followed by
/// those in `b`, and one descriptor gives itself when it belongs to `p` and
/// nothing otherwise. So the result is the registry's descriptors of `p`,
/// each once, in declaration order.
pub proof fn law_project_descriptors_in_order(
    a: Seq<LoadedDescriptor>,
    b: Seq<LoadedDescriptor>,
    d: LoadedDescriptor,
    p: Seq<char>,
)
    ensures
        project_descriptors(a + b, p) == project_descriptors(a, p) + project_descriptors(b, p),
        project_descriptors(seq![d], p) == (if d.project@ == p {
            seq![d]
        } else {
            Seq::<LoadedDescriptor>::empty()
        }),
    decreases b.len(),
{
    assert(seq![d].drop_last() =~= Seq::<LoadedDescriptor>::empty());
    assert(project_descriptors(seq![d].drop_last(), p) =~= Seq::<LoadedDescriptor>::empty());
    assert(seq![d].last() == d);
    assert(Seq::<LoadedDescriptor>::empty().push(d) =~= seq![d]);
    if b.len() == 0 {
        assert(a + b =~= a);
        assert(project_descriptors(a, p) + project_descriptors(b, p) =~= project_descriptors(a, p));
    } else {
        law_project_descriptors_in_order(a, b.drop_last(), d, p);
        assert((a + b).drop_last() =~= a + b.drop_last());
        assert((a + b).last() == b.last());
        if b.last().project@ == p {
            assert(project_descriptors(a, p) + project_descriptors(b.drop_last(), p).push(b.last())
                =~= (project_descriptors(a, p) + project_descriptors(b.drop_last(), p)).push(
                b.last(),
            ));
        }
    }
}

} // verus!
