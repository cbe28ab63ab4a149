//! The sidecar registry: declarative descriptors that projects publish
//! in a `sidecars.toml`, how they are checked and looked up, and how a
//! descriptor becomes a command to run.

pub mod manifest;
pub mod spawn;

pub use manifest::{
    default_manifest_version, descriptors_for_project, env_keys_ascending, find_descriptor,
    manifest_source, projects,
    load_registries, split_registry_paths, InheritEnvBinding, LaunchSpec, LoadedDescriptor,
    ManifestSource, ReadyExpectation, RegistryError, SidecarDescriptor, SidecarManifest,
    DEFAULT_READY_TIMEOUT_SECS, REGISTRIES_ENV,
};
pub use spawn::{build_command, build_stamp, SidecarCommand, SpawnError, SpawnOptions, SpawnStdio};
