# stim_sidecar

Platform and sidecar primitives for a local development loop, written in
Verus: the functions in `src/` carry `requires`/`ensures` contracts that
Verus proves, except the few small wrappers around outside calls (regex,
string formatting, `Path::parent`), whose contracts are trusted.

- `platform`: process snapshots and process trees, the decisions of
  stopping processes, paths, the operating system family, lock errors.
- `identity`, `stamp`, `process`: sidecar modes and stamps, the
  `--sidecar-stamp-*` command-line flags, and matching running processes
  by stamp.
- `layout`, `ready`, `inspect`: per-namespace directories, ready lines
  and the steps of waiting for one, inspection envelopes.
- `registry`: manifests, the duplicate checks that make a registry, and
  turning a descriptor into a command.
- `stdout`, `runtime`: ANSI stripping and endpoint capture, and the
  decisions of the runtime frame protocol.

`app/` holds the I/O around the library (files, child processes,
sockets, serde forms); it is ordinary Rust and is not verified.
