# runpy

A Rust control plane for `uv`-managed Python worker scripts, with its core
logic verified by Verus.

- `src/` is the verified library: the envelope protocol (reserved `x_`
  metadata, direction rules, trusted stamping, length-prefixed frames), the
  logger's filtering and rendering, runtime validation and the script index,
  worker identities, builder configuration and launch plans, the worker
  registry, bounded output records with loss accounting, and health reports
  parsed from `/proc/<pid>/status`.
- `app/` is the runtime around it: Tokio sessions on Unix sockets, process
  groups, file-system probes, the serde shapes of the wire format, and
  terminal output.
- `tests/` exercises the library on concrete values.
