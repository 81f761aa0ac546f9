# dry-exec core

An ephemeral execution boundary and a deterministic state delta engine: an action runs in an
isolated process, and what it changed in memory, on disk and on the network is reported as a
byte-precise delta, then routed by a System-One decision layer.

The library under `src/` is verified with Verus. Its contracts are stated over mathematical
models of the data (sequences of bytes and characters, maps of routes and inode records).

- `delta::pagemap`: which pages of a tracked region are dirty (from raw pagemap descriptors)
  and the maximal runs of bytes in which each differs from its baseline; applying the runs to
  the baseline gives back the mutated bytes.
- `delta::fs`, `delta::macos_fs`: the filesystem delta between two inode snapshots (each
  modified file with the exact byte runs in which its contents changed), and between a
  directory tree and its copy-on-write clone.
- `delta::http`, `delta::network`: the request text the transparent proxy reads, the schema of
  mock routes, and the answer and record each intercepted request gets.
- `delta` (root): the assembled state delta and its count of mutated bytes.
- `decision`: the categorical choice and the escalation routing.
- `isolation::seccomp`: the seccomp-BPF program a filter compiles to, with an interpreter of
  the compiled program against which its semantics are proved: another architecture is
  killed, a trapped syscall traps, an allowed one is allowed, the rest get the default.
- `isolation::macos_seatbelt`: the Seatbelt profile a configuration generates.
- `outcome`: how the outcome of an isolated action is reported across the Python bridge.

`app/` holds the rest: system calls, sockets and threads, TLS sessions, the floating-point risk
score, the optional local neural scorer and the Python bindings. It calls the library for every
decision it makes.
