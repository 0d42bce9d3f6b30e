# fut

The decisions of a terminal multiplexer client that reaches several machines,
written in Verus. What happens next is decided from plain values in `src/` and
proved against contracts; sockets, files, tasks, timers and the screen are in
`app/`, which carries out what the library answers.

| Module | What it decides |
| --- | --- |
| `machines`, `machine_laws` | saved SSH machine profiles: names, limits, edits |
| `state_file` | where private state files stand, which are trusted, how they are replaced |
| `ssh_bridge` | which texts may be handed to OpenSSH as a destination |
| `client::federation`, `federation_laws` | the registry of endpoints, its events, and reconciliation with the catalog |
| `client::worker`, `worker_laws` | one machine's connection: attempts, health checks, backoff |
| `client::service` | following the catalog while the supervisor runs |
| `client::federation_transport`, `federation_transport_laws` | control connections: the initial exchange, probes, failures |
| `client::handoff` | which attachment may be routed during a handoff |
| `client::attachment`, `client::remote` | what a remote attachment may do, and what a remote daemon's answer means |
| `client::messages` | wrapping and scrolling of the message dialog |
| `terminal` | what a virtual terminal is opened with |
| `duration`, `identity`, `protocol`, `text` | spans of time, identities, snapshots and plain text |

Functions whose name begins with `law_` state what holds of several operations
together. `tests/` runs the library with concrete values.
