# hart_link

A library for talking to HART field devices, verified with Verus.

- `src/wire`: frames, addresses and the streaming decoder.
- `src/operation`: requests, replies and the typed operations on top of them.
- `src/catalog.rs`, `src/inspect.rs`, `src/tables.rs`, `src/device`, `src/package.rs`:
  the command registry, frame inspection, code tables, device descriptions and
  their import from packages.
- `src/service`: bounded queues, the exchange state machine, the link runner,
  publications, sessions, health tracking, discovery, snapshots, plans,
  recovery and block transfer.
- `src/ip.rs`: HART-IP packets and the session state machine.
- `src/mesh`: join control, topology, routes and schedules of a wireless network.
- `src/emulator.rs`, `src/trace.rs`: an emulated device, fault plans, recording
  and replay.
- `app`: the command-line tool, byte channels, and the asynchronous tasks that
  drive the state machines of the library.

The functions of `src`, or the traits that they implement, state what they
return and change; public proof functions state the laws that hold between them.
What is up to somebody else, such as whether a message waits in a queue, is
stated as far as it holds whatever came back. Time is a value that callers pass
in, so every state machine is a function of its inputs.

Calls into other crates stand behind small items whose contracts Verus takes on
trust: Base64 decoding (`src/inspect.rs`), ZIP reading (`src/package.rs`),
wiping of keys (`src/mesh/security.rs`), bounded queues
(`src/service/burst.rs`) and `String::push` (`src/strings.rs`).
