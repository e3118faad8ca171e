# snare

A network inside one process, for testing code that talks over TCP, UDP or a
mio-style poller. Code under test uses sockets with the standard library's
interface; a test plays the other side of the wire, injects faults, and controls
the clock. The logic is written in Verus and proved against its contracts.

## Layout

- `src/` is the verified library. A `TestState` is the network of one test, and
  every operation is a step on it that never waits: where a socket call would
  block, the step says for how long, and the caller waits and takes the next one.
  - `state`, `conn`, `table`: connections, listeners, sockets, policies, log.
  - `shim_std_tcp`, `shim_std_udp`, `net`: streams, listeners and sockets.
  - `mio_shim`, `mio`: the poller.
  - `framework`, `run`: testers and the order in which they run.
  - `thread`: which test a thread belongs to, and the networks of the tests.
  - `time`, `clock`: time arithmetic and the virtual clock.
  - `rng`, `policy`, `record`: random decisions, link policies, the log.
  - `pcapng`: the capture of all traffic.
  - `stream_laws`, `datagram_laws`, `tester_laws`, `log_laws`, `wake_laws`: what
    holds of every connection, socket, tester and log, and of those who wait.
    Other laws stand beside what they are about.
  - `signal`, `bell`: waking those who wait. `bell` is the one place that calls
    another crate.
- `app/` puts the library behind the standard library's own types: sockets that
  block, threads, files, the real clock.
- `tests/` runs the library.

## What the contracts say

A `StateView` is the mathematical model of a network. The contract of an
operation gives the `StateView` after it, and its result, for every state and
every argument. `StateView::wf` is the invariant: the two ends of a connection
know each other as long as both exist, every end and listener has a handle, and
what waits to be accepted waits in one place and is as it was made.
