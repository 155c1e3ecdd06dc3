# zhensegg

The logic of a message broker, written and verified in Verus.

- `src/protocol`: frames, and the incremental parser.
- `src/store`: the ring that keeps the log, the ring file with its flusher, recovery and audit.
- `src/subscription`: who listens to which topic.
- `src/broker`: one connection as a state machine, the laws that it keeps, admission, start-up.
- `src/security`: tokens, the admin plane, certificates.
- `src/health.rs`, `src/metrics.rs`, `src/config.rs`: what is reported, and the settings.
- `src/bench.rs`, `src/fuzz`: the client side of benchmarks, and the fuzzer.

`app/` is the program around it: sockets, files, threads, HTTP. `tests/` runs the library.
