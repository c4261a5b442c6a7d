# heartbeat_iot

The decision logic of a sensor → edge → coordinator IoT pipeline, written in
Verus and verified against its contracts.

- `src/` is the verified library:
  - `messages`: the values the nodes exchange;
  - `coordinator`: the table of edge nodes, reports, heartbeats, the liveness
    watch and the status; `coordinator_laws`: properties kept across its
    operations;
  - `dashboard`: the coordinator's HTML page, rows sorted by node identifier;
  - `edge`: the edge node's sliding window, its reports, and the retry
    schedules for forwarding and registration;
  - `backoff`: exponential backoff with a ceiling;
  - `sensor`: the publishing schedule and the noise generator;
  - `text`: decimal rendering and the code-point order of strings.
- `tests/` exercises the library on concrete values.
- `app/` is the program around it: one binary with the subcommands
  `coordinator`, `edge` and `sensor`, each configured by flags or environment
  variables, doing the HTTP, the timers, the clocks, the logging and the
  floating-point arithmetic.
