# ospfd

A router daemon for OSPFv2 and OSPFv3. Its library, under `src/`, is verified with Verus: packets, link
state databases, neighbor and interface state machines, database exchange, flooding, origination,
route computation, configuration, command line and control replies. Each function's contract says
what it returns or how it changes its instance, over a mathematical view of the data.

- `packet`, `packet_v3`: the wire formats. Reading gives back what was written (`roundtrip`).
- `lsdb`, `lsdb_v3`: the databases.
- `proto`: neighbors, interfaces, shortest paths and routes of OSPFv2; `spf_v3`: those of OSPFv3.
- `instance`, `instance_v3`: the protocol engines. `step` takes an event in and says what it causes;
  `laws`, the modules named after it, `externals` and `distinct` hold what follows from the contracts.
- `config`: from the configuration file to the instances. `cli`, `control`: the command line and the
  answers to queries.
- `io`, `io_punt`, `io_v3`, `io_punt_v3`: framing of packets for raw sockets and for the forwarder's
  punt sockets.

`app/` is the daemon around the library: sockets, timers, signals, the forwarder's binary API, and the
connection to ribd. It hands events to the library and carries the effects out. `tests/` runs the
library on concrete values.

Keyed digests need a hash function that no dependency has: an interface that is configured for them
can neither send nor receive. Simple passwords and null authentication work.

Addresses are integers, and time is a count of milliseconds.
