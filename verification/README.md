# tcp-multi-transfer

Sends a file directly between two machines behind NAT. A relay introduces the peers; then both
punch at a synchronized moment and talk to each other. The file goes over one or more connections
in blocks with a checksum each, and its SHA-256 is verified at the end.

## Layout

- `src/` is the library: the wire formats, the state machines of both sides and the rules, each
  with a contract that Verus proves. Functions whose names begin with `law_` state what holds of
  several functions together.
  - `protocol` the messages, `wire` and `digest` the byte buffers and checksums they rest on
  - `transfer` blocks, sessions of both sides, and the measurement of the path
  - `punch` targets, the spread of the sockets, the choice among connections
  - `connection` the queues of relay messages and the establishing of connections
  - `relay`, `peer`, `cli`, `metrics`, `netinfo` what surrounds them
- `app/` is the program: sockets, files, the clock, JSON, the command line and anything in
  floating point. It performs the actions that the library names and reports what came of them.
- `tests/` run the library on concrete values.

Times and percentages that are floating point pass through the library as the bits of a double.
