# rmr

A MAVLink router. It forwards MAVLink traffic between serial, UDP and TCP
endpoints, and learns behind which endpoint each `(sysid, compid)` lives. It has
no MAVLink identity of its own and originates no traffic.

- `src/` is the library, verified with Verus: framing, checksums and message
  tables, the endpoint grammar, filters, queues, peer tables and the task state
  machines, configuration from the command line and from TOML, routing,
  duplicate suppression and the statistics lines.
- `tests/` runs the library.
- `app/` is the program: arguments, files, sockets, serial ports, timers and the
  tasks that carry out what the library decides.

The message table covers the `common` and `ardupilotmega` dialects and those they
build on. Frames of any other message are forwarded to everyone, their checksum
unchecked.

What is trusted rather than proved is the behaviour of the byte buffers of
`bytes`, the bounded queue of `crossbeam-queue`, the wall clock, and how std
quotes a string. Each of these stands behind a small function whose comment says
what is claimed of it.
