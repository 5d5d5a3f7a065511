# assuan

A verified core for the Assuan protocol (the line protocol spoken by GnuPG
agents and their clients), written in Verus.

## Layout

- `src/protocol/` — the wire format without I/O: command and response lines,
  percent escapes, bounded line framing, protected secret buffers, and the
  client and server session state machines. Laws in `wire_laws.rs` and
  `session_laws.rs` relate encoding to parsing and the two state machines to
  each other.
- `src/sexpr/` — canonical S-expressions: a bounded, explicit-stack parser,
  an encoder under default limits, and laws (`laws.rs`) showing that parsing
  and encoding are inverse on everything either one accepts.
- `src/server/` — the rules of a server session: handler and registration
  errors, OPTION parsing, option limits and deadlines, handler registration,
  request classification, inquiry bookkeeping, HELP output, and the choice
  of the one final response for each command.
- `app/` — asynchronous plumbing around the library: handler traits, command
  contexts, inquiries, the session runner and the bounded server. It performs
  I/O and awaits; every protocol decision is a call into the library. It
  builds on the project's transport crate (`assuan_transport`).
- `tests/` — behavioural tests of the library.
