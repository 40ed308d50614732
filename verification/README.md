# cli-proxy

A proxy between local socket clients and a message bus, with its decisions
verified by [Verus](https://github.com/verus-lang/verus).

Each connection binds to exactly one principal on its first usable message and
stays bound to it for life. What a client sends is published under its own
principal, on topics that clients may publish to. What the bus carries is fanned
out to the clients by principal, and chat responses by conversation as well, so
that neither two principals nor two conversations of one principal see each
other's traffic.

## Layout

- `src/` is the library. It does no I/O: the main loop, the frame reader and the
  frame writer are machines that take the result of one action and return the
  next. Every function has a contract. The proof functions beside the code, and
  those of `proxy_laws` and `round_laws`, state what holds of every step, of
  whole rounds and of whole runs: what a client is bound to, what it is sent, and
  that frames arrive as they were sent.
- `app/` is the capsule that performs the actions against the host.
- `tests/` runs the library on concrete values.

`serde_json` parses and prints JSON. The verifier takes what `src/json.rs` claims
of its functions as given.
