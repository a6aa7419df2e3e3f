# redis_aio

An asynchronous Redis client whose decisions are verified with Verus.

- `src/` is the library. It holds no socket and no task. Where the client has to wait for
  something, a function of the library says what to do next, and another takes what came of
  it: which bytes to write, which reply belongs to which request, when a connection may be
  closed, what a caller gets.
- `app/` is what does the waiting: sockets of tokio and of async-std, the task that drives
  a shared connection, and the `async` interface.
- `tests/` runs the library on concrete values.

What the library believes without proof is in two places. `src/response.rs` says what
tokio's one-shot channels do: the two halves that are made together belong together, and a
response that is handed to a sender is recorded. `src/parser.rs` says when
`String::from_utf8` succeeds and what it gives.
