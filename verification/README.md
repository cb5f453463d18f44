# my_redis

A Redis-compatible server core whose logic is verified with Verus, and the
programs around it.

- `src/` — the verified library:
  - `frame.rs`: the frames the server writes and their exact RESP encoding;
  - `resp.rs`: reading frames with the parser of `mini_redis`;
  - `connection.rs`: the per-client read buffer and write queue;
  - `command.rs`, `db.rs`: decoding `GET`/`SET` and the key/value store that
    answers them;
  - `timer.rs`, `executor.rs`: delays, a select over futures, and a small
    executor that never polls a completed task;
  - `tasks.rs`: the computations of the instrumented demo tasks;
  - `buffers.rs`: the byte buffers of `bytes`, seen by their contents.
- `app/` — the server, the clients and the runtime demos (sockets, tokio,
  tracing); `app/main.rs` picks one by its first argument.
- `tests/` — tests of the library on concrete values.
