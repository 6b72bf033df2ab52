# iris

The verified core of Iris, an actor runtime with Python and Node.js
bindings.

`src/` is the library, checked by Verus:

- `pid` — pids made of a slot index and a generation, and the slab that
  hands them out and takes them back;
- `registry` — the name registry and its path listings;
- `supervisor` — restart plans, links and the restart backoff;
- `network` — the wire protocol, the per-connection decoder and the
  heartbeat monitor;
- `mailbox` — messages and the queue that keeps deferred messages in order;
- `scheduler` — the reduction budget of an actor's poll loop;
- `buffer` — the registry of shared byte buffers;
- `routing` — where a Python push actor runs, and the dedicated-thread quota;
- `timers` — timer ids and their cancellation handles.

`app/` is the runtime around it: tasks, channels, sockets, timers and the
PyO3 and N-API bindings. `tests/` exercises the library from outside.
