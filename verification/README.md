# lnrentd

The rules of a daemon that rents out computing capacity for Lightning payments, written in Rust and
proved with Verus.

- `src/` is the library. Every function states what it returns or changes, and Verus proves it.
  - `tables` is the stored state; a store transaction is a function on it.
  - `reservation` holds, consumes and releases host capacity.
  - `refund` plans a refund, pays it under a key of its own, and keeps the refund ledger.
  - `refund_resolver` and `addresses` turn a refund destination into an invoice, over vetted hosts only.
  - `store` and `schema` say what is owed, what may be reaped, when writes stop, and how the schema grows.
  - `readiness` tells whether the refunds that are owed could be paid.
  - `resume` resumes a suspended rental, or gives its renewal back.
  - `runner` decides what a recipe hook may see and what its end means.
  - `relay_status` alerts once to a blackout of the relays.
  - `supervisor` orders start, recovery, maintenance and shutdown, and restarts loops.
  - `documents` says what the rules go by of the JSON documents that rows hold.
  - `outside` holds the calls into other crates, which is all that is taken on trust.
- `tests/` runs the library on concrete values.
- `app/` is the daemon around it: the database, the network, child processes and the loops.
