# rust_course

Verified logic of a small ticket-management service and of an interactive
runner for a course of Rust exercises.

- `src/` (verified with Verus)
  - `data.rs`, `store.rs`: tickets, their status, and the store that hands
    out ids; laws on adding, looking up and replacing tickets.
  - `bounded.rs`: one turn of the ticket server that is fed through a
    channel.
  - `outro.rs`, `outro/server.rs`: what each REST endpoint does to the
    store and answers.
  - `halves.rs`, `static_sum.rs`, `leaked_sum.rs`: summing a slice in two
    halves, with the law that the halves add up to the whole.
  - `text.rs`, `split.rs`: string helpers; white space, trimming, lines and
    words as the standard library defines them.
  - `runner/`: paths and keys of exercises, the record of passed exercises
    and its state file, the watch-mode state machine, the order in which
    exercises are taken, and the decisions around running tests.
- `app/`: the runner program and the threads, channels, HTTP and terminal
  work around the library.
- `tests/`: tests of the library on concrete values.
