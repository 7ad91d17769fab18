# buzz_acp

The verified core of an agent harness that lives in chat threads: which session answers
which thread and how that outlives a restart, in which threads the agent stays awake
without a mention, and how the progress of a long turn is shown.

- `src/` is the library. Every function in it is proved by Verus against its contract. What
  it has from `serde_json`, `nostr`, `uuid` and the clock stands behind small wrappers in
  `json.rs`, `hex.rs` and `clock.rs`, whose contracts are taken on trust.
- `tests/` runs the library, with the real outside crates.
- `app/` does the file access, reads the environment and talks to the relay.

Proof functions whose names start with `law_` state what holds across several functions.
