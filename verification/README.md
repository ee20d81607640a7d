# crown_relay

The single fronter of paid calls: allowlisted keys submit without cycles, and the
relay attaches the price of each call from its own balance. It fronts exactly three
calls (`ingest` on the index, `request_signature` and `push_root` on a game), and
each key spends from a burst budget and a daily one.

- `src/` decides everything and is verified: admission and budgets (`admission`,
  `budget_laws`), the relay as a state machine (`relay`, `relay_laws`), the config of
  a build and how profile texts are read (`baked`, `config`, `profile`, `text`), principals
  and the collections keyed by them (`principal`, `principal_set`, `budget_map`),
  the encoding of an ingest (`wire`), and a recording downstream (`mock`).
- `app/` is the canister around it: entry points, the clock, the balance, the calls.
  `app/bake.rs` is run before a build: it writes `src/baked.rs` from the profile that
  `CROWN_PROFILE` names (`config/<profile>.toml`, `testnet` by default). A canister
  built for another profile than the one in `src/baked.rs` does not compile.
- `tests/` runs the library on concrete values.

What is trusted: `candid` parses the text of a principal (`principal::parse_text`)
and encodes one text (`wire::encode_text`). Their doc comments say what is claimed.
