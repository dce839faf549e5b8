# e_agent

The verified core of a terminal coding agent: the chat-completions dialect that it speaks to
model providers, and the terminal surfaces that its user picks from.

- `src/completions/`: what a request's JSON body holds, what is done about a gateway that rejects
  an optional field, and how a stream of payloads becomes events. `laws.rs` and the end of
  `exchange.rs` state what holds of whole streams and of the retry.
- `src/tui/`: the fuzzy match, the picker menu with its ranking, its window and its rows, the
  trust panel, and the styled text that they are made of.
- `src/json.rs`, `src/text.rs`, `src/providers.rs`: the plain data that these speak of.
- `app/`: the HTTP exchange around the dialect.
- `tests/`: the library as its users see it.

The library calls `serde_json` for reading payloads and `str::to_lowercase` for the fuzzy match;
what is taken for granted of them is stated where they are called.
