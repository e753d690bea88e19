# rust_from_python

A library of small text and data tools, verified with Verus, and the programs
that run them.

- `src/` — the verified library. Each module states its behaviour in
  `requires`/`ensures` contracts over mathematical models (`Seq`, `Map`,
  `int`) and Verus proves the code against them. Among the modules: a
  key-value store saved as `key|value` lines and its prompt commands, a to-do
  list, a guessing game, `grep`-style line search, word frequencies and text
  statistics, number parsing and statistics, a notification system with one
  `Notifier` trait and a closed set of notifier kinds (e-mail, SMS, Slack),
  and the helpers for Unicode whitespace, words, lines and trimming in
  `text.rs`. Laws that span several functions (a saved store loads
  back to the same map, a read returns the last write, frequency tables are
  sorted, and so on) are public proof functions.
- `tests/` — tests run against the compiled library.
- `app/` — the programs around the library: command lines, file and console
  I/O, threads, `async` code, JSON, floating point and the printing
  demonstrations. Run it with one of `guess`, `search`, `todo`, `stats`, `kv`,
  `chapters` or `demos`.

The library calls `rand` to draw the secret number of the guessing game; the
programs use `clap`, `serde`, `serde_json` and `tokio`.
