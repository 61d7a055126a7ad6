# afanasieff_rs

A Telegram chat bot that keeps a group's own quotes alive: it answers
keywords with quotes, speaks up on its own every hour, turns what Matthew
writes into new quotes, counts how people behave and hands out
achievements, and draws a cuckold of the day.

## Layout

- `src/` is the library, verified with Verus. Every public function states
  what it returns or changes over a model of the data: the store is a set of
  tables seen as maps and sequences (`store.rs`), a message is an `Event`
  (`event.rs`), and each rule of the bot is a spec function beside the code
  that follows it (`apply.rs`, `achievements.rs`, `cuckold.rs`,
  `commands.rs`, `markov.rs`, ...). `laws.rs` proves what holds across calls:
  a message is counted once, the cuckold is drawn once a day, the longest run
  is kept, no achievement is given twice, a stored message is stored once, a
  ranking and the leaderboard are fixed by the store; `rules.rs` proves that
  every hint names its threshold, and `text.rs` that tokenizing the joined
  tokens gives them back.
- Calls into rand, chrono and teloxide stand behind small trusted wrappers
  whose contracts say what those crates document (`random.rs`, `clock.rs`,
  `html.rs`, `chars.rs`).
- `app/` is the program around it: the Telegram dispatcher, the SQLite
  database the store is loaded from and saved to, the hourly loops and the
  chances that tests may change.
- `tests/` runs the library on concrete cases.
