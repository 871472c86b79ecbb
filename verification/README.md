# sutom_scores

Scores of the daily SUTOM word game, as the members of a chat channel share them, and the bot that
keeps and shows them.

- `src/` is the library, verified with Verus. `share` and `pattern` read messages, `duration` and
  `text` count and write times and numbers, `player`, `daily`, `leaderboard`, `scan` and `times`
  keep and rank scores, `report` writes the answers, `calendar` and `clock` number the grids, and
  `bot` decides what is done about a message and when scores are sent.
- `app/` is the bot itself: the connection to Discord around the library.
- `tests/` runs the library.

The search for patterns is that of `regex`, and the calendar of the Pacific coast is that of
`chrono` and `chrono_tz`. What the library relies on of them is stated beside each call, in
`src/pattern.rs` and `src/clock.rs`.
