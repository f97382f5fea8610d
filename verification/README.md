# Harmonia core

The logic of Harmonia, a desktop music player, written in Verus. The
functions in `src/` carry contracts that Verus proves; the few calls into
outside crates and into std's clock sit behind small trusted wrappers whose
contracts say only what those crates document.

- `src/queue.rs`: the play queue. A shuffled order is the Fisher-Yates
  shuffle of the random draws and always a permutation, the cursor keeps
  its track when the order changes, advancing lands on the track announced
  as next.
- `src/engine.rs`: transport flags, sleep timers, the decision taken when a
  track ends.
- `src/query.rs`, `src/smart.rs`: the SQL statements built from user input.
  Values are always bound parameters; the statement text depends only on
  which filters or rules are present (proved).
- `src/playlist.rs`: M3U/M3U8, PLS and XSPF export and import; importing
  an exported M3U, PLS or XSPF playlist gives the exported paths back, and
  a file URI imports as its path (proved).
- `src/meta.rs`, `src/scan.rs`: tag fallbacks, artwork keys, the
  oldest-first eviction plan that keeps the artwork cache within its size
  budget, incremental scanning, debouncing of filesystem events.
- `src/settings.rs`, `src/requests.rs`: settings validation and the logic of
  user requests.

`app/` is the application around the library: the Tauri window and
commands, the rodio audio output, the SQLite connection, file access and
the floating-point DSP. `tests/` exercises the library on concrete values.
