# Ryuuji

Ryuuji follows what a media player is playing, reads the anime title and
episode out of the window or file name, matches it against the person's
library, and records an episode once enough of it has been watched.

## Layout

- `src/` is the verified library. Every function carries a `requires` /
  `ensures` contract that Verus proves.
  - The filename reader's parts: `element`, `tape`, `engine`, `rules`,
    `rule`, `reading`, `keyword`, `numbering` (with its `scanner`), `words`.
    The prelude of a read (`words::prelude`: the extension, the ignored
    strings, the file name) and the engine that applies a rule's verdict
    are here, but there is no function that reads a whole name: the
    tokenizer, the table of rules and the built-in keyword table it would
    run are not part of this source. A title therefore reaches matching
    with no elements read from it, and the shell as built proposes every
    title as unmatched and records no episode.
  - Matching and the library: `matching`, `library`, `gate`, `history`,
    `store` (reading stored rows back into values), `state`.
  - Watching: `playback`, `watch` (what counts as watched), `session` and
    `worker` (turning the platform's sessions into one event stream),
    `players` (the player table), `smtc` and `gecko`/`city` (the pure half
    of the Windows strategy).
  - Files: `user_file`, `settings`, `diagnostics`.
- `app/` is the shell: SQLite through rusqlite, reading and writing the files, the data
  directory, the local time zone through jiff, the worker thread, and the
  floating-point displays. It hands the library plain values and performs
  the writes the library decides on.
- `tests/` runs the library on concrete values.
