# fish_history

The command history of an interactive shell: a verified library, and the shell around it.

- `src/` is the library. Its functions have contracts, which Verus proves.
  - `api`, `item`, `timestamp`: history entries, points in time, and the interface of a provider of shared
    history.
  - `history`, `populate`, `registry`, `laws`: a history with a local and a shared part, importing lines of
    bash, the histories of a shell by name, and what holds over several operations.
  - `search`, `search_run`, `search_laws`, `text`, `format`: finding entries, and showing them.
  - `commands`, `path_utils`, `required_paths_cache`: which arguments of a command are paths of files.
  - `session`: which history a session uses, and private mode.
  - `yaml`: the default provider. `state` describes what a shell knows of a history and what becomes of it,
    `yaml_history` does it, `cache`, `recent` and `item_list` are about the items that a rewritten file holds,
    and `laws` is about several operations in a row.
- `app/` is ordinary Rust around the library: files and locks, the clock, threads and streams. What the rest
  of the shell does for the history is the trait `Host`.
- `tests/` runs the library.

Four things are believed without proof: that `lru::LruCache` keeps its entries in the order of their use, that
`rand` gives numbers in the range that is asked for, that sorting in the standard library is stable, and what
the standard library says about pushing a character to a string and about lowercase characters.
