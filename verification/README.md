# scat

A searchable catalog of scripts: an indexer that scans directories, extracts
metadata and dependencies, and resolves them; and a terminal browser for what
it finds. The library is written in Verus, with every function proved against
its contract.

## Layout

- `src/` is the library.
  - `text`, `text_map`, `sorted_map`, `sorting`, `paths`, `json`: texts, maps, orders, rows.
  - `patterns`, `syntax`, `walk`: regular expressions and syntax trees.
  - `scanner`, `scan_tree`, `vc`: what a scan takes in, and what it shows meanwhile.
  - `extractor`, `sidecar`, `ast_deps`, `treesitter_deps`: what is read from a script.
  - `resolve`, `builder`, `build_steps`, `checkpoint`, `atomic`: how a catalog is built,
    resumed and published.
  - `output`, `table`, `script_view`, `search`, `mapping`, `runtime`: the command line.
  - `tui`: the state of the browser, what keys, clicks and answers do to it, and what it shows.
- `tests/` runs the library.
- `app/` is the program around it: the file system, YAML and JSON files, SQLite, threads and the
  terminal.

Public proof functions named `law_…` state what holds across functions.
