# lazynb

A lazygit-style terminal UI for the [`nb`](https://github.com/xwmx/nb)
notebook CLI, built with ratatui. The logic is a Verus-verified library;
the terminal program around it runs `nb` and `rg`, reads note files and draws.

Layout:

- `src/` — the verified library
  - `text.rs` — searching, trimming, lines, decimal numbers (what the parsers share)
  - `path.rs` — note paths: file names, stems, the notebook directory of a note
  - `nb.rs` — reading `nb`'s output into notebooks and notes
  - `markup.rs` — `[[wiki links]]` and `#tags` in a note's text
  - `overlay.rs` — actions, the list picker and the nb shell
  - `search.rs` — ripgrep output and the live-search overlay
  - `graph.rs` — the edges of the relationship graph, the graph view's state and its keys
  - `app.rs` — the browse state: key bindings, panels, selection, filters, overlays' effects
  - `cli.rs` — command-line arguments
- `app/` — the program: event loop, drawing, running `nb`/`rg`, the graph layout
- `tests/` — tests of the library
