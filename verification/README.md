# tree_tui

A terminal file-tree viewer with an animated colour theme and an in-terminal
theme editor. The library under `src/` holds the logic, written in Verus and
proved against its contracts; `app/` is the terminal program around it.

## Library (`src/`)

- `text` — character-level string helpers: trimming whitespace, decimal
  digits, building strings.
- `color` — reading `#RRGGBB` colours and comma-separated gradients, and
  checking colour entries.
- `theme` — themes as written and as applied: checking and matching rule
  globs, reading every colour list, rule targets, the rule preview name.
- `tree` — laying out a directory walk as tree lines (per-directory entry
  limit, omitted-files lines, branch flags), styling lines with a theme, and
  the tree as text.
- `editor` — the theme editor as a state machine: building it from a
  theme, what each key does, reading the theme back, scrolling.
- `nav` — what keys do on the tree screen and on the theme list.
- `order` — how the entries of a directory are ordered: by name, by
  extension, by size, by modification time.
- `preview` — what the editor's preview panel shows for the focused field,
  and the problems it reports.
- `builtin` — the built-in Catppuccin Macchiato theme.
- `store` — which files of the themes directory are themes, in what order
  they are listed, how each is shown, and which one is active.

Each module states its laws as public proof functions named `law_*`.

## Program (`app/`)

Walks the directory, loads and saves themes, draws the screens with
`ratatui`, animates colours (floating point) and runs the event loop,
handing keys and walk entries to the library.

## Tests (`tests/`)

Concrete scenarios for the library, run against the real outside crates.
