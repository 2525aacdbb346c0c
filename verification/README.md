# plinks

A project-local link manager: links kept in `project-links.toml` under stable primary
names, with aliases, tags and a note, opened, listed, added and removed from the command
line or an interactive terminal view.

## Layout

- `src/` is the library, verified with Verus. It holds the rules of the configuration
  (name normalization, validation, the alias namespace, saving and removing links, the
  canonical file text), name and tag lookup, where the file is found, what each command
  does, the clipboard tool choice, and the state machine of the interactive view (keys,
  form, selection, what the loop does next). `src/laws.rs` states and proves the
  properties that hold across these functions.
- `src/foreign.rs` holds the contracts taken on trust from the `url` and `toml` crates.
- `app/` is the program around the library: command-line parsing with `clap`, file
  reading and writing, opening links, running clipboard tools, and drawing with
  `ratatui` and `crossterm`.
- `tests/` runs the library on concrete values.
