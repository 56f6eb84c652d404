# bm

A command-line bookmark manager backed by a markdown file, whose logic is
verified with Verus.

Each bookmark is a line `- URL - Label` of the bookmarks file; other lines
(headings, blank lines) are kept as they are.

## Layout

- `src/` — the verified library:
  - `text.rs`: character-level text operations (whitespace, lines, replacing,
    decimal numbers) with their specifications;
  - `bookmarks.rs`: bookmark lines and URLs, and the list, search, add and
    remove commands over the file's lines;
  - `metadata.rs`: a bookmark's label from a page's title and description, from
    a reader service's answer, and the steps of fetching it;
  - `tui.rs`: the state of the interactive browser and how keys change it;
  - `config.rs`: where the configured bookmarks path points;
  - `error.rs`: the errors and their messages;
  - `laws.rs`: properties that relate the commands to each other.
- `app/` — the program around it: command line, configuration file, file and
  network access, and the terminal user interface.
- `tests/` — tests of the library on concrete values.
