# Lux

The core of the Lux text editor as a verified library, and a small terminal
front end around it.

- `src/` is the library: the buffer over a `ropey` rope (`buffer`, `rope`,
  `lines`), carets, word motion and undo (`editor`), an open document's
  editing commands (`document`), the open documents and the restoring of a
  workspace's tabs and expanded folders (`workbench`), the key map (`keys`),
  smart bracket pairing (`pairing`), the command palette's registry,
  ranking and state (`commands`, `rank`, `panel`), the recent-items and
  workspace-session store and settings defaults (`config`), the chrome's
  decisions (`chrome`), and the path rules (`paths`, `workspace`, `image`).
  Verus proves every function's contract, except those of the small
  wrappers in `rope` and `text` that make one `ropey` or std call each:
  their contracts are trusted, as read from those sources.
- `tests/` exercises the library on concrete inputs.
- `app/` reads and writes files and settings, runs the external formatter,
  and drives the library from the terminal: `lux <file>` opens a file,
  `lux <folder>` a workspace; lines typed are inserted, and `:w`, `:undo`,
  `:redo`, `:format`, `:open`, `:folder`, `:close`, `:palette`, `:run`,
  `:esc`, `:recent` and `:q` do what they say.
