# Slate

A native Markdown notes editor for Linux. This repository holds its core as a
Verus library, `slate` (under `src/`), and the GTK program around it (under
`app/`).

The library holds the editor's logic with its specifications and proofs:

- `editor::conceal` reads each line of Markdown into the elements whose
  delimiters are hidden away from the cursor, plans the tags to paint, and
  follows the cursor from line to line;
- `editor::markdown` and `editor::formatting` hold the formatting commands
  (wrapping, headings, lists, quotes, indentation) and their round trips;
- `preview` turns the events of the Markdown parser into the blocks of the
  native preview, with Pango markup escaping;
- `document` holds the state of a note and its counts; `storage` the parts of
  reading and writing that do not touch the disk, and the line diff;
- `shortcuts` holds the key bindings; `window` and `app` the decisions of the
  main window (unsaved changes, saving, automatic saves, command line);
- `config` holds the limits the configuration keeps.

The program in `app/` builds the GTK widgets, reads and writes files, keeps the
configuration file, and calls the library for every decision.

The key bindings are kept in a vector whose type invariant forbids binding the
same shortcut twice. A hash map keyed by the binding itself, as a plain Rust
program would use, gives Verus nothing to reason about for a key of our own
type, and walking it for the first matching binding would depend on the map's
order; the vector keeps the bindings in the order they were made, and a key
press goes to the first one that matches.
