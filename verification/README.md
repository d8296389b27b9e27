# quire

The editing logic of Quire, a local Notion-like document workspace, as a
Verus library: each function states its behaviour in `requires` / `ensures`
and Verus proves the code meets it.

- `src/app/state/` — what a page shows and how the editor moves: block
  kinds, the projection of a page's blocks into editor rows (folding,
  tables, columns layouts, find hits), text runs, menus and their rows,
  keyboard focus, the command palette, session navigation history, the
  fixtures of the sample workspace, page copies and attachment reclaim.
- `src/app/controller.rs` — markdown shortcuts and the shell's small
  decisions.
- `src/platform/` — clipboard bitmaps (DIB decoding, PNG encoding through
  the `image` crate) and the single-instance quit protocol.
- `src/launch.rs`, `src/shot.rs` — command-line arguments of the app and of
  the screenshot tool, and the BMP it writes.
- `src/text.rs` — text helpers: white space, trimming, numbers, case.
- `app/` — the program around the library: arguments, files, the named
  pipe and the clipboard of the operating system.
- `tests/` — tests of the library on concrete values.
