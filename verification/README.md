# bulk_rename

A bulk file renamer. The library (`src/`, verified with Verus) holds the
renaming rules and the state of the renamer window; `app/` draws the window
with egui/eframe and does the file-system work.

Library modules:

- `text` – characters and their UTF-8 byte offsets; string conversions.
- `rename` – the six renaming steps (name, case, replace, remove, add,
  numbering) and the cut of a file name into stem and extension.
- `pipeline` – the steps put together for one stem and for the file table.
- `order` – the order of names and the stable sort of folder listings.
- `folder` – folder listings: files, sub-folders and all items, sorted by
  lowercase name.
- `edit` – batches of renames and the batches that take them back.
- `gui` – the window state, its dialogs, and saving, undo and redo.
- `frame` – per-frame totals and flags, option choices, file selection.
- `browse` – the start folder, reading a folder into the table, moving
  between folders.
- `hash` – file fingerprints (MD5, SHA-1, SHA-256, SHA-512 in Base64).

Saving, undo and redo are split into a `*_begin` step that returns the
batch of renames, the renames themselves (done by the application, which
reports each failure with `rename_failed`), and a `*_finish` step.
