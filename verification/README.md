# 안녕 커맨더 (commander)

A dual-panel file manager for Windows in the style of Midnight Commander:
two panels side by side over local folders, zip archives and FTP servers,
a function-key bar, a viewer and an editor, copy/move/delete jobs on a
worker thread with progress in the status line.

The core is a library written and proved with Verus.

## Layout

- `src/` — the verified library (`commander`):
  - `model.rs`, `listing_order.rs` — the rows a panel shows, their columns
    (size in B/K/M/G, time, extension) and the panel order (".." first,
    folders before files, then by name, size, time or extension), with a
    verified stable merge sort.
  - `vfs.rs`, `vfs_zip.rs`, `vfs_ftp.rs`, `paths.rs` — locations and how
    entering and leaving move between them; the rows of a zip folder and
    what extraction writes for each member, both read from the archive's
    bytes through the zip crate; the rows of an FTP listing.
  - `fsops.rs`, `fsworker.rs`, `progress.rs`, `remote.rs` — what a file
    request comes to, the steps and totals of a job, its progress, and FTP
    transfer reports.
  - `panel.rs`, `state.rs`, `events.rs`, `layout.rs`, `dialogs.rs`,
    `viewer.rs`, `config.rs`, `text.rs` — panel state, sort settings, keys
    and buttons, window layout, dialog answers, hex dump and newline
    handling, bookmarks, and text building.
- `tests/` — tests of the library.
- `app/` — the Windows program (native-windows-gui): windows, dialogs,
  disk and network work, settings file (TOML).

Each public function states its result in `ensures`; the laws of the
library (sorting is stable and unique, leaving an archive or remote folder
undoes entering it, progress never falls, a bookmark is kept once, ...)
are public proof functions named `law_*`.
