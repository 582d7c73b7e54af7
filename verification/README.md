# sidepar

The verified core of a side-panel clipboard history and prompt manager.

- `src/` is the library, verified with Verus:
  - `text`: Unicode white-space trimming and the preview of a clipboard entry;
  - `models`: clipboard entries, prompts and categories, with their views;
  - `table`: a keyed table of records (the semantics of a primary-key table:
    insert, insert-or-replace, delete) and ordered listings of it;
  - `history`: the clipboard history (recording a copy, pinning, the
    50-entry limit, pinned-first listing) and the clipboard-poll decision;
  - `library`: saved prompts and categories, and the default categories;
  - `panel`: when the panel shows and hides;
  - `clock`, `ids`: the current time and fresh UUIDs;
  - `laws`: properties that span several operations.
- `app/` is the Tauri shell: window, tray, global shortcut, the clipboard
  poll thread and the SQLite file.
- `tests/` runs the library on concrete values.
