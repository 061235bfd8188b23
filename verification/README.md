# quick_notes

A small note-taking application: notes are typed into an editor, saved as
JSON files under `~/.quick-notes/notes`, listed newest first, searched
case-insensitively and deleted one by one or all at once, with
confirmations before unsaved work is lost.

The library in `src/` holds the application's logic, verified with Verus:

- `text` — whitespace and trimming as `str::trim` defines them, the
  editor's text, note previews (`truncate_at_word`) and substring search;
- `notes` — notes in memory and in files, file names, the stable
  newest-first sort and the reading of note files;
- `state` — the application state and `update`, which maps a state, a
  message and the editor's text to the next state and to what the window
  has to do (editor change, files to write or remove, focus, closing);
- `view` — what the window shows, computed from the state;
- `outside` — the calls into `chrono`, `uuid` and `str::to_lowercase`;
- `laws` — properties of the library as a whole: the state invariant, the
  note files following the notes, undoing a delete request, and the
  shapes of the produced texts.

`app/` is the window itself (iced), the file system and JSON handling.
