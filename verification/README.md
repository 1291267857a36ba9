# file-explorer

The core of a fuzzy, content-searchable file explorer, written in Verus.
The library's own functions in `src/` carry contracts that Verus proves;
the small wrappers around outside crates and std carry contracts that are
trusted, each saying in its doc comment what it claims of the call.

- `src/` — the verified library. Persistence formats (`settings`,
  `session`, `undo`), text editing and the caret (`edit`), the keyboard map
  (`keys`), overlays (`overlay`), the folder tree (`tree`), selection and
  pinned places (`selection`), result ordering (`sorting`), the fuzzy index
  and highlighting of matches (`index`), content search (`content`),
  syntax highlighting (`highlight`), previews (`preview`), row texts
  (`display`), names and icons (`names`), paths and breadcrumbs (`paths`),
  file operations and their messages (`fileops`), the file-system event
  debouncer (`debounce`), tabs, marks, recents and bookmarks (`explorer`)
  and the update check (`updater`). Calls into nucleo, syntect,
  two-face, crossbeam-channel and std's path handling stand behind those
  trusted wrappers.
- `tests/` — tests run against the compiled library.
- `app/` — a terminal front end: reading and writing the configuration
  files, walking folders, the search workers, the watcher and the calls to
  macOS tools.
