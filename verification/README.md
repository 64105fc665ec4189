# FileMan

A dual-pane file manager for Windows: two panes with tabs, a folder tree,
favourites, recent items, user profiles, rebindable shortcuts, a toolbar and
launchers to arrange, a recursive search, copying and moving in the background
with questions about names that are taken, archives, drag and drop, and
settings that can be taken to another machine.

## Layout

- `src/` is the library: everything that FileMan decides or computes, written
  in Verus and proved against the contracts of its functions. It holds no
  handle to a disk, a database or a window. What it has to know of them is
  handed in as plain values or as a function to ask (`on_disk`, `is_dir`), and
  what is to be done with them comes back as an `Effect`, a `FileStep`, the
  next item of a walk or the next step of a job.
- `app/` is the program: the egui window, SQLite, threads, files, archives and
  the calls into Windows.
- `tests/` runs the library from outside.

## The library

| Modules | What they hold |
| --- | --- |
| `text`, `path`, `sort`, `size_text` | characters, Windows paths, stable sorting, sizes as shown |
| `table`, `store`, `db`, `config`, `user`, `session` | what is kept between runs, by user |
| `actions`, `shortcuts`, `rebind`, `toolbar`, `prefs`, `migrate` | commands, keys, buttons, preferences, settings files |
| `fs_entry`, `search`, `find`, `listing`, `subdirs`, `tree`, `browse` | listings, searching, the tree, selecting and opening |
| `tab`, `pane` | tabs with their history, selection and filter |
| `fs_ops`, `copy_walk`, `progress`, `transfer`, `transfer_job`, `delete_job`, `archive` | copying, moving, deleting, unpacking |
| `dialog`, `entry_menu`, `shell_menu`, `launcher`, `tips`, `toast` | dialogs, menus, launchers, tips, messages |
| `icon_cache`, `monitor`, `native_drag`, `taskbar`, `win_default` | the decisions behind the calls into Windows |
| `app` and `app_*` | the whole program as one state, and each thing that a user can do to it |

`FileManApp` in `app` is the state of the program. `FileManApp::wf` says which
states are possible, and every method keeps it; `FileManApp::synced` says that
what is shown of a user is what is stored.

Laws that hold across functions are the public proof functions whose names
start with `law_`. `app_laws` has those of the program as a whole.

## What is trusted

Five calls are believed rather than proved: `String::push`,
`str::to_lowercase`, `String::from_utf16_lossy`, the debug format of a string,
and the name that egui has for a key. Each stands behind a function whose doc
comment says what is claimed of it.
