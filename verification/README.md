# fim — file integrity monitoring

Watches a directory tree with inotify. Every file gets a save directory named
after the SHA-256 of its path (`save/<hash>/`) holding a log of its events, a
copy of its content and one diff per modification; `save/path.json` lists the
files seen so far. Events are also shown as desktop notifications.

Layout:

- `src/` — the verified library (Verus): path components and joining
  (`path`), the path hash (`digest`), the time stamp (`timestamp`), the
  registry (`init`), the save-area
  decisions for files (`event_file`, `tracker_file`), the table of watched
  directories (`watcher`, `event_dir`), the event-loop decisions
  (`monitor`) and the command line (`command`).
- `app/` — the program: inotify, the file system, JSON, the clock and
  notifications, calling the library for every decision.
- `tests/` — tests of the library on concrete values.

Run: `cargo run <directory to watch>`.
