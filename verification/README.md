# aerospace-helper

A helper for the AeroSpace window manager on macOS. It listens to AeroSpace's events, keeps the
SketchyBar workspace items in step with the windows, and colours the border of the focused window.

- `src/` is the verified library: every decision, as functions on plain values with contracts.
  - `text`, `number`: trimming, cutting, searching; decimal numbers.
  - `paths`, `instance`: where files are; one helper at a time.
  - `state`: what is remembered, debouncing, the limit on child processes.
  - `command`, `borders`: what to run, and what to make of the outcome.
  - `events`: routing of events, nudges, the stream, the file watch.
  - `icons`: the icon map and its TOML file.
  - `windows`: reading, ordering and grouping windows.
  - `bar`: the arguments for SketchyBar.
  - `bar_laws`, `item_laws`: what holds of those arguments, and which items they add and remove.
- `tests/` runs the library.
- `app/` holds the two programs. `main.rs` is the helper: processes, files, sockets, threads, JSON
  and the macOS notifications. `aero_notify.rs` is `aero-notify`, which sends the helper a nudge.
- `extras/git_hash.sh` sets the variable from which a build takes its revision.

What is believed without proof: that `toml::from_str` and `String::from_utf8_lossy` give results
that depend on their arguments alone (the latter what valid UTF-8 encodes), and that `Arc::clone`
gives the same value.
