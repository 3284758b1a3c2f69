# rusttracker

The decision-making core of the RustTracker media player, written in Verus:
every function in `src/` carries a contract over a mathematical model and is
proved to meet it.

## Layout

- `src/text.rs` — character-level string helpers (trimming, splitting, lines,
  number parsing, lexicographic sorting) with their specifications.
- `src/playlist.rs` — supported media extensions, Unix path names and
  extensions, `.pls`/`.m3u` playlist reading, directory scans and the
  expansion of user-given paths.
- `src/lyrics.rs` — `file://` path decoding, song-name matching for sidecar
  `.lrc` files, inline tag stripping and the structure of LRC text.
- `src/ipc.rs` — the single-instance protocol: the request sent to a running
  player, the reading of a request line by line, and the reply.
- `src/state.rs` — the visualizer registry, visualizer switching and the
  picker, gamepad detection, the video view and the play queue.
- `src/controls.rs` — what each key, gamepad button and touch gesture does to
  the player's state, and what it asks of the program around it.
- `src/touch_state.rs` — the finger bookkeeping of touch gestures (fingers
  down, two-finger gestures, timeline scrubbing).
- `src/visual.rs`, `src/mesh.rs`, `src/tracker_view.rs`, `src/tui_layout.rs`
  — integer bookkeeping of the renderer: channel order, heatmap rows, OBJ mesh
  structure, the tracker pattern panel and the terminal layout.
- `app/` — the program around the library: argument handling, file system and
  socket access, and what is measured in floating point: lyric time stamps in
  seconds and the geometry and timing of touch gestures.
- `tests/` — tests of the library on concrete values.
