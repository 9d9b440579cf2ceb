# audio_editor

The logic of a multi-track audio editor, verified with Verus: clips and tracks, cutting, copying,
pasting, splitting and deleting, dragging with snapping and without overlaps, undo and redo,
mixing and playing, the click track, saving and loading projects, the pointer, the keyboard, and
what the window shows.

## Layout

- `src/` is the library. Times are counted in flicks (705,600,000 to the second), sample values
  are the ranks of floating-point numbers, and pixels are counted in 256ths. Floating-point
  arithmetic is handed to the library as functions.
- `app/` is the program around it: the window, drawing, the output device, audio and project
  files, dialogs and threads.
- `tests/` runs the library on concrete projects.

## Where to start

`app.rs` holds the state of the editor. `edits.rs`, `drag.rs`, `pointer.rs`, `keys.rs` and
`commands.rs` change it; `undo.rs` and `history.rs` take changes back. `replay.rs` proves that undo
and redo take each other back, and `takeback.rs` that undo gives back what was there before each
edit. Other laws stand beside the functions that they are about.
