# zmd_prtsc

Top-down screenshot tool for Arknights: Endfield: it walks the game camera
over a grid in serpentine order, captures the centre of the game window at
each cell, stitches the captures into one large image and keeps a history of
the runs.

## Layout

- `src/` — the verified library (Verus). Its functions are proved against
  their contracts; the few calls into std and the image crate go through
  small trusted wrappers whose contracts say what those calls return:
  - `models/` — zoom levels, sessions, default settings, window state;
  - `services/stitcher.rs` — grid stitching, cropping, PNG/JPEG encoding and
    thumbnails;
  - `services/auto_capture.rs` — the serpentine walk as a step function, with
    its laws (each cell captured once, moves join neighbours, stopping ends
    captures);
  - `services/capture_pipeline.rs` — what happens to a finished capture;
  - `services/capture_store.rs` — the results a run leaves for the commands;
  - `services/input.rs`, `input_win.rs`, `screenshot.rs`, `game_window.rs`,
    `window_state.rs`, `uac.rs`, `shared.rs`, `persistence.rs` — the
    computations around mouse input, screen capture, window handling,
    elevation, file naming and storage;
  - `commands/` — the decisions behind the front-end commands.
- `app/` — the Windows/Tauri program around the library: Win32 calls, SQLite,
  the Tauri commands and event plumbing, and the floating-point derivation of
  region parameters.
- `tests/` — tests of the library on concrete values.
