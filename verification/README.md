# herdr-hunks

A read-only git hunk viewer for the Herdr terminal host: changed files, unified and split
diffs, a clickable toolbar, and live refresh. This crate is written in Verus: the viewer's
logic is a verified library, and a thin program around it does the terminal, file, socket
and process work.

## Layout

- `src/` — the verified library.
  - `engine/` — the repository session as a state machine (`session.rs`: events in,
    effects and snapshots out), navigation targets (`nav.rs`), base resolution
    (`base.rs`), review marks (`marks.rs`), branch rows (`branch.rs`), remembered base
    picks (`picks.rs`) and the git version check (`gitver.rs`).
  - `tui/` — the view: configuration (`config.rs`), rows, layout, rendering (`view.rs`),
    key and mouse handling (`input.rs`, `keys.rs`), dialogs, the picker, sanitizing and
    display-cell measurement (`format.rs`), and the terminal-exit plan (`guard.rs`).
  - `actions/` — opening a viewer (parameters, popup sizes, split reuse) and updating the
    install.
  - `herdr/` — what the host reports about panes and how its responses decode.
  - `git.rs`, `paths.rs`, `filesystem/`, `strs.rs`, `bytes.rs`, `text.rs` — shared values
    and text helpers.
- `tests/` — tests of the library's public functions.
- `app/` — the program: argument handling, the terminal loop (crossterm and ratatui), the
  session loop that performs the engine's effects, the host socket client, and the actions.

Calls into outside crates (unicode-width, toml, serde_json, crossterm, libc, dirs) stand
in `src/` behind small trusted wrappers whose contracts say what the outside source shows.

## Limits of this build

The program has no git backend for reading a worktree's status and a file's diff, or for
watching the repository: the session's requests for them are answered as failed, and the
viewer shows the failure. The engine's logic for what to do with those answers is verified
all the same.
