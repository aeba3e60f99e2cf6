use std::sync::Arc;

use herdr_hunks::engine::nav::{Side, ViewMode};
use herdr_hunks::engine::{Command, Comparison, DiffState, FileKey, LoadedDiff, RepoState, Snapshot};
use herdr_hunks::git::{
    ChangedFile, ChangedFileStatus, DiffHunk, DiffLine, DiffLineType, FileDiff, GetGitDiffResponse,
};
use herdr_hunks::tui::input::{handle_key, handle_mouse, MouseButton, MouseEvent, MouseEventKind, Outcome};
use herdr_hunks::tui::keys::{keys, reserved, KeyCode, KeyEvent, KeyModifiers};
use herdr_hunks::tui::state::{FilesPanel, ViewState};
use herdr_hunks::tui::view::{body_height, render, Action};

fn snapshot(path: &str, raw: &str, hunks: &[(u32, &str)]) -> Snapshot {
    let hunks = hunks
        .iter()
        .map(|(start, kinds)| DiffHunk {
            id: String::new(),
            header: format!("@@ -{start} +{start} @@"),
            old_start: *start,
            old_lines: kinds.chars().filter(|c| *c != '+').count() as u32,
            new_start: *start,
            new_lines: kinds.chars().filter(|c| *c != '-').count() as u32,
            lines: kinds
                .chars()
                .map(|k| DiffLine {
                    line_type: match k {
                        '+' => DiffLineType::Added,
                        '-' => DiffLineType::Removed,
                        _ => DiffLineType::Context,
                    },
                    content: format!("line {k}"),
                    old_line_number: None,
                    new_line_number: None,
                })
                .collect(),
        })
        .collect();
    let key = FileKey {
        path: path.into(),
        staged: false,
        untracked: false,
    };
    let loaded = LoadedDiff::build(
        key.clone(),
        Comparison::Worktree,
        None,
        GetGitDiffResponse {
            file_diff: FileDiff {
                file_path: path.into(),
                old_path: None,
                new_path: None,
                hunks,
            },
            old_text: String::new(),
            new_text: String::new(),
            raw_diff: raw.into(),
            repo_root: "/r".into(),
        },
    );
    let mut s = Snapshot::empty("/r");
    s.revision = 1;
    s.repo = RepoState::Repo {
        toplevel: "/r".into(),
        branch: Some("main".into()),
        worktree: None,
    };
    s.selected = Some(key);
    s.diff = DiffState::Ready(Arc::new(loaded));
    s
}


fn key(text: &str) -> KeyEvent {
    match text.strip_prefix("ctrl+") {
        Some(c) => KeyEvent::new(KeyCode::Char(c.chars().next().unwrap()), KeyModifiers::control()),
        None => KeyEvent::new(KeyCode::Char(text.chars().next().unwrap()), KeyModifiers::none()),
    }
}

fn setup(hunks: &[(u32, &str)]) -> (Snapshot, ViewState) {
    let snap = snapshot("a.rs", "r1", hunks);
    let mut st = ViewState::new(ViewMode::Split, FilesPanel::Hidden, true);
    st.resize(120, body_height(&st, &snap, 24));
    st.reconcile(&snap);
    (snap, st)
}

#[test]
fn ctrl_c_quits_with_or_without_help_and_plain_c_stays_inert() {
    for help_open in [false, true] {
        let (snap, mut st) = setup(&[(1, "+")]);
        st.help_open = help_open;
        assert_eq!(handle_key(&mut st, &snap, key("c"), 120), Outcome::Inert);
        assert_eq!(handle_key(&mut st, &snap, key("ctrl+c"), 120), Outcome::Quit);
        let snap = Snapshot::empty("/r");
        st.reconcile(&snap);
        assert_eq!(handle_key(&mut st, &snap, key("ctrl+c"), 120), Outcome::Quit);
    }
}

#[test]
fn down_and_up_scroll_help_like_j_and_k() {
    let (snap, mut st) = setup(&[(1, "+")]);
    st.resize(120, body_height(&st, &snap, 12));
    handle_key(&mut st, &snap, key("?"), 120);
    for (code, expected_offset) in [(KeyCode::Down, 1), (KeyCode::Up, 0)] {
        assert_eq!(handle_key(&mut st, &snap, KeyEvent::new(code, KeyModifiers::none()), 120), Outcome::Redraw);
        assert_eq!(st.help_offset, expected_offset);
    }
    assert_eq!(
        handle_key(&mut st, &snap, KeyEvent::new(KeyCode::Down, KeyModifiers::shift()), 120),
        Outcome::Inert
    );
    assert_eq!(st.help_offset, 0);
}

#[test]
fn every_key_on_the_sheet_does_something_and_reserved_keys_do_nothing() {
    let long = "+".repeat(80);
    let prefixes: [&[&str]; 4] = [&[], &["l"], &["]", "L"], &["ctrl+d"]];
    for binding in keys() {
        let live = prefixes.iter().any(|prefix| {
            let (snap, mut st) = setup(&[(10, " --+ "), (40, long.as_str())]);
            for p in prefix.iter() {
                handle_key(&mut st, &snap, key(p), 120);
            }
            !matches!(handle_key(&mut st, &snap, key(binding.key), 120), Outcome::Inert)
        });
        assert!(live, "`{}` is on the key sheet but does nothing", binding.key);
    }
    for reserved in reserved() {
        let (snap, mut st) = setup(&[(10, " --+ ")]);
        assert!(
            matches!(handle_key(&mut st, &snap, key(reserved), 120), Outcome::Inert),
            "`{reserved}` must stay unbound"
        );
        assert!(keys().iter().all(|b| b.key != reserved));
    }
}

#[test]
fn hunk_keys_land_on_the_first_changed_row() {
    let (snap, mut st) = setup(&[(10, "  + "), (40, " - ")]);
    assert!(matches!(handle_key(&mut st, &snap, key("]"), 120), Outcome::Redraw));
    assert_eq!(st.cursor_id, Some((Side::Deletions, 41)));
    assert!(matches!(handle_key(&mut st, &snap, key("["), 120), Outcome::Redraw));
    assert_eq!(st.cursor_id, Some((Side::Additions, 12)));
}

#[test]
fn file_keys_and_refresh_become_engine_commands() {
    let (snap, mut st) = setup(&[(10, " + ")]);
    assert!(matches!(handle_key(&mut st, &snap, key("n"), 120), Outcome::Engine(Command::SelectNext)));
    assert!(matches!(handle_key(&mut st, &snap, key("p"), 120), Outcome::Engine(Command::SelectPrev)));
    assert!(matches!(handle_key(&mut st, &snap, key("r"), 120), Outcome::Engine(Command::Refresh)));
    assert!(matches!(handle_key(&mut st, &snap, key("q"), 120), Outcome::Quit));
}

#[test]
fn split_is_refused_below_100_columns() {
    let (snap, mut st) = setup(&[(10, " + ")]);
    st.mode = ViewMode::Unified;
    st.reconcile(&snap);
    handle_key(&mut st, &snap, key("t"), 90);
    assert_eq!(st.mode, ViewMode::Unified);
    assert!(st.notice.as_deref().unwrap_or("").contains("100 columns"));
}

#[test]
fn last_row_is_reachable_in_a_diff_longer_than_u16() {
    let kinds = "+".repeat(70_000);
    let (snap, mut st) = setup(&[(1, kinds.as_str())]);
    handle_key(&mut st, &snap, key("G"), 120);
    assert_eq!(st.cursor, Some(69_999));
    let rows = st.rows.as_ref().unwrap().rows.len();
    assert!(st.offset + usize::from(st.body_height) >= rows, "the last row is on screen");
}

#[test]
fn every_binding_is_reachable_on_the_key_sheet_in_a_short_terminal() {
    let (snap, mut st) = setup(&[(10, " + ")]);
    st.resize(120, body_height(&st, &snap, 12));
    handle_key(&mut st, &snap, key("?"), 120);
    let mut seen = String::new();
    for _ in 0..40 {
        seen.push_str(&render(&snap, &st, 120, 12).plain().join("\n"));
        if matches!(handle_key(&mut st, &snap, key("j"), 120), Outcome::Inert) {
            break;
        }
    }
    for binding in keys() {
        assert!(seen.contains(binding.label), "`{}` never appears on the sheet at 12 rows", binding.label);
    }
    assert!(matches!(handle_key(&mut st, &snap, key("q"), 120), Outcome::Redraw), "q closes the sheet");
    assert!(!st.help_open);
}

#[test]
fn a_diff_without_targets_makes_movement_inert() {
    let (snap, mut st) = setup(&[]);
    for k in ["j", "k", "[", "]", "h", "l", "g", "G", "ctrl+d", "ctrl+u", "H", "L"] {
        assert!(matches!(handle_key(&mut st, &snap, key(k), 120), Outcome::Inert), "`{k}`");
    }
}

#[test]
fn a_toolbar_click_acts_like_its_key_and_the_wheel_scrolls_three_rows() {
    let kinds = "+".repeat(200);
    let (mut snap, mut st) = setup(&[(1, kinds.as_str())]);
    // The file steppers are live only with a second file to step to.
    snap.files = ["a.rs", "b.rs"]
        .into_iter()
        .map(|path| ChangedFile {
            path: path.into(),
            status: ChangedFileStatus::Modified,
            staged: false,
            insertions: Some(200),
            deletions: Some(0),
        })
        .collect();
    let r = render(&snap, &st, 120, 24);
    let hit = *r.hits.iter().find(|h| matches!(h.action, Action::NextFile)).unwrap();
    let click = MouseEvent {
        kind: MouseEventKind::Down(MouseButton::Left),
        column: hit.x0,
        row: hit.y,
        modifiers: KeyModifiers::none(),
    };
    assert!(matches!(handle_mouse(&mut st, &snap, &r, click), Outcome::Engine(Command::SelectNext)));
    let wheel = MouseEvent {
        kind: MouseEventKind::ScrollDown,
        column: 50,
        row: 10,
        modifiers: KeyModifiers::none(),
    };
    assert!(matches!(handle_mouse(&mut st, &snap, &r, wheel), Outcome::Redraw));
    assert_eq!(st.offset, 3);
    st.resize(120, body_height(&st, &snap, 24));
    st.reconcile(&snap);
    assert_eq!(st.offset, 3, "wheel scrolling was undone by the next frame");
    let shifted = MouseEvent {
        kind: MouseEventKind::Down(MouseButton::Left),
        column: hit.x0,
        row: hit.y,
        modifiers: KeyModifiers::shift(),
    };
    assert!(matches!(handle_mouse(&mut st, &snap, &r, shifted), Outcome::Inert));
}

#[test]
fn movement_uses_display_order_and_half_pages_snap_to_the_centre() {
    let (snap, mut st) = setup(&[(10, " --+ ")]);
    st.mode = ViewMode::Unified;
    st.reconcile(&snap);
    assert_eq!(st.cursor, Some(1));
    assert_eq!(handle_key(&mut st, &snap, key("j"), 120), Outcome::Redraw);
    assert_eq!(st.cursor, Some(3));
    handle_key(&mut st, &snap, key("j"), 120);
    assert_eq!(st.cursor, Some(2));
    assert_eq!(handle_key(&mut st, &snap, key("h"), 120), Outcome::Inert);
    handle_key(&mut st, &snap, key("g"), 120);
    assert_eq!(st.cursor, Some(0));
    for k in ["k", "[", "H"] {
        assert_eq!(handle_key(&mut st, &snap, key(k), 120), Outcome::Inert);
    }
    handle_key(&mut st, &snap, key("L"), 120);
    assert_eq!(st.hscroll, 8);
    handle_key(&mut st, &snap, key("H"), 120);
    assert_eq!(st.hscroll, 0);

    let (snap, mut st) = setup(&[(1, &"+".repeat(200))]);
    for (k, expected_offset) in [("ctrl+d", 11), ("ctrl+d", 22), ("ctrl+u", 11), ("ctrl+u", 0)] {
        assert_eq!(handle_key(&mut st, &snap, key(k), 120), Outcome::Redraw);
        assert_eq!(st.offset, expected_offset);
        assert_eq!(st.rows.as_ref().unwrap().row_of_target[st.cursor.unwrap()], st.offset + 11);
    }
    assert_eq!(handle_key(&mut st, &snap, key("ctrl+u"), 120), Outcome::Inert);
    handle_key(&mut st, &snap, key("G"), 120);
    assert_eq!(st.cursor, Some(199));
    for k in ["j", "]", "ctrl+d"] {
        assert_eq!(handle_key(&mut st, &snap, key(k), 120), Outcome::Inert);
    }
}

#[test]
fn movement_needs_a_ready_diff_and_a_cursor() {
    for diff in [DiffState::Idle, DiffState::Loading, DiffState::Failed("failed".into())] {
        let (mut snap, mut st) = setup(&[(1, "+")]);
        snap.diff = diff;
        st.reconcile(&snap);
        for k in ["j", "k", "[", "]", "h", "l", "g", "G", "ctrl+d", "ctrl+u", "H", "L"] {
            assert_eq!(handle_key(&mut st, &snap, key(k), 120), Outcome::Inert);
        }
    }
    let (snap, mut st) = setup(&[(1, "+")]);
    st.cursor = None;
    assert_eq!(handle_key(&mut st, &snap, key("L"), 120), Outcome::Inert);
    assert_eq!(handle_key(&mut st, &snap, key("g"), 120), Outcome::Inert);
}

#[test]
fn help_is_modal_and_scrolls_with_keys_and_wheel_to_both_ends() {
    let (snap, mut st) = setup(&[(1, &"+".repeat(80))]);
    st.resize(120, body_height(&st, &snap, 12));
    let background = render(&snap, &st, 40, 12);
    let wheel = MouseEvent {
        kind: MouseEventKind::ScrollDown,
        column: 20,
        row: 5,
        modifiers: KeyModifiers::none(),
    };
    handle_key(&mut st, &snap, key("?"), 40);
    assert_eq!(handle_key(&mut st, &snap, key("k"), 40), Outcome::Inert);
    for binding in keys().iter().filter(|b| !["j", "k", "?", "q"].contains(&b.key)) {
        assert_eq!(handle_key(&mut st, &snap, key(binding.key), 40), Outcome::Inert);
    }
    let click = MouseEvent {
        kind: MouseEventKind::Down(MouseButton::Left),
        column: 1,
        row: 0,
        ..wheel
    };
    assert_eq!(handle_mouse(&mut st, &snap, &background, click), Outcome::Inert);
    assert_eq!(handle_mouse(&mut st, &snap, &background, wheel), Outcome::Redraw);
    assert_eq!((st.help_offset, st.offset, st.cursor), (3, 0, Some(0)));
    while handle_mouse(&mut st, &snap, &background, wheel) != Outcome::Inert {}
    assert_eq!(st.help_offset, keys().len() - 6);
    let sheet = render(&snap, &st, 40, 12);
    assert!(sheet.plain().iter().any(|line| line.contains("quit")));
    assert!(sheet.hits.is_empty());
    let up = MouseEvent {
        kind: MouseEventKind::ScrollUp,
        ..wheel
    };
    assert_eq!(handle_mouse(&mut st, &snap, &background, up), Outcome::Redraw);
    assert_eq!(st.help_offset, keys().len() - 9);
    while handle_key(&mut st, &snap, key("k"), 40) != Outcome::Inert {}
    assert_eq!(st.help_offset, 0);
    for close in [key("?"), key("q"), KeyEvent::new(KeyCode::Esc, KeyModifiers::none())] {
        assert_eq!(handle_key(&mut st, &snap, close, 40), Outcome::Redraw);
        assert!(!st.help_open);
        assert_eq!(st.help_offset, 0);
        handle_key(&mut st, &snap, key("?"), 40);
    }
}

#[test]
fn panels_mouse_and_notices_change_only_for_handled_keys() {
    let (snap, mut st) = setup(&[(1, "+")]);
    for (k, expected) in [
        ("e", FilesPanel::Shown),
        ("E", FilesPanel::Pinned),
        ("E", FilesPanel::Shown),
        ("e", FilesPanel::Hidden),
        ("E", FilesPanel::Pinned),
        ("e", FilesPanel::Hidden),
    ] {
        assert_eq!(handle_key(&mut st, &snap, key(k), 120), Outcome::Redraw);
        assert_eq!(st.files_panel, expected);
    }
    handle_key(&mut st, &snap, key("m"), 120);
    assert!(!st.mouse_requested);
    handle_key(&mut st, &snap, key("m"), 120);
    assert!(st.mouse_requested);
    handle_key(&mut st, &snap, key("t"), 120);
    assert_eq!(st.mode, ViewMode::Unified);
    st.reconcile(&snap);
    handle_key(&mut st, &snap, key("t"), 99);
    assert!(st.notice.is_some());
    assert_eq!(handle_key(&mut st, &snap, key("s"), 99), Outcome::Inert);
    assert!(st.notice.is_some());
    assert_eq!(handle_key(&mut st, &snap, key("k"), 99), Outcome::Redraw);
    assert!(st.notice.is_none());
    handle_key(&mut st, &snap, key("t"), 100);
    assert_eq!(st.mode, ViewMode::Split);
}

#[test]
fn mouse_routes_toolbar_files_and_diff_rows_and_ignores_other_events() {
    let (mut snap, mut st) = setup(&[(1, " --+ "), (20, "+")]);
    snap.files = [false, true]
        .into_iter()
        .map(|staged| ChangedFile {
            path: "a.rs".into(),
            status: ChangedFileStatus::Modified,
            staged,
            insertions: Some(2),
            deletions: Some(2),
        })
        .collect();
    st.files_panel = FilesPanel::Shown;
    let rendered = render(&snap, &st, 120, 24);
    for (action, k) in [
        (Action::PrevFile, "p"),
        (Action::NextFile, "n"),
        (Action::PrevHunk, "["),
        (Action::NextHunk, "]"),
        (Action::ToggleView, "t"),
        (Action::ToggleFiles, "e"),
        (Action::Refresh, "r"),
    ] {
        let hit = rendered.hits.iter().find(|hit| hit.action == action).unwrap();
        let click = MouseEvent {
            kind: MouseEventKind::Down(MouseButton::Left),
            column: hit.x0,
            row: hit.y,
            modifiers: KeyModifiers::none(),
        };
        let (_, mut keyboard) = setup(&[(1, " --+ "), (20, "+")]);
        let (_, mut mouse) = setup(&[(1, " --+ "), (20, "+")]);
        assert_eq!(handle_mouse(&mut mouse, &snap, &rendered, click), handle_key(&mut keyboard, &snap, key(k), 120));
        assert_eq!(
            (mouse.cursor, mouse.mode, mouse.files_panel),
            (keyboard.cursor, keyboard.mode, keyboard.files_panel)
        );
    }
    let hit = rendered.hits.iter().find(|hit| hit.action == Action::SelectFile(1)).unwrap();
    let click = MouseEvent {
        kind: MouseEventKind::Down(MouseButton::Left),
        column: hit.x0,
        row: hit.y,
        modifiers: KeyModifiers::none(),
    };
    assert_eq!(
        handle_mouse(&mut st, &snap, &rendered, click),
        Outcome::Engine(Command::Select(FileKey {
            path: "a.rs".into(),
            staged: true,
            untracked: false,
        }))
    );
    for kind in [
        MouseEventKind::Down(MouseButton::Right),
        MouseEventKind::Down(MouseButton::Middle),
        MouseEventKind::Up(MouseButton::Left),
        MouseEventKind::Drag(MouseButton::Left),
        MouseEventKind::Moved,
        MouseEventKind::ScrollLeft,
        MouseEventKind::ScrollRight,
    ] {
        assert_eq!(handle_mouse(&mut st, &snap, &rendered, MouseEvent { kind, ..click }), Outcome::Inert);
    }
    for kind in [MouseEventKind::Down(MouseButton::Left), MouseEventKind::ScrollDown] {
        assert_eq!(
            handle_mouse(
                &mut st,
                &snap,
                &rendered,
                MouseEvent {
                    kind,
                    modifiers: KeyModifiers::control(),
                    ..click
                }
            ),
            Outcome::Inert
        );
    }
    let row = st.rows.as_ref().unwrap().row_of_target[0];
    let hit = rendered.hits.iter().find(|hit| hit.action == Action::CursorToRow(row)).unwrap();
    let click = MouseEvent {
        column: hit.x0,
        row: hit.y,
        ..click
    };
    assert_eq!(handle_mouse(&mut st, &snap, &rendered, click), Outcome::Redraw);
    assert_eq!(st.cursor, Some(0));
    assert_eq!(handle_mouse(&mut st, &snap, &rendered, click), Outcome::Inert);
    let header = rendered.hits.iter().find(|hit| hit.action == Action::CursorToRow(0)).unwrap();
    assert_eq!(
        handle_mouse(
            &mut st,
            &snap,
            &rendered,
            MouseEvent {
                column: header.x0,
                row: header.y,
                ..click
            }
        ),
        Outcome::Inert
    );

    let (snap, mut st) = setup(&[(1, &"+".repeat(80))]);
    let wheel = MouseEvent {
        kind: MouseEventKind::ScrollDown,
        ..click
    };
    for _ in 0..40 {
        handle_mouse(&mut st, &snap, &rendered, wheel);
    }
    assert_eq!(st.offset, st.rows.as_ref().unwrap().rows.len() - usize::from(st.body_height));
    assert_eq!(handle_mouse(&mut st, &snap, &rendered, wheel), Outcome::Inert);
    let wheel = MouseEvent {
        kind: MouseEventKind::ScrollUp,
        ..wheel
    };
    for _ in 0..40 {
        handle_mouse(&mut st, &snap, &rendered, wheel);
    }
    assert_eq!(st.offset, 0);
    assert_eq!(handle_mouse(&mut st, &snap, &rendered, wheel), Outcome::Inert);
}

#[test]
fn escape_closes_the_key_sheet_first_then_a_popup_viewer() {
    let (snap, mut st) = setup(&[(1, "+")]);
    let esc = KeyEvent::new(KeyCode::Esc, KeyModifiers::none());
    assert_eq!(handle_key(&mut st, &snap, esc, 120), Outcome::Inert, "not a popup: nothing to close");
    st.popup = true;
    handle_key(&mut st, &snap, key("?"), 120);
    assert!(st.help_open);
    assert_eq!(handle_key(&mut st, &snap, esc, 120), Outcome::Redraw);
    assert!(!st.help_open);
    assert_eq!(handle_key(&mut st, &snap, KeyEvent::new(KeyCode::Esc, KeyModifiers::shift()), 120), Outcome::Inert);
    assert_eq!(handle_key(&mut st, &snap, esc, 120), Outcome::Quit);
}
