use std::sync::Arc;

use herdr_hunks::engine::nav::{Side, ViewMode};
use herdr_hunks::engine::{Comparison, DiffState, FileKey, LoadedDiff, RepoState, Snapshot};
use herdr_hunks::git::{DiffHunk, DiffLine, DiffLineType, FileDiff, GetGitDiffResponse};
use herdr_hunks::tui::state::{FilesPanel, ViewState};

fn snapshot(path: &str, raw: &str, hunks: &[(u32, &str)]) -> Snapshot {
    let hunks = hunks
        .iter()
        .map(|(start, kinds)| DiffHunk {
            id: String::new(),
            header: format!("@@ -{start} +{start} @@"),
            old_start: *start,
            old_lines: kinds.chars().filter(|c| *c != '+').count() as u32,
            new_start: *start,
            new_lines: kinds.chars().filter(|c| *c != '-').count() as u32,
            lines: kinds
                .chars()
                .map(|k| DiffLine {
                    line_type: match k {
                        '+' => DiffLineType::Added,
                        '-' => DiffLineType::Removed,
                        _ => DiffLineType::Context,
                    },
                    content: format!("line {k}"),
                    old_line_number: None,
                    new_line_number: None,
                })
                .collect(),
        })
        .collect();
    let key = FileKey {
        path: path.into(),
        staged: false,
        untracked: false,
    };
    let loaded = LoadedDiff::build(
        key.clone(),
        Comparison::Worktree,
        None,
        GetGitDiffResponse {
            file_diff: FileDiff {
                file_path: path.into(),
                old_path: None,
                new_path: None,
                hunks,
            },
            old_text: String::new(),
            new_text: String::new(),
            raw_diff: raw.into(),
            repo_root: "/r".into(),
        },
    );
    let mut s = Snapshot::empty("/r");
    s.revision = 1;
    s.repo = RepoState::Repo {
        toplevel: "/r".into(),
        branch: Some("main".into()),
        worktree: None,
    };
    s.selected = Some(key);
    s.diff = DiffState::Ready(Arc::new(loaded));
    s
}

fn state() -> ViewState {
    let mut s = ViewState::new(ViewMode::Unified, FilesPanel::Hidden, true);
    s.resize(120, 10);
    s
}

fn text_snapshot(raw: &str, text: &str) -> Snapshot {
    let mut snap = snapshot("a.rs", raw, &[(1, "+")]);
    let DiffState::Ready(diff) = &mut snap.diff else {
        unreachable!()
    };
    Arc::make_mut(diff).file_diff.hunks[0].lines[0].content = text.into();
    snap
}

#[test]
fn width_and_row_changes_clamp_horizontal_scroll() {
    let mut st = state();
    st.reconcile(&text_snapshot("r1", &"猫".repeat(70)));
    assert_eq!(st.rows.as_ref().unwrap().max_text_width, 140);
    st.hscroll = 34;
    st.resize(140, 10);
    assert_eq!(st.hscroll, 14);
    st.reconcile(&text_snapshot("r2", &"猫".repeat(60)));
    assert_eq!(st.hscroll, 0);
}

#[test]
fn a_narrow_resize_preserves_the_requested_split_and_cursor_line() {
    let mut st = ViewState::new(ViewMode::Split, FilesPanel::Hidden, true);
    let snap = snapshot("a.rs", "r1", &[(10, " --+ ")]);
    st.resize(120, 10);
    st.reconcile(&snap);
    let DiffState::Ready(diff) = &snap.diff else {
        unreachable!()
    };
    st.set_cursor(diff, 3);
    let cursor_id = st.cursor_id;
    for (width, mode) in [(90, ViewMode::Unified), (120, ViewMode::Split)] {
        st.resize(width, 10);
        st.reconcile(&snap);
        assert_eq!(st.requested_mode, ViewMode::Split);
        assert_eq!(st.mode, mode);
        assert_eq!(st.built_from.as_ref().unwrap().1, mode);
        assert_eq!(st.cursor_id, cursor_id);
    }
}

#[test]
fn a_new_file_puts_the_cursor_on_the_first_changed_row_and_resets_offsets() {
    let mut st = state();
    st.offset = 7;
    st.hscroll = 16;
    st.reconcile(&snapshot("a.rs", "r1", &[(10, "  +  ")]));
    assert_eq!(st.cursor, Some(2));
    assert_eq!((st.offset, st.hscroll), (0, 0));
}

#[test]
fn a_refresh_keeps_the_cursor_on_its_line_or_moves_to_the_nearest() {
    let mut st = state();
    st.reconcile(&snapshot("a.rs", "r1", &[(10, " + + ")]));
    let snap = snapshot("a.rs", "r1", &[(10, " + + ")]);
    if let DiffState::Ready(d) = &snap.diff {
        st.set_cursor(d, 3);
    } // additions line 13
    st.reconcile(&snapshot("a.rs", "r2", &[(10, "  + + ")])); // line 13 still exists
    assert_eq!(st.cursor_id, Some((Side::Additions, 13)));
    st.reconcile(&snapshot("a.rs", "r3", &[(10, " +")])); // line 13 is gone
    assert_eq!(st.cursor_id, Some((Side::Additions, 11)));
}

#[test]
fn toggling_the_mode_keeps_the_line() {
    let mut st = state();
    let snap = snapshot("a.rs", "r1", &[(10, " --+ ")]);
    st.reconcile(&snap);
    if let DiffState::Ready(d) = &snap.diff {
        st.set_cursor(d, 3);
    } // deletions line 12
    st.requested_mode = ViewMode::Split;
    st.resize(120, st.body_height);
    st.reconcile(&snap);
    assert_eq!(st.cursor_id, Some((Side::Deletions, 12)));
    assert!(st.rows.is_some());
}

#[test]
fn a_diff_without_targets_clears_the_cursor() {
    let mut st = state();
    st.reconcile(&snapshot("bin.dat", "r1", &[]));
    assert_eq!(st.cursor, None);
    assert_eq!((st.offset, st.hscroll), (0, 0));
}

#[test]
fn unchanged_diff_reuses_the_arc_and_built_rows() {
    let snap = snapshot("a.rs", "r1", &[(1, " + ")]);
    let mut st = state();
    st.reconcile(&snap);
    let rows = st.rows.as_ref().unwrap().rows.as_ptr();
    st.reconcile(&snap);
    assert_eq!(st.rows.as_ref().unwrap().rows.as_ptr(), rows);
    let DiffState::Ready(diff) = &snap.diff else {
        panic!()
    };
    assert!(Arc::ptr_eq(&st.built_from.as_ref().unwrap().0, diff));
}

#[test]
fn refresh_reanchors_the_cursor_and_resize_keeps_it_visible() {
    let mut st = state();
    let kinds = "+".repeat(30);
    let path = "a".repeat(200);
    let snap = snapshot(&path, "r1", &[(10, &kinds)]);
    st.reconcile(&snap);
    let DiffState::Ready(diff) = &snap.diff else {
        panic!()
    };
    st.set_cursor(diff, 10);
    st.offset = 6;
    st.hscroll = 16;
    st.reconcile(&snapshot(&path, "r2", &[(1, "++"), (10, &kinds)]));
    let row = st.rows.as_ref().unwrap().row_of_target[st.cursor.unwrap()];
    assert_eq!(row - st.offset, 7);
    assert_eq!(st.hscroll, 16);
    st.resize(120, 5);
    assert_eq!(row - st.offset, 4);
}

#[test]
fn refresh_clamps_the_previous_index_when_its_side_disappears() {
    let mut st = state();
    let snap = snapshot("a.rs", "r1", &[(1, "-----")]);
    st.reconcile(&snap);
    let DiffState::Ready(diff) = &snap.diff else {
        panic!()
    };
    st.set_cursor(diff, 3);
    st.reconcile(&snapshot("a.rs", "r2", &[(1, "++")]));
    assert_eq!(st.cursor, Some(1));
    assert_eq!(st.cursor_id, Some((Side::Additions, 2)));
}

#[test]
fn a_new_base_error_becomes_a_notice_once() {
    let mut snap = snapshot("a.rs", "r1", &[(1, "+")]);
    let mut st = ViewState::new(ViewMode::Unified, FilesPanel::Hidden, true);
    st.observe(&snap);
    assert!(st.notice.is_none());
    snap.base_error = Some("remembered pick: not a commit: gone\u{1b}".into());
    st.observe(&snap);
    assert_eq!(
        st.notice.as_deref(),
        Some("remembered pick: not a commit: gone\u{241b}")
    );
    st.notice = None;
    st.observe(&snap);
    assert!(st.notice.is_none(), "the same error is not repeated");
    snap.base_error = None;
    st.observe(&snap);
    assert!(st.notice.is_none());
}

#[test]
fn a_scope_switch_keeps_the_line_and_a_new_path_starts_at_the_first_change() {
        let mut snap = snapshot("a.rs", "r1", &[(10, " --+ "), (40, "+")]);
    let mut st = ViewState::new(ViewMode::Unified, FilesPanel::Hidden, true);
    st.resize(120, 20);
    st.reconcile(&snap);
    let first_change = st.cursor.expect("first changed row");
    let DiffState::Ready(diff) = &snap.diff else {
        unreachable!()
    };
    st.set_cursor(diff, 3);
    let id = st.cursor_id.expect("cursor identity");
    snap.diff = DiffState::Loading;
    st.reconcile(&snap);
    assert!(st.cursor.is_none() && st.rows.is_none());
    let mut branch = snapshot("a.rs", "r2", &[(10, " --+ "), (40, "+")]);
    if let DiffState::Ready(d) = &mut branch.diff {
        std::sync::Arc::make_mut(d).comparison = Comparison::Branch {
            merge_base: "1".repeat(40),
        };
    }
    snap.diff = branch.diff;
    st.reconcile(&snap);
    assert_eq!(
        st.cursor_id,
        Some(id),
        "the same path under the new comparison keeps its line"
    );
    assert_eq!(st.cursor, Some(3));
    snap.diff = DiffState::Loading;
    st.reconcile(&snap);
    snap.diff = snapshot("b.rs", "r3", &[(10, " --+ "), (40, "+")]).diff;
    st.reconcile(&snap);
    assert_eq!(
        st.cursor,
        Some(first_change),
        "a new path starts at its first change"
    );
    assert_ne!(st.cursor, Some(3));
}

#[test]
fn a_requested_split_returns_when_widened() {
    let mut st = herdr_hunks::tui::state::ViewState::new(
        herdr_hunks::engine::nav::ViewMode::Split,
        herdr_hunks::tui::state::FilesPanel::Hidden,
        true,
    );
    st.resize(80, 20);
    assert_eq!(st.mode, herdr_hunks::engine::nav::ViewMode::Unified);
    st.resize(140, 20);
    assert_eq!(st.mode, herdr_hunks::engine::nav::ViewMode::Split);
}
