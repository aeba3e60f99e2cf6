use std::sync::Arc;

use herdr_hunks::engine::nav::ViewMode;
use herdr_hunks::engine::{
    Base, BaseSource, Comparison, DiffState, FileKey, LoadedDiff, RepoState, Scope, Snapshot,
};
use herdr_hunks::git::{
    ChangedFile, ChangedFileStatus, DiffHunk, DiffLine, DiffLineType, FileDiff, GetGitDiffResponse,
};
use herdr_hunks::tui::format::width;
use herdr_hunks::tui::keys;
use herdr_hunks::tui::rows::Row;
use herdr_hunks::tui::state::{FilesPanel, ViewState};
use herdr_hunks::tui::style::{Role, Semantic, Span, Style};
use herdr_hunks::tui::view::{
    body_height, body_is_drawn, body_line, clip_line, render, Action, Rendered, FILES_WIDTH,
    MIN_SPLIT_WIDTH,
};

fn snapshot(path: &str, raw: &str, hunks: &[(u32, &str)]) -> Snapshot {
    let hunks = hunks
        .iter()
        .map(|(start, kinds)| DiffHunk {
            id: String::new(),
            header: format!("@@ -{start} +{start} @@"),
            old_start: *start,
            old_lines: kinds.chars().filter(|c| *c != '+').count() as u32,
            new_start: *start,
            new_lines: kinds.chars().filter(|c| *c != '-').count() as u32,
            lines: kinds
                .chars()
                .map(|k| DiffLine {
                    line_type: match k {
                        '+' => DiffLineType::Added,
                        '-' => DiffLineType::Removed,
                        _ => DiffLineType::Context,
                    },
                    content: format!("line {k}"),
                    old_line_number: None,
                    new_line_number: None,
                })
                .collect(),
        })
        .collect();
    let key = FileKey {
        path: path.into(),
        staged: false,
        untracked: false,
    };
    let loaded = LoadedDiff::build(
        key.clone(),
        Comparison::Worktree,
        None,
        GetGitDiffResponse {
            file_diff: FileDiff {
                file_path: path.into(),
                old_path: None,
                new_path: None,
                hunks,
            },
            old_text: String::new(),
            new_text: String::new(),
            raw_diff: raw.into(),
            repo_root: "/r".into(),
        },
    );
    let mut s = Snapshot::empty("/r");
    s.revision = 1;
    s.repo = RepoState::Repo {
        toplevel: "/r".into(),
        branch: Some("main".into()),
        worktree: None,
    };
    s.selected = Some(key);
    s.diff = DiffState::Ready(Arc::new(loaded));
    s
}


#[test]
fn the_first_frame_is_loading_until_a_snapshot_arrives() {
    let mut snap = Snapshot::empty("/r");
    let state = ViewState::new(ViewMode::Unified, FilesPanel::Hidden, true);
    let text = render(&snap, &state, 80, 12).plain().join("\n");
    assert!(text.contains("loading…"));
    assert!(!text.contains("not a git repository"));
    snap.revision = 1;
    let text = render(&snap, &state, 80, 12).plain().join("\n");
    assert!(text.contains("not a git repository"));
    assert!(!text.contains("loading…"));
}

#[test]
fn gap_and_truncation_labels_use_singular_for_one_line() {
    for (count, noun) in [(0, "lines"), (1, "line"), (2, "lines")] {
        for (row, expected) in [
            (
                Row::Gap { lines: count },
                format!("··· {count} unmodified {noun} ···"),
            ),
            (
                Row::Truncated {
                    lines: count as usize,
                },
                format!("… {count} more {noun} not shown"),
            ),
        ] {
            let line = body_line(&row, 80, 0, ViewMode::Unified, false);
            let text: String = line.iter().map(|span| span.text.as_str()).collect();
            assert_eq!(text.trim_end(), expected);
        }
    }
}

#[test]
fn help_does_not_add_ellipses_outside_the_panel() {
    let mut snap = Snapshot::empty("/r");
    snap.revision = 1;
    let mut state = ViewState::new(ViewMode::Unified, FilesPanel::Hidden, true);
    state.help_open = true;
    for columns in [80, 120] {
        let rendered = render(&snap, &state, columns, 12);
        let left = usize::from((columns - 60) / 2);
        for row in &rendered.plain()[1..11] {
            let outside: String = row
                .chars()
                .take(left)
                .chain(row.chars().skip(left + 60))
                .collect();
            assert!(!outside.contains('…'), "{row}");
        }
    }
}

#[test]
fn overlay_clipping_pads_partial_wide_cells_and_preserves_styles() {
    let line = vec![Span::emphasis("ab猫".into()), Span::label("cd".into())];
    for (start, cells, expected) in [
        (0, 3, "ab "),
        (3, 3, " cd"),
        (2, 3, "猫c"),
        (5, 3, "d  "),
        (0, 0, ""),
    ] {
        let clipped = clip_line(&line, start, cells);
        let text: String = clipped.iter().map(|span| span.text.as_str()).collect();
        assert_eq!(text, expected);
        assert_eq!(width(&text), cells);
    }
    let clipped = clip_line(&line, 3, 3);
    assert_eq!(clipped, vec![Span::emphasis(" ".into()), Span::label("cd".into())]);
    let combining = clip_line(&vec![Span::body("a\u{301}猫\u{301}b".into())], 0, 2);
    assert_eq!(combining, vec![Span::body("a\u{301} ".into())]);
}

fn files(mut s: Snapshot) -> Snapshot {
    s.files = vec![
        ChangedFile {
            path: "src/a.rs".into(),
            status: ChangedFileStatus::Modified,
            staged: true,
            insertions: Some(1),
            deletions: Some(1),
        },
        ChangedFile {
            path: "a.rs".into(),
            status: ChangedFileStatus::Modified,
            staged: false,
            insertions: Some(4),
            deletions: Some(3),
        },
    ];
    s
}

fn rendered(width: u16, height: u16, panel: FilesPanel) -> (Rendered, ViewState) {
    let snap = files(snapshot("a.rs", "r1", &[(10, " --+ "), (30, "+")]));
    let mut st = ViewState::new(ViewMode::Unified, panel, true);
    st.resize(width, body_height(&st, &snap, height));
    st.reconcile(&snap);
    (render(&snap, &st, width, height), st)
}

#[test]
fn the_toolbar_shows_both_steppers_and_every_item_is_clickable() {
    let (r, _) = rendered(120, 20, FilesPanel::Hidden);
    let bar = &r.plain()[0];
    for piece in [
        "‹  a.rs 2/2  ›",
        "{} 1/2  ↑   ↓",
        "worktree",
        "unified",
        "UNSTAGED",
        "+4 −3",
        "files",
        "⟳",
    ] {
        assert!(bar.contains(piece), "toolbar `{bar}` lacks `{piece}`");
    }
    for action in [
        Action::PrevFile,
        Action::NextFile,
        Action::PrevHunk,
        Action::NextHunk,
        Action::ToggleView,
        Action::ToggleFiles,
        Action::Refresh,
    ] {
        assert!(r.hits.iter().any(|h| h.y == 0
            && std::mem::discriminant(&h.action) == std::mem::discriminant(&action)));
    }
}

#[test]
fn a_narrow_toolbar_drops_items_from_the_right_and_keeps_the_steppers() {
    let (r, _) = rendered(50, 20, FilesPanel::Hidden);
    let bar = &r.plain()[0];
    assert!(bar.contains("‹  a.rs 2/2  ›") && bar.contains("{} 1/2"));
    assert!(bar.contains("worktree") && !bar.contains("unified"));
    assert!(!bar.contains("⟳") && !bar.contains("files"));
}

#[test]
fn footer_drops_whole_hints_and_preserves_help_and_quit() {
    let (narrow, _) = rendered(40, 12, FilesPanel::Hidden);
    let text = narrow.plain();
    let footer = text.last().unwrap();
    assert!(!footer.contains('…'), "{footer}");
    assert_eq!(footer, "j/k line  [ ] hunk  ? help  q quit");
    let (wide, _) = rendered(120, 12, FilesPanel::Hidden);
    let text = wide.plain();
    let footer = text.last().unwrap();
    for hint in [
        "j/k line",
        "[ ] hunk",
        "n/p file",
        "t view",
        "e files",
        "r refresh",
        "? help",
        "q quit",
    ] {
        assert!(footer.contains(hint), "{footer} lacks {hint}");
    }
}

#[test]
fn help_is_centred_and_fits_after_resizing_with_a_notice() {
    let mut snap = files(snapshot("猫.rs", "r1", &[(1, "+")]));
    snap.watcher_error = Some("unavailable".into());
    let mut st = ViewState::new(ViewMode::Unified, FilesPanel::Shown, true);
    st.help_open = true;
    st.help_offset = 18;
    for (columns, height) in [(40, 10), (61, 12), (120, 40)] {
        st.resize(columns, body_height(&st, &snap, height));
        st.reconcile(&snap);
        let r = render(&snap, &st, columns, height);
        assert_eq!(r.lines.len(), usize::from(height));
        for line in &r.lines {
            let text: String = line.iter().map(|span| span.text.as_str()).collect();
            assert_eq!(width(&text), usize::from(columns));
        }
        let plain = r.plain();
        let title = &plain[1];
        let (left, _) = title.split_once("┌ Keys ").unwrap();
        assert_eq!(width(left), usize::from(columns.saturating_sub(60) / 2));
        assert!(r.hits.is_empty());
        if height == 40 {
            for binding in keys::keys() {
                assert!(plain.iter().any(|line| line.contains(binding.label)));
            }
        }
    }
}

#[test]
fn the_unified_body_shows_numbers_signs_gap_and_cursor() {
    let (r, st) = rendered(80, 20, FilesPanel::Hidden);
    let text = r.plain();
    assert!(text[1].starts_with("a.rs"));
    assert!(text[2].contains("··· 9 unmodified lines ···"));
    assert!(text[3].contains("@@ -10 +10 @@"));
    assert!(text[5].contains("11") && text[5].contains("- line -"));
    assert!(text[7].contains("11") && text[7].contains("+ line +"));
    assert_eq!(st.cursor, Some(1));
    assert!(
        r.lines[5].iter().all(|span| span.style.reverse),
        "the cursor row is reverse video"
    );
}

#[test]
fn the_pinned_files_panel_lists_rows_and_is_clickable() {
    let (r, _) = rendered(120, 20, FilesPanel::Pinned);
    let text = r.plain();
    assert!(text[1].starts_with("CHANGED 2"));
    assert!(
        text[2].contains("M a.rs src/") && text[2].contains("S"),
        "{}",
        text[2]
    );
    assert!(text[3].starts_with("▸M a.rs ./"), "{}", text[3]);
    assert!(r
        .hits
        .iter()
        .any(|h| matches!(h.action, Action::SelectFile(0)) && h.y == 2));
}

#[test]
fn empty_and_error_states_are_one_centred_line() {
    let mut snap = Snapshot::empty("/x");
    snap.revision = 1;
    let st = ViewState::new(ViewMode::Unified, FilesPanel::Hidden, true);
    assert!(render(&snap, &st, 80, 12)
        .plain()
        .iter()
        .any(|l| l.contains("not a git repository")));
    snap.repo = RepoState::Repo {
        toplevel: "/x".into(),
        branch: None,
        worktree: None,
    };
    assert!(render(&snap, &st, 80, 12)
        .plain()
        .iter()
        .any(|l| l.contains("working tree clean")));
    snap.repo = RepoState::Unusable {
        reason: "git 2.20 is too old".into(),
    };
    assert!(render(&snap, &st, 80, 12)
        .plain()
        .iter()
        .any(|l| l.contains("git 2.20 is too old")));
    snap.watcher_error = Some("inotify limit".into());
    assert!(render(&snap, &st, 80, 12)
        .plain()
        .iter()
        .any(|l| l.contains("live refresh degraded: inotify limit")));
}

#[test]
fn a_conflict_is_named_and_a_status_failure_stays_visible() {
    let mut snap = files(snapshot(
        "a.rs",
        "diff --cc a.rs\nindex 1,2..3\n@@@ -1,1 -1,1 +1,3 @@@\n",
        &[],
    ));
    let st = ViewState::new(ViewMode::Unified, FilesPanel::Hidden, true);
    assert!(render(&snap, &st, 80, 12)
        .plain()
        .iter()
        .any(|l| l.contains("unmerged path")));
    snap.status_error = Some("git command timed out after 30s".into());
    let text = render(&snap, &st, 80, 12).plain();
    assert!(
        text.iter()
            .any(|l| l.contains("status failed: git command timed out after 30s")),
        "{text:?}"
    );
}

#[test]
fn a_tiny_terminal_draws_one_line() {
    let (r, _) = rendered(30, 5, FilesPanel::Hidden);
    assert_eq!(r.plain(), vec!["terminal too small".to_string()]);
}

#[test]
fn long_names_keep_the_file_arrows_visible_and_hits_inside_the_frame() {
    let name = "猫".repeat(80);
    let mut snap = files(snapshot(&name, "r1", &[(1, "+")]));
    snap.files[1].path = name;
    let mut st = ViewState::new(ViewMode::Unified, FilesPanel::Hidden, true);
    st.resize(40, body_height(&st, &snap, 10));
    st.reconcile(&snap);
    let r = render(&snap, &st, 40, 10);
    assert_eq!(r.lines.len(), 10);
    for line in &r.lines {
        let text: String = line.iter().map(|s| s.text.as_str()).collect();
        assert_eq!(width(&text), 40);
    }
    assert!(r.hits.iter().any(|h| h.action == Action::NextFile));
    for hit in &r.hits {
        assert!(hit.x0 < hit.x1 && hit.x1 <= 40 && hit.y < 10);
        assert_eq!(r.hit(hit.x0, hit.y), Some(&hit.action));
        assert_ne!(r.hit(hit.x1, hit.y), Some(&hit.action));
    }
}

#[test]
fn split_rows_scroll_by_cells_and_reverse_the_filler_too() {
    let row = Row::Split {
        left: Some(herdr_hunks::tui::rows::Cell {
            target: Some(0),
            no: Some(11),
            sign: '-',
            text: "猫ab".into(),
        }),
        right: None,
    };
    let line = body_line(&row, 41, 1, ViewMode::Split, true);
    let text: String = line.iter().map(|s| s.text.as_str()).collect();
    let (left, right) = text.split_once('│').unwrap();
    assert_eq!(left.trim_end(), "   11 -  ab");
    assert_eq!(width(left), 20);
    assert_eq!(right, " ".repeat(20));
    assert!(line.iter().all(|s| s.style.reverse));
    assert!(line
        .iter()
        .any(|s| s.style.role == Role::Label && s.text.contains("11")));
    assert!(line.iter().any(|s| s.style.semantic == Some(Semantic::Bad)));
}

#[test]
fn panel_directories_are_dim_and_the_footer_has_totals() {
    let (r, _) = rendered(120, 20, FilesPanel::Pinned);
    assert!(r.lines[2]
        .iter()
        .any(|s| s.text.contains("src/") && s.style.role == Role::Label));
    assert!(r.lines[3]
        .iter()
        .any(|s| s.text.contains("./") && s.style.role == Role::Label));
    assert!(r.plain()[18].contains("+5 −4 · 2 files"));
    assert_eq!(r.hit(FILES_WIDTH, 2), None);
    assert_eq!(r.hit(FILES_WIDTH + 1, 2), Some(&Action::CursorToRow(1)));
}

#[test]
fn errors_and_file_text_are_sanitized_and_notices_keep_the_body() {
    let name = "a\x1b\u{202e}.rs";
    let mut snap = files(snapshot(name, "r1", &[(1, "+")]));
    snap.files[1].path = name.into();
    snap.status_error = Some("status\x1b\u{2066}".into());
    snap.watcher_error = Some("watcher\x07".into());
    let mut st = ViewState::new(ViewMode::Unified, FilesPanel::Shown, true);
    st.resize(100, body_height(&st, &snap, 12));
    st.reconcile(&snap);
    let r = render(&snap, &st, 100, 12);
    let text = r.plain().join(" ");
    assert!(!text.contains('\x1b') && !text.contains('\u{202e}') && !text.contains('\u{2066}'));
    assert!(text.contains("a\u{241b}\u{fffd}.rs"));
    assert!(text.contains("line +"));
    assert!(r.plain()[10].contains("status failed: status\u{241b}\u{fffd}"));
    snap.status_error = None;
    assert!(render(&snap, &st, 100, 12).plain()[10].contains("watcher\u{2407}"));
    snap.watcher_error = None;
    snap.diff = DiffState::Failed("diff\x1b failed".into());
    assert!(render(&snap, &st, 100, 12)
        .plain()
        .iter()
        .any(|s| s.contains("diff\u{241b} failed")));
}

#[test]
fn toolbar_chips_are_padded_reversed_accent_bold_and_plain_text_is_not() {
    let mut snap = files(snapshot("a.rs", "chips", &[(1, "+"), (20, "+")]));
    for (mode, busy) in [(ViewMode::Unified, false), (ViewMode::Split, true)] {
        snap.refreshing = busy;
        let mut st = ViewState::new(mode, FilesPanel::Hidden, true);
        st.resize(160, 20);
        st.reconcile(&snap);
        let r = render(&snap, &st, 160, 22);
        let mut x = 0;
        let mut chips = 0;
        for span in &r.lines[0] {
            let end = x + width(&span.text) as u16;
            if let Some(action) = r.hit(x, 0) {
                chips += 1;
                assert!(
                    span.text.starts_with(' ') && span.text.ends_with(' '),
                    "{}",
                    span.text
                );
                assert_eq!(
                    span.style,
                    Style {
                        reverse: true,
                        ..Style::semantic(Role::Emphasis, Semantic::Accent)
                    }
                );
                for cell in x..end {
                    assert_eq!(r.hit(cell, 0), Some(action));
                }
            } else {
                assert!(!span.style.reverse);
            }
            x = end;
        }
        assert_eq!(chips, 7);
        assert!(r.lines[0]
            .iter()
            .any(|s| s.text == if busy { " … " } else { " ⟳ " }));
        assert!(r.lines[0].iter().any(|s| s.text
            == if mode == ViewMode::Split {
                " split "
            } else {
                " unified "
            }));
    }
}

#[test]
fn disabled_chips_are_dim_without_reverse_or_hits() {
    for (file_count, hunks, loaded, columns, requested) in [
        (0, 0, false, 120, ViewMode::Unified),
        (1, 1, true, 120, ViewMode::Unified),
        (2, 0, true, 120, ViewMode::Unified),
        (2, 2, true, 99, ViewMode::Unified),
        (2, 2, true, 99, ViewMode::Split),
    ] {
        let mut snap = files(snapshot(
            "a.rs",
            "disabled",
            &[(1, "+"), (20, "+")][..hunks],
        ));
        snap.files.truncate(file_count);
        if !loaded {
            snap.diff = DiffState::Loading;
        }
        let mut st = ViewState::new(requested, FilesPanel::Hidden, true);
        st.resize(columns, 20);
        st.reconcile(&snap);
        let r = render(&snap, &st, columns, 22);
        for (text, action, enabled) in [
            (" ‹ ", Action::PrevFile, file_count >= 2),
            (" › ", Action::NextFile, file_count >= 2),
            (" ↑ ", Action::PrevHunk, loaded && hunks >= 2),
            (" ↓ ", Action::NextHunk, loaded && hunks >= 2),
            (" worktree ", Action::ToggleScope, false),
            (
                " unified ",
                Action::ToggleView,
                columns >= MIN_SPLIT_WIDTH || requested == ViewMode::Split,
            ),
        ] {
            let span = r.lines[0].iter().find(|s| s.text == text).unwrap();
            assert_eq!(r.hits.iter().any(|h| h.action == action), enabled);
            assert_eq!(span.style.reverse, enabled);
            if !enabled {
                assert_eq!(span.style, Style::role(Role::Label));
            }
        }
    }
}

#[test]
fn hover_changes_exactly_one_chip_and_uses_key_table_footer() {
    let snap = files(snapshot("a.rs", "hover", &[(1, "+"), (20, "+")]));
    let mut st = ViewState::new(ViewMode::Unified, FilesPanel::Shown, true);
    st.resize(160, 20);
    st.reconcile(&snap);
    let base = render(&snap, &st, 160, 22);
    for (action, key_action) in [
        (Action::PrevFile, keys::KeyAction::FilePrev),
        (Action::NextFile, keys::KeyAction::FileNext),
        (Action::PrevHunk, keys::KeyAction::HunkPrev),
        (Action::NextHunk, keys::KeyAction::HunkNext),
        (Action::ToggleView, keys::KeyAction::ToggleView),
        (Action::ToggleFiles, keys::KeyAction::ToggleFiles),
        (Action::Refresh, keys::KeyAction::Refresh),
    ] {
        let hit = base.hits.iter().find(|h| h.action == action).unwrap();
        st.hover = Some((hit.x0, hit.y));
        let hovered = render(&snap, &st, 160, 22);
        let differences: Vec<_> = base.lines[0]
            .iter()
            .zip(&hovered.lines[0])
            .filter(|(a, b)| a != b)
            .collect();
        assert_eq!(differences.len(), 1);
        let (before, after) = differences[0];
        assert_eq!(before.text, after.text);
        assert_eq!(
            after.style,
            Style {
                semantic: None,
                ..before.style
            }
        );
        let binding = keys::keys().into_iter().find(|b| b.action == key_action).unwrap();
        assert_eq!(
            hovered.plain().last().unwrap(),
            &format!("{} · {}", binding.label, binding.key)
        );
    }
    st.hover = Some((100, 5));
    assert_eq!(render(&snap, &st, 160, 22).lines, base.lines);
    st.hover = None;
    assert_eq!(render(&snap, &st, 160, 22).lines, base.lines);
}

#[test]
fn hovered_file_row_is_bold_and_keeps_normal_footer() {
    let snap = files(snapshot("a.rs", "row", &[(1, "+")]));
    let mut st = ViewState::new(ViewMode::Unified, FilesPanel::Shown, true);
    st.resize(120, 20);
    st.reconcile(&snap);
    let base = render(&snap, &st, 120, 22);
    let hit = base
        .hits
        .iter()
        .find(|h| h.action == Action::SelectFile(0))
        .unwrap();
    st.hover = Some((hit.x0, hit.y));
    let hovered = render(&snap, &st, 120, 22);
    let row = clip_line(
        &hovered.lines[usize::from(hit.y)],
        0,
        usize::from(FILES_WIDTH),
    );
    assert!(row.iter().all(|s| s.style.role == Role::Emphasis));
    for (y, (before, after)) in base.lines.iter().zip(&hovered.lines).enumerate() {
        if y != usize::from(hit.y) {
            assert_eq!(before, after);
        }
    }
}

#[test]
fn popup_key_sheet_has_the_conditional_escape_row() {
    let snap = files(snapshot("a.rs", "sheet", &[(1, "+")]));
    let mut st = ViewState::new(ViewMode::Unified, FilesPanel::Hidden, true);
    st.help_open = true;
    for popup in [false, true] {
        st.popup = popup;
        let text = render(&snap, &st, 120, 40).plain().join("\n");
        assert_eq!(
            text.lines()
                .any(|l| l.contains("esc") && l.contains("close") && !l.contains("closes")),
            popup
        );
    }
}

#[test]
fn chip_widths_keep_file_steps_at_forty_and_drop_whole_items_in_order() {
    let snap = files(snapshot(
        &"long".repeat(20),
        "narrow",
        &[(1, "+"), (20, "+")],
    ));
    let st = ViewState::new(ViewMode::Unified, FilesPanel::Hidden, true);
    let r = render(&snap, &st, 40, 12);
    for action in [Action::PrevFile, Action::NextFile] {
        let hit = r.hits.iter().find(|h| h.action == action).unwrap();
        assert_eq!(hit.x1 - hit.x0, 3);
        assert!(hit.x1 <= 40);
    }
    let snap = files(snapshot("a.rs", "narrow", &[(1, "+"), (20, "+")]));
    for columns in 40..120 {
        let r = render(&snap, &st, columns, 12);
        let text = &r.plain()[0];
        let visible = [
            text.contains("‹"),
            text.contains("{}"),
            text.contains("worktree"),
            text.contains("unified"),
            text.contains("UNSTAGED"),
            text.contains("+4"),
            text.contains("files"),
            text.contains("⟳"),
        ];
        assert!(!visible.windows(2).any(|v| !v[0] && v[1]));
        assert!(r.hits.iter().all(|h| h.x1 <= columns));
    }
}

#[test]
fn startup_status_errors_replace_loading_and_not_a_repository() {
    let state = ViewState::new(ViewMode::Unified, FilesPanel::Hidden, true);
    for revision in [0, 1] {
        let mut snap = Snapshot::empty("/repo");
        snap.revision = revision;
        snap.status_error = Some("cannot spawn git: missing\x1b[31m".into());
        let rendered = render(&snap, &state, 80, 12);
        let lines = rendered.plain();
        let expected = "cannot spawn git: missing\u{241b}[31m";
        assert_eq!(lines[6].trim(), expected);
        assert_eq!(lines[6].find(expected), Some((80 - width(expected)) / 2));
        assert!(!lines.join("\n").contains("not a git repository"));
        assert!(!lines.join("\n").contains('\x1b'));
    }
}

#[test]
fn a_successful_status_outside_a_repository_keeps_its_message() {
    let mut snap = Snapshot::empty("/not-a-repo");
    snap.revision = 1;
    let state = ViewState::new(ViewMode::Unified, FilesPanel::Hidden, true);
    assert_eq!(
        render(&snap, &state, 80, 12).plain()[6].trim(),
        "not a git repository"
    );
}

#[test]
fn the_scope_chip_names_the_base_and_is_dim_without_one() {
    let mut snap = snapshot("a.rs", "r1", &[(1, "+")]);
    let mut st = ViewState::new(ViewMode::Unified, FilesPanel::Hidden, true);
    st.resize(120, 20);
    st.reconcile(&snap);
    // No base: the chip reads `worktree`, is dim and has no hit region.
    let r = render(&snap, &st, 120, 24);
    let bar = &r.lines[0];
    let chip = bar
        .iter()
        .find(|s| s.text == " worktree ")
        .or_else(|| bar.iter().find(|s| s.text == "worktree"));
    assert_eq!(chip.map(|s| s.style.role), Some(Role::Label));
    assert!(!r.hits.iter().any(|h| h.action == Action::ToggleScope));
    assert!(r.plain()[0].contains("UNSTAGED"));
    // A base: clickable, and the hover hint names the key.
    snap.base = Some(Base {
        requested: "refs/heads/main".into(),
        commit: "0".repeat(40),
        merge_base: None,
        source: BaseSource::Default,
    });
    let r = render(&snap, &st, 120, 24);
    let hit = r
        .hits
        .iter()
        .find(|h| h.action == Action::ToggleScope)
        .expect("chip hit");
    assert_eq!(hit.y, 0);
    st.hover = Some((hit.x0, 0));
    let r = render(&snap, &st, 120, 24);
    assert_eq!(
        r.plain().last().unwrap(),
        "switch scope · b · main @ 0000000"
    );
    snap.base.as_mut().unwrap().commit = "123456789abcdef".into();
    let r = render(&snap, &st, 120, 24);
    assert_eq!(
        r.plain().last().unwrap(),
        "switch scope · b · main @ 1234567"
    );
    snap.base.as_mut().unwrap().requested = "refs/heads/main\u{1b}".into();
    let r = render(&snap, &st, 120, 24);
    assert_eq!(
        r.plain().last().unwrap(),
        "switch scope · b · main\u{241b} @ 1234567"
    );
    snap.base.as_mut().unwrap().requested = "refs/heads/main".into();
    // Branch scope: `vs main`, and the staged label is gone.
    snap.scope = Scope::Branch;
    snap.base.as_mut().unwrap().merge_base = Some("1".repeat(40));
    st.hover = None;
    let r = render(&snap, &st, 120, 24);
    let top = &r.plain()[0];
    assert!(top.contains("vs main"), "{top}");
    assert!(
        !top.contains("UNSTAGED") && !top.contains("STAGED"),
        "{top}"
    );
    snap.base.as_mut().unwrap().requested =
        "refs/remotes/origin/a-very-long-branch-name".into();
    let r = render(&snap, &st, 120, 24);
    assert!(
        r.plain()[0].contains("vs origin/a-very-l…"),
        "{}",
        r.plain()[0]
    ); // 15 cells + the ellipsis
}

#[test]
fn the_view_chip_drops_before_the_scope_chip() {
    let mut snap = snapshot("a.rs", "r1", &[(1, "+")]);
    snap.base = Some(Base {
        requested: "refs/heads/main".into(),
        commit: "0".repeat(40),
        merge_base: None,
        source: BaseSource::Default,
    });
    let mut st = ViewState::new(ViewMode::Unified, FilesPanel::Hidden, true);
    st.resize(120, 20);
    st.reconcile(&snap);
    let mut width = 120u16;
    let mut saw_scope_without_view = false;
    while width >= 40 {
        let top = render(&snap, &st, width, 24).plain()[0].clone();
        let has_scope = top.contains("worktree");
        let has_view = top.contains("unified");
        assert!(
            !has_view || has_scope,
            "the view chip outlived the scope chip at {width}: {top}"
        );
        saw_scope_without_view |= has_scope && !has_view;
        width -= 4;
    }
    assert!(saw_scope_without_view);
}

#[test]
fn the_picker_overlays_the_body_and_clears_other_hits() {
        let mut snap = snapshot("a.rs", "r1", &[(1, "+")]);
    snap.refs = Some(std::sync::Arc::new(vec!["refs/heads/main".into()]));
    snap.default_base = Some("refs/heads/main".into());
    snap.repo = RepoState::Repo {
        toplevel: "/r".into(),
        branch: Some("main".into()),
        worktree: None,
    };
    snap.refs_seq = 1;
    let mut st = ViewState::new(ViewMode::Unified, FilesPanel::Hidden, true);
    st.resize(120, 20);
    st.reconcile(&snap);
    st.picker = Some(herdr_hunks::tui::picker::Picker::open(1));
    let r = render(&snap, &st, 120, 24);
    let text = r.plain();
    assert!(text[1].contains("Compare against"), "{}", text[1]);
    assert!(text[2].contains("> _"), "{}", text[2]);
    assert!(text[3].contains("default (main)"), "{}", text[3]);
    assert!(
        text[4].contains("main") && text[4].contains("current"),
        "{}",
        text[4]
    );
    assert!(r
        .hits
        .iter()
        .all(|h| matches!(h.action, Action::PickRow(_))));
    assert_eq!(r.hits.len(), 2);
    assert_eq!(r.hits[0].y, 3);
    assert_eq!(text.len(), 24);
}

#[test]
fn only_a_drawn_body_vouches_for_an_id() {
    let mut snap = snapshot("a.rs", "r1", &[(1, "+")]);
    let mut st = ViewState::new(ViewMode::Unified, FilesPanel::Hidden, true);
    st.resize(120, 20);
    st.reconcile(&snap);
    assert!(body_is_drawn(&st, &snap, 120, 24));
    assert!(
        !body_is_drawn(&st, &snap, 39, 24),
        "too narrow: the size notice is drawn"
    );
    assert!(
        !body_is_drawn(&st, &snap, 120, 9),
        "too short: the size notice is drawn"
    );
    st.help_open = true;
    assert!(
        !body_is_drawn(&st, &snap, 120, 24),
        "the key sheet covers the diff"
    );
    st.help_open = false;
    st.picker = Some(herdr_hunks::tui::picker::Picker::open(0));
    assert!(
        !body_is_drawn(&st, &snap, 120, 24),
        "the picker covers the diff"
    );
    st.picker = None;
    // Give the empty fixture a row before checking an unloaded diff.
    snap.files = vec![herdr_hunks::git::ChangedFile {
        path: "a.rs".into(),
        status: herdr_hunks::git::ChangedFileStatus::Modified,
        staged: false,
        insertions: Some(1),
        deletions: Some(0),
    }];
    snap.diff = herdr_hunks::engine::DiffState::Loading;
    assert!(
        !body_is_drawn(&st, &snap, 120, 24),
        "a row whose diff is not loaded"
    );
    snap.files.clear();
    snap.diff = herdr_hunks::engine::DiffState::Idle;
    assert!(
        body_is_drawn(&st, &snap, 120, 24),
        "an empty list is a drawn body"
    );
}
