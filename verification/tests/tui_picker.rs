use std::sync::Arc;

use herdr_hunks::engine::{Base, BaseSource, RepoState, Scope, Snapshot};
use herdr_hunks::tui::picker::{Picker, PickerRow, WIDTH};

/// `refs_seq` is 1: a picker opened with `Picker::open(1)` sees the list at once.
fn snap(refs: &[&str], base: Option<(&str, BaseSource)>) -> Snapshot {
    let mut s = Snapshot::empty("/r");
    s.revision = 1;
    s.refs_seq = 1;
    s.repo = RepoState::Repo {
        toplevel: "/r".into(),
        branch: Some("main".into()),
        worktree: None,
    };
    s.refs = Some(Arc::new(refs.iter().map(|r| r.to_string()).collect()));
    s.default_base = Some("refs/heads/main".into());
    s.base = base.map(|(requested, source)| Base {
        requested: requested.into(),
        commit: "0".repeat(40),
        merge_base: None,
        source,
    });
    s.scope = Scope::Worktree;
    s
}

const REFS: [&str; 5] = [
    "refs/heads/feat",
    "refs/heads/main",
    "refs/remotes/origin/main",
    "refs/tags/main",
    "refs/heads/maint-2.1",
];

fn labels(rows: &[PickerRow]) -> Vec<String> {
    rows.iter()
        .map(|r| match r {
            PickerRow::Reset(t) => t.clone(),
            PickerRow::Typed(t) => format!("use \"{t}\""),
            PickerRow::Ref { qualified, markers } => {
                let mut s = herdr_hunks::engine::ref_label(qualified);
                if !markers.is_empty() {
                    s = format!("{s} [{}]", markers.join(" · "));
                }
                s
            }
        })
        .collect()
}

#[test]
fn rows_start_with_reset_then_the_current_base_then_matches_with_markers() {
    let s = snap(&REFS, Some(("refs/tags/main", BaseSource::Picked)));
    let p = Picker::open(1);
    assert_eq!(
        labels(&p.rows(&s)),
        [
            "default (main)",
            "main [picked · tag]",
            "feat",
            "main [current]",
            "origin/main",
            "maint-2.1"
        ]
    );
    let mut p = Picker::open(1);
    p.input = "main".into();
    assert_eq!(
        labels(&p.rows(&s)),
        [
            "default (main)",
            "main [picked · tag]",
            "main [current]",
            "origin/main",
            "maint-2.1"
        ],
        "`main` is exactly a listed label, so no typed row"
    );
    p.input = "MAIN".into();
    assert_eq!(
        labels(&p.rows(&s)),
        [
            "default (main)",
            "use \"MAIN\"",
            "main [picked · tag]",
            "main [current]",
            "origin/main",
            "maint-2.1"
        ],
        "filtering is case-insensitive; the exact-label check is not"
    );
    p.input = "HEAD~2".into();
    assert_eq!(labels(&p.rows(&s)), ["default (main)", "use \"HEAD~2\""]);
    assert_eq!(p.rows(&s)[1].submit().as_deref(), Some("HEAD~2"));
    assert_eq!(p.rows(&s)[0].submit(), None);
    let s = snap(&REFS, Some(("feat", BaseSource::Config)));
    assert_eq!(labels(&Picker::open(1).rows(&s))[1], "feat");
    let s = snap(&REFS, Some(("refs/heads/feat", BaseSource::Config)));
    assert_eq!(labels(&Picker::open(1).rows(&s))[1], "feat [config]");
    let mut s = snap(&[], None);
    s.default_base = None;
    assert_eq!(labels(&Picker::open(1).rows(&s)), ["default (none)"]);
}

#[test]
fn the_cursor_follows_the_input_and_moves_within_bounds() {
    let s = snap(&REFS, None);
    let mut p = Picker::open(1);
    assert_eq!(p.cursor, 0);
    p.input = "ma".into();
    p.retarget(&s);
    assert_eq!(
        p.cursor, 2,
        "the first match, after the reset and typed rows"
    );
    p.input = "zzz".into();
    p.retarget(&s);
    assert_eq!(p.cursor, 1, "the typed row");
    p.input.clear();
    p.retarget(&s);
    assert_eq!(p.cursor, 0);
    let len = p.rows(&s).len();
    assert!(!p.move_by(-1, len, 3));
    assert!(p.move_by(1, len, 3) && p.cursor == 1);
    assert!(p.move_by(10, len, 3) && p.cursor == len - 1);
    assert_eq!(p.offset, len - 3, "the window follows the cursor down");
    assert!(p.move_by(-(len as isize), len, 3) && p.cursor == 0 && p.offset == 0);
}

#[test]
fn the_panel_shows_the_caret_error_markers_and_footers() {
    let s = snap(&REFS, Some(("refs/heads/main", BaseSource::Default)));
    let mut p = Picker::open(1);
    p.input = "ma".into();
    p.retarget(&s);
    let panel = p.panel(&s, WIDTH, 12);
    assert_eq!(panel.title, "Compare against");
    assert_eq!(panel.footer, "Enter pick · Esc cancel · type to filter");
    let lines: Vec<String> = herdr_hunks::tui::dialog::render(&panel, WIDTH, 12)
        .iter()
        .map(|l| l.iter().map(|s| s.text.as_str()).collect::<String>())
        .collect();
    assert!(lines[1].contains("> ma_"), "{}", lines[1]);
    assert!(lines[2].contains("default (main)"), "{}", lines[2]);
    assert!(lines[3].contains("use \"ma\""), "{}", lines[3]);
    assert!(
        lines[4].contains("▸ main") && lines[4].contains("current"),
        "{}",
        lines[4]
    );
    p.error = Some("not a commit: ma\u{1b}".into());
    let panel = p.panel(&s, WIDTH, 12);
    assert!(
        matches!(&panel.rows[1], herdr_hunks::tui::dialog::Row::Warn(w) if w == "not a commit: ma\u{241b}")
    );
    let mut s = snap(&REFS, None);
    s.refs_overflow = true;
    let mut p = Picker::open(1);
    p.input = "ma".into();
    assert_eq!(
        p.panel(&s, WIDTH, 12).footer,
        "4 shown, more exist · type to filter"
    );
    let s = snap(&[], None);
    assert_eq!(
        Picker::open(1).panel(&s, WIDTH, 12).footer,
        "no refs listed; type a revision"
    );
    let mut s = snap(&REFS, None);
    s.refs = None;
    assert_eq!(
        Picker::open(1).panel(&s, WIDTH, 12).footer,
        "no refs listed; type a revision"
    );
    let mut p = Picker::open(1);
    p.pending = Some(0);
    assert_eq!(p.panel(&snap(&REFS, None), WIDTH, 12).footer, "picking…");
}

#[test]
fn every_panel_row_is_one_line_at_any_width() {
    let s = snap(&REFS, None);
    let mut p = Picker::open(1);
    p.input = "a".repeat(70);
    p.error = Some("not a commit: ".to_string() + &"b".repeat(70));
    for width in [40u16, 48, 60] {
        let panel = p.panel(&s, width, 10);
        assert_eq!(
            herdr_hunks::tui::dialog::line_count(&panel, width),
            panel.rows.len(),
            "width {width}"
        );
        assert_eq!(panel.rows.len(), 2 + p.visible(10).min(p.rows(&s).len()));
    }
}

#[test]
fn the_list_counts_only_once_this_opening_is_answered_and_the_cursor_follows_it() {
    let mut s = snap(&REFS, None);
    s.refs_seq = 0;
    let mut p = Picker::open(2);
    assert!(
        p.refs(&s).is_empty(),
        "the previous opening's list is not shown"
    );
    assert_eq!(labels(&p.rows(&s)), ["default (main)"]);
    assert_eq!(p.panel(&s, WIDTH, 12).footer, "loading refs…");
    p.input = "ma".into();
    p.retarget(&s);
    assert_eq!(p.cursor, 1, "the typed row while the list is empty");
    p.error = Some("kept".into());
    s.refs_seq = 1;
    p.observe(&s);
    assert!(
        p.refs(&s).is_empty(),
        "an earlier opening's reply stays hidden"
    );
    assert_eq!(p.panel(&s, WIDTH, 12).footer, "loading refs…");
    assert_eq!(p.cursor, 1, "a stale reply must not move the cursor");
    s.refs_seq = 2;
    p.observe(&s);
    assert_eq!(p.refs(&s).len(), REFS.len());
    assert_eq!(p.cursor, 2, "the first match once the list arrived");
    assert_eq!(
        p.error.as_deref(),
        Some("kept"),
        "the matching reply keeps the error"
    );
    p.cursor = 3;
    p.observe(&s);
    assert_eq!(p.cursor, 3, "the same reply only places the cursor once");
    assert_eq!(
        p.error.as_deref(),
        Some("kept"),
        "a new list does not clear an error"
    );
}

#[test]
fn display_text_is_sanitized_without_changing_submitted_revisions() {
    let mut s = snap(&["refs/heads/a\u{202e}"], None);
    s.default_base = Some("refs/heads/a\u{202e}".into());
    let mut p = Picker::open(1);
    for input in ["", "x\u{202e}\n"] {
        p.input = input.into();
        p.retarget(&s);
        let panel = p.panel(&s, WIDTH, 12);
        assert_eq!(
            herdr_hunks::tui::dialog::line_count(&panel, WIDTH),
            panel.rows.len()
        );
        let text: String = herdr_hunks::tui::dialog::render(&panel, WIDTH, 12)
            .iter()
            .flatten()
            .map(|span| span.text.as_str())
            .collect();
        assert!(!text.contains(['\u{202e}', '\n']), "{text:?}");
        assert!(text.contains("default (a\u{fffd})"));
        if !input.is_empty() {
            assert!(text.contains("> x\u{fffd}\u{240a}_"));
            assert!(text.contains("use \"x\u{fffd}\u{240a}\""));
            assert_eq!(p.rows(&s)[1].submit().as_deref(), Some(input));
        } else {
            assert_eq!(
                p.rows(&s)[1].submit().as_deref(),
                Some("refs/heads/a\u{202e}")
            );
        }
    }
}

#[test]
fn the_reply_closes_the_picker_or_shows_the_error() {
    let mut s = snap(&REFS, None);
    let mut p = Picker::open(1);
    p.pending = Some(s.pick_seq);
    p.observe(&s);
    assert!(p.pending.is_some() && !p.done, "no answer yet");
    s.pick_seq += 1;
    s.pick_error = Some("not a commit: x".into());
    p.observe(&s);
    assert!(p.pending.is_none() && !p.done);
    assert_eq!(p.error.as_deref(), Some("not a commit: x"));
    p.pending = Some(s.pick_seq);
    s.pick_seq += 1;
    s.pick_error = None;
    p.observe(&s);
    assert!(p.done);
}
