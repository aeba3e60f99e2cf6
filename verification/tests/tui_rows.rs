use herdr_hunks::engine::nav::ViewMode;
use herdr_hunks::engine::{Comparison, FileKey, LoadedDiff};
use herdr_hunks::git::{DiffHunk, DiffLine, DiffLineType, FileDiff, GetGitDiffResponse};
use herdr_hunks::tui::rows::{build, Row, Rows};

type HunkSpec<'a> = (u32, u32, &'a [(char, &'a str)]);

fn loaded(hunks: &[HunkSpec]) -> LoadedDiff {
    let hunks = hunks
        .iter()
        .map(|(old_start, new_start, lines)| DiffHunk {
            id: String::new(),
            header: format!("@@ -{old_start} +{new_start} @@"),
            old_start: *old_start,
            old_lines: lines.iter().filter(|(k, _)| *k != '+').count() as u32,
            new_start: *new_start,
            new_lines: lines.iter().filter(|(k, _)| *k != '-').count() as u32,
            lines: lines
                .iter()
                .map(|(k, text)| DiffLine {
                    line_type: match k {
                        '+' => DiffLineType::Added,
                        '-' => DiffLineType::Removed,
                        _ => DiffLineType::Context,
                    },
                    content: text.to_string(),
                    old_line_number: None,
                    new_line_number: None,
                })
                .collect(),
        })
        .collect();
    LoadedDiff::build(
        FileKey {
            path: "src/f.rs".into(),
            staged: false,
            untracked: false,
        },
        Comparison::Worktree,
        None,
        GetGitDiffResponse {
            file_diff: FileDiff {
                file_path: "src/f.rs".into(),
                old_path: None,
                new_path: None,
                hunks,
            },
            old_text: String::new(),
            new_text: String::new(),
            raw_diff: String::new(),
            repo_root: String::new(),
        },
    )
}

fn kinds(rows: &Rows) -> String {
    rows.rows
        .iter()
        .map(|r| match r {
            Row::FileHeader { .. } => 'F',
            Row::HunkHeader { .. } => 'H',
            Row::Gap { .. } => 'G',
            Row::Unified { sign, .. } => *sign,
            Row::Split { .. } => 'S',
            Row::Truncated { .. } => 'T',
        })
        .collect()
}

#[test]
fn unified_rows_follow_the_hunk_with_a_leading_gap() {
    let d = loaded(&[(
        10,
        10,
        &[(' ', "a"), ('-', "b"), ('-', "c"), ('+', "B"), (' ', "d")],
    )]);
    let rows = build(&d, ViewMode::Unified);
    assert_eq!(kinds(&rows), "FGH --+ ");
    assert!(matches!(rows.rows[1], Row::Gap { lines: 9 }));
    // every target maps to the row that shows it
    for (target, row) in rows.row_of_target.iter().enumerate() {
        match &rows.rows[*row] {
            Row::Unified { target: t, .. } => assert_eq!(*t, target),
            other => panic!(
                "target {target} maps to {:?}",
                std::mem::discriminant(other)
            ),
        }
    }
}

#[test]
fn a_gap_between_hunks_counts_the_unmodified_lines() {
    let d = loaded(&[(1, 1, &[('+', "x")]), (30, 31, &[('-', "y")])]);
    let rows = build(&d, ViewMode::Unified);
    assert_eq!(kinds(&rows), "FH+GH-");
    assert!(matches!(rows.rows[3], Row::Gap { lines: 29 }));
}

#[test]
fn split_rows_pair_a_replacement_and_fill_the_short_side() {
    let d = loaded(&[(
        10,
        10,
        &[(' ', "a"), ('-', "b"), ('-', "c"), ('+', "B"), (' ', "d")],
    )]);
    let rows = build(&d, ViewMode::Split);
    assert_eq!(kinds(&rows), "FGHSSSS");
    match &rows.rows[4] {
        Row::Split {
            left: Some(l),
            right: Some(r),
        } => {
            assert_eq!((l.no, l.sign, l.text.as_str()), (Some(11), '-', "b"));
            assert_eq!((r.no, r.sign, r.text.as_str()), (Some(11), '+', "B"));
        }
        _ => panic!("row 4 must be a full pair"),
    }
    assert!(matches!(
        &rows.rows[5],
        Row::Split {
            left: Some(_),
            right: None
        }
    ));
}

#[test]
fn a_truncated_diff_ends_with_a_truncated_row() {
    let mut d = loaded(&[(1, 1, &[('+', "x")])]);
    d.truncated_lines = 7;
    let rows = build(&d, ViewMode::Unified);
    assert!(matches!(
        rows.rows.last(),
        Some(Row::Truncated { lines: 7 })
    ));
}

#[test]
fn text_is_sanitized() {
    let d = loaded(&[(1, 1, &[('+', "a\x1bb")])]);
    let rows = build(&d, ViewMode::Unified);
    match &rows.rows[2] {
        Row::Unified { text, .. } => assert_eq!(text, "a\u{241b}b"),
        _ => panic!(),
    }
}
