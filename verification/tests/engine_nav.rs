use herdr_hunks::engine::nav::{
    find, move_line, move_side, nearest, target_index_for_hunk, targets_for_diff, unified_order, Side, Target,
    ViewMode,
};
use herdr_hunks::git::{DiffHunk, DiffLine, DiffLineType, FileDiff};

fn line(kind: char) -> DiffLine {
    DiffLine {
        line_type: match kind {
            '+' => DiffLineType::Added,
            '-' => DiffLineType::Removed,
            _ => DiffLineType::Context,
        },
        content: String::new(),
        old_line_number: None,
        new_line_number: None,
    }
}

fn diff(hunks: &[(u32, u32, &str)]) -> FileDiff {
    FileDiff {
        file_path: "f".into(),
        old_path: None,
        new_path: None,
        hunks: hunks
            .iter()
            .map(|(old_start, new_start, kinds)| DiffHunk {
                id: format!("hunk-{old_start}-{new_start}"),
                header: String::new(),
                old_start: *old_start,
                old_lines: kinds.chars().filter(|c| *c != '+').count() as u32,
                new_start: *new_start,
                new_lines: kinds.chars().filter(|c| *c != '-').count() as u32,
                lines: kinds.chars().map(line).collect(),
            })
            .collect(),
    }
}

fn shape(t: &Target) -> (u32, Side, usize, usize, bool) {
    (t.line_number, t.side, t.hunk_index, t.split_row_index, t.changed)
}

#[test]
fn context_then_addition() {
    let targets = targets_for_diff(&diff(&[(1, 1, " +")]));
    assert_eq!(
        targets.iter().map(shape).collect::<Vec<_>>(),
        vec![(1, Side::Additions, 0, 0, false), (2, Side::Additions, 0, 1, true)]
    );
}

#[test]
fn replacement_block_pairs_rows() {
    let targets = targets_for_diff(&diff(&[(10, 10, " --+ ")]));
    assert_eq!(
        targets.iter().map(shape).collect::<Vec<_>>(),
        vec![
            (10, Side::Additions, 0, 0, false),
            (11, Side::Deletions, 0, 1, true),
            (11, Side::Additions, 0, 1, true),
            (12, Side::Deletions, 0, 2, true),
            (12, Side::Additions, 0, 3, false),
        ]
    );
}

#[test]
fn unified_order_puts_a_blocks_deletions_first() {
    let targets = targets_for_diff(&diff(&[(10, 10, " --+ ")]));
    assert_eq!(unified_order(&targets), vec![0, 1, 3, 2, 4]);
}

#[test]
fn hunk_navigation_lands_on_the_first_changed_row() {
    let targets = targets_for_diff(&diff(&[(1, 1, "  +"), (20, 21, " - ")]));
    assert_eq!(target_index_for_hunk(&targets, 0), Some(2));
    assert_eq!(target_index_for_hunk(&targets, 1), Some(4));
    assert_eq!(target_index_for_hunk(&targets, 9), None);
}

#[test]
fn move_line_unified_follows_display_order_and_clamps() {
    let targets = targets_for_diff(&diff(&[(10, 10, " --+ ")]));
    let order = unified_order(&targets);
    assert_eq!(move_line(&targets, &order, 1, 1, ViewMode::Unified), 3);
    assert_eq!(move_line(&targets, &order, 3, 1, ViewMode::Unified), 2);
    assert_eq!(move_line(&targets, &order, 0, -1, ViewMode::Unified), 0);
    assert_eq!(move_line(&targets, &order, 4, 1, ViewMode::Unified), 4);
}

#[test]
fn move_line_split_treats_a_pair_as_one_row_and_keeps_the_side() {
    let targets = targets_for_diff(&diff(&[(10, 10, " --+ ")]));
    let order = unified_order(&targets);
    assert_eq!(move_line(&targets, &order, 1, 1, ViewMode::Split), 3);
    assert_eq!(move_line(&targets, &order, 2, 1, ViewMode::Split), 3);
    assert_eq!(move_line(&targets, &order, 0, 1, ViewMode::Split), 2);
}

#[test]
fn move_side_switches_within_a_row_in_split_mode_only() {
    let targets = targets_for_diff(&diff(&[(10, 10, " --+ ")]));
    assert_eq!(move_side(&targets, 1, Side::Additions, ViewMode::Split), 2);
    assert_eq!(move_side(&targets, 3, Side::Additions, ViewMode::Split), 3);
    assert_eq!(move_side(&targets, 1, Side::Additions, ViewMode::Unified), 1);
}

#[test]
fn find_and_nearest() {
    let targets = targets_for_diff(&diff(&[(10, 10, " --+ ")]));
    assert_eq!(find(&targets, Side::Deletions, 12), Some(3));
    assert_eq!(find(&targets, Side::Deletions, 99), None);
    assert_eq!(nearest(&targets, Side::Deletions, 99), Some(3));
    assert_eq!(nearest(&[], Side::Additions, 1), None);
}

#[test]
fn a_hunk_without_lines_yields_one_target() {
    let mut d = diff(&[(5, 5, "")]);
    d.hunks[0].new_lines = 0;
    let targets = targets_for_diff(&d);
    assert_eq!(
        targets.iter().map(shape).collect::<Vec<_>>(),
        vec![(5, Side::Deletions, 0, 0, true)]
    );
}

#[test]
fn one_target_per_line_in_hunk_order() {
    let targets = targets_for_diff(&diff(&[(1, 1, " --++ "), (10, 10, ""), (20, 20, "-+-")]));
    assert_eq!(targets.len(), 6 + 1 + 3);
    assert!(targets.windows(2).all(|w| w[0].hunk_index <= w[1].hunk_index));
    assert!(targets.iter().all(|t| t.hunk_index < 3));
}

#[test]
fn the_unified_order_visits_every_target_once() {
    let targets = targets_for_diff(&diff(&[(1, 1, "-+-+ -+"), (20, 20, ""), (30, 30, "++--")]));
    let mut order = unified_order(&targets);
    assert_eq!(order.len(), targets.len());
    order.sort();
    assert_eq!(order, (0..targets.len()).collect::<Vec<_>>());
}
