use herdr_hunks::engine::{
    ref_label, Base, BaseSource, Comparison, FileKey, LoadedDiff, Scope, Snapshot,
};
use herdr_hunks::git::{
    ChangedFile, ChangedFileStatus, DiffHunk, DiffLine, DiffLineType, FileDiff, GetGitDiffResponse,
};

fn hunk(start: u32, lines: usize) -> DiffHunk {
    DiffHunk {
        id: format!("hunk-{start}-{start}"),
        header: String::new(),
        old_start: start,
        old_lines: 0,
        new_start: start,
        new_lines: lines as u32,
        lines: (0..lines)
            .map(|_| DiffLine {
                line_type: DiffLineType::Added,
                content: "x".into(),
                old_line_number: None,
                new_line_number: None,
            })
            .collect(),
    }
}

fn response(hunks: Vec<DiffHunk>) -> GetGitDiffResponse {
    GetGitDiffResponse {
        file_diff: FileDiff {
            file_path: "f".into(),
            old_path: None,
            new_path: None,
            hunks,
        },
        old_text: String::new(),
        new_text: String::new(),
        raw_diff: "raw".into(),
        repo_root: "/r".into(),
    }
}

fn key() -> FileKey {
    FileKey {
        path: "f".into(),
        staged: false,
        untracked: false,
    }
}

#[test]
fn a_small_diff_is_kept_whole() {
    let loaded = LoadedDiff::build_with_cap(
        key(),
        Comparison::Worktree,
        None,
        response(vec![hunk(1, 3), hunk(50, 2)]),
        10,
    );
    assert_eq!(loaded.file_diff.hunks.len(), 2);
    assert_eq!(loaded.truncated_lines, 0);
    assert_eq!(loaded.targets.len(), 5);
    assert_eq!(loaded.unified_order.len(), 5);
    assert_eq!(loaded.raw_diff, "raw");
}

#[test]
fn whole_hunks_are_kept_while_they_fit() {
    let loaded = LoadedDiff::build_with_cap(
        key(),
        Comparison::Worktree,
        None,
        response(vec![hunk(1, 6), hunk(50, 6), hunk(90, 1)]),
        10,
    );
    assert_eq!(loaded.file_diff.hunks.len(), 1);
    assert_eq!(loaded.truncated_lines, 7);
    assert_eq!(loaded.targets.len(), 6);
}

#[test]
fn an_oversized_first_hunk_keeps_its_prefix() {
    let loaded = LoadedDiff::build_with_cap(
        key(),
        Comparison::Worktree,
        None,
        response(vec![hunk(1, 25)]),
        10,
    );
    assert_eq!(loaded.file_diff.hunks.len(), 1);
    assert_eq!(loaded.file_diff.hunks[0].lines.len(), 10);
    assert_eq!(loaded.truncated_lines, 15);
    assert_eq!(loaded.targets.last().map(|t| t.line_number), Some(10));
}

#[test]
fn a_recreated_untracked_path_is_a_different_key_from_its_deleted_row() {
    let deleted = ChangedFile {
        path: "f".into(),
        status: ChangedFileStatus::Deleted,
        staged: false,
        insertions: None,
        deletions: None,
    };
    let untracked = ChangedFile {
        status: ChangedFileStatus::Untracked,
        ..deleted.clone()
    };
    assert_ne!(FileKey::of(&deleted), FileKey::of(&untracked));
    assert!(!FileKey::of(&deleted).untracked);
    assert!(FileKey::of(&untracked).untracked);
}

#[test]
fn labels_strip_the_ref_namespace_and_leave_free_text_alone() {
    assert_eq!(ref_label("refs/heads/main"), "main");
    assert_eq!(ref_label("refs/remotes/origin/main"), "origin/main");
    assert_eq!(ref_label("refs/tags/v1"), "v1");
    assert_eq!(ref_label("HEAD~3"), "HEAD~3");
    let base = Base {
        requested: "refs/heads/feat/x".into(),
        commit: "0".repeat(40),
        merge_base: None,
        source: BaseSource::Default,
    };
    assert_eq!(base.label(), "feat/x");
    assert_eq!(Scope::Worktree.other(), Scope::Branch);
    assert_eq!(Scope::Branch.other(), Scope::Worktree);
}

#[test]
fn a_loaded_diff_remembers_its_comparison() {
    let branch = Comparison::Branch {
        merge_base: "1".repeat(40),
    };
    let loaded = LoadedDiff::build(key(), branch.clone(), None, response(vec![hunk(1, 1)]));
    assert_eq!(loaded.comparison, branch);
    assert_ne!(loaded.comparison, Comparison::Worktree);
    let empty = Snapshot::empty("/r");
    assert_eq!(empty.scope, Scope::Worktree);
    assert!(empty.base.is_none() && empty.refs.is_none() && !empty.refs_overflow);
    assert_eq!((empty.pick_seq, empty.refs_seq), (0, 0));
    assert!(empty.rename_sources.is_empty());
}
