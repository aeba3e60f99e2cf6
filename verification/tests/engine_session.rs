use herdr_hunks::engine::gitver::{GitCheckError, GitVersion};
use herdr_hunks::engine::session::{Effect, Engine, Event, WatcherPhase};
use herdr_hunks::engine::{Command, DiffState, FileKey, RepoState};
use herdr_hunks::git::{ChangedFile, ChangedFileStatus, FileDiff, GetGitDiffResponse, GitStatusResponse};

fn file(path: &str, status: ChangedFileStatus) -> ChangedFile {
    ChangedFile {
        path: path.into(),
        status,
        staged: false,
        insertions: Some(1),
        deletions: Some(0),
    }
}

fn key(path: &str) -> FileKey {
    FileKey { path: path.into(), staged: false, untracked: false }
}

fn status(files: Vec<ChangedFile>) -> Event {
    Event::StatusDone {
        response: Ok(GitStatusResponse { repo_root: "/r".into(), files }),
        head: Some((Some("main".into()), None)),
    }
}

fn diff(path: &str, raw: &str) -> GetGitDiffResponse {
    GetGitDiffResponse {
        file_diff: FileDiff { file_path: path.into(), old_path: None, new_path: None, hunks: Vec::new() },
        old_text: String::new(),
        new_text: String::new(),
        raw_diff: raw.into(),
        repo_root: "/r".into(),
    }
}

fn requested_diff(effects: &[Effect]) -> Option<(u64, FileKey, bool)> {
    effects.iter().find_map(|e| match e {
        Effect::RequestDiff { generation, key, untracked } => Some((*generation, key.clone(), *untracked)),
        _ => None,
    })
}

fn publishes(effects: &[Effect]) -> usize {
    effects.iter().filter(|e| matches!(e, Effect::Publish)).count()
}

fn started() -> Engine {
    let mut engine = Engine::new("/r");
    let effects = engine.started(Ok(GitVersion { major: 2, minor: 45 }));
    assert!(matches!(effects[..], [Effect::StartWatcher, Effect::RequestStatus { with_head: true }]));
    engine
}

#[test]
fn first_load_selects_the_first_row_and_loads_its_diff() {
    let mut engine = started();
    let effects = engine.handle(status(vec![file("a.txt", ChangedFileStatus::Modified), file("b.txt", ChangedFileStatus::Modified)]));
    assert_eq!(publishes(&effects), 1);
    assert_eq!(engine.snapshot.revision, 1);
    assert_eq!(engine.snapshot.selected, Some(key("a.txt")));
    assert!(matches!(engine.snapshot.diff, DiffState::Loading));
    assert_eq!(
        engine.snapshot.repo,
        RepoState::Repo { toplevel: "/r".into(), branch: Some("main".into()), worktree: None }
    );
    let (generation, requested, untracked) = requested_diff(&effects).unwrap();
    assert_eq!((generation, requested, untracked), (1, key("a.txt"), false));
    let effects = engine.handle(Event::DiffDone { generation: 1, key: key("a.txt"), result: Ok(diff("a.txt", "r1")) });
    assert_eq!(publishes(&effects), 1);
    match &engine.snapshot.diff {
        DiffState::Ready(d) => assert_eq!((d.key.clone(), d.raw_diff.as_str()), (key("a.txt"), "r1")),
        other => panic!("{other:?}"),
    }
    assert!(!engine.snapshot.refreshing);
}

#[test]
fn a_diff_is_never_published_for_a_deselected_row() {
    let mut engine = started();
    engine.handle(status(vec![file("a.txt", ChangedFileStatus::Modified), file("b.txt", ChangedFileStatus::Modified)]));
    let effects = engine.handle(Event::Command(Command::SelectNext));
    assert_eq!(engine.snapshot.selected, Some(key("b.txt")));
    let (generation, requested, _) = requested_diff(&effects).unwrap();
    assert_eq!((generation, requested), (2, key("b.txt")));
    // The answer for a.txt's superseded request is stale and changes nothing.
    let revision = engine.snapshot.revision;
    let effects = engine.handle(Event::DiffDone { generation: 1, key: key("a.txt"), result: Ok(diff("a.txt", "r1")) });
    assert!(effects.is_empty());
    assert_eq!(engine.snapshot.revision, revision);
    assert!(matches!(engine.snapshot.diff, DiffState::Loading));
}

#[test]
fn select_next_wraps_and_prev_wraps_back() {
    let mut engine = started();
    engine.handle(status(vec![file("a.txt", ChangedFileStatus::Modified), file("b.txt", ChangedFileStatus::Modified)]));
    engine.handle(Event::Command(Command::SelectNext));
    engine.handle(Event::Command(Command::SelectNext));
    assert_eq!(engine.snapshot.selected, Some(key("a.txt")));
    engine.handle(Event::Command(Command::SelectPrev));
    assert_eq!(engine.snapshot.selected, Some(key("b.txt")));
    let effects = engine.handle(Event::Command(Command::Select(key("missing"))));
    assert!(effects.is_empty());
    assert_eq!(engine.snapshot.selected, Some(key("b.txt")));
}

#[test]
fn a_burst_of_refreshes_runs_one_status_at_a_time() {
    let mut engine = started();
    let effects = engine.handle(Event::Triggered { with_head: false });
    assert!(matches!(effects[..], [Effect::NoteWatcherRefresh]), "{effects:?}");
    assert!(engine.status_dirty);
    engine.handle(Event::Triggered { with_head: true });
    assert!(engine.status_dirty_head);
    let effects = engine.handle(status(vec![]));
    assert!(effects.iter().any(|e| matches!(e, Effect::RequestStatus { with_head: true })));
    assert!(!engine.status_dirty && !engine.status_dirty_head && engine.status_in_flight);
}

#[test]
fn refresh_without_a_selected_row_clears_the_busy_flag() {
    let mut engine = started();
    engine.handle(status(vec![]));
    let effects = engine.handle(Event::Command(Command::Refresh));
    assert!(engine.snapshot.refreshing);
    assert_eq!(publishes(&effects), 1);
    assert!(effects.iter().any(|e| matches!(e, Effect::RequestStatus { with_head: true })));
    engine.handle(status(vec![]));
    assert!(!engine.snapshot.refreshing);
    assert!(matches!(engine.snapshot.diff, DiffState::Idle));
}

#[test]
fn an_unchanged_repository_publishes_nothing_more() {
    let mut engine = started();
    engine.handle(status(vec![file("a.txt", ChangedFileStatus::Modified)]));
    engine.handle(Event::DiffDone { generation: 1, key: key("a.txt"), result: Ok(diff("a.txt", "r1")) });
    let revision = engine.snapshot.revision;
    let effects = engine.handle(status(vec![file("a.txt", ChangedFileStatus::Modified)]));
    assert_eq!(publishes(&effects), 0, "{effects:?}");
    let effects = engine.handle(Event::DiffDone { generation: 2, key: key("a.txt"), result: Ok(diff("a.txt", "r1")) });
    assert_eq!(publishes(&effects), 0);
    assert_eq!(engine.snapshot.revision, revision);
}

#[test]
fn degraded_mode_restarts_the_watcher_on_refresh() {
    let mut engine = started();
    let effects = engine.handle(Event::WatcherStarted(Err("inotify limit".into())));
    assert_eq!(publishes(&effects), 1);
    assert_eq!(engine.watcher, WatcherPhase::Failed);
    assert_eq!(engine.snapshot.watcher_error.as_deref(), Some("inotify limit"));
    // Without a running watcher every tick reads status and the branch.
    engine.handle(status(vec![]));
    let effects = engine.handle(Event::Tick { quiet: false });
    assert!(matches!(effects[..], [Effect::RequestStatus { with_head: true }]));
    engine.handle(status(vec![]));
    let effects = engine.handle(Event::Command(Command::Refresh));
    assert!(effects.iter().any(|e| matches!(e, Effect::StartWatcher)));
    engine.handle(Event::WatcherStarted(Ok(())));
    assert_eq!(engine.watcher, WatcherPhase::Running);
    assert_eq!(engine.snapshot.watcher_error, None);
    engine.handle(status(vec![]));
    assert!(engine.handle(Event::Tick { quiet: false }).is_empty());
    assert!(matches!(engine.handle(Event::Tick { quiet: true })[..], [Effect::RequestStatus { with_head: false }]));
}

#[test]
fn a_missing_git_is_retryable_and_an_old_git_is_fatal() {
    let mut engine = Engine::new("/r");
    let effects = engine.started(Err(GitCheckError::Missing("git not found".into())));
    assert_eq!(publishes(&effects), 1);
    assert!(engine.git_missing);
    assert_eq!(engine.snapshot.status_error.as_deref(), Some("git not found"));
    let effects = engine.handle(Event::Command(Command::Refresh));
    assert!(effects.iter().any(|e| matches!(e, Effect::CheckGit)));
    let again = engine.handle(Event::Command(Command::Refresh));
    assert!(!again.iter().any(|e| matches!(e, Effect::CheckGit)), "one check at a time");
    assert!(engine.handle(Event::Triggered { with_head: true }).is_empty());
    let effects = engine.handle(Event::GitChecked(Ok(GitVersion { major: 2, minor: 40 })));
    assert!(!engine.git_missing);
    assert!(matches!(effects[0], Effect::StartWatcher));
    assert_eq!(engine.snapshot.status_error, None);

    let mut engine = Engine::new("/r");
    let effects = engine.started(Err(GitCheckError::TooOld("git 2.20 is too old".into())));
    assert!(matches!(effects.last(), Some(Effect::Stop)));
    assert_eq!(engine.snapshot.repo, RepoState::Unusable { reason: "git 2.20 is too old".into() });
}

#[test]
fn a_directory_that_is_not_a_repository_reports_not_a_repo() {
    let mut engine = started();
    engine.handle(Event::StatusDone {
        response: Ok(GitStatusResponse { repo_root: String::new(), files: Vec::new() }),
        head: None,
    });
    assert_eq!(engine.snapshot.repo, RepoState::NotARepo { cwd: "/r".into() });
}

#[test]
fn a_missing_path_is_unusable() {
    let mut engine = Engine::new("/nope");
    let effects = engine.unusable("invalid path '/nope'".into());
    assert_eq!(publishes(&effects), 1);
    assert!(matches!(effects.last(), Some(Effect::Stop)));
    assert_eq!(engine.snapshot.repo, RepoState::Unusable { reason: "invalid path '/nope'".into() });
}

#[test]
fn an_untracked_row_is_diffed_as_untracked_and_a_failure_is_shown() {
    let mut engine = started();
    let effects = engine.handle(status(vec![file("new.txt", ChangedFileStatus::Untracked)]));
    let (generation, requested, untracked) = requested_diff(&effects).unwrap();
    assert_eq!(requested, FileKey { path: "new.txt".into(), staged: false, untracked: true });
    assert!(untracked);
    engine.handle(Event::DiffDone { generation, key: requested, result: Err("boom".into()) });
    assert!(matches!(&engine.snapshot.diff, DiffState::Failed(e) if e == "boom"));
}

fn status_requests(effects: &[Effect]) -> usize {
    effects.iter().filter(|e| matches!(e, Effect::RequestStatus { .. })).count()
}

fn ready_key(engine: &Engine) -> Option<(FileKey, String)> {
    match &engine.snapshot.diff {
        DiffState::Ready(d) => Some((d.key.clone(), d.raw_diff.clone())),
        _ => None,
    }
}

fn two_files() -> Event {
    status(vec![file("a.txt", ChangedFileStatus::Modified), file("b.txt", ChangedFileStatus::Modified)])
}

#[test]
fn startup_runs_exactly_one_status_refresh() {
    let mut engine = Engine::new("/r");
    let mut runs = status_requests(&engine.started(Ok(GitVersion { major: 2, minor: 45 })));
    runs += status_requests(&engine.handle(Event::WatcherStarted(Ok(()))));
    let effects = engine.handle(two_files());
    runs += status_requests(&effects);
    let (generation, requested, _) = requested_diff(&effects).unwrap();
    runs += status_requests(&engine.handle(Event::DiffDone { generation, key: requested, result: Ok(diff("a.txt", "r1")) }));
    assert!(ready_key(&engine).is_some());
    assert_eq!(runs, 1);
}

#[test]
fn select_next_wraps_and_loads_the_other_file() {
    let mut engine = started();
    engine.handle(two_files());
    engine.handle(Event::DiffDone { generation: 1, key: key("a.txt"), result: Ok(diff("a.txt", "ra")) });
    let (generation, requested, _) = requested_diff(&engine.handle(Event::Command(Command::SelectNext))).unwrap();
    assert_eq!(requested, key("b.txt"));
    engine.handle(Event::DiffDone { generation, key: requested, result: Ok(diff("b.txt", "rb")) });
    assert_eq!(ready_key(&engine), Some((key("b.txt"), "rb".to_string())));
    let (generation, requested, _) = requested_diff(&engine.handle(Event::Command(Command::SelectNext))).unwrap();
    assert_eq!(requested, key("a.txt"), "wrapped to a");
    engine.handle(Event::DiffDone { generation, key: requested, result: Ok(diff("a.txt", "ra")) });
    assert_eq!(ready_key(&engine), Some((key("a.txt"), "ra".to_string())));
}

#[test]
fn a_burst_of_watcher_events_is_coalesced() {
    let mut engine = started();
    engine.handle(Event::WatcherStarted(Ok(())));
    engine.handle(two_files());
    engine.handle(Event::DiffDone { generation: 1, key: key("a.txt"), result: Ok(diff("a.txt", "ra")) });
    let mut runs = 0;
    for _ in 0..20 {
        runs += status_requests(&engine.handle(Event::Triggered { with_head: false }));
    }
    runs += status_requests(&engine.handle(two_files()));
    runs += status_requests(&engine.handle(two_files()));
    assert!((1..=3).contains(&runs), "20 events must coalesce into at most 3 refreshes, got {runs}");
}

#[test]
fn a_slow_diff_is_not_starved_by_frequent_polls() {
    let mut engine = started();
    engine.handle(Event::WatcherStarted(Err("no watcher".into())));
    let effects = engine.handle(two_files());
    let (generation, requested, _) = requested_diff(&effects).unwrap();
    // Every tick refreshes while the first diff is still running.
    for _ in 0..5 {
        assert_eq!(status_requests(&engine.handle(Event::Tick { quiet: false })), 1);
        let effects = engine.handle(two_files());
        assert!(requested_diff(&effects).is_none(), "the running diff is not superseded");
    }
    engine.handle(Event::DiffDone { generation, key: requested, result: Ok(diff("a.txt", "ra")) });
    assert_eq!(ready_key(&engine), Some((key("a.txt"), "ra".to_string())));
}

#[test]
fn a_refresh_stays_busy_until_a_diff_started_after_it_completes() {
    let mut engine = started();
    engine.handle(two_files());
    engine.handle(Event::DiffDone { generation: 1, key: key("a.txt"), result: Ok(diff("a.txt", "ra")) });
    let (d1, selected, _) = requested_diff(&engine.handle(Event::Command(Command::SelectNext))).unwrap();
    assert!(matches!(engine.snapshot.diff, DiffState::Loading));
    engine.handle(Event::Command(Command::Refresh));
    assert!(engine.snapshot.refreshing);
    engine.handle(two_files());
    let effects = engine.handle(Event::DiffDone { generation: d1, key: selected.clone(), result: Ok(diff("b.txt", "old")) });
    assert_eq!(ready_key(&engine).map(|(k, _)| k), Some(selected.clone()));
    assert!(engine.snapshot.refreshing, "refresh cleared when the pre-refresh diff completed");
    let (d2, again, _) = requested_diff(&effects).unwrap();
    assert_eq!(again, selected);
    engine.handle(Event::DiffDone { generation: d2, key: again, result: Ok(diff("b.txt", "new")) });
    assert!(!engine.snapshot.refreshing);
    assert_eq!(ready_key(&engine), Some((selected, "new".to_string())));
}

#[test]
fn degraded_mode_converges_on_a_repeated_edit_and_recovers_on_refresh() {
    let mut engine = started();
    engine.handle(Event::WatcherStarted(Err("no watcher".into())));
    engine.handle(two_files());
    engine.handle(Event::DiffDone { generation: 1, key: key("a.txt"), result: Ok(diff("a.txt", "before")) });
    assert!(engine.snapshot.watcher_error.is_some());
    // A poll picks up the second edit.
    engine.handle(Event::Tick { quiet: false });
    let (generation, requested, _) = requested_diff(&engine.handle(two_files())).unwrap();
    engine.handle(Event::DiffDone { generation, key: requested, result: Ok(diff("a.txt", "after")) });
    assert_eq!(ready_key(&engine), Some((key("a.txt"), "after".to_string())));
    // A branch switch reaches the snapshot through the tick.
    engine.handle(Event::Tick { quiet: false });
    engine.handle(Event::StatusDone {
        response: Ok(GitStatusResponse { repo_root: "/r".into(), files: Vec::new() }),
        head: Some((Some("other".into()), None)),
    });
    assert!(matches!(&engine.snapshot.repo, RepoState::Repo { branch: Some(b), .. } if b == "other"));
    let effects = engine.handle(Event::Command(Command::Refresh));
    assert!(effects.iter().any(|e| matches!(e, Effect::StartWatcher)));
    engine.handle(Event::WatcherStarted(Ok(())));
    assert!(engine.snapshot.watcher_error.is_none(), "watcher recovered");
}

#[test]
fn rapid_selection_does_not_wait_for_superseded_diffs() {
    let mut engine = started();
    engine.handle(status(vec![
        file("a.txt", ChangedFileStatus::Modified),
        file("b.txt", ChangedFileStatus::Modified),
        file("c.txt", ChangedFileStatus::Modified),
    ]));
    let mut last = None;
    for _ in 0..4 {
        last = requested_diff(&engine.handle(Event::Command(Command::SelectNext)));
    }
    let (generation, requested, _) = last.unwrap();
    assert_eq!(requested, key("b.txt"));
    engine.handle(Event::DiffDone { generation, key: requested.clone(), result: Ok(diff("b.txt", "rb")) });
    assert_eq!(ready_key(&engine), Some((requested, "rb".to_string())));
    // The superseded answers arrive late and change nothing.
    let revision = engine.snapshot.revision;
    assert!(engine.handle(Event::DiffDone { generation: 1, key: key("a.txt"), result: Ok(diff("a.txt", "ra")) }).is_empty());
    assert_eq!(engine.snapshot.revision, revision);
}
