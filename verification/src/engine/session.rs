//! A repository session's decisions: which git work to start, which answers to keep, and
//! when a new snapshot is published. The loop that runs git, watches the repository and
//! waits on timers feeds it events and performs the effects it returns.
use std::sync::Arc;

use vstd::prelude::*;

use crate::engine::gitver::{GitCheckError, GitVersion};
use crate::engine::types::{key_of_file, key_view};
use crate::engine::{Command, Comparison, DiffState, FileKey, LoadedDiff, RepoState, Snapshot};
use crate::engine::nav::diff_numbers_fit;
use crate::engine::types::lines_total;
use crate::git::{ChangedFile, ChangedFileStatus, GetGitDiffResponse, GitStatusResponse, DiffHunk};
use crate::strs::{copy, copy_opt, opt_view, own, same, same_opt_str};

verus! {

/// Whether the repository watcher is being started, runs, or is not running.
#[derive(Debug, Clone, Copy, PartialEq, Eq, Structural)]
pub enum WatcherPhase {
    Starting,
    Running,
    Failed,
}

/// The session's state: the snapshot last published and the work in flight.
pub struct Engine {
    pub snapshot: Snapshot,
    /// The canonical directory the session shows.
    pub cwd: String,
    pub branch: Option<String>,
    pub worktree: Option<String>,
    pub watcher: WatcherPhase,
    /// git was not found: refreshes re-check it instead of running status.
    pub git_missing: bool,
    pub git_check_in_flight: bool,
    pub status_in_flight: bool,
    /// A status refresh was asked for while one ran; `status_dirty_head` if any asked for
    /// the branch too.
    pub status_dirty: bool,
    pub status_dirty_head: bool,
    pub diff_generation: u64,
    pub diff_in_flight: Option<(u64, FileKey)>,
    pub diff_dirty: bool,
}

/// What the loop does for the session, in order.
#[derive(Debug)]
pub enum Effect {
    /// Send the session's snapshot, as it stands after the step, to the viewer.
    Publish,
    StartWatcher,
    /// Run `git status`, and read the branch and worktree name too when `with_head`.
    RequestStatus { with_head: bool },
    /// Load the diff of `key`; the answer carries `generation` back.
    RequestDiff { generation: u64, key: FileKey, untracked: bool },
    /// Check the installed git again.
    CheckGit,
    /// Remember now as the time of the last watcher-driven refresh.
    NoteWatcherRefresh,
    /// Leave the loop and stop the watcher.
    Stop,
}

/// What the loop hands the session.
pub enum Event {
    Command(Command),
    /// The watcher reported changes; `with_head` if any of them moved HEAD.
    Triggered { with_head: bool },
    /// The poll interval elapsed; `quiet` if no watcher-driven refresh ran for a whole interval.
    Tick { quiet: bool },
    GitChecked(Result<GitVersion, GitCheckError>),
    WatcherStarted(Result<(), String>),
    StatusDone { response: Result<GitStatusResponse, String>, head: Option<(Option<String>, Option<String>)> },
    DiffDone { generation: u64, key: FileKey, result: Result<GetGitDiffResponse, String> },
}

// ---------------------------------------------------------------------------
// What a published snapshot shows.
// ---------------------------------------------------------------------------

pub open spec fn repo_view(r: RepoState) -> (int, Seq<char>, Option<Seq<char>>, Option<Seq<char>>) {
    match r {
        RepoState::Repo { toplevel, branch, worktree } => (0, toplevel@, opt_view(branch), opt_view(worktree)),
        RepoState::NotARepo { cwd } => (1, cwd@, None, None),
        RepoState::Unusable { reason } => (2, reason@, None, None),
    }
}

pub open spec fn file_view(f: ChangedFile) -> (Seq<char>, ChangedFileStatus, bool, Option<u32>, Option<u32>) {
    (f.path@, f.status, f.staged, f.insertions, f.deletions)
}

pub open spec fn files_view(v: Seq<ChangedFile>) -> Seq<(Seq<char>, ChangedFileStatus, bool, Option<u32>, Option<u32>)> {
    v.map_values(|f: ChangedFile| file_view(f))
}

pub open spec fn key_opt_view(k: Option<FileKey>) -> Option<(Seq<char>, bool, bool)> {
    match k {
        Some(k) => Some(key_view(k)),
        None => None,
    }
}

/// Two diff states show the same: the same state, the same failure, the same loaded diff.
pub open spec fn diff_same(a: DiffState, b: DiffState) -> bool {
    match (a, b) {
        (DiffState::Idle, DiffState::Idle) => true,
        (DiffState::Loading, DiffState::Loading) => true,
        (DiffState::Failed(x), DiffState::Failed(y)) => x@ == y@,
        (DiffState::Ready(x), DiffState::Ready(y)) => x == y,
        _ => false,
    }
}

/// Whether two snapshots show the same: a snapshot that would show nothing new is not
/// published again.
pub open spec fn shows_same(a: Snapshot, b: Snapshot) -> bool {
    &&& repo_view(a.repo) == repo_view(b.repo)
    &&& files_view(a.files@) == files_view(b.files@)
    &&& key_opt_view(a.selected) == key_opt_view(b.selected)
    &&& diff_same(a.diff, b.diff)
    &&& opt_view(a.status_error) == opt_view(b.status_error)
    &&& opt_view(a.watcher_error) == opt_view(b.watcher_error)
    &&& a.refreshing == b.refreshing
}

fn same_repo(a: &RepoState, b: &RepoState) -> (r: bool)
    ensures
        r == (repo_view(*a) == repo_view(*b)),
{
    match (a, b) {
        (
            RepoState::Repo { toplevel: t1, branch: b1, worktree: w1 },
            RepoState::Repo { toplevel: t2, branch: b2, worktree: w2 },
        ) => same(t1.as_str(), t2.as_str()) && same_opt_str(b1, b2) && same_opt_str(w1, w2),
        (RepoState::NotARepo { cwd: c1 }, RepoState::NotARepo { cwd: c2 }) => same(c1.as_str(), c2.as_str()),
        (RepoState::Unusable { reason: r1 }, RepoState::Unusable { reason: r2 }) => same(r1.as_str(), r2.as_str()),
        _ => false,
    }
}

fn same_file(a: &ChangedFile, b: &ChangedFile) -> (r: bool)
    ensures
        r == (file_view(*a) == file_view(*b)),
{
    same(a.path.as_str(), b.path.as_str()) && a.status == b.status && a.staged == b.staged && a.insertions
        == b.insertions && a.deletions == b.deletions
}

fn same_files(a: &Vec<ChangedFile>, b: &Vec<ChangedFile>) -> (r: bool)
    ensures
        r == (files_view(a@) == files_view(b@)),
{
    if a.len() != b.len() {
        proof {
            assert(files_view(a@).len() != files_view(b@).len());
        }
        return false;
    }
    let mut i: usize = 0;
    while i < a.len()
        invariant
            a@.len() == b@.len(),
            i <= a@.len(),
            forall|k: int| 0 <= k < i ==> file_view(#[trigger] a@[k]) == file_view(b@[k]),
        decreases a@.len() - i,
    {
        if !same_file(&a[i], &b[i]) {
            proof {
                assert(files_view(a@)[i as int] != files_view(b@)[i as int]);
            }
            return false;
        }
        i = i + 1;
    }
    proof {
        assert(files_view(a@) =~= files_view(b@)) by {
            assert forall|k: int| 0 <= k < a@.len() implies files_view(a@)[k] == files_view(b@)[k] by {
                assert(file_view(a@[k]) == file_view(b@[k]));
            }
        }
    }
    true
}

fn same_key_opt(a: &Option<FileKey>, b: &Option<FileKey>) -> (r: bool)
    ensures
        r == (key_opt_view(*a) == key_opt_view(*b)),
{
    match (a, b) {
        (Some(x), Some(y)) => x.same(y),
        (None, None) => true,
        _ => false,
    }
}

// ---------------------------------------------------------------------------
// Selection among the rows.
// ---------------------------------------------------------------------------

/// The index of the first row whose key is `key`.
pub open spec fn index_of_key(files: Seq<ChangedFile>, key: Option<FileKey>, i: int) -> Option<int>
    decreases files.len() - i,
{
    if i < 0 || i >= files.len() {
        None
    } else if key_opt_view(key) == Some(key_of_file(files[i])) {
        Some(i)
    } else {
        index_of_key(files, key, i + 1)
    }
}

proof fn lemma_index_of_key(files: Seq<ChangedFile>, key: Option<FileKey>, i: int)
    requires
        0 <= i,
    ensures
        index_of_key(files, key, i) matches Some(k) ==> i <= k < files.len() && key_opt_view(key) == Some(
            key_of_file(files[k]),
        ),
        index_of_key(files, key, i) is None ==> forall|k: int|
            i <= k < files.len() ==> key_opt_view(key) != Some(key_of_file(#[trigger] files[k])),
    decreases files.len() - i,
{
    if i < files.len() {
        lemma_index_of_key(files, key, i + 1);
    }
}

fn position(files: &Vec<ChangedFile>, key: &Option<FileKey>) -> (r: Option<usize>)
    ensures
        match r {
            Some(k) => index_of_key(files@, *key, 0) == Some(k as int),
            None => index_of_key(files@, *key, 0) is None,
        },
{
    let mut i: usize = 0;
    while i < files.len()
        invariant
            i <= files@.len(),
            index_of_key(files@, *key, 0) == index_of_key(files@, *key, i as int),
        decreases files@.len() - i,
    {
        let hit = match key {
            Some(k) => {
                let fk = FileKey::of(&files[i]);
                fk.same(k)
            },
            None => false,
        };
        if hit {
            return Some(i);
        }
        i = i + 1;
    }
    None
}

/// Whether a row of `files` is the untracked row of `key`.
pub open spec fn untracked_row(files: Seq<ChangedFile>, key: FileKey) -> bool {
    exists|k: int|
        0 <= k < files.len() && key_of_file(#[trigger] files[k]) == key_view(key) && files[k].status
            == ChangedFileStatus::Untracked
}

fn has_untracked_row(files: &Vec<ChangedFile>, key: &FileKey) -> (r: bool)
    ensures
        r == untracked_row(files@, *key),
{
    let mut i: usize = 0;
    while i < files.len()
        invariant
            i <= files@.len(),
            forall|k: int|
                0 <= k < i ==> !(key_of_file(#[trigger] files@[k]) == key_view(*key) && files@[k].status
                    == ChangedFileStatus::Untracked),
        decreases files@.len() - i,
    {
        let fk = FileKey::of(&files[i]);
        if fk.same(key) && matches!(files[i].status, ChangedFileStatus::Untracked) {
            return true;
        }
        i = i + 1;
    }
    false
}

// ---------------------------------------------------------------------------
// Starting work.
// ---------------------------------------------------------------------------

impl Engine {
    /// Everything but the snapshot is as before.
    pub open spec fn same_work(&self, other: Engine) -> bool {
        &&& self.cwd == other.cwd
        &&& self.branch == other.branch
        &&& self.worktree == other.worktree
        &&& self.watcher == other.watcher
        &&& self.git_missing == other.git_missing
        &&& self.git_check_in_flight == other.git_check_in_flight
        &&& self.status_in_flight == other.status_in_flight
        &&& self.status_dirty == other.status_dirty
        &&& self.status_dirty_head == other.status_dirty_head
        &&& self.diff_generation == other.diff_generation
        &&& self.diff_in_flight == other.diff_in_flight
        &&& self.diff_dirty == other.diff_dirty
    }

    /// One status refresh at a time: a request while one runs is remembered, with whether
    /// it wanted the branch, and runs when the current one answers.
    pub open spec fn status_requested(old: Engine, new: Engine, with_head: bool, effects: Seq<Effect>) -> bool {
        if old.status_in_flight {
            &&& new == Engine { status_dirty: true, status_dirty_head: old.status_dirty_head || with_head, ..old }
            &&& effects == Seq::<Effect>::empty()
        } else {
            &&& new == Engine { status_in_flight: true, ..old }
            &&& effects == seq![Effect::RequestStatus { with_head }]
        }
    }

    fn request_status(&mut self, with_head: bool, effects: &mut Vec<Effect>)
        ensures
            exists|added: Seq<Effect>|
                Self::status_requested(*old(self), *final(self), with_head, added) && final(effects)@ == old(effects)@
                    + added,
    {
        if self.status_in_flight {
            self.status_dirty = true;
            self.status_dirty_head = self.status_dirty_head || with_head;
            proof {
                assert(effects@ == old(effects)@ + Seq::<Effect>::empty());
            }
        } else {
            self.status_in_flight = true;
            effects.push(Effect::RequestStatus { with_head });
            proof {
                assert(effects@ == old(effects)@ + seq![Effect::RequestStatus { with_head }]);
            }
        }
    }

    /// A diff already loading for the same key is marked to run again when it answers; any
    /// other request starts a new generation, which makes every older answer stale.
    pub open spec fn diff_requested(old: Engine, new: Engine, key: FileKey, effects: Seq<Effect>) -> bool {
        if old.diff_in_flight matches Some((_, pending)) && key_view(pending) == key_view(key) {
            &&& new == Engine { diff_dirty: true, ..old }
            &&& effects == Seq::<Effect>::empty()
        } else {
            let generation = (old.diff_generation + 1) as u64;
            &&& new.diff_generation == generation
            &&& new.diff_in_flight matches Some((g, k)) && g == generation && key_view(k) == key_view(key)
            &&& !new.diff_dirty
            &&& new == Engine { diff_generation: new.diff_generation, diff_in_flight: new.diff_in_flight, diff_dirty: false, ..old }
            &&& effects.len() == 1
            &&& effects[0] matches Effect::RequestDiff { generation: g, key: k, untracked } && g == generation
                && key_view(k) == key_view(key) && untracked == untracked_row(old.snapshot.files@, key)
        }
    }

    fn request_diff(&mut self, key: FileKey, effects: &mut Vec<Effect>)
        requires
            old(self).diff_generation < u64::MAX,
        ensures
            exists|added: Seq<Effect>|
                Self::diff_requested(*old(self), *final(self), key, added) && final(effects)@ == old(effects)@ + added,
    {
        let pending = match &self.diff_in_flight {
            Some((_, pending)) => pending.same(&key),
            None => false,
        };
        if pending {
            self.diff_dirty = true;
            proof {
                assert(effects@ == old(effects)@ + Seq::<Effect>::empty());
            }
            return;
        }
        self.diff_generation = self.diff_generation + 1;
        let generation = self.diff_generation;
        self.diff_in_flight = Some((generation, key.duplicate()));
        self.diff_dirty = false;
        let untracked = has_untracked_row(&self.snapshot.files, &key);
        effects.push(Effect::RequestDiff { generation, key, untracked });
        proof {
            let added = seq![effects@.last()];
            assert(effects@ == old(effects)@ + added);
        }
    }

    fn start_watcher(&mut self, effects: &mut Vec<Effect>)
        ensures
            *final(self) == (Engine { watcher: WatcherPhase::Starting, ..*old(self) }),
            final(effects)@ == old(effects)@.push(Effect::StartWatcher),
    {
        self.watcher = WatcherPhase::Starting;
        effects.push(Effect::StartWatcher);
    }

    /// The revision after a step that leaves the snapshot `next`: a snapshot is published
    /// when none was yet, or when it shows something new.
    pub open spec fn publishes(old: Snapshot, next: Snapshot) -> bool {
        old.revision == 0 || !shows_same(old, next)
    }

    pub open spec fn published(old: Snapshot, next: Snapshot) -> Snapshot {
        Snapshot {
            revision: if Self::publishes(old, next) {
                (old.revision + 1) as u64
            } else {
                old.revision
            },
            ..next
        }
    }

    pub open spec fn publish_effects(old: Snapshot, next: Snapshot) -> Seq<Effect> {
        if Self::publishes(old, next) {
            seq![Effect::Publish]
        } else {
            seq![]
        }
    }
}

// ---------------------------------------------------------------------------
// Steps.
// ---------------------------------------------------------------------------

/// The row a selection command picks, as a key: `Select` a listed key, `SelectNext` and
/// `SelectPrev` the neighbour of the selected row (of the first row when none is selected),
/// wrapping around; nothing for an empty list or any other command.
pub open spec fn chosen_key(files: Seq<ChangedFile>, selected: Option<FileKey>, command: Command) -> Option<(Seq<char>, bool, bool)> {
    match command {
        Command::Select(key) => match index_of_key(files, Some(key), 0) {
            Some(k) => Some(key_of_file(files[k])),
            None => None,
        },
        Command::SelectNext => if files.len() == 0 {
            None
        } else {
            let current = match index_of_key(files, selected, 0) {
                Some(k) => k,
                None => 0,
            };
            Some(key_of_file(files[if current + 1 == files.len() { 0 } else { current + 1 }]))
        },
        Command::SelectPrev => if files.len() == 0 {
            None
        } else {
            let current = match index_of_key(files, selected, 0) {
                Some(k) => k,
                None => 0,
            };
            Some(key_of_file(files[if current == 0 { files.len() - 1 } else { current - 1 }]))
        },
        _ => None,
    }
}

impl Engine {
    /// The state a new session starts in, before anything is published.
    pub fn new(cwd: &str) -> (r: Self)
        ensures
            r.snapshot.revision == 0,
            r.snapshot.repo matches RepoState::NotARepo { cwd: c } && c@ == cwd@,
            r.snapshot.files@.len() == 0,
            r.snapshot.selected is None,
            r.snapshot.diff is Idle,
            r.snapshot.status_error is None,
            r.snapshot.watcher_error is None,
            !r.snapshot.refreshing,
            r.cwd@ == cwd@,
            r.branch is None,
            r.worktree is None,
            r.watcher == WatcherPhase::Failed,
            !r.git_missing,
            !r.git_check_in_flight,
            !r.status_in_flight,
            !r.status_dirty,
            !r.status_dirty_head,
            r.diff_generation == 0,
            r.diff_in_flight is None,
            !r.diff_dirty,
    {
        Engine {
            snapshot: Snapshot::empty(cwd),
            cwd: own(cwd),
            branch: None,
            worktree: None,
            watcher: WatcherPhase::Failed,
            git_missing: false,
            git_check_in_flight: false,
            status_in_flight: false,
            status_dirty: false,
            status_dirty_head: false,
            diff_generation: 0,
            diff_in_flight: None,
            diff_dirty: false,
        }
    }

    /// Whether a step can count one more publication and one more diff generation.
    pub open spec fn can_step(&self) -> bool {
        self.snapshot.revision < u64::MAX && self.diff_generation < u64::MAX
    }

    /// Publishes the snapshot as it now stands when `changed` says it shows something new
    /// since `before`, or when nothing was published yet.
    fn publish(&mut self, changed: bool, Ghost(before): Ghost<Snapshot>, effects: &mut Vec<Effect>)
        requires
            before.revision == old(self).snapshot.revision,
            before.revision < u64::MAX,
            changed == !shows_same(before, old(self).snapshot),
        ensures
            final(self).snapshot == Self::published(before, old(self).snapshot),
            final(self).same_work(*old(self)),
            final(effects)@ == old(effects)@ + Self::publish_effects(before, old(self).snapshot),
    {
        if self.snapshot.revision == 0 || changed {
            self.snapshot.revision = self.snapshot.revision + 1;
            effects.push(Effect::Publish);
        } else {
            proof {
                assert(effects@ == old(effects)@ + Seq::<Effect>::empty());
            }
        }
    }
}

impl Engine {
    /// A failed watcher is started again.
    pub open spec fn with_watcher_restarted(e: Engine, phase: WatcherPhase) -> Engine {
        if phase == WatcherPhase::Failed {
            Engine { watcher: WatcherPhase::Starting, ..e }
        } else {
            e
        }
    }

    pub open spec fn restart_effects(effects: Seq<Effect>, phase: WatcherPhase) -> Seq<Effect> {
        if phase == WatcherPhase::Failed {
            effects.push(Effect::StartWatcher)
        } else {
            effects
        }
    }

    pub open spec fn refreshed(old: Engine, new: Engine, effects: Seq<Effect>) -> bool {
        let next = Snapshot { refreshing: true, ..old.snapshot };
        let s1 = Engine { snapshot: Self::published(old.snapshot, next), ..old };
        let pe = Self::publish_effects(old.snapshot, next);
        if old.git_missing {
            if old.git_check_in_flight {
                new == s1 && effects == pe
            } else {
                new == Engine { git_check_in_flight: true, ..s1 } && effects == pe.push(Effect::CheckGit)
            }
        } else {
            let s2 = Self::with_watcher_restarted(s1, old.watcher);
            let e2 = Self::restart_effects(pe, old.watcher);
            exists|added: Seq<Effect>| Self::status_requested(s2, new, true, added) && effects == e2 + added
        }
    }

    /// `r`: the snapshot shows a refresh under way; with git missing, git is checked again
    /// (once at a time); otherwise a failed watcher is restarted and status runs.
    fn on_refresh(&mut self) -> (effects: Vec<Effect>)
        requires
            old(self).can_step(),
        ensures
            Self::refreshed(*old(self), *final(self), effects@),
    {
        let ghost before = self.snapshot;
        let ghost old_self = *self;
        let changed = !self.snapshot.refreshing;
        self.snapshot.refreshing = true;
        let mut effects: Vec<Effect> = Vec::new();
        self.publish(changed, Ghost(before), &mut effects);
        proof {
            let next = Snapshot { refreshing: true, ..before };
            assert(self.snapshot == Self::published(before, next));
            assert(*self == Engine { snapshot: Self::published(before, next), ..old_self });
            assert(effects@ == Self::publish_effects(before, next));
        }
        if self.git_missing {
            if !self.git_check_in_flight {
                self.git_check_in_flight = true;
                effects.push(Effect::CheckGit);
            }
        } else {
            if self.watcher == WatcherPhase::Failed {
                self.start_watcher(&mut effects);
            }
            let ghost s2 = *self;
            let ghost e2 = effects@;
            self.request_status(true, &mut effects);
            proof {
                let next = Snapshot { refreshing: true, ..before };
                let s1 = Engine { snapshot: Self::published(before, next), ..old_self };
                assert(s2 == Self::with_watcher_restarted(s1, old_self.watcher));
                assert(e2 == Self::restart_effects(Self::publish_effects(before, next), old_self.watcher));
                let added = choose|added: Seq<Effect>|
                    Self::status_requested(s2, *self, true, added) && effects@ == e2 + added;
                assert(Self::status_requested(s2, *self, true, added));
            }
        }
        effects
    }

    pub open spec fn selection_made(old: Engine, command: Command, new: Engine, effects: Seq<Effect>) -> bool {
        match chosen_key(old.snapshot.files@, old.snapshot.selected, command) {
            None => new == old && effects.len() == 0,
            Some(kv) => exists|sel: FileKey, key: FileKey, added: Seq<Effect>|
                #![trigger Self::diff_requested(Engine { snapshot: Self::published(old.snapshot, Snapshot { selected: Some(sel), diff: DiffState::Loading, ..old.snapshot }), ..old }, new, key, added)]
                {
                    let next = Snapshot { selected: Some(sel), diff: DiffState::Loading, ..old.snapshot };
                    let s1 = Engine { snapshot: Self::published(old.snapshot, next), ..old };
                    &&& key_view(sel) == kv
                    &&& key_view(key) == kv
                    &&& Self::diff_requested(s1, new, key, added)
                    &&& effects == Self::publish_effects(old.snapshot, next) + added
                },
        }
    }

    fn chosen(&self, command: &Command) -> (r: Option<FileKey>)
        ensures
            key_opt_view(r) == chosen_key(self.snapshot.files@, self.snapshot.selected, *command),
    {
        let files = &self.snapshot.files;
        match command {
            Command::Select(key) => {
                let wanted = Some(key.duplicate());
                match position(files, &wanted) {
                    Some(k) => {
                        proof {
                            lemma_index_of_key(files@, wanted, 0);
                            assert(key_opt_view(wanted) == key_opt_view(Some(*key)));
                            lemma_index_of_key_view(files@, wanted, Some(*key), 0);
                        }
                        Some(FileKey::of(&files[k]))
                    },
                    None => {
                        proof {
                            lemma_index_of_key_view(files@, wanted, Some(*key), 0);
                        }
                        None
                    },
                }
            },
            Command::SelectNext | Command::SelectPrev => {
                if files.len() == 0 {
                    return None;
                }
                let current = match position(files, &self.snapshot.selected) {
                    Some(k) => {
                        proof {
                            lemma_index_of_key(files@, self.snapshot.selected, 0);
                        }
                        k
                    },
                    None => 0,
                };
                let index = if matches!(command, Command::SelectNext) {
                    if current + 1 == files.len() {
                        0
                    } else {
                        current + 1
                    }
                } else {
                    if current == 0 {
                        files.len() - 1
                    } else {
                        current - 1
                    }
                };
                Some(FileKey::of(&files[index]))
            },
            _ => None,
        }
    }

    /// A selection command: the chosen row is selected, its diff shown as loading and
    /// requested; a command that chooses nothing changes nothing.
    fn on_select(&mut self, command: Command) -> (effects: Vec<Effect>)
        requires
            old(self).can_step(),
        ensures
            Self::selection_made(*old(self), command, *final(self), effects@),
    {
        let mut effects: Vec<Effect> = Vec::new();
        let key = match self.chosen(&command) {
            Some(key) => key,
            None => return effects,
        };
        let ghost before = self.snapshot;
        let ghost old_self = *self;
        let sel = Some(key.duplicate());
        let changed = !same_key_opt(&sel, &self.snapshot.selected) || !matches!(self.snapshot.diff, DiffState::Loading);
        self.snapshot.selected = sel;
        self.snapshot.diff = DiffState::Loading;
        proof {
            assert(changed == !shows_same(before, self.snapshot));
        }
        self.publish(changed, Ghost(before), &mut effects);
        let ghost s1 = *self;
        let ghost pe = effects@;
        self.request_diff(key, &mut effects);
        proof {
            let next = Snapshot { selected: sel, diff: DiffState::Loading, ..before };
            assert(s1 == Engine { snapshot: Self::published(before, next), ..old_self });
            let added = choose|added: Seq<Effect>| Self::diff_requested(s1, *self, key, added) && effects@ == pe + added;
            assert(Self::diff_requested(s1, *self, key, added));
        }
        effects
    }
}

/// Keys with the same view find the same row.
proof fn lemma_index_of_key_view(files: Seq<ChangedFile>, a: Option<FileKey>, b: Option<FileKey>, i: int)
    requires
        key_opt_view(a) == key_opt_view(b),
    ensures
        index_of_key(files, a, i) == index_of_key(files, b, i),
    decreases files.len() - i,
{
    if 0 <= i < files.len() {
        lemma_index_of_key_view(files, a, b, i + 1);
    }
}

impl Engine {
    pub open spec fn triggered(old: Engine, with_head: bool, new: Engine, effects: Seq<Effect>) -> bool {
        if old.git_missing {
            new == old && effects.len() == 0
        } else {
            exists|added: Seq<Effect>|
                Self::status_requested(old, new, with_head, added) && effects == seq![Effect::NoteWatcherRefresh] + added
        }
    }

    /// Watcher events (already coalesced by the loop) refresh status, unless git is missing.
    fn on_trigger(&mut self, with_head: bool) -> (effects: Vec<Effect>)
        ensures
            Self::triggered(*old(self), with_head, *final(self), effects@),
    {
        let mut effects: Vec<Effect> = Vec::new();
        if !self.git_missing {
            effects.push(Effect::NoteWatcherRefresh);
            let ghost e1 = effects@;
            let ghost s0 = *self;
            self.request_status(with_head, &mut effects);
            proof {
                let added = choose|added: Seq<Effect>|
                    Self::status_requested(s0, *self, with_head, added) && effects@ == e1 + added;
                assert(e1 == seq![Effect::NoteWatcherRefresh]);
                assert(Self::status_requested(s0, *self, with_head, added));
            }
        }
        effects
    }

    pub open spec fn ticked(old: Engine, quiet: bool, new: Engine, effects: Seq<Effect>) -> bool {
        if old.git_missing || (old.watcher == WatcherPhase::Running && !quiet) {
            new == old && effects.len() == 0
        } else {
            Self::status_requested(old, new, old.watcher != WatcherPhase::Running, effects)
        }
    }

    /// The poll: without a running watcher, status and the branch are read every interval;
    /// with one, status alone, and only after an interval without watcher events.
    fn on_tick(&mut self, quiet: bool) -> (effects: Vec<Effect>)
        ensures
            Self::ticked(*old(self), quiet, *final(self), effects@),
    {
        let mut effects: Vec<Effect> = Vec::new();
        if !self.git_missing {
            if self.watcher != WatcherPhase::Running {
                self.request_status(true, &mut effects);
            } else if quiet {
                self.request_status(false, &mut effects);
            }
        }
        effects
    }

    pub open spec fn watcher_answered(old: Engine, result: Result<(), String>, new: Engine, effects: Seq<Effect>) -> bool {
        let next = Snapshot {
            watcher_error: match result {
                Ok(_) => None,
                Err(e) => Some(e),
            },
            ..old.snapshot
        };
        &&& new == Engine {
            watcher: if result is Ok {
                WatcherPhase::Running
            } else {
                WatcherPhase::Failed
            },
            snapshot: Self::published(old.snapshot, next),
            ..old
        }
        &&& effects == Self::publish_effects(old.snapshot, next)
    }

    /// The watcher's start answered: it runs, or its error is shown.
    fn on_watcher(&mut self, result: Result<(), String>) -> (effects: Vec<Effect>)
        requires
            old(self).can_step(),
        ensures
            Self::watcher_answered(*old(self), result, *final(self), effects@),
    {
        let ghost before = self.snapshot;
        let ghost r = result;
        self.watcher = if result.is_ok() {
            WatcherPhase::Running
        } else {
            WatcherPhase::Failed
        };
        let error = match result {
            Ok(_) => None,
            Err(e) => Some(e),
        };
        let changed = !same_opt_str(&error, &self.snapshot.watcher_error);
        self.snapshot.watcher_error = error;
        let mut effects: Vec<Effect> = Vec::new();
        self.publish(changed, Ghost(before), &mut effects);
        effects
    }

    pub open spec fn git_checked(
        old: Engine,
        result: Result<GitVersion, GitCheckError>,
        new: Engine,
        effects: Seq<Effect>,
    ) -> bool {
        let s0 = Engine { git_check_in_flight: false, ..old };
        match result {
            Ok(_) => {
                let next = Snapshot { status_error: None, ..old.snapshot };
                let s1 = Engine { git_missing: false, watcher: WatcherPhase::Starting, ..s0 };
                exists|mid: Engine, added: Seq<Effect>|
                    #![trigger Self::status_requested(s1, mid, true, added)]
                    Self::status_requested(s1, mid, true, added) && new == Engine {
                        snapshot: Self::published(old.snapshot, next),
                        ..mid
                    } && effects == seq![Effect::StartWatcher] + added + Self::publish_effects(old.snapshot, next)
            },
            Err(GitCheckError::Missing(reason)) => {
                let next = Snapshot { status_error: Some(reason), refreshing: false, ..old.snapshot };
                new == Engine { snapshot: Self::published(old.snapshot, next), ..s0 } && effects
                    == Self::publish_effects(old.snapshot, next)
            },
            Err(GitCheckError::TooOld(reason)) => {
                let next = Snapshot { repo: RepoState::Unusable { reason }, refreshing: false, ..old.snapshot };
                new == Engine { snapshot: Self::published(old.snapshot, next), ..s0 } && effects
                    == Self::publish_effects(old.snapshot, next).push(Effect::Stop)
            },
        }
    }

    /// A repeated git check answered: git found starts the watcher and status; still missing
    /// keeps the reason shown; too old ends the session.
    fn on_git_checked(&mut self, result: Result<GitVersion, GitCheckError>) -> (effects: Vec<Effect>)
        requires
            old(self).can_step(),
        ensures
            Self::git_checked(*old(self), result, *final(self), effects@),
    {
        let ghost before = self.snapshot;
        let ghost old_self = *self;
        self.git_check_in_flight = false;
        let mut effects: Vec<Effect> = Vec::new();
        match result {
            Ok(_) => {
                self.git_missing = false;
                self.start_watcher(&mut effects);
                let ghost s1 = *self;
                let ghost e1 = effects@;
                self.request_status(true, &mut effects);
                let ghost mid = *self;
                let ghost e2 = effects@;
                proof {
                    let added = choose|added: Seq<Effect>|
                        Self::status_requested(s1, mid, true, added) && e2 == e1 + added;
                    assert(Self::status_requested(s1, mid, true, added));
                }
                let changed = self.snapshot.status_error.is_some();
                self.snapshot.status_error = None;
                self.publish(changed, Ghost(before), &mut effects);
                proof {
                    let added = choose|added: Seq<Effect>|
                        Self::status_requested(s1, mid, true, added) && e2 == e1 + added;
                    let next = Snapshot { status_error: None, ..before };
                    assert(*self == Engine { snapshot: Self::published(before, next), ..mid });
                    assert(effects@ =~= seq![Effect::StartWatcher] + added + Self::publish_effects(before, next));
                }
            },
            Err(GitCheckError::Missing(reason)) => {
                let error = Some(reason);
                let changed = !same_opt_str(&error, &self.snapshot.status_error) || self.snapshot.refreshing;
                self.snapshot.status_error = error;
                self.snapshot.refreshing = false;
                self.publish(changed, Ghost(before), &mut effects);
            },
            Err(GitCheckError::TooOld(reason)) => {
                let repo = RepoState::Unusable { reason };
                let changed = !same_repo(&repo, &self.snapshot.repo) || self.snapshot.refreshing;
                self.snapshot.repo = repo;
                self.snapshot.refreshing = false;
                self.publish(changed, Ghost(before), &mut effects);
                effects.push(Effect::Stop);
            },
        }
        effects
    }
}

/// The row selected after a status refresh: the selected row while it is still listed; else
/// the row now at its old position (or the last row); else the first row; else none.
pub open spec fn reselected(
    old_files: Seq<ChangedFile>,
    selected: Option<FileKey>,
    new_files: Seq<ChangedFile>,
) -> Option<(Seq<char>, bool, bool)> {
    if selected is Some && index_of_key(new_files, selected, 0) is Some {
        key_opt_view(selected)
    } else if new_files.len() == 0 {
        None
    } else {
        match index_of_key(old_files, selected, 0) {
            Some(i) => Some(key_of_file(new_files[if i < new_files.len() { i } else { new_files.len() - 1 }])),
            None => Some(key_of_file(new_files[0])),
        }
    }
}

/// After a status or diff answer, the diff of `to_diff` is requested, if any.
pub open spec fn diff_step(s: Engine, to_diff: Option<(Seq<char>, bool, bool)>, new: Engine, added: Seq<Effect>) -> bool {
    match to_diff {
        None => new == s && added.len() == 0,
        Some(kv) => exists|key: FileKey|
            #![trigger Engine::diff_requested(s, new, key, added)]
            key_view(key) == kv && Engine::diff_requested(s, new, key, added),
    }
}

/// After a status answer, a refresh asked for meanwhile runs.
pub open spec fn status_again(s: Engine, new: Engine, added: Seq<Effect>) -> bool {
    if s.status_dirty {
        Engine::status_requested(
            Engine { status_dirty: false, status_dirty_head: false, ..s },
            new,
            s.status_dirty_head,
            added,
        )
    } else {
        new == s && added.len() == 0
    }
}

/// What a loaded diff is, as `LoadedDiff::build` promises it for a worktree comparison.
pub open spec fn built(d: LoadedDiff, key: FileKey, response: GetGitDiffResponse) -> bool {
    &&& d.wf()
    &&& crate::engine::types::kept_hunks_ok(
        response.file_diff.hunks@,
        crate::engine::types::MAX_DIFF_LINES as nat,
        d.file_diff.hunks@,
    )
    &&& d.truncated_lines == lines_total(response.file_diff.hunks@) - lines_total(d.file_diff.hunks@)
    &&& d.key == key
    &&& d.comparison == Comparison::Worktree
    &&& d.read_at is None
    &&& d.raw_diff == response.raw_diff
    &&& d.file_diff.file_path == response.file_diff.file_path
    &&& d.file_diff.old_path == response.file_diff.old_path
    &&& d.file_diff.new_path == response.file_diff.new_path
}

/// Whether a diff answer can be loaded: its line numbers and line count fit the machine.
pub open spec fn diff_fits_spec(response: GetGitDiffResponse) -> bool {
    diff_numbers_fit(response.file_diff.hunks@) && lines_total(response.file_diff.hunks@) <= usize::MAX
}

impl Engine {
    /// After a status answer: nothing is in flight, the branch and worktree read with it are
    /// kept, and `shown` is the snapshot.
    pub open spec fn status_base(
        old: Engine,
        response: Result<GitStatusResponse, String>,
        head: Option<(Option<String>, Option<String>)>,
        shown: Snapshot,
    ) -> Engine {
        let (branch, worktree) = match (response, head) {
            (Ok(_), Some((b, w))) => (b, w),
            _ => (old.branch, old.worktree),
        };
        Engine { status_in_flight: false, branch, worktree, snapshot: shown, ..old }
    }

    /// The row whose diff a status answer requests: the selected row, after a success.
    pub open spec fn status_to_diff(response: Result<GitStatusResponse, String>, shown: Snapshot) -> Option<(Seq<char>, bool, bool)> {
        match response {
            Ok(_) => key_opt_view(shown.selected),
            Err(_) => None,
        }
    }

    /// The snapshot a status answer leaves, before it is published.
    pub open spec fn status_next(
        old: Engine,
        response: Result<GitStatusResponse, String>,
        head: Option<(Option<String>, Option<String>)>,
        next: Snapshot,
    ) -> bool {
        let (branch, worktree) = match (response, head) {
            (Ok(_), Some((b, w))) => (b, w),
            _ => (old.branch, old.worktree),
        };
        match response {
            Err(e) => next == Snapshot { status_error: Some(e), refreshing: false, ..old.snapshot },
            Ok(r) => {
                let diff = match old.snapshot.diff {
                    DiffState::Ready(d) => if Some(key_view(d.key)) == key_opt_view(next.selected) {
                        old.snapshot.diff
                    } else if next.selected is Some {
                        DiffState::Loading
                    } else {
                        DiffState::Idle
                    },
                    _ => if next.selected is Some {
                        DiffState::Loading
                    } else {
                        DiffState::Idle
                    },
                };
                &&& repo_view(next.repo) == if r.repo_root@.len() == 0 {
                    (1int, old.cwd@, None::<Seq<char>>, None::<Seq<char>>)
                } else {
                    (0int, r.repo_root@, opt_view(branch), opt_view(worktree))
                }
                &&& key_opt_view(next.selected) == reselected(old.snapshot.files@, old.snapshot.selected, r.files@)
                &&& next == Snapshot {
                    repo: next.repo,
                    files: r.files,
                    selected: next.selected,
                    diff,
                    status_error: None,
                    refreshing: if next.selected is None {
                        false
                    } else {
                        old.snapshot.refreshing
                    },
                    ..old.snapshot
                }
            },
        }
    }

    pub open spec fn status_answered(
        old: Engine,
        response: Result<GitStatusResponse, String>,
        head: Option<(Option<String>, Option<String>)>,
        new: Engine,
        effects: Seq<Effect>,
    ) -> bool {
        let shown = new.snapshot;
        let next = Snapshot { revision: old.snapshot.revision, ..shown };
        let to_diff = Self::status_to_diff(response, shown);
        let s1 = Self::status_base(old, response, head, shown);
        &&& shown == Self::published(old.snapshot, next)
        &&& Self::status_next(old, response, head, next)
        &&& exists|mid: Engine, a1: Seq<Effect>, a2: Seq<Effect>|
            #![trigger diff_step(s1, to_diff, mid, a1), status_again(mid, new, a2)]
            diff_step(s1, to_diff, mid, a1) && status_again(mid, new, a2) && effects == Self::publish_effects(
                old.snapshot,
                next,
            ) + a1 + a2
    }
}

fn reselect(
    Ghost(old_files): Ghost<Seq<ChangedFile>>,
    selected: &Option<FileKey>,
    old_index: Option<usize>,
    new_files: &Vec<ChangedFile>,
) -> (r: Option<FileKey>)
    requires
        match old_index {
            Some(i) => index_of_key(old_files, *selected, 0) == Some(i as int),
            None => index_of_key(old_files, *selected, 0) is None,
        },
    ensures
        key_opt_view(r) == reselected(old_files, *selected, new_files@),
{
    if selected.is_some() {
        if position(new_files, selected).is_some() {
            return match selected {
                Some(k) => Some(k.duplicate()),
                None => None,
            };
        }
    }
    if new_files.len() == 0 {
        return None;
    }
    match old_index {
        Some(i) => {
            let at = if i < new_files.len() {
                i
            } else {
                new_files.len() - 1
            };
            Some(FileKey::of(&new_files[at]))
        },
        None => Some(FileKey::of(&new_files[0])),
    }
}


impl Engine {
    /// A successful status answer: rows, repository and selection renewed, and the diff
    /// shown as loading unless it is the selected row's.
    #[verifier::rlimit(50)]
    fn renew_rows(&mut self, r: GitStatusResponse, head: Option<(Option<String>, Option<String>)>) -> (changed: bool)
        ensures
            final(self).snapshot.refreshing == old(self).snapshot.refreshing,
            Self::status_next(
                *old(self),
                Ok(r),
                head,
                Snapshot {
                    refreshing: if final(self).snapshot.selected is None {
                        false
                    } else {
                        old(self).snapshot.refreshing
                    },
                    ..final(self).snapshot
                },
            ),
            *final(self) == Self::status_base(*old(self), Ok(r), head, final(self).snapshot),
            changed == !shows_same(old(self).snapshot, final(self).snapshot),
    {
        self.status_in_flight = false;
        let mut changed = self.snapshot.status_error.is_some();
        self.snapshot.status_error = None;
        match head {
            Some((b, w)) => {
                self.branch = b;
                self.worktree = w;
            },
            None => {},
        }
        let repo = if r.repo_root.unicode_len() == 0 {
            RepoState::NotARepo { cwd: copy(&self.cwd) }
        } else {
            RepoState::Repo {
                toplevel: r.repo_root,
                branch: copy_opt(&self.branch),
                worktree: copy_opt(&self.worktree),
            }
        };
        changed = changed || !same_repo(&repo, &self.snapshot.repo);
        self.snapshot.repo = repo;
        let old_index = position(&self.snapshot.files, &self.snapshot.selected);
        changed = changed || !same_files(&r.files, &self.snapshot.files);
        let ghost old_files = self.snapshot.files@;
        self.snapshot.files = r.files;
        let sel = reselect(Ghost(old_files), &self.snapshot.selected, old_index, &self.snapshot.files);
        changed = changed || !same_key_opt(&sel, &self.snapshot.selected);
        self.snapshot.selected = sel;
        let same_key = match (&self.snapshot.diff, &self.snapshot.selected) {
            (DiffState::Ready(d), Some(k)) => d.key.same(k),
            _ => false,
        };
        if !same_key {
            let loading = self.snapshot.selected.is_some();
            let was = match &self.snapshot.diff {
                DiffState::Loading => loading,
                DiffState::Idle => !loading,
                _ => false,
            };
            changed = changed || !was;
            self.snapshot.diff = if loading {
                DiffState::Loading
            } else {
                DiffState::Idle
            };
        }
        changed
    }

    /// The snapshot side of a status answer: what it leaves shown, whether that is news,
    /// and which diff to request.
    fn renew(
        &mut self,
        response: Result<GitStatusResponse, String>,
        head: Option<(Option<String>, Option<String>)>,
    ) -> (r: (bool, Option<FileKey>))
        ensures
            Self::status_next(*old(self), response, head, final(self).snapshot),
            *final(self) == Self::status_base(*old(self), response, head, final(self).snapshot),
            r.0 == !shows_same(old(self).snapshot, final(self).snapshot),
            key_opt_view(r.1) == Self::status_to_diff(response, final(self).snapshot),
    {
        let succeeded = response.is_ok();
        let mut changed;
        match response {
            Err(e) => {
                self.status_in_flight = false;
                let error = Some(e);
                changed = !same_opt_str(&error, &self.snapshot.status_error);
                self.snapshot.status_error = error;
            },
            Ok(r) => {
                changed = self.renew_rows(r, head);
            },
        }
        let to_diff = if succeeded {
            match &self.snapshot.selected {
                Some(k) => Some(k.duplicate()),
                None => None,
            }
        } else {
            None
        };
        if to_diff.is_none() {
            changed = changed || self.snapshot.refreshing;
            self.snapshot.refreshing = false;
        }
        (changed, to_diff)
    }

    /// After an answer: the diff of `to_diff` is requested, then a status refresh asked for
    /// meanwhile runs.
    fn follow_up(&mut self, to_diff: Option<FileKey>) -> (effects: Vec<Effect>)
        requires
            old(self).diff_generation < u64::MAX,
        ensures
            exists|mid: Engine, a1: Seq<Effect>, a2: Seq<Effect>|
                diff_step(*old(self), key_opt_view(to_diff), mid, a1) && status_again(mid, *final(self), a2)
                    && effects@ == a1 + a2,
    {
        let ghost s1 = *self;
        let ghost td = to_diff;
        let mut effects: Vec<Effect> = Vec::new();
        match to_diff {
            Some(key) => {
                let ghost k = key;
                self.request_diff(key, &mut effects);
                proof {
                    let a1 = choose|a1: Seq<Effect>|
                        Self::diff_requested(s1, *self, k, a1) && effects@ == Seq::<Effect>::empty() + a1;
                    assert(Self::diff_requested(s1, *self, k, a1));
                    assert(effects@ == a1);
                }
            },
            None => {},
        }
        let ghost mid = *self;
        let ghost e1 = effects@;
        proof {
            assert(diff_step(s1, key_opt_view(td), mid, e1));
        }
        if self.status_dirty {
            self.status_dirty = false;
            let with_head = self.status_dirty_head;
            self.status_dirty_head = false;
            let ghost s2 = *self;
            self.request_status(with_head, &mut effects);
            proof {
                let a2 = choose|a2: Seq<Effect>| Self::status_requested(s2, *self, with_head, a2) && effects@ == e1 + a2;
                assert(Self::status_requested(s2, *self, with_head, a2));
                assert(status_again(mid, *self, a2));
            }
        } else {
            proof {
                assert(status_again(mid, *self, Seq::<Effect>::empty()));
                assert(effects@ =~= e1 + Seq::<Effect>::empty());
            }
        }
        effects
    }

    /// A status answer: on success the rows, the repository and the selection are renewed
    /// and the selected row's diff requested; a failure is shown. A refresh asked for
    /// meanwhile runs next.
    fn on_status(
        &mut self,
        response: Result<GitStatusResponse, String>,
        head: Option<(Option<String>, Option<String>)>,
    ) -> (effects: Vec<Effect>)
        requires
            old(self).can_step(),
        ensures
            Self::status_answered(*old(self), response, head, *final(self), effects@),
    {
        let ghost before = self.snapshot;
        let ghost old_self = *self;
        let ghost resp = response;
        let ghost hd = head;
        let (changed, to_diff) = self.renew(response, head);
        let mut effects: Vec<Effect> = Vec::new();
        self.publish(changed, Ghost(before), &mut effects);
        let ghost s1 = *self;
        let ghost pe = effects@;
        let ghost td = to_diff;
        let mut more = self.follow_up(to_diff);
        let ghost mv = more@;
        effects.append(&mut more);
        proof {
            assert(s1 == Self::status_base(old_self, resp, hd, s1.snapshot));
            assert(key_opt_view(td) == Self::status_to_diff(resp, s1.snapshot));
            let (mid, a1, a2) = choose|mid: Engine, a1: Seq<Effect>, a2: Seq<Effect>|
                diff_step(s1, key_opt_view(td), mid, a1) && status_again(mid, *self, a2) && mv == a1 + a2;
            assert(diff_step(s1, key_opt_view(td), mid, a1));
            assert(status_again(mid, *self, a2));
            assert(effects@ =~= pe + a1 + a2);
        }
        effects
    }
}

impl Engine {
    /// The diff state an answer for the selected row leaves: a failure shown; the same diff
    /// kept when the row and its patch text are unchanged; otherwise the answer loaded.
    pub open spec fn diff_after(old: DiffState, key: FileKey, result: Result<GetGitDiffResponse, String>, new: DiffState) -> bool {
        match result {
            Err(e) => new == DiffState::Failed(e),
            Ok(r) => match old {
                DiffState::Ready(d) => if key_view(d.key) == key_view(key) && d.raw_diff@ == r.raw_diff@ {
                    new == old
                } else {
                    new matches DiffState::Ready(a) && built(*a, key, r)
                },
                _ => new matches DiffState::Ready(a) && built(*a, key, r),
            },
        }
    }

    /// The state once a repeated diff request is taken up.
    pub open spec fn undirtied(e: Engine) -> Engine {
        Engine { diff_dirty: false, ..e }
    }

    /// Whether an answer is for the selected row.
    pub open spec fn answers_selected(old: Engine, key: FileKey) -> bool {
        key_opt_view(old.snapshot.selected) == Some(key_view(key))
    }

    /// The snapshot after the selected row's answer, before it is published: the refresh
    /// ends unless status or another diff is still under way.
    pub open spec fn diff_next(old: Engine, diff: DiffState) -> Snapshot {
        Snapshot {
            diff,
            refreshing: if !old.status_in_flight && !old.diff_dirty {
                false
            } else {
                old.snapshot.refreshing
            },
            ..old.snapshot
        }
    }

    /// The state after a current answer, before a repeated request.
    pub open spec fn diff_base(old: Engine, key: FileKey, diff: DiffState) -> Engine {
        Engine {
            snapshot: if Self::answers_selected(old, key) {
                Self::published(old.snapshot, Self::diff_next(old, diff))
            } else {
                old.snapshot
            },
            diff_in_flight: None,
            ..old
        }
    }

    pub open spec fn diff_publish_effects(old: Engine, key: FileKey, diff: DiffState) -> Seq<Effect> {
        if Self::answers_selected(old, key) {
            Self::publish_effects(old.snapshot, Self::diff_next(old, diff))
        } else {
            Seq::<Effect>::empty()
        }
    }

    pub open spec fn diff_answered(
        old: Engine,
        generation: u64,
        key: FileKey,
        result: Result<GetGitDiffResponse, String>,
        new: Engine,
        effects: Seq<Effect>,
    ) -> bool {
        if generation != old.diff_generation {
            new == old && effects.len() == 0
        } else {
            let s1 = Self::diff_base(old, key, new.snapshot.diff);
            let pe = Self::diff_publish_effects(old, key, new.snapshot.diff);
            &&& Self::answers_selected(old, key) ==> Self::diff_after(old.snapshot.diff, key, result, new.snapshot.diff)
            &&& if old.diff_dirty {
                exists|a: Seq<Effect>|
                    #![trigger diff_step(Self::undirtied(s1), key_opt_view(s1.snapshot.selected), new, a)]
                    diff_step(Self::undirtied(s1), key_opt_view(s1.snapshot.selected), new, a)
                        && effects == pe + a
            } else {
                new == s1 && effects == pe
            }
        }
    }

    /// The diff state for the selected row's answer, and whether it shows something new.
    fn load_answer(&mut self, key: FileKey, result: Result<GetGitDiffResponse, String>) -> (changed: bool)
        requires
            result matches Ok(r) ==> diff_fits_spec(r),
        ensures
            Self::diff_after(old(self).snapshot.diff, key, result, final(self).snapshot.diff),
            *final(self) == (Engine {
                snapshot: Snapshot { diff: final(self).snapshot.diff, ..old(self).snapshot },
                ..*old(self)
            }),
            changed == !diff_same(old(self).snapshot.diff, final(self).snapshot.diff),
    {
        match result {
            Ok(resp) => {
                let unchanged = match &self.snapshot.diff {
                    DiffState::Ready(d) => d.key.same(&key) && same(d.raw_diff.as_str(), resp.raw_diff.as_str()),
                    _ => false,
                };
                if unchanged {
                    false
                } else {
                    let ghost k = key;
                    let ghost old_diff = self.snapshot.diff;
                    let loaded = LoadedDiff::build(key, Comparison::Worktree, None, resp);
                    let ghost l = loaded;
                    self.snapshot.diff = DiffState::Ready(Arc::new(loaded));
                    true
                }
            },
            Err(e) => {
                let was = match &self.snapshot.diff {
                    DiffState::Failed(x) => same(x.as_str(), e.as_str()),
                    _ => false,
                };
                self.snapshot.diff = DiffState::Failed(e);
                !was
            },
        }
    }

    /// A current answer: shown if it is for the selected row.
    fn take_answer(&mut self, key: FileKey, result: Result<GetGitDiffResponse, String>) -> (effects: Vec<Effect>)
        requires
            old(self).can_step(),
            result matches Ok(r) ==> diff_fits_spec(r),
        ensures
            *final(self) == Self::diff_base(*old(self), key, final(self).snapshot.diff),
            effects@ == Self::diff_publish_effects(*old(self), key, final(self).snapshot.diff),
            Self::answers_selected(*old(self), key) ==> Self::diff_after(
                old(self).snapshot.diff,
                key,
                result,
                final(self).snapshot.diff,
            ),
    {
        let ghost before = self.snapshot;
        let ghost k = key;
        let mut effects: Vec<Effect> = Vec::new();
        self.diff_in_flight = None;
        let selected = match &self.snapshot.selected {
            Some(s) => s.same(&key),
            None => false,
        };
        if selected {
            let mut changed = self.load_answer(key, result);
            if !self.status_in_flight && !self.diff_dirty {
                changed = changed || self.snapshot.refreshing;
                self.snapshot.refreshing = false;
            }
            self.publish(changed, Ghost(before), &mut effects);
        }
        effects
    }

    /// A diff asked for again while one loaded: the selected row's is requested now.
    fn repeat_diff(&mut self) -> (effects: Vec<Effect>)
        requires
            old(self).diff_generation < u64::MAX,
        ensures
            if old(self).diff_dirty {
                exists|a: Seq<Effect>|
                    #![trigger diff_step(Self::undirtied(*old(self)), key_opt_view(old(self).snapshot.selected), *final(self), a)]
                    diff_step(
                        Self::undirtied(*old(self)),
                        key_opt_view(old(self).snapshot.selected),
                        *final(self),
                        a,
                    ) && effects@ == a
            } else {
                *final(self) == *old(self) && effects@.len() == 0
            },
    {
        let mut effects: Vec<Effect> = Vec::new();
        if self.diff_dirty {
            self.diff_dirty = false;
            let ghost s2 = *self;
            let to_diff = match &self.snapshot.selected {
                Some(s) => Some(s.duplicate()),
                None => None,
            };
            let ghost td = to_diff;
            match to_diff {
                Some(next_key) => {
                    let ghost nk = next_key;
                    self.request_diff(next_key, &mut effects);
                    proof {
                        let a = choose|a: Seq<Effect>|
                            Self::diff_requested(s2, *self, nk, a) && effects@ == Seq::<Effect>::empty() + a;
                        assert(Self::diff_requested(s2, *self, nk, a));
                        assert(effects@ == a);
                        assert(diff_step(s2, key_opt_view(td), *self, a));
                    }
                },
                None => {
                    proof {
                        assert(diff_step(s2, key_opt_view(td), *self, Seq::<Effect>::empty()));
                    }
                },
            }
        }
        effects
    }

    /// A diff answer: stale generations are dropped; the selected row's answer is shown,
    /// and the refresh ends when nothing else is loading; a diff asked for again meanwhile
    /// is requested anew.
    fn on_diff(&mut self, generation: u64, key: FileKey, result: Result<GetGitDiffResponse, String>) -> (effects: Vec<Effect>)
        requires
            old(self).can_step(),
            result matches Ok(r) ==> diff_fits_spec(r),
        ensures
            Self::diff_answered(*old(self), generation, key, result, *final(self), effects@),
    {
        if generation != self.diff_generation {
            return Vec::new();
        }
        let ghost old_self = *self;
        let ghost k = key;
        let mut effects = self.take_answer(key, result);
        let ghost s1 = *self;
        let ghost pe = effects@;
        let mut more = self.repeat_diff();
        let ghost mv = more@;
        effects.append(&mut more);
        proof {
            if old_self.diff_dirty {
                let a = choose|a: Seq<Effect>|
                    diff_step(Self::undirtied(s1), key_opt_view(s1.snapshot.selected), *self, a) && mv
                        == a;
                assert(diff_step(Self::undirtied(s1), key_opt_view(s1.snapshot.selected), *self, a));
                assert(effects@ =~= pe + a);
            } else {
                assert(effects@ =~= pe);
            }
        }
        effects
    }
}

/// Whether an event can be taken: a diff answer to load fits the machine.
pub open spec fn event_fits(event: Event) -> bool {
    match event {
        Event::DiffDone { result: Ok(r), .. } => diff_fits_spec(r),
        _ => true,
    }
}

/// Whether a diff answer fits the machine: line numbers in `u32`, the line count in `usize`.
pub fn diff_fits(response: &GetGitDiffResponse) -> (r: bool)
    ensures
        r == diff_fits_spec(*response),
{
    let hunks = &response.file_diff.hunks;
    let mut total: usize = 0;
    let mut i: usize = 0;
    while i < hunks.len()
        invariant
            hunks@ == response.file_diff.hunks@,
            i <= hunks@.len(),
            total == lines_total(hunks@.take(i as int)),
            forall|k: int| 0 <= k < i ==> crate::engine::nav::hunk_numbers_fit(#[trigger] hunks@[k]),
        decreases hunks@.len() - i,
    {
        let h = &hunks[i];
        let n = h.lines.len();
        proof {
            assert(hunks@.take(i + 1).drop_last() == hunks@.take(i as int));
        }
        if h.old_start as u128 + n as u128 > u32::MAX as u128 || h.new_start as u128 + n as u128 > u32::MAX as u128 {
            proof {
                assert(!crate::engine::nav::hunk_numbers_fit(hunks@[i as int]));
            }
            return false;
        }
        if total > usize::MAX - n {
            proof {
                assert(lines_total(hunks@.take(i + 1)) == total + n);
                crate::engine::types::lemma_lines_total_take(hunks@, i + 1);
            }
            return false;
        }
        total = total + n;
        i = i + 1;
    }
    proof {
        assert(hunks@.take(hunks@.len() as int) == hunks@);
    }
    true
}

impl Engine {
    pub open spec fn stepped(old: Engine, event: Event, new: Engine, effects: Seq<Effect>) -> bool {
        match event {
            Event::Command(Command::Shutdown) => new == old && effects == seq![Effect::Stop],
            Event::Command(Command::Refresh) => Self::refreshed(old, new, effects),
            Event::Command(c) => Self::selection_made(old, c, new, effects),
            Event::Triggered { with_head } => Self::triggered(old, with_head, new, effects),
            Event::Tick { quiet } => Self::ticked(old, quiet, new, effects),
            Event::GitChecked(r) => Self::git_checked(old, r, new, effects),
            Event::WatcherStarted(r) => Self::watcher_answered(old, r, new, effects),
            Event::StatusDone { response, head } => Self::status_answered(old, response, head, new, effects),
            Event::DiffDone { generation, key, result } => Self::diff_answered(old, generation, key, result, new, effects),
        }
    }

    /// One step of the session: the effects to perform, in order, for one event.
    pub fn handle(&mut self, event: Event) -> (effects: Vec<Effect>)
        requires
            old(self).can_step(),
            event_fits(event),
        ensures
            Self::stepped(*old(self), event, *final(self), effects@),
    {
        match event {
            Event::Command(Command::Shutdown) => {
                let mut effects: Vec<Effect> = Vec::new();
                effects.push(Effect::Stop);
                effects
            },
            Event::Command(Command::Refresh) => self.on_refresh(),
            Event::Command(c) => self.on_select(c),
            Event::Triggered { with_head } => self.on_trigger(with_head),
            Event::Tick { quiet } => self.on_tick(quiet),
            Event::GitChecked(r) => self.on_git_checked(r),
            Event::WatcherStarted(r) => self.on_watcher(r),
            Event::StatusDone { response, head } => self.on_status(response, head),
            Event::DiffDone { generation, key, result } => self.on_diff(generation, key, result),
        }
    }

    /// The path given is not a usable directory: the reason is published and the session ends.
    pub fn unusable(&mut self, reason: String) -> (effects: Vec<Effect>)
        requires
            old(self).snapshot.revision < u64::MAX,
        ensures
            ({
                let next = Snapshot { repo: RepoState::Unusable { reason }, ..old(self).snapshot };
                &&& *final(self) == Engine { snapshot: Self::published(old(self).snapshot, next), ..*old(self) }
                &&& effects@ == Self::publish_effects(old(self).snapshot, next).push(Effect::Stop)
            }),
    {
        let ghost before = self.snapshot;
        let repo = RepoState::Unusable { reason };
        let changed = !same_repo(&repo, &self.snapshot.repo);
        self.snapshot.repo = repo;
        let mut effects: Vec<Effect> = Vec::new();
        self.publish(changed, Ghost(before), &mut effects);
        effects.push(Effect::Stop);
        effects
    }

    /// After the startup check of git: a usable git starts the watcher and the first status
    /// refresh; a missing git is shown and checked again on refresh; too old a git ends the
    /// session.
    pub fn started(&mut self, check: Result<GitVersion, GitCheckError>) -> (effects: Vec<Effect>)
        requires
            old(self).snapshot.revision < u64::MAX,
        ensures
            match check {
                Ok(_) => exists|added: Seq<Effect>|
                    #![trigger Self::status_requested(Self::with_watcher_restarted(*old(self), WatcherPhase::Failed), *final(self), true, added)]
                    Self::status_requested(
                        Self::with_watcher_restarted(*old(self), WatcherPhase::Failed),
                        *final(self),
                        true,
                        added,
                    ) && effects@ == seq![Effect::StartWatcher] + added,
                Err(GitCheckError::TooOld(reason)) => {
                    let next = Snapshot { repo: RepoState::Unusable { reason }, ..old(self).snapshot };
                    &&& *final(self) == Engine { snapshot: Self::published(old(self).snapshot, next), ..*old(self) }
                    &&& effects@ == Self::publish_effects(old(self).snapshot, next).push(Effect::Stop)
                },
                Err(GitCheckError::Missing(reason)) => {
                    let next = Snapshot { status_error: Some(reason), ..old(self).snapshot };
                    &&& *final(self) == Engine {
                        git_missing: true,
                        snapshot: Self::published(old(self).snapshot, next),
                        ..*old(self)
                    }
                    &&& effects@ == Self::publish_effects(old(self).snapshot, next)
                },
            },
    {
        let mut effects: Vec<Effect> = Vec::new();
        match check {
            Ok(_) => {
                self.start_watcher(&mut effects);
                let ghost s1 = *self;
                self.request_status(true, &mut effects);
                proof {
                    let added = choose|added: Seq<Effect>|
                        Self::status_requested(s1, *self, true, added) && effects@ == seq![Effect::StartWatcher] + added;
                    assert(Self::status_requested(s1, *self, true, added));
                }
                effects
            },
            Err(GitCheckError::TooOld(reason)) => self.unusable(reason),
            Err(GitCheckError::Missing(reason)) => {
                let ghost before = self.snapshot;
                self.git_missing = true;
                let error = Some(reason);
                let changed = !same_opt_str(&error, &self.snapshot.status_error);
                self.snapshot.status_error = error;
                self.publish(changed, Ghost(before), &mut effects);
                effects
            },
        }
    }
}

// ---------------------------------------------------------------------------
// What every step keeps.
// ---------------------------------------------------------------------------

pub open spec fn has_publish(effects: Seq<Effect>) -> bool {
    exists|i: int| 0 <= i < effects.len() && effects[i] is Publish
}

pub open spec fn has_status_request(effects: Seq<Effect>) -> bool {
    exists|i: int| 0 <= i < effects.len() && effects[i] is RequestStatus
}

/// Each publication counts one revision; a snapshot that shows nothing new is not
/// published again once one was.
pub proof fn law_publication_counts_revisions(old: Snapshot, next: Snapshot)
    requires
        old.revision < u64::MAX,
    ensures
        Engine::published(old, next).revision == old.revision + Engine::publish_effects(old, next).len(),
        old.revision > 0 && shows_same(old, next) ==> Engine::publish_effects(old, next).len() == 0
            && Engine::published(old, next).revision == old.revision,
        old.revision == 0 ==> Engine::publish_effects(old, next) == seq![Effect::Publish],
{
}

/// A diff answer of a superseded generation changes nothing and starts nothing.
pub proof fn law_stale_diff_answers_change_nothing(
    old: Engine,
    generation: u64,
    key: FileKey,
    result: Result<GetGitDiffResponse, String>,
    new: Engine,
    effects: Seq<Effect>,
)
    requires
        Engine::stepped(old, Event::DiffDone { generation, key, result }, new, effects),
        generation != old.diff_generation,
    ensures
        new == old,
        effects.len() == 0,
{
}

proof fn lemma_diff_step_keeps_snapshot(s: Engine, to_diff: Option<(Seq<char>, bool, bool)>, new: Engine, added: Seq<Effect>)
    requires
        diff_step(s, to_diff, new, added),
    ensures
        new.snapshot == s.snapshot,
        !has_publish(added),
{
    if let Some(kv) = to_diff {
        let key = choose|key: FileKey| key_view(key) == kv && Engine::diff_requested(s, new, key, added);
        assert(Engine::diff_requested(s, new, key, added));
        if added.len() == 1 {
            assert(added[0] is RequestDiff);
        }
    }
}

/// A diff is never shown for a row that is not selected: an answer for another row leaves
/// the snapshot as it was and publishes nothing.
pub proof fn law_a_deselected_row_diff_is_never_shown(
    old: Engine,
    generation: u64,
    key: FileKey,
    result: Result<GetGitDiffResponse, String>,
    new: Engine,
    effects: Seq<Effect>,
)
    requires
        Engine::stepped(old, Event::DiffDone { generation, key, result }, new, effects),
        !Engine::answers_selected(old, key),
    ensures
        new.snapshot == old.snapshot,
        !has_publish(effects),
{
    if generation == old.diff_generation {
        let s1 = Engine::diff_base(old, key, new.snapshot.diff);
        if old.diff_dirty {
            let a = choose|a: Seq<Effect>|
                diff_step(Engine::undirtied(s1), key_opt_view(s1.snapshot.selected), new, a) && effects
                    == Engine::diff_publish_effects(old, key, new.snapshot.diff) + a;
            lemma_diff_step_keeps_snapshot(Engine::undirtied(s1), key_opt_view(s1.snapshot.selected), new, a);
            assert(effects == Seq::<Effect>::empty() + a);
            assert(effects =~= a);
        }
    }
}

/// One status refresh at a time: while one runs, watcher events and ticks start none; the
/// request is remembered instead.
pub proof fn law_one_status_refresh_at_a_time(old: Engine, event: Event, new: Engine, effects: Seq<Effect>)
    requires
        Engine::stepped(old, event, new, effects),
        old.status_in_flight,
        event is Triggered || event is Tick,
    ensures
        !has_status_request(effects),
        new.status_in_flight,
{
    match event {
        Event::Triggered { with_head } => {
            if !old.git_missing {
                let added = choose|added: Seq<Effect>|
                    Engine::status_requested(old, new, with_head, added) && effects == seq![Effect::NoteWatcherRefresh]
                        + added;
                assert(effects =~= seq![Effect::NoteWatcherRefresh]);
            }
        },
        _ => {},
    }
}

proof fn lemma_index_of_distinct_key(files: Seq<ChangedFile>, sel: FileKey, i: int, from: int)
    requires
        0 <= from <= i < files.len(),
        key_view(sel) == key_of_file(files[i]),
        forall|a: int, b: int| 0 <= a < b < files.len() ==> key_of_file(#[trigger] files[a]) != key_of_file(#[trigger] files[b]),
    ensures
        index_of_key(files, Some(sel), from) == Some(i),
    decreases i - from,
{
    if from < i {
        assert(key_of_file(files[from]) != key_of_file(files[i]));
        lemma_index_of_distinct_key(files, sel, i, from + 1);
    }
}

/// `n` and `p` step to the neighbouring file of the selected one, wrapping around: from file
/// `i` of `n`, `n` selects file `(i + 1) mod n` and `p` selects file `(i + n - 1) mod n`, so
/// `p` after `n` comes back to the file it started from.
pub proof fn law_next_and_previous_file_are_the_neighbours(files: Seq<ChangedFile>, sel: FileKey, i: int)
    requires
        0 <= i < files.len(),
        key_view(sel) == key_of_file(files[i]),
        forall|a: int, b: int| 0 <= a < b < files.len() ==> key_of_file(#[trigger] files[a]) != key_of_file(#[trigger] files[b]),
    ensures
        chosen_key(files, Some(sel), Command::SelectNext) == Some(key_of_file(files[(i + 1) % (files.len() as int)])),
        chosen_key(files, Some(sel), Command::SelectPrev) == Some(key_of_file(files[(i + files.len() - 1) % (files.len() as int)])),
        forall|next: FileKey| key_view(next) == key_of_file(files[(i + 1) % (files.len() as int)])
            ==> #[trigger] chosen_key(files, Some(next), Command::SelectPrev) == Some(key_of_file(files[i])),
{
    let n = files.len() as int;
    lemma_index_of_distinct_key(files, sel, i, 0);
    assert((i + 1) % n == if i + 1 == n { 0 } else { i + 1 }) by (nonlinear_arith)
        requires
            0 <= i < n,
    ;
    assert((i + n - 1) % n == if i == 0 { n - 1 } else { i - 1 }) by (nonlinear_arith)
        requires
            0 <= i < n,
    ;
    let j = (i + 1) % n;
    assert((j + n - 1) % n == i) by (nonlinear_arith)
        requires
            0 <= i < n,
            j == if i + 1 == n { 0 } else { i + 1 },
    ;
    assert forall|next: FileKey| key_view(next) == key_of_file(files[(i + 1) % n])
        implies #[trigger] chosen_key(files, Some(next), Command::SelectPrev) == Some(key_of_file(files[i])) by {
        lemma_index_of_distinct_key(files, next, j, 0);
    }
}

/// Without a selected file, `n` starts from the first file (so it selects the second, or the
/// only one) and `p` selects the last; `Select` of a listed file selects exactly that file.
pub proof fn law_selection_without_a_selected_file(files: Seq<ChangedFile>, key: FileKey, i: int)
    requires
        files.len() > 0,
        0 <= i < files.len(),
        key_view(key) == key_of_file(files[i]),
    ensures
        chosen_key(files, None, Command::SelectNext) == Some(key_of_file(files[1int % (files.len() as int)])),
        chosen_key(files, None, Command::SelectPrev) == Some(key_of_file(files[files.len() - 1])),
        chosen_key(files, Some(key), Command::Select(key)) == Some(key_view(key)),
        chosen_key(files, None, Command::Select(key)) == Some(key_view(key)),
{
    let n = files.len() as int;
    lemma_index_of_key(files, None, 0);
    assert(index_of_key(files, None, 0) is None) by {
        lemma_index_of_none(files, 0);
    }
    assert(1int % n == if n == 1 { 0int } else { 1int }) by (nonlinear_arith)
        requires
            n >= 1,
    ;
    lemma_index_of_key(files, Some(key), 0);
    assert(key_opt_view(Some(key)) == Some(key_of_file(files[i])));
}

proof fn lemma_index_of_none(files: Seq<ChangedFile>, i: int)
    requires
        0 <= i,
    ensures
        index_of_key(files, None, i) is None,
    decreases files.len() - i,
{
    if i < files.len() {
        lemma_index_of_none(files, i + 1);
    }
}

} // verus!
