//! Snapshot types the UI renders from. No terminal types here.
use std::collections::{BTreeMap, BTreeSet};
use std::sync::Arc;

use vstd::prelude::*;

use crate::engine::nav::{
    diff_numbers_fit, diff_targets, hunk_numbers_fit, targets_for_diff, unified_order,
    unified_order_spec, Target,
};
use crate::git::{ChangedFile, ChangedFileStatus, DiffHunk, DiffLine, DiffLineType, FileDiff, GetGitDiffResponse};
use crate::strs::{copy, is_prefix, opt_view, own, same, same_opt_str, strip_prefix};

verus! {

pub const MAX_DIFF_LINES: usize = 200_000;

/// Shown by `b` when nothing resolves as a base.
pub const NO_BASE_NOTICE: &'static str = "no base branch: set [base] ref or press B";

/// A file row's identity: a partially staged path is two rows. In branch scope a path deleted
/// on the branch and recreated untracked is two rows too.
#[derive(Debug, Clone, PartialEq, Eq, Hash)]
pub struct FileKey {
    pub path: String,
    pub staged: bool,
    pub untracked: bool,
}

pub open spec fn key_of_file(file: ChangedFile) -> (Seq<char>, bool, bool) {
    (file.path@, file.staged, file.status == ChangedFileStatus::Untracked)
}

pub open spec fn key_view(key: FileKey) -> (Seq<char>, bool, bool) {
    (key.path@, key.staged, key.untracked)
}

impl FileKey {
    pub fn of(file: &ChangedFile) -> (r: Self)
        ensures
            key_view(r) == key_of_file(*file),
    {
        Self {
            path: copy(&file.path),
            staged: file.staged,
            untracked: matches!(file.status, ChangedFileStatus::Untracked),
        }
    }

    /// A copy of this key.
    pub fn duplicate(&self) -> (r: Self)
        ensures
            key_view(r) == key_view(*self),
    {
        Self { path: copy(&self.path), staged: self.staged, untracked: self.untracked }
    }

    /// Whether two keys name the same row.
    pub fn same(&self, other: &FileKey) -> (r: bool)
        ensures
            r == (key_view(*self) == key_view(*other)),
    {
        crate::strs::same(self.path.as_str(), other.path.as_str()) && self.staged == other.staged
            && self.untracked == other.untracked
    }
}

#[derive(Debug, Clone, Copy, PartialEq, Eq, Structural)]
pub enum Scope {
    Worktree,
    Branch,
}

impl Scope {
    pub open spec fn other_spec(self) -> Self {
        match self {
            Self::Worktree => Self::Branch,
            Self::Branch => Self::Worktree,
        }
    }

    /// The scope `b` switches to.
    #[verifier::when_used_as_spec(other_spec)]
    pub fn other(self) -> (r: Self)
        ensures
            r == self.other_spec(),
    {
        match self {
            Self::Worktree => Self::Branch,
            Self::Branch => Self::Worktree,
        }
    }
}

#[derive(Debug, Clone, Copy, PartialEq, Eq, Structural)]
pub enum BaseSource {
    Picked,
    Config,
    Default,
}

#[derive(Debug, Clone, PartialEq, Eq)]
pub enum MarkState {
    /// An ancestor of `head_seen`: the unread set is the one the diff computed.
    Current,
    /// Still a commit, no longer on this branch: every row is flagged.
    Rewritten,
    /// The unread command failed; the string is git's reason. Every row is flagged.
    Unreadable(String),
}

#[derive(Debug, Clone, PartialEq, Eq)]
pub struct Mark {
    /// A full object id: hexadecimal only, of the length this repository's hash gives.
    pub commit: String,
    /// Seconds since the Unix epoch, recorded when the mark was written.
    pub at: u64,
    pub state: MarkState,
    /// The `head_seen` this state was classified against; `None` while unclassified.
    pub classified_at: Option<String>,
}

#[derive(Debug, Clone, PartialEq, Eq)]
pub struct QuickBase {
    /// `upstream`, `last commit`, or `last 3 commits`.
    pub label: String,
    /// A ref name or short object id for display.
    pub detail: String,
    pub submits: String,
}

#[derive(Debug, Clone, PartialEq, Eq)]
pub struct Base {
    /// Exactly what git is given: a qualified ref for a picked or resolved
    /// branch, the typed text for free text and config.
    pub requested: String,
    /// Object id of `requested` as of the last refresh that verified it.
    pub commit: String,
    /// merge-base(HEAD, commit) the current rows were computed against; `None` in worktree scope.
    pub merge_base: Option<String>,
    pub source: BaseSource,
}

pub open spec fn heads_prefix() -> Seq<char> {
    seq!['r', 'e', 'f', 's', '/', 'h', 'e', 'a', 'd', 's', '/']
}

pub open spec fn remotes_prefix() -> Seq<char> {
    seq!['r', 'e', 'f', 's', '/', 'r', 'e', 'm', 'o', 't', 'e', 's', '/']
}

pub open spec fn tags_prefix() -> Seq<char> {
    seq!['r', 'e', 'f', 's', '/', 't', 'a', 'g', 's', '/']
}

/// `refs/heads/x` -> `x`, `refs/remotes/o/x` -> `o/x`, `refs/tags/v` -> `v`; anything else unchanged.
pub open spec fn ref_label_spec(requested: Seq<char>) -> Seq<char> {
    if is_prefix(heads_prefix(), requested) {
        requested.skip(heads_prefix().len() as int)
    } else if is_prefix(remotes_prefix(), requested) {
        requested.skip(remotes_prefix().len() as int)
    } else if is_prefix(tags_prefix(), requested) {
        requested.skip(tags_prefix().len() as int)
    } else {
        requested
    }
}

impl Base {
    pub fn label(&self) -> (r: String)
        ensures
            r@ == ref_label_spec(self.requested@),
    {
        ref_label(self.requested.as_str())
    }
}

/// `refs/heads/x` -> `x`, `refs/remotes/o/x` -> `o/x`, `refs/tags/v` -> `v`; anything else unchanged.
pub fn ref_label(requested: &str) -> (r: String)
    ensures
        r@ == ref_label_spec(requested@),
{
    proof {
        reveal_strlit("refs/heads/");
        reveal_strlit("refs/remotes/");
        reveal_strlit("refs/tags/");
        assert("refs/heads/"@ == heads_prefix());
        assert("refs/remotes/"@ == remotes_prefix());
        assert("refs/tags/"@ == tags_prefix());
    }
    if let Some(rest) = strip_prefix(requested, "refs/heads/") {
        return rest;
    }
    if let Some(rest) = strip_prefix(requested, "refs/remotes/") {
        return rest;
    }
    if let Some(rest) = strip_prefix(requested, "refs/tags/") {
        return rest;
    }
    own(requested)
}

/// What a diff's hunks were computed against.
#[derive(Debug, Clone, PartialEq, Eq)]
pub enum Comparison {
    Worktree,
    Branch { merge_base: String },
}

pub open spec fn comparison_view(c: Comparison) -> Option<Seq<char>> {
    match c {
        Comparison::Worktree => None,
        Comparison::Branch { merge_base } => Some(merge_base@),
    }
}

/// Whether two comparisons are the same.
pub fn same_comparison(a: &Comparison, b: &Comparison) -> (r: bool)
    ensures
        r == (comparison_view(*a) == comparison_view(*b)),
{
    match (a, b) {
        (Comparison::Worktree, Comparison::Worktree) => true,
        (Comparison::Branch { merge_base: x }, Comparison::Branch { merge_base: y }) => {
            crate::strs::same(x.as_str(), y.as_str())
        },
        _ => false,
    }
}

#[derive(Debug, Clone, PartialEq, Eq)]
pub enum RepoState {
    Repo { toplevel: String, branch: Option<String>, worktree: Option<String> },
    NotARepo { cwd: String },
    Unusable { reason: String },
}

#[derive(Debug, Clone)]
pub enum DiffState {
    Idle,
    Loading,
    Ready(Arc<LoadedDiff>),
    Failed(String),
}

#[derive(Debug, Clone)]
pub struct LoadedDiff {
    pub key: FileKey,
    pub comparison: Comparison,
    pub read_at: Option<String>,
    pub file_diff: FileDiff,
    pub raw_diff: String,
    pub targets: Vec<Target>,
    pub unified_order: Vec<usize>,
    pub truncated_lines: usize,
}

/// The number of lines of every hunk.
pub open spec fn lines_total(hunks: Seq<DiffHunk>) -> nat
    decreases hunks.len(),
{
    if hunks.len() == 0 {
        0
    } else {
        lines_total(hunks.drop_last()) + hunks.last().lines@.len()
    }
}

/// How many leading hunks fit whole in `cap` lines, counting from hunk `i` with `kept` kept.
pub open spec fn fit_from(hunks: Seq<DiffHunk>, cap: nat, i: int, kept: nat) -> int
    decreases hunks.len() - i,
{
    if i < 0 || i >= hunks.len() || kept + hunks[i].lines@.len() > cap {
        i
    } else {
        fit_from(hunks, cap, i + 1, kept + hunks[i].lines@.len())
    }
}

pub open spec fn with_lines(h: DiffHunk, lines: Seq<crate::git::DiffLine>) -> bool {
    h.lines@ == lines
}

/// The hunks a diff keeps under a cap: whole hunks while they fit; a first hunk that alone
/// exceeds the cap keeps its first `cap` lines.
pub open spec fn kept_hunks_ok(hunks: Seq<DiffHunk>, cap: nat, kept: Seq<DiffHunk>) -> bool {
    let n = fit_from(hunks, cap, 0, 0);
    if n == 0 && hunks.len() > 0 {
        &&& kept.len() == 1
        &&& kept[0].id == hunks[0].id
        &&& kept[0].header == hunks[0].header
        &&& kept[0].old_start == hunks[0].old_start
        &&& kept[0].old_lines == hunks[0].old_lines
        &&& kept[0].new_start == hunks[0].new_start
        &&& kept[0].new_lines == hunks[0].new_lines
        &&& kept[0].lines@ == hunks[0].lines@.take(cap as int)
    } else {
        kept == hunks.take(n)
    }
}

impl LoadedDiff {
    /// Targets and unified order are those of the hunks it keeps.
    pub open spec fn wf(&self) -> bool {
        &&& diff_numbers_fit(self.file_diff.hunks@)
        &&& self.targets@ == diff_targets(self.file_diff.hunks@)
        &&& self.unified_order@ == unified_order_spec(self.targets@)
    }

    pub fn build(key: FileKey, comparison: Comparison, read_at: Option<String>, response: GetGitDiffResponse) -> (r: Self)
        requires
            diff_numbers_fit(response.file_diff.hunks@),
            lines_total(response.file_diff.hunks@) <= usize::MAX,
        ensures
            r.wf(),
            kept_hunks_ok(response.file_diff.hunks@, MAX_DIFF_LINES as nat, r.file_diff.hunks@),
            r.truncated_lines == lines_total(response.file_diff.hunks@) - lines_total(r.file_diff.hunks@),
            r.key == key,
            r.comparison == comparison,
            r.read_at == read_at,
            r.raw_diff == response.raw_diff,
            r.file_diff.file_path == response.file_diff.file_path,
            r.file_diff.old_path == response.file_diff.old_path,
            r.file_diff.new_path == response.file_diff.new_path,
    {
        Self::build_with_cap(key, comparison, read_at, response, MAX_DIFF_LINES)
    }

    pub fn build_with_cap(
        key: FileKey,
        comparison: Comparison,
        read_at: Option<String>,
        response: GetGitDiffResponse,
        cap: usize,
    ) -> (r: Self)
        requires
            diff_numbers_fit(response.file_diff.hunks@),
            lines_total(response.file_diff.hunks@) <= usize::MAX,
        ensures
            r.wf(),
            kept_hunks_ok(response.file_diff.hunks@, cap as nat, r.file_diff.hunks@),
            r.truncated_lines == lines_total(response.file_diff.hunks@) - lines_total(r.file_diff.hunks@),
            r.key == key,
            r.comparison == comparison,
            r.read_at == read_at,
            r.raw_diff == response.raw_diff,
            r.file_diff.file_path == response.file_diff.file_path,
            r.file_diff.old_path == response.file_diff.old_path,
            r.file_diff.new_path == response.file_diff.new_path,
    {
        let ghost original = response.file_diff.hunks@;
        let mut file_diff = response.file_diff;
        let total = count_lines(&file_diff.hunks);
        // How many leading hunks fit whole.
        let mut kept: usize = 0;
        let mut n: usize = 0;
        while n < file_diff.hunks.len() && file_diff.hunks[n].lines.len() <= cap - kept
            invariant
                file_diff.hunks@ == original,
                n <= original.len(),
                kept == lines_total(original.take(n as int)),
                kept <= cap,
                fit_from(original, cap as nat, n as int, kept as nat) == fit_from(original, cap as nat, 0, 0),
            decreases original.len() - n,
        {
            proof {
                assert(original.take(n + 1).drop_last() == original.take(n as int));
            }
            kept = kept + file_diff.hunks[n].lines.len();
            n = n + 1;
        }
        proof {
            assert(fit_from(original, cap as nat, n as int, kept as nat) == n);
        }
        if n == 0 && file_diff.hunks.len() > 0 {
            file_diff.hunks.truncate(1);
            let mut first = file_diff.hunks.pop().unwrap();
            first.lines.truncate(cap);
            file_diff.hunks.push(first);
            proof {
                let k = file_diff.hunks@;
                assert(k.drop_last() == Seq::<DiffHunk>::empty());
                assert(lines_total(k) == lines_total(k.drop_last()) + k.last().lines@.len());
                assert(lines_total(Seq::<DiffHunk>::empty()) == 0);
                lemma_lines_total_bound(original);
            }
        } else {
            file_diff.hunks.truncate(n);
            proof {
                lemma_lines_total_take(original, n as int);
            }
        }
        proof {
            lemma_fit_keeps_numbers(original, file_diff.hunks@, cap as nat);
        }
        let targets = targets_for_diff(&file_diff);
        let order = unified_order(&targets);
        let kept_lines = count_lines(&file_diff.hunks);
        Self {
            key,
            comparison,
            read_at,
            file_diff,
            raw_diff: response.raw_diff,
            targets,
            unified_order: order,
            truncated_lines: total - kept_lines,
        }
    }
}

pub proof fn lemma_lines_total_take(hunks: Seq<DiffHunk>, n: int)
    requires
        0 <= n <= hunks.len(),
    ensures
        lines_total(hunks.take(n)) <= lines_total(hunks),
    decreases hunks.len() - n,
{
    if n < hunks.len() {
        lemma_lines_total_take(hunks, n + 1);
        assert(hunks.take(n + 1).drop_last() == hunks.take(n));
    } else {
        assert(hunks.take(n) == hunks);
    }
}

proof fn lemma_lines_total_bound(hunks: Seq<DiffHunk>)
    requires
        hunks.len() > 0,
    ensures
        hunks[0].lines@.len() <= lines_total(hunks),
    decreases hunks.len(),
{
    if hunks.len() > 1 {
        lemma_lines_total_bound(hunks.drop_last());
    } else {
        assert(hunks.drop_last() == Seq::<DiffHunk>::empty());
    }
}

proof fn lemma_fit_keeps_numbers(original: Seq<DiffHunk>, kept: Seq<DiffHunk>, cap: nat)
    requires
        diff_numbers_fit(original),
        kept.len() <= original.len(),
        forall|i: int|
            0 <= i < kept.len() ==> kept[i].old_start == original[i].old_start && kept[i].new_start
                == original[i].new_start && kept[i].lines@.len() <= original[i].lines@.len(),
    ensures
        diff_numbers_fit(kept),
{
    assert forall|i: int| 0 <= i < kept.len() implies #[trigger] hunk_numbers_fit(kept[i]) by {
        assert(hunk_numbers_fit(original[i]));
    }
}

/// The total number of lines in `hunks`.
fn count_lines(hunks: &Vec<DiffHunk>) -> (total: usize)
    requires
        lines_total(hunks@) <= usize::MAX,
    ensures
        total == lines_total(hunks@),
{
    let mut total: usize = 0;
    let mut i: usize = 0;
    while i < hunks.len()
        invariant
            i <= hunks@.len(),
            total == lines_total(hunks@.take(i as int)),
            lines_total(hunks@) <= usize::MAX,
        decreases hunks@.len() - i,
    {
        proof {
            assert(hunks@.take(i + 1).drop_last() == hunks@.take(i as int));
            lemma_lines_total_take(hunks@, i + 1);
        }
        total = total + hunks[i].lines.len();
        i = i + 1;
    }
    proof {
        assert(hunks@.take(hunks@.len() as int) == hunks@);
    }
    total
}

#[derive(Debug, Clone)]
pub struct Snapshot {
    pub revision: u64,
    pub repo: RepoState,
    /// The diff's commit, or the refresh's confirmed commit for an empty list.
    pub head: Option<String>,
    /// The id the last refresh observed, published as observed and never gated.
    pub head_seen: Option<String>,
    /// `scope`, `base`, `files` and `rename_sources` always describe one comparison.
    pub scope: Scope,
    pub base: Option<Base>,
    pub mark: Option<Mark>,
    /// A skipped resolution step, a `bases.json` problem or a pick that was not remembered; shown once.
    pub base_error: Option<String>,
    /// What steps 2-5 of the resolution order name, for the picker's reset row.
    pub default_base: Option<String>,
    pub files: Vec<ChangedFile>,
    /// Branch scope only: a renamed row's path -> its old path.
    pub rename_sources: Arc<BTreeMap<String, String>>,
    /// Branch scope paths changed since the mark; non-Current states flag every row instead.
    pub unread: Arc<BTreeSet<String>>,
    pub selected: Option<FileKey>,
    pub diff: DiffState,
    pub status_error: Option<String>,
    pub watcher_error: Option<String>,
    pub refreshing: bool,
    /// The picker's candidates, qualified, most recently created first; `None` until `LoadRefs`.
    pub refs: Option<Arc<Vec<String>>>,
    pub quick: Option<Arc<Vec<QuickBase>>>,
    pub refs_overflow: bool,
    /// The token of the opening whose `LoadRefs` was answered last.
    pub refs_seq: u64,
    /// Bumped once per answered `SetBase`; `pick_error` is that answer.
    pub pick_seq: u64,
    pub pick_error: Option<String>,
    /// Bumped once per answered `MarkReviewed`; `mark_error` is that answer.
    pub mark_seq: u64,
    pub mark_error: Option<String>,
}

impl Snapshot {
    pub fn empty(cwd: &str) -> (r: Self)
        ensures
            r.revision == 0,
            r.repo matches RepoState::NotARepo { cwd: c } && c@ == cwd@,
            r.head is None,
            r.head_seen is None,
            r.scope == Scope::Worktree,
            r.base is None,
            r.mark is None,
            r.base_error is None,
            r.default_base is None,
            r.files@.len() == 0,
            r.rename_sources@.len() == 0,
            r.unread@.len() == 0,
            r.selected is None,
            r.diff is Idle,
            r.status_error is None,
            r.watcher_error is None,
            !r.refreshing,
            r.refs is None,
            r.quick is None,
            !r.refs_overflow,
            r.refs_seq == 0,
            r.pick_seq == 0,
            r.pick_error is None,
            r.mark_seq == 0,
            r.mark_error is None,
    {
        Self {
            revision: 0,
            repo: RepoState::NotARepo { cwd: own(cwd) },
            head: None,
            head_seen: None,
            scope: Scope::Worktree,
            base: None,
            mark: None,
            base_error: None,
            default_base: None,
            files: Vec::new(),
            rename_sources: Arc::new(BTreeMap::new()),
            unread: Arc::new(BTreeSet::new()),
            selected: None,
            diff: DiffState::Idle,
            status_error: None,
            watcher_error: None,
            refreshing: false,
            refs: None,
            quick: None,
            refs_overflow: false,
            refs_seq: 0,
            pick_seq: 0,
            pick_error: None,
            mark_seq: 0,
            mark_error: None,
        }
    }
}

#[derive(Debug, Clone, PartialEq, Eq)]
pub enum Command {
    Select(FileKey),
    SelectNext,
    SelectPrev,
    Refresh,
    /// Load the rows of the other scope; published together with them.
    SetScope(Scope),
    /// `Some`: validate, load branch rows under it, persist, publish. `None`: forget the pick and re-resolve.
    SetBase(Option<String>),
    /// Record this commit as reviewed for this worktree. It changes no comparison.
    MarkReviewed(String),
    /// Answer with `refs` and this opening's token on the snapshot.
    LoadRefs(u64),
    Shutdown,
}

// ---------------------------------------------------------------------------
// Comparing loaded diffs by what they hold.
// ---------------------------------------------------------------------------

pub open spec fn diff_line_view(l: DiffLine) -> (DiffLineType, Seq<char>, Option<u32>, Option<u32>) {
    (l.line_type, l.content@, l.old_line_number, l.new_line_number)
}

pub open spec fn hunk_view(h: DiffHunk) -> (Seq<char>, Seq<char>, (u32, u32, u32, u32), Seq<(DiffLineType, Seq<char>, Option<u32>, Option<u32>)>) {
    (h.id@, h.header@, (h.old_start, h.old_lines, h.new_start, h.new_lines), h.lines@.map_values(|l: DiffLine| diff_line_view(l)))
}

pub open spec fn file_diff_view(f: FileDiff) -> (Seq<char>, Option<Seq<char>>, Option<Seq<char>>, Seq<(Seq<char>, Seq<char>, (u32, u32, u32, u32), Seq<(DiffLineType, Seq<char>, Option<u32>, Option<u32>)>)>) {
    (f.file_path@, opt_view(f.old_path), opt_view(f.new_path), f.hunks@.map_values(|h: DiffHunk| hunk_view(h)))
}

/// Two loaded diffs hold the same: same file and comparison, same text, hunks, targets and
/// order, however their strings and vectors were allocated.
pub open spec fn same_diff(a: LoadedDiff, b: LoadedDiff) -> bool {
    &&& key_view(a.key) == key_view(b.key)
    &&& comparison_view(a.comparison) == comparison_view(b.comparison)
    &&& opt_view(a.read_at) == opt_view(b.read_at)
    &&& file_diff_view(a.file_diff) == file_diff_view(b.file_diff)
    &&& a.raw_diff@ == b.raw_diff@
    &&& a.targets@ == b.targets@
    &&& a.unified_order@ == b.unified_order@
    &&& a.truncated_lines == b.truncated_lines
}

fn same_line(a: &DiffLine, b: &DiffLine) -> (r: bool)
    ensures
        r == (diff_line_view(*a) == diff_line_view(*b)),
{
    let kind = match (a.line_type, b.line_type) {
        (DiffLineType::Added, DiffLineType::Added) => true,
        (DiffLineType::Removed, DiffLineType::Removed) => true,
        (DiffLineType::Context, DiffLineType::Context) => true,
        _ => false,
    };
    kind && same(a.content.as_str(), b.content.as_str()) && a.old_line_number == b.old_line_number
        && a.new_line_number == b.new_line_number
}

fn same_hunk(a: &DiffHunk, b: &DiffHunk) -> (r: bool)
    ensures
        r == (hunk_view(*a) == hunk_view(*b)),
{
    if !(same(a.id.as_str(), b.id.as_str()) && same(a.header.as_str(), b.header.as_str()) && a.old_start == b.old_start
        && a.old_lines == b.old_lines && a.new_start == b.new_start && a.new_lines == b.new_lines
        && a.lines.len() == b.lines.len()) {
        proof {
            if hunk_view(*a) == hunk_view(*b) {
                assert(a.lines@.map_values(|l: DiffLine| diff_line_view(l)).len() == a.lines@.len());
                assert(b.lines@.map_values(|l: DiffLine| diff_line_view(l)).len() == b.lines@.len());
            }
        }
        return false;
    }
    let ghost va = a.lines@.map_values(|l: DiffLine| diff_line_view(l));
    let ghost vb = b.lines@.map_values(|l: DiffLine| diff_line_view(l));
    let mut i: usize = 0;
    while i < a.lines.len()
        invariant
            i <= a.lines@.len(),
            a.lines@.len() == b.lines@.len(),
            va == a.lines@.map_values(|l: DiffLine| diff_line_view(l)),
            vb == b.lines@.map_values(|l: DiffLine| diff_line_view(l)),
            forall|k: int| 0 <= k < i ==> #[trigger] va[k] == vb[k],
        decreases a.lines@.len() - i,
    {
        if !same_line(&a.lines[i], &b.lines[i]) {
            proof {
                assert(va[i as int] != vb[i as int]);
            }
            return false;
        }
        i = i + 1;
    }
    proof {
        assert(va =~= vb);
    }
    true
}

fn same_hunks(a: &Vec<DiffHunk>, b: &Vec<DiffHunk>) -> (r: bool)
    ensures
        r == (a@.map_values(|h: DiffHunk| hunk_view(h)) == b@.map_values(|h: DiffHunk| hunk_view(h))),
{
    let ghost va = a@.map_values(|h: DiffHunk| hunk_view(h));
    let ghost vb = b@.map_values(|h: DiffHunk| hunk_view(h));
    if a.len() != b.len() {
        proof {
            assert(va.len() != vb.len());
        }
        return false;
    }
    let mut i: usize = 0;
    while i < a.len()
        invariant
            i <= a@.len(),
            a@.len() == b@.len(),
            va == a@.map_values(|h: DiffHunk| hunk_view(h)),
            vb == b@.map_values(|h: DiffHunk| hunk_view(h)),
            forall|k: int| 0 <= k < i ==> #[trigger] va[k] == vb[k],
        decreases a@.len() - i,
    {
        if !same_hunk(&a[i], &b[i]) {
            proof {
                assert(va[i as int] != vb[i as int]);
            }
            return false;
        }
        i = i + 1;
    }
    proof {
        assert(va =~= vb);
    }
    true
}

fn same_targets(a: &Vec<Target>, b: &Vec<Target>) -> (r: bool)
    ensures
        r == (a@ == b@),
{
    if a.len() != b.len() {
        return false;
    }
    let mut i: usize = 0;
    while i < a.len()
        invariant
            i <= a@.len(),
            a@.len() == b@.len(),
            forall|k: int| 0 <= k < i ==> #[trigger] a@[k] == b@[k],
        decreases a@.len() - i,
    {
        if a[i] != b[i] {
            return false;
        }
        i = i + 1;
    }
    proof {
        assert(a@ =~= b@);
    }
    true
}

fn same_order(a: &Vec<usize>, b: &Vec<usize>) -> (r: bool)
    ensures
        r == (a@ == b@),
{
    if a.len() != b.len() {
        return false;
    }
    let mut i: usize = 0;
    while i < a.len()
        invariant
            i <= a@.len(),
            a@.len() == b@.len(),
            forall|k: int| 0 <= k < i ==> #[trigger] a@[k] == b@[k],
        decreases a@.len() - i,
    {
        if a[i] != b[i] {
            return false;
        }
        i = i + 1;
    }
    proof {
        assert(a@ =~= b@);
    }
    true
}

/// Whether two loaded diffs hold the same.
pub fn diffs_match(a: &LoadedDiff, b: &LoadedDiff) -> (r: bool)
    ensures
        r == same_diff(*a, *b),
{
    let files = same(a.file_diff.file_path.as_str(), b.file_diff.file_path.as_str())
        && same_opt_str(&a.file_diff.old_path, &b.file_diff.old_path)
        && same_opt_str(&a.file_diff.new_path, &b.file_diff.new_path)
        && same_hunks(&a.file_diff.hunks, &b.file_diff.hunks);
    proof {
        assert(files == (file_diff_view(a.file_diff) == file_diff_view(b.file_diff)));
    }
    a.key.same(&b.key) && same_comparison(&a.comparison, &b.comparison) && same_opt_str(&a.read_at, &b.read_at)
        && files && same(a.raw_diff.as_str(), b.raw_diff.as_str()) && same_targets(&a.targets, &b.targets)
        && same_order(&a.unified_order, &b.unified_order) && a.truncated_lines == b.truncated_lines
}

} // verus!
