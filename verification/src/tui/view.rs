//! Pure view: snapshot + view state in, styled lines and hit regions out.
use vstd::prelude::*;

use crate::engine::nav::ViewMode;
use crate::engine::types::{key_of_file, key_view, ref_label_spec};
use crate::engine::{DiffState, FileKey, RepoState, Scope, Snapshot};
use crate::git::{ChangedFile, ChangedFileStatus};
use crate::strs::{
    cat, copy, copy_opt, trim_end, trim_end_spec, decimal, decimal_string, same, is_prefix, opt_view, own, repeat_char, spaces, split, split_on, starts_with, views,
};
use crate::tui::format::{
    char_cells, char_width, display_width, pad, pad_spec, truncate, truncate_spec, width,
};
use crate::tui::style::{plain_style, Line, Role, Semantic, Span, Style};
use crate::tui::dialog::{render_view, row_texts, rows_line_count, RowText};
use crate::tui::keys::{binding_view, binding_views, key_table, keys, sheet_rows, Binding, BindingView, KeyAction};
use crate::tui::layout::{clamp_scroll, clamp_spec};
use crate::tui::picker::{
    self, entry_row, footer_spec, head_lines, head_rows, join_spec, rows_spec, visible_spec, window_rows,
    window_spec, Picker, RowView,
};
use crate::tui::rows::{opt_cell, Cell, CellSpec, Row, RowSpec};
use crate::tui::sanitize::{sanitize, sanitize_spec};
use crate::tui::state::{cursor_row, FilesPanel, ViewState};

verus! {

pub const FILES_WIDTH: u16 = 18;

pub const MIN_SPLIT_WIDTH: u16 = 100;

#[derive(Debug, Clone, Copy, PartialEq, Eq, Structural)]
pub enum Action {
    PrevFile,
    NextFile,
    PrevHunk,
    NextHunk,
    ToggleScope,
    ToggleView,
    ToggleFiles,
    Refresh,
    SelectFile(usize),
    CursorToRow(usize),
    PickRow(usize),
}

pub open spec fn key_action_spec(a: Action) -> Option<KeyAction> {
    match a {
        Action::PrevFile => Some(KeyAction::FilePrev),
        Action::NextFile => Some(KeyAction::FileNext),
        Action::PrevHunk => Some(KeyAction::HunkPrev),
        Action::NextHunk => Some(KeyAction::HunkNext),
        Action::ToggleScope => Some(KeyAction::ToggleScope),
        Action::ToggleView => Some(KeyAction::ToggleView),
        Action::ToggleFiles => Some(KeyAction::ToggleFiles),
        Action::Refresh => Some(KeyAction::Refresh),
        _ => None,
    }
}

impl Action {
    /// The key that does the same; none for the positional actions.
    pub fn key_action(&self) -> (r: Option<KeyAction>)
        ensures
            r == key_action_spec(*self),
    {
        match self {
            Action::PrevFile => Some(KeyAction::FilePrev),
            Action::NextFile => Some(KeyAction::FileNext),
            Action::PrevHunk => Some(KeyAction::HunkPrev),
            Action::NextHunk => Some(KeyAction::HunkNext),
            Action::ToggleScope => Some(KeyAction::ToggleScope),
            Action::ToggleView => Some(KeyAction::ToggleView),
            Action::ToggleFiles => Some(KeyAction::ToggleFiles),
            Action::Refresh => Some(KeyAction::Refresh),
            _ => None,
        }
    }
}

/// A clickable region of one screen row, `x0` inclusive and `x1` exclusive.
#[derive(Debug, Clone, Copy, PartialEq, Eq, Structural)]
pub struct Hit {
    pub y: u16,
    pub x0: u16,
    pub x1: u16,
    pub action: Action,
}

pub open spec fn hovered_spec(hit: Hit, state: ViewState) -> bool {
    &&& state.mouse_requested
    &&& !state.help_open
    &&& state.picker is None
    &&& state.hover matches Some((x, y)) && hit.y == y && x >= hit.x0 && x < hit.x1
}

impl Hit {
    fn hovered(&self, state: &ViewState) -> (r: bool)
        ensures
            r == hovered_spec(*self, *state),
    {
        state.mouse_requested && !state.help_open && state.picker.is_none() && match state.hover {
            Some((x, y)) => self.y == y && x >= self.x0 && x < self.x1,
            None => false,
        }
    }
}

pub struct Rendered {
    pub lines: Vec<crate::tui::style::Line>,
    pub hits: Vec<Hit>,
}

/// A line's text: its spans' texts one after another.
pub open spec fn line_text(l: Seq<crate::tui::style::Span>) -> Seq<char>
    decreases l.len(),
{
    if l.len() == 0 {
        seq![]
    } else {
        line_text(l.drop_last()) + l.last().text@
    }
}

/// The characters of one line.
pub fn line_string(line: &crate::tui::style::Line) -> (r: String)
    ensures
        r@ == line_text(line@),
{
    let mut out = String::new();
    let mut i: usize = 0;
    while i < line.len()
        invariant
            i <= line@.len(),
            out@ == line_text(line@.take(i as int)),
        decreases line@.len() - i,
    {
        proof {
            assert(line@.take(i + 1).drop_last() == line@.take(i as int));
        }
        crate::strs::push_str(&mut out, line[i].text.as_str());
        i = i + 1;
    }
    proof {
        assert(line@.take(line@.len() as int) == line@);
    }
    out
}

pub open spec fn first_hit_from(hits: Seq<Hit>, x: u16, y: u16, i: int) -> Option<Action>
    decreases hits.len() - i,
{
    if i < 0 || i >= hits.len() {
        None
    } else if hits[i].y == y && x >= hits[i].x0 && x < hits[i].x1 {
        Some(hits[i].action)
    } else {
        first_hit_from(hits, x, y, i + 1)
    }
}

impl Rendered {
    /// Each line's text without trailing white space.
    pub fn plain(&self) -> (r: Vec<String>)
        ensures
            r@.len() == self.lines@.len(),
            forall|i: int| 0 <= i < r@.len() ==> #[trigger] r@[i]@ == trim_end_spec(line_text(self.lines@[i]@)),
    {
        let mut out: Vec<String> = Vec::new();
        let mut i: usize = 0;
        while i < self.lines.len()
            invariant
                i <= self.lines@.len(),
                out@.len() == i,
                forall|j: int| 0 <= j < i ==> #[trigger] out@[j]@ == trim_end_spec(line_text(self.lines@[j]@)),
            decreases self.lines@.len() - i,
        {
            let text = line_string(&self.lines[i]);
            out.push(trim_end(text.as_str()));
            i = i + 1;
        }
        out
    }

    /// The action of the first region that holds the cell.
    pub fn hit(&self, x: u16, y: u16) -> (r: Option<&Action>)
        ensures
            match r {
                Some(a) => first_hit_from(self.hits@, x, y, 0) == Some(*a),
                None => first_hit_from(self.hits@, x, y, 0) is None,
            },
    {
        let mut i: usize = 0;
        while i < self.hits.len()
            invariant
                i <= self.hits@.len(),
                first_hit_from(self.hits@, x, y, 0) == first_hit_from(self.hits@, x, y, i as int),
            decreases self.hits@.len() - i,
        {
            let h = &self.hits[i];
            if h.y == y && x >= h.x0 && x < h.x1 {
                return Some(&h.action);
            }
            i = i + 1;
        }
        None
    }
}

/// The one-line notice above the footer, by priority: a failed status over a list still shown,
/// a degraded watcher, then the state's own notice.
pub open spec fn notice_spec(state: ViewState, snapshot: Snapshot) -> Option<Seq<char>> {
    if snapshot.status_error is Some && snapshot.files@.len() > 0 {
        Some(
            "status failed: "@ + sanitize_spec(snapshot.status_error->0@)
                + " · showing the last good list · r retries"@,
        )
    } else if snapshot.watcher_error is Some {
        Some(
            "live refresh degraded: "@ + sanitize_spec(snapshot.watcher_error->0@)
                + " · polling every 5 s · r retries"@,
        )
    } else {
        opt_view(state.notice)
    }
}

/// The one-line notice above the footer, by priority.
pub fn notice(state: &ViewState, snapshot: &Snapshot) -> (r: Option<String>)
    ensures
        opt_view(r) == notice_spec(*state, *snapshot),
{
    if let Some(error) = &snapshot.status_error {
        if snapshot.files.len() > 0 {
            return Some(
                cat(
                    cat("status failed: ", sanitize(error.as_str()).as_str()).as_str(),
                    " · showing the last good list · r retries",
                ),
            );
        }
    }
    if let Some(reason) = &snapshot.watcher_error {
        return Some(
            cat(
                cat("live refresh degraded: ", sanitize(reason.as_str()).as_str()).as_str(),
                " · polling every 5 s · r retries",
            ),
        );
    }
    copy_opt(&state.notice)
}

pub open spec fn body_height_spec(state: ViewState, snapshot: Snapshot, height: u16) -> u16 {
    let taken: int = if notice_spec(state, snapshot) is Some {
        3
    } else {
        2
    };
    if height >= taken {
        (height - taken) as u16
    } else {
        0
    }
}

/// The rows left for the body: the toolbar, the footer and a notice take theirs.
pub fn body_height(state: &ViewState, snapshot: &Snapshot, height: u16) -> (r: u16)
    ensures
        r == body_height_spec(*state, *snapshot, height),
{
    let taken: u16 = if notice(state, snapshot).is_some() { 3 } else { 2 };
    if height >= taken { height - taken } else { 0 }
}

pub open spec fn conflict_line(line: Seq<char>) -> bool {
    is_prefix("diff --cc"@, line) || is_prefix("diff --combined"@, line) || is_prefix("@@@"@, line)
}

/// Whether a line of the raw diff is a combined-diff header or hunk header.
pub open spec fn is_conflict_spec(raw: Seq<char>) -> bool {
    exists|i: int| 0 <= i < split_on(raw, '\n').len() && conflict_line(#[trigger] split_on(raw, '\n')[i])
}

/// The parser yields zero hunks for a combined diff; the raw text still says so.
fn is_conflict(raw_diff: &str) -> (r: bool)
    ensures
        r == is_conflict_spec(raw_diff@),
{
    let lines = split(raw_diff, '\n');
    let ghost ls = views(lines@);
    let mut i: usize = 0;
    while i < lines.len()
        invariant
            ls == views(lines@),
            ls == split_on(raw_diff@, '\n'),
            i <= lines@.len(),
            forall|j: int| 0 <= j < i ==> !conflict_line(#[trigger] ls[j]),
        decreases lines@.len() - i,
    {
        let l = lines[i].as_str();
        proof {
            assert(ls[i as int] == lines@[i as int]@);
        }
        if starts_with(l, "diff --cc") || starts_with(l, "diff --combined") || starts_with(l, "@@@") {
            return true;
        }
        i = i + 1;
    }
    false
}

/// The message drawn in place of the body, when there is one.
pub open spec fn state_message_spec(s: Snapshot) -> Option<Seq<char>> {
    if (s.revision == 0 || s.repo is NotARepo) && s.status_error is Some {
        Some(sanitize_spec(s.status_error->0@))
    } else if s.revision == 0 {
        Some("loading…"@)
    } else if s.repo is Unusable {
        Some(sanitize_spec(s.repo->reason@))
    } else if s.repo is NotARepo {
        Some("not a git repository"@)
    } else if s.files@.len() == 0 {
        match s.status_error {
            Some(e) => Some(sanitize_spec(e@)),
            None => Some("working tree clean"@),
        }
    } else {
        match s.diff {
            DiffState::Loading => Some("loading…"@),
            DiffState::Failed(e) => Some(sanitize_spec(e@)),
            DiffState::Ready(d) => if d.file_diff.hunks@.len() == 0 {
                if is_conflict_spec(d.raw_diff@) {
                    Some("unmerged path: resolve conflicts to see hunks"@)
                } else {
                    Some("binary file or no textual changes"@)
                }
            } else {
                None
            },
            DiffState::Idle => None,
        }
    }
}

fn state_message(snapshot: &Snapshot) -> (r: Option<String>)
    ensures
        opt_view(r) == state_message_spec(*snapshot),
{
    let not_a_repo = match &snapshot.repo {
        RepoState::NotARepo { .. } => true,
        _ => false,
    };
    if snapshot.revision == 0 || not_a_repo {
        if let Some(error) = &snapshot.status_error {
            return Some(sanitize(error.as_str()));
        }
    }
    if snapshot.revision == 0 {
        return Some(own("loading…"));
    }
    match &snapshot.repo {
        RepoState::Unusable { reason } => {
            return Some(sanitize(reason.as_str()));
        },
        RepoState::NotARepo { .. } => {
            return Some(own("not a git repository"));
        },
        RepoState::Repo { .. } => {},
    }
    if snapshot.files.len() == 0 {
        return match &snapshot.status_error {
            Some(e) => Some(sanitize(e.as_str())),
            None => Some(own("working tree clean")),
        };
    }
    match &snapshot.diff {
        DiffState::Loading => Some(own("loading…")),
        DiffState::Failed(error) => Some(sanitize(error.as_str())),
        DiffState::Ready(diff) => if diff.file_diff.hunks.len() == 0 {
            if is_conflict(diff.raw_diff.as_str()) {
                Some(own("unmerged path: resolve conflicts to see hunks"))
            } else {
                Some(own("binary file or no textual changes"))
            }
        } else {
            None
        },
        DiffState::Idle => None,
    }
}

pub open spec fn body_is_drawn_spec(state: ViewState, snapshot: Snapshot, columns: u16, height: u16) -> bool {
    &&& columns >= 40
    &&& height >= 10
    &&& !state.help_open
    &&& state.picker is None
    &&& (snapshot.diff is Ready || snapshot.files@.len() == 0)
}

/// Whether the frame shows loaded content or an empty list without a covering modal.
pub fn body_is_drawn(state: &ViewState, snapshot: &Snapshot, columns: u16, height: u16) -> (r: bool)
    ensures
        r == body_is_drawn_spec(*state, *snapshot, columns, height),
{
    let ready = match &snapshot.diff {
        DiffState::Ready(_) => true,
        _ => false,
    };
    columns >= 40 && height >= 10 && !state.help_open && state.picker.is_none() && (ready
        || snapshot.files.len() == 0)
}

pub open spec fn span_views(l: Seq<Span>) -> Seq<(Seq<char>, Style)> {
    l.map_values(|s: Span| (s.text@, s.style))
}

pub open spec fn sat_sub(a: int, b: int) -> nat {
    if a >= b {
        (a - b) as nat
    } else {
        0
    }
}

/// Spans cut to `remaining` cells in order, then padded with spaces to exactly that many.
pub open spec fn fit_spec(spans: Seq<(Seq<char>, Style)>, remaining: nat) -> Seq<(Seq<char>, Style)>
    decreases spans.len(),
{
    if spans.len() == 0 {
        if remaining > 0 {
            seq![(repeat_char(' ', remaining), plain_style(Role::Body))]
        } else {
            seq![]
        }
    } else {
        let t = truncate_spec(spans[0].0, remaining);
        seq![(t, spans[0].1)] + fit_spec(spans.drop_first(), sat_sub(remaining as int, display_width(t) as int))
    }
}

/// Cuts a line to `cells` cells and pads it to exactly that many.
fn fit_line(line: Line, cells: usize) -> (out: Line)
    ensures
        span_views(out@) == fit_spec(span_views(line@), cells as nat),
{
    let ghost all = span_views(line@);
    let mut out: Line = Vec::new();
    let mut remaining = cells;
    let mut i: usize = 0;
    proof {
        assert(all.skip(0) == all);
        assert(span_views(out@) =~= Seq::<(Seq<char>, Style)>::empty());
    }
    while i < line.len()
        invariant
            all == span_views(line@),
            i <= line@.len(),
            span_views(out@) + fit_spec(all.skip(i as int), remaining as nat) == fit_spec(all, cells as nat),
        decreases line@.len() - i,
    {
        let ghost before = span_views(out@);
        let ghost rest = all.skip(i as int);
        let ghost r0 = remaining as nat;
        let text = truncate(line[i].text.as_str(), remaining);
        let w = width(text.as_str());
        let style = line[i].style;
        proof {
            assert(rest[0] == all[i as int]);
            assert(all[i as int] == (line@[i as int].text@, line@[i as int].style));
            assert(rest.drop_first() == all.skip(i + 1));
        }
        let ghost t = text@;
        out.push(Span::new(text, style));
        remaining = if remaining >= w { remaining - w } else { 0 };
        proof {
            assert(span_views(out@) =~= before.push((t, style)));
            assert(fit_spec(rest, r0) == seq![(t, style)] + fit_spec(all.skip(i + 1), remaining as nat));
            assert(before + fit_spec(rest, r0) =~= span_views(out@) + fit_spec(all.skip(i + 1), remaining as nat));
        }
        i = i + 1;
    }
    proof {
        assert(all.skip(i as int) =~= Seq::<(Seq<char>, Style)>::empty());
    }
    let ghost before = span_views(out@);
    if remaining > 0 {
        out.push(Span::body(spaces(remaining)));
        proof {
            assert(span_views(out@) =~= before + fit_spec(all.skip(i as int), remaining as nat));
        }
    } else {
        proof {
            assert(span_views(out@) =~= before + fit_spec(all.skip(i as int), remaining as nat));
        }
    }
    out
}

/// The cells a character takes; zero for one `unicode_width` gives none.
pub open spec fn cells_of(c: char) -> nat {
    match char_cells(c) {
        Some(n) => n as nat,
        None => 0,
    }
}

fn char_cells_of(c: char) -> (n: usize)
    ensures
        n == cells_of(c),
        n <= 3,
{
    match char_width(c) {
        Some(n) => n,
        None => 0,
    }
}

pub open spec fn min_nat(a: nat, b: nat) -> nat {
    if a <= b {
        a
    } else {
        b
    }
}

pub open spec fn max_nat(a: nat, b: nat) -> nat {
    if a >= b {
        a
    } else {
        b
    }
}

/// `a + b`, held at the largest `usize`.
pub open spec fn sat_add(a: nat, b: nat) -> nat {
    if a + b <= usize::MAX {
        a + b
    } else {
        usize::MAX as nat
    }
}

/// Clipping the characters `cs` of one span to the cells `[start, end)`, from cell `position`
/// on: the kept text, the next position, the cells kept, and whether the last character with a
/// width was kept whole. A wide character cut by an edge becomes the spaces that stay visible;
/// a zero-width character follows the one before it.
pub open spec fn clip_chars(cs: Seq<char>, start: nat, end: nat, position: nat, kept: bool) -> (Seq<char>, nat, nat, bool)
    decreases cs.len(),
{
    if cs.len() == 0 {
        (seq![], position, 0, kept)
    } else {
        let ch = cs[0];
        let size = cells_of(ch);
        if size == 0 {
            let r = clip_chars(cs.drop_first(), start, end, position, kept);
            (
                (if kept {
                    seq![ch]
                } else {
                    seq![]
                }) + r.0,
                r.1,
                r.2,
                r.3,
            )
        } else {
            let next = sat_add(position, size);
            let visible = sat_sub(min_nat(next, end) as int, max_nat(position, start) as int);
            let k = visible == size;
            let r = clip_chars(cs.drop_first(), start, end, next, k);
            (
                (if k {
                    seq![ch]
                } else {
                    repeat_char(' ', visible)
                }) + r.0,
                r.1,
                visible + r.2,
                r.3,
            )
        }
    }
}

/// Clipping a line's spans: the spans left (an emptied span is dropped), the cells kept, the
/// next position and the kept flag.
pub open spec fn clip_spans(spans: Seq<(Seq<char>, Style)>, start: nat, end: nat, position: nat, kept: bool) -> (Seq<(Seq<char>, Style)>, nat, nat, bool)
    decreases spans.len(),
{
    if spans.len() == 0 {
        (seq![], 0, position, kept)
    } else {
        let c = clip_chars(spans[0].0, start, end, position, kept);
        let r = clip_spans(spans.drop_first(), start, end, c.1, c.3);
        (
            (if c.0.len() > 0 {
                seq![(c.0, spans[0].1)]
            } else {
                seq![]
            }) + r.0,
            c.2 + r.1,
            r.2,
            r.3,
        )
    }
}

/// The cells `[start, start + cells)` of a line, padded with spaces to exactly `cells`.
pub open spec fn clip_spec(line: Seq<(Seq<char>, Style)>, start: nat, cells: nat) -> Seq<(Seq<char>, Style)> {
    let r = clip_spans(line, start, sat_add(start, cells), 0, false);
    r.0 + if r.1 < cells {
        seq![(repeat_char(' ', (cells - r.1) as nat), plain_style(Role::Body))]
    } else {
        seq![]
    }
}

/// Clips one span's characters, appending what stays to `text`.
fn clip_span_chars(
    cs: &Vec<char>,
    start: usize,
    end: usize,
    position: &mut usize,
    kept: &mut bool,
    used: &mut usize,
    text: &mut String,
)
    requires
        *old(used) <= *old(position),
    ensures
        ({
            let r = clip_chars(cs@, start as nat, end as nat, *old(position) as nat, *old(kept));
            &&& final(text)@ == old(text)@ + r.0
            &&& *final(position) == r.1
            &&& *final(used) == *old(used) + r.2
            &&& *final(kept) == r.3
            &&& *final(used) <= *final(position)
        }),
{
    let ghost r0 = clip_chars(cs@, start as nat, end as nat, *position as nat, *kept);
    let ghost t0 = text@;
    let ghost u0 = *used;
    let mut i: usize = 0;
    proof {
        assert(cs@.skip(0) == cs@);
    }
    while i < cs.len()
        invariant
            i <= cs@.len(),
            *used <= *position,
            ({
                let r = clip_chars(cs@.skip(i as int), start as nat, end as nat, *position as nat, *kept);
                &&& text@ + r.0 == t0 + r0.0
                &&& r.1 == r0.1
                &&& *used + r.2 == u0 + r0.2
                &&& r.3 == r0.3
            }),
        decreases cs@.len() - i,
    {
        let ch = cs[i];
        let ghost rest = cs@.skip(i as int);
        proof {
            assert(rest[0] == ch);
            assert(rest.drop_first() == cs@.skip(i + 1));
        }
        let size = char_cells_of(ch);
        let ghost before = text@;
        if size == 0 {
            if *kept {
                text.push(ch);
            }
            proof {
                let r = clip_chars(cs@.skip(i + 1), start as nat, end as nat, *position as nat, *kept);
                assert(text@ + r.0 =~= before + clip_chars(rest, start as nat, end as nat, *position as nat, *kept).0);
            }
        } else {
            let ghost p0 = *position;
            let next = position.saturating_add(size);
            let low = if *position >= start { *position } else { start };
            let high = if next <= end { next } else { end };
            let visible = if high >= low { high - low } else { 0 };
            *kept = visible == size;
            if *kept {
                text.push(ch);
            } else {
                crate::strs::push_str(text, spaces(visible).as_str());
            }
            proof {
                assert(visible <= next - p0);
            }
            *used = *used + visible;
            *position = next;
        }
        i = i + 1;
    }
}

/// The cells `[start, start + cells)` of a line, padded to exactly `cells`.
pub fn clip_line(line: &Line, start: usize, cells: usize) -> (out: Line)
    ensures
        span_views(out@) == clip_spec(span_views(line@), start as nat, cells as nat),
{
    let end = start.saturating_add(cells);
    let ghost all = span_views(line@);
    let ghost f = clip_spans(all, start as nat, end as nat, 0, false);
    let mut position: usize = 0;
    let mut used: usize = 0;
    let mut kept = false;
    let mut clipped: Line = Vec::new();
    let mut i: usize = 0;
    proof {
        assert(all.skip(0) == all);
        assert(span_views(clipped@) =~= Seq::<(Seq<char>, Style)>::empty());
    }
    while i < line.len()
        invariant
            all == span_views(line@),
            f == clip_spans(all, start as nat, end as nat, 0, false),
            i <= line@.len(),
            used <= position,
            ({
                let r = clip_spans(all.skip(i as int), start as nat, end as nat, position as nat, kept);
                &&& span_views(clipped@) + r.0 == f.0
                &&& used + r.1 == f.1
                &&& r.2 == f.2
                &&& r.3 == f.3
            }),
        decreases line@.len() - i,
    {
        let ghost rest = all.skip(i as int);
        proof {
            assert(rest[0] == all[i as int]);
            assert(all[i as int] == (line@[i as int].text@, line@[i as int].style));
            assert(rest.drop_first() == all.skip(i + 1));
        }
        let cs = crate::strs::chars(line[i].text.as_str());
        let mut text = String::new();
        let ghost before = span_views(clipped@);
        clip_span_chars(&cs, start, end, &mut position, &mut kept, &mut used, &mut text);
        if text.as_str().unicode_len() > 0 {
            clipped.push(Span::new(text, line[i].style));
        }
        i = i + 1;
    }
    proof {
        assert(all.skip(i as int) =~= Seq::<(Seq<char>, Style)>::empty());
    }
    if used < cells {
        clipped.push(Span::body(spaces(cells - used)));
    }
    clipped
}

/// The text after its first `cells` cells, from character `i` with `skipped` cells passed; a
/// wide character cut by the edge leaves the spaces of its visible part.
pub open spec fn scroll_from(cs: Seq<char>, cells: nat, i: int, skipped: nat) -> Seq<char>
    decreases cs.len() - i,
{
    if i < 0 || i >= cs.len() {
        seq![]
    } else {
        let w = cells_of(cs[i]);
        if skipped >= cells && w > 0 {
            cs.skip(i)
        } else if skipped + w > cells {
            repeat_char(' ', (skipped + w - cells) as nat) + cs.skip(i + 1)
        } else {
            scroll_from(cs, cells, i + 1, skipped + w)
        }
    }
}

pub open spec fn scroll_spec(text: Seq<char>, cells: nat) -> Seq<char> {
    if cells == 0 {
        text
    } else {
        scroll_from(text, cells, 0, 0)
    }
}

/// The text scrolled left by `cells` cells.
fn scroll_text(text: &str, cells: usize) -> (r: String)
    ensures
        r@ == scroll_spec(text@, cells as nat),
{
    if cells == 0 {
        return own(text);
    }
    let cs = crate::strs::chars(text);
    let mut skipped: usize = 0;
    let mut i: usize = 0;
    while i < cs.len()
        invariant
            cs@ == text@,
            i <= cs@.len(),
            skipped <= cells,
            cells > 0,
            scroll_from(cs@, cells as nat, 0, 0) == scroll_from(cs@, cells as nat, i as int, skipped as nat),
        decreases cs@.len() - i,
    {
        let w = char_cells_of(cs[i]);
        if skipped >= cells && w > 0 {
            return crate::strs::collect(&cs, i, cs.len());
        }
        if w > cells - skipped {
            let mut out = spaces(w - (cells - skipped));
            crate::strs::push_str(&mut out, crate::strs::collect(&cs, i + 1, cs.len()).as_str());
            return out;
        }
        skipped = skipped + w;
        i = i + 1;
    }
    String::new()
}

pub open spec fn number_text(no: Option<u32>) -> Seq<char> {
    match no {
        Some(n) => decimal(n as nat),
        None => seq![],
    }
}

/// Right-aligned in five characters, as `{:>5}` does.
pub open spec fn right5(s: Seq<char>) -> Seq<char> {
    if s.len() < 5 {
        repeat_char(' ', (5 - s.len()) as nat) + s
    } else {
        s
    }
}

pub open spec fn sign_style(sign: char) -> Style {
    if sign == '+' {
        Style { semantic: Some(Semantic::Good), ..plain_style(Role::Body) }
    } else if sign == '-' {
        Style { semantic: Some(Semantic::Bad), ..plain_style(Role::Body) }
    } else {
        plain_style(Role::Body)
    }
}

pub open spec fn plural(n: nat) -> Seq<char> {
    if n == 1 {
        seq![]
    } else {
        seq!['s']
    }
}

/// One side of a split row.
pub open spec fn cell_spans(c: Option<CellSpec>, hscroll: nat) -> Seq<(Seq<char>, Style)> {
    match c {
        Some(x) => seq![
            (right5(number_text(x.no)) + seq![' '], plain_style(Role::Label)),
            (seq![x.sign, ' '] + scroll_spec(x.text, hscroll), sign_style(x.sign)),
        ],
        None => seq![],
    }
}

/// A row's spans before they are fitted to the body's width.
pub open spec fn row_spans(row: RowSpec, cells: nat, hscroll: nat) -> Seq<(Seq<char>, Style)> {
    match row {
        RowSpec::FileHeader(p) => seq![(scroll_spec(p, hscroll), plain_style(Role::Emphasis))],
        RowSpec::HunkHeader(_, t) => seq![
            (scroll_spec(t, hscroll), Style { semantic: Some(Semantic::Accent), ..plain_style(Role::Label) }),
        ],
        RowSpec::Gap(n) => seq![
            ("··· "@ + decimal(n as nat) + " unmodified line"@ + plural(n as nat) + " ···"@, plain_style(Role::Label)),
        ],
        RowSpec::Truncated(n) => seq![
            ("… "@ + decimal(n as nat) + " more line"@ + plural(n as nat) + " not shown"@, plain_style(Role::Label)),
        ],
        RowSpec::Unified(_, o, nn, sign, text) => seq![
            (right5(number_text(o)) + seq![' '] + right5(number_text(nn)) + seq![' '], plain_style(Role::Label)),
            (seq![sign, ' '] + scroll_spec(text, hscroll), sign_style(sign)),
        ],
        RowSpec::Split(l, r) => {
            let half = sat_sub(cells as int, 1) / 2;
            fit_spec(cell_spans(l, hscroll), half) + seq![("│"@, plain_style(Role::Rule))] + fit_spec(
                cell_spans(r, hscroll),
                half,
            )
        },
    }
}

pub open spec fn reversed(spans: Seq<(Seq<char>, Style)>) -> Seq<(Seq<char>, Style)> {
    spans.map_values(|p: (Seq<char>, Style)| (p.0, Style { reverse: true, ..p.1 }))
}

/// A body row as drawn: fitted to the columns, in reverse video under the cursor.
pub open spec fn body_line_spec(row: RowSpec, columns: u16, hscroll: nat, cursor: bool) -> Seq<(Seq<char>, Style)> {
    let f = fit_spec(row_spans(row, columns as nat, hscroll), columns as nat);
    if cursor {
        reversed(f)
    } else {
        f
    }
}

fn number_string(no: Option<u32>) -> (r: String)
    ensures
        r@ == right5(number_text(no)),
{
    let n = match no {
        Some(n) => decimal_string(n as u128),
        None => String::new(),
    };
    let len = n.as_str().unicode_len();
    if len < 5 {
        let mut out = spaces(5 - len);
        crate::strs::push_str(&mut out, n.as_str());
        out
    } else {
        n
    }
}

fn sign_style_of(sign: char) -> (r: Style)
    ensures
        r == sign_style(sign),
{
    if sign == '+' {
        Style::semantic(Role::Body, Semantic::Good)
    } else if sign == '-' {
        Style::semantic(Role::Body, Semantic::Bad)
    } else {
        Style::role(Role::Body)
    }
}

fn plural_of(n: u64) -> (r: &'static str)
    ensures
        r@ == plural(n as nat),
{
    proof {
        reveal_strlit("");
        reveal_strlit("s");
    }
    if n == 1 {
        ""
    } else {
        "s"
    }
}

fn signed_text(sign: char, text: &str, hscroll: usize) -> (r: String)
    ensures
        r@ == seq![sign, ' '] + scroll_spec(text@, hscroll as nat),
{
    let mut out = String::new();
    out.push(sign);
    out.push(' ');
    crate::strs::push_str(&mut out, scroll_text(text, hscroll).as_str());
    proof {
        assert(out@ =~= seq![sign, ' '] + scroll_spec(text@, hscroll as nat));
    }
    out
}

fn side_spans(cell: &Option<Cell>, hscroll: usize, half: usize) -> (r: Line)
    ensures
        span_views(r@) == fit_spec(cell_spans(opt_cell(*cell), hscroll as nat), half as nat),
{
    let spans: Line = match cell {
        Some(c) => {
            let mut no = number_string(c.no);
            no.push(' ');
            vec![Span::label(no), Span::new(signed_text(c.sign, c.text.as_str(), hscroll), sign_style_of(c.sign))]
        },
        None => Vec::new(),
    };
    proof {
        assert(span_views(spans@) =~~= cell_spans(opt_cell(*cell), hscroll as nat));
    }
    fit_line(spans, half)
}

fn reverse_all(line: &mut Line)
    ensures
        span_views(final(line)@) == reversed(span_views(old(line)@)),
{
    let mut i: usize = 0;
    while i < line.len()
        invariant
            i <= line@.len(),
            line@.len() == old(line)@.len(),
            forall|j: int|
                #![trigger line@[j]]
                0 <= j < i ==> line@[j].text@ == old(line)@[j].text@ && line@[j].style == (Style {
                    reverse: true,
                    ..old(line)@[j].style
                }),
            forall|j: int| i <= j < line@.len() ==> #[trigger] line@[j] == old(line)@[j],
        decreases line@.len() - i,
    {
        let mut span = line[i].duplicate();
        span.style.reverse = true;
        let ghost prev = line@;
        line.set(i, span);
        proof {
            assert(line@ == prev.update(i as int, span));
            assert(line@[i as int].style == (Style { reverse: true, ..old(line)@[i as int].style }));
            assert forall|j: int| 0 <= j < i implies #[trigger] line@[j] == prev[j] by {}
        }
        i = i + 1;
    }
    proof {
        assert(span_views(line@) =~= reversed(span_views(old(line)@)));
    }
}

/// One body row as drawn; the view mode is carried by the row itself.
pub fn body_line(row: &Row, columns: u16, hscroll: usize, mode: ViewMode, cursor: bool) -> (out: Line)
    ensures
        span_views(out@) == body_line_spec(row@, columns, hscroll as nat, cursor),
{
    let cells = columns as usize;
    proof {
        reveal_strlit("··· ");
        reveal_strlit(" unmodified line");
        reveal_strlit(" ···");
        reveal_strlit("… ");
        reveal_strlit(" more line");
        reveal_strlit(" not shown");
    }
    let line: Line = match row {
        Row::FileHeader { path } => vec![Span::emphasis(scroll_text(path.as_str(), hscroll))],
        Row::HunkHeader { text, .. } => vec![Span::new(scroll_text(text.as_str(), hscroll), Style::semantic(Role::Label, Semantic::Accent))],
        Row::Gap { lines } => {
            let mut t = own("··· ");
            crate::strs::push_str(&mut t, decimal_string(*lines as u128).as_str());
            crate::strs::push_str(&mut t, " unmodified line");
            crate::strs::push_str(&mut t, plural_of(*lines as u64));
            crate::strs::push_str(&mut t, " ···");
            vec![Span::label(t)]
        },
        Row::Truncated { lines } => {
            let mut t = own("… ");
            crate::strs::push_str(&mut t, decimal_string(*lines as u128).as_str());
            crate::strs::push_str(&mut t, " more line");
            crate::strs::push_str(&mut t, plural_of(*lines as u64));
            crate::strs::push_str(&mut t, " not shown");
            vec![Span::label(t)]
        },
        Row::Unified { old_no, new_no, sign, text, .. } => {
            let mut numbers = number_string(*old_no);
            numbers.push(' ');
            crate::strs::push_str(&mut numbers, number_string(*new_no).as_str());
            numbers.push(' ');
            vec![Span::label(numbers), Span::new(signed_text(*sign, text.as_str(), hscroll), sign_style_of(*sign))]
        },
        Row::Split { left, right } => {
            let half = (if cells >= 1 { cells - 1 } else { 0 }) / 2;
            let mut line = side_spans(left, hscroll, half);
            let ghost l = span_views(line@);
            line.push(Span::new(own("│"), Style::role(Role::Rule)));
            let r = side_spans(right, hscroll, half);
            let ghost rv = span_views(r@);
            let ghost mid = span_views(line@);
            let mut r = r;
            line.append(&mut r);
            proof {
                assert(span_views(line@) =~= mid + rv);
            }
            line
        },
    };
    proof {
        assert(span_views(line@) =~~= row_spans(row@, cells as nat, hscroll as nat));
    }
    let mut out = fit_line(line, cells);
    if cursor {
        reverse_all(&mut out);
    }
    out
}

// ---------------------------------------------------------------------------
// The files panel.
// ---------------------------------------------------------------------------

/// The last index before `i` that holds `/`.
pub open spec fn last_slash_before(p: Seq<char>, i: int) -> Option<int>
    decreases i,
{
    if i <= 0 {
        None
    } else if p[i - 1] == '/' {
        Some(i - 1)
    } else {
        last_slash_before(p, i - 1)
    }
}

/// A path's directory and name, as `rsplit_once('/')` splits it; `.` is the directory of a bare name.
pub open spec fn dir_name(p: Seq<char>) -> (Seq<char>, Seq<char>) {
    match last_slash_before(p, p.len() as int) {
        Some(k) => (p.take(k), p.skip(k + 1)),
        None => (seq!['.'], p),
    }
}

proof fn lemma_last_slash_bound(p: Seq<char>, i: int)
    requires
        i <= p.len(),
    ensures
        last_slash_before(p, i) matches Some(k) ==> 0 <= k < i && p[k] == '/',
    decreases i,
{
    if i > 0 {
        lemma_last_slash_bound(p, i - 1);
    }
}

fn dir_and_name(path: &str) -> (r: (String, String))
    ensures
        r.0@ == dir_name(path@).0,
        r.1@ == dir_name(path@).1,
{
    let cs = crate::strs::chars(path);
    let mut i = cs.len();
    while i > 0 && cs[i - 1] != '/'
        invariant
            cs@ == path@,
            i <= cs@.len(),
            last_slash_before(cs@, cs@.len() as int) == last_slash_before(cs@, i as int),
        decreases i,
    {
        i = i - 1;
    }
    if i == 0 {
        let mut dot = String::new();
        dot.push('.');
        proof {
            assert(dot@ =~= seq!['.']);
        }
        (dot, own(path))
    } else {
        (crate::strs::collect(&cs, 0, i - 1), crate::strs::collect(&cs, i, cs.len()))
    }
}

pub open spec fn status_char(s: ChangedFileStatus) -> char {
    match s {
        ChangedFileStatus::Modified => 'M',
        ChangedFileStatus::Added => 'A',
        ChangedFileStatus::Deleted => 'D',
        ChangedFileStatus::Renamed => 'R',
        ChangedFileStatus::Untracked => '?',
    }
}

/// Whether another file has the same name in another directory.
pub open spec fn has_namesake(files: Seq<ChangedFile>, dir: Seq<char>, name: Seq<char>) -> bool {
    exists|j: int|
        0 <= j < files.len() && dir_name(#[trigger] files[j].path@).1 == name && dir_name(files[j].path@).0
            != dir
}

pub open spec fn emphasized(spans: Seq<(Seq<char>, Style)>) -> Seq<(Seq<char>, Style)> {
    spans.map_values(|p: (Seq<char>, Style)| (p.0, Style { role: Role::Emphasis, ..p.1 }))
}

/// A file row: marker, status, name, the directory when the name is not unique, staged flag.
pub open spec fn file_row(files: Seq<ChangedFile>, i: int, selected: Option<usize>) -> Seq<(Seq<char>, Style)> {
    let f = files[i];
    let (dir, name) = dir_name(f.path@);
    let marker = if selected == Some(i as usize) {
        '▸'
    } else {
        ' '
    };
    let head = seq![
        (seq![marker, status_char(f.status), ' '], plain_style(Role::Body)),
        (sanitize_spec(name), plain_style(Role::Body)),
    ] + if has_namesake(files, dir, name) {
        seq![(seq![' '] + sanitize_spec(dir) + seq!['/'], plain_style(Role::Label))]
    } else {
        seq![]
    };
    fit_spec(head, (FILES_WIDTH - 2) as nat) + seq![
        (if f.staged {
            seq!['S', ' ']
        } else {
            seq![' ', ' ']
        }, plain_style(Role::Body)),
    ]
}

/// The first row whose key is `key`.
pub open spec fn selected_from(files: Seq<ChangedFile>, key: FileKey, i: int) -> Option<usize>
    decreases files.len() - i,
{
    if i < 0 || i >= files.len() {
        None
    } else if key_of_file(files[i]) == key_view(key) {
        Some(i as usize)
    } else {
        selected_from(files, key, i + 1)
    }
}

pub open spec fn selected_spec(s: Snapshot) -> Option<usize> {
    match s.selected {
        Some(key) => selected_from(s.files@, key, 0),
        None => None,
    }
}

pub open spec fn insertions_total(files: Seq<ChangedFile>) -> nat
    decreases files.len(),
{
    if files.len() == 0 {
        0
    } else {
        insertions_total(files.drop_last()) + match files.last().insertions {
            Some(n) => n as nat,
            None => 0,
        }
    }
}

pub open spec fn deletions_total(files: Seq<ChangedFile>) -> nat
    decreases files.len(),
{
    if files.len() == 0 {
        0
    } else {
        deletions_total(files.drop_last()) + match files.last().deletions {
            Some(n) => n as nat,
            None => 0,
        }
    }
}

/// The first file row shown: the window ends at the selected row when it would fall below.
pub open spec fn files_first(s: Snapshot, height: u16) -> nat {
    let count = sat_sub(height as int, 2);
    sat_sub(
        match selected_spec(s) {
            Some(i) => i as int,
            None => 0,
        },
        sat_sub(count as int, 1) as int,
    )
}

pub open spec fn files_shown(s: Snapshot, height: u16) -> nat {
    let count = sat_sub(height as int, 2);
    let first = files_first(s, height);
    if first >= s.files@.len() {
        0
    } else {
        min_nat(count, (s.files@.len() - first) as nat)
    }
}

pub open spec fn file_hit(s: Snapshot, height: u16, k: int) -> Hit {
    Hit { y: (k + 2) as u16, x0: 0, x1: FILES_WIDTH, action: Action::SelectFile((files_first(s, height) + k) as usize) }
}

pub open spec fn file_line(s: Snapshot, st: ViewState, height: u16, k: int) -> Seq<(Seq<char>, Style)> {
    let row = file_row(s.files@, files_first(s, height) + k, selected_spec(s));
    if hovered_spec(file_hit(s, height, k), st) {
        emphasized(row)
    } else {
        row
    }
}

/// The files panel: a header, a window of rows around the selected one, blank filler and a
/// totals footer, `height` lines in all; one hit per file row.
pub open spec fn files_lines_spec(s: Snapshot, st: ViewState, height: u16) -> (Seq<Seq<(Seq<char>, Style)>>, Seq<Hit>) {
    if height == 0 {
        (seq![], seq![])
    } else {
        let n = s.files@.len();
        let shown = files_shown(s, height);
        let header = seq![(pad_spec("CHANGED "@ + decimal(n), FILES_WIDTH as nat), plain_style(Role::Emphasis))];
        let rows = Seq::new(shown, |k: int| file_line(s, st, height, k));
        let hits = Seq::new(shown, |k: int| file_hit(s, height, k));
        let body = seq![header] + rows;
        if height > 1 {
            let filler = sat_sub(height - 1, body.len() as int);
            let footer = seq![
                (pad_spec(
                    seq!['+'] + decimal(insertions_total(s.files@)) + " −"@ + decimal(deletions_total(s.files@))
                        + " · "@ + decimal(n) + " files"@,
                    FILES_WIDTH as nat,
                ), plain_style(Role::Label)),
            ];
            (body + Seq::new(filler, |k: int| seq![(repeat_char(' ', FILES_WIDTH as nat), plain_style(Role::Body))])
                + seq![footer], hits)
        } else {
            (body, hits)
        }
    }
}

fn selected_index(snapshot: &Snapshot) -> (r: Option<usize>)
    ensures
        r == selected_spec(*snapshot),
        r matches Some(i) ==> i < snapshot.files@.len(),
{
    let key = match &snapshot.selected {
        Some(k) => k,
        None => return None,
    };
    let mut i: usize = 0;
    while i < snapshot.files.len()
        invariant
            snapshot.selected == Some(*key),
            i <= snapshot.files@.len(),
            selected_from(snapshot.files@, *key, 0) == selected_from(snapshot.files@, *key, i as int),
        decreases snapshot.files@.len() - i,
    {
        if FileKey::of(&snapshot.files[i]).same(key) {
            return Some(i);
        }
        i = i + 1;
    }
    None
}

fn namesake(files: &Vec<ChangedFile>, dir: &str, name: &str) -> (r: bool)
    ensures
        r == has_namesake(files@, dir@, name@),
{
    let mut j: usize = 0;
    while j < files.len()
        invariant
            j <= files@.len(),
            forall|k: int|
                0 <= k < j ==> !(dir_name(#[trigger] files@[k].path@).1 == name@ && dir_name(
                    files@[k].path@,
                ).0 != dir@),
        decreases files@.len() - j,
    {
        let (other_dir, other_name) = dir_and_name(files[j].path.as_str());
        if same(other_name.as_str(), name) && !same(other_dir.as_str(), dir) {
            return true;
        }
        j = j + 1;
    }
    false
}

fn emphasize(line: &mut Line)
    ensures
        span_views(final(line)@) == emphasized(span_views(old(line)@)),
{
    let mut i: usize = 0;
    while i < line.len()
        invariant
            i <= line@.len(),
            line@.len() == old(line)@.len(),
            forall|j: int|
                #![trigger line@[j]]
                0 <= j < i ==> line@[j].text@ == old(line)@[j].text@ && line@[j].style == (Style {
                    role: Role::Emphasis,
                    ..old(line)@[j].style
                }),
            forall|j: int| i <= j < line@.len() ==> #[trigger] line@[j] == old(line)@[j],
        decreases line@.len() - i,
    {
        let mut span = line[i].duplicate();
        span.style.role = Role::Emphasis;
        let ghost prev = line@;
        line.set(i, span);
        proof {
            assert forall|j: int| 0 <= j < i implies #[trigger] line@[j] == prev[j] by {}
        }
        i = i + 1;
    }
    proof {
        assert(span_views(line@) =~= emphasized(span_views(old(line)@)));
    }
}

fn file_row_line(files: &Vec<ChangedFile>, i: usize, selected: Option<usize>) -> (r: Line)
    requires
        i < files@.len(),
    ensures
        span_views(r@) == file_row(files@, i as int, selected),
{
    let f = &files[i];
    let (dir, name) = dir_and_name(f.path.as_str());
    let marker = match selected {
        Some(s) => if s == i { '▸' } else { ' ' },
        None => ' ',
    };
    let status = match f.status {
        ChangedFileStatus::Modified => 'M',
        ChangedFileStatus::Added => 'A',
        ChangedFileStatus::Deleted => 'D',
        ChangedFileStatus::Renamed => 'R',
        ChangedFileStatus::Untracked => '?',
    };
    let mut head = String::new();
    head.push(marker);
    head.push(status);
    head.push(' ');
    let mut line: Line = vec![Span::body(head), Span::body(sanitize(name.as_str()))];
    if namesake(files, dir.as_str(), name.as_str()) {
        let mut d = String::new();
        d.push(' ');
        crate::strs::push_str(&mut d, sanitize(dir.as_str()).as_str());
        d.push('/');
        line.push(Span::label(d));
    }
    proof {
        assert(span_views(line@) =~~= seq![
            (seq![marker, status_char(f.status), ' '], plain_style(Role::Body)),
            (sanitize_spec(dir_name(f.path@).1), plain_style(Role::Body)),
        ] + if has_namesake(files@, dir_name(f.path@).0, dir_name(f.path@).1) {
            seq![(seq![' '] + sanitize_spec(dir_name(f.path@).0) + seq!['/'], plain_style(Role::Label))]
        } else {
            seq![]
        });
    }
    let mut fitted = fit_line(line, (FILES_WIDTH - 2) as usize);
    let ghost before = span_views(fitted@);
    let mut flag = String::new();
    if f.staged {
        flag.push('S');
    } else {
        flag.push(' ');
    }
    flag.push(' ');
    fitted.push(Span::body(flag));
    proof {
        assert(span_views(fitted@) =~~= file_row(files@, i as int, selected));
    }
    fitted
}

fn totals(files: &Vec<ChangedFile>) -> (r: (u64, u64))
    requires
        insertions_total(files@) <= u64::MAX,
        deletions_total(files@) <= u64::MAX,
    ensures
        r.0 == insertions_total(files@),
        r.1 == deletions_total(files@),
{
    let mut add: u64 = 0;
    let mut del: u64 = 0;
    let mut i: usize = 0;
    while i < files.len()
        invariant
            i <= files@.len(),
            add == insertions_total(files@.take(i as int)),
            del == deletions_total(files@.take(i as int)),
            insertions_total(files@) <= u64::MAX,
            deletions_total(files@) <= u64::MAX,
        decreases files@.len() - i,
    {
        proof {
            assert(files@.take(i + 1).drop_last() == files@.take(i as int));
            lemma_totals_prefix(files@, i + 1);
        }
        add = add + match files[i].insertions {
            Some(n) => n as u64,
            None => 0,
        };
        del = del + match files[i].deletions {
            Some(n) => n as u64,
            None => 0,
        };
        i = i + 1;
    }
    proof {
        assert(files@.take(files@.len() as int) == files@);
    }
    (add, del)
}

proof fn lemma_totals_prefix(files: Seq<ChangedFile>, n: int)
    requires
        0 <= n <= files.len(),
    ensures
        insertions_total(files.take(n)) <= insertions_total(files),
        deletions_total(files.take(n)) <= deletions_total(files),
    decreases files.len() - n,
{
    if n < files.len() {
        lemma_totals_prefix(files, n + 1);
        assert(files.take(n + 1).drop_last() == files.take(n));
    } else {
        assert(files.take(n) == files);
    }
}

pub open spec fn lines_views(ls: Seq<Line>) -> Seq<Seq<(Seq<char>, Style)>> {
    ls.map_values(|l: Line| span_views(l@))
}

/// The files panel's lines and hit regions.
fn files_lines(snapshot: &Snapshot, state: &ViewState, height: u16) -> (r: (Vec<Line>, Vec<Hit>))
    requires
        insertions_total(snapshot.files@) <= u64::MAX,
        deletions_total(snapshot.files@) <= u64::MAX,
    ensures
        lines_views(r.0@) == files_lines_spec(*snapshot, *state, height).0,
        r.1@ == files_lines_spec(*snapshot, *state, height).1,
{
    let mut lines: Vec<Line> = Vec::new();
    let mut hits: Vec<Hit> = Vec::new();
    if height == 0 {
        proof {
            assert(lines_views(lines@) =~= Seq::<Seq<(Seq<char>, Style)>>::empty());
        }
        return (lines, hits);
    }
    let n = snapshot.files.len();
    proof {
        reveal_strlit("CHANGED ");
    }
    let header_text = cat("CHANGED ", decimal_string(n as u128).as_str());
    lines.push(vec![Span::emphasis(pad(header_text.as_str(), FILES_WIDTH as usize))]);
    let selected = selected_index(snapshot);
    let count: usize = if height >= 2 { (height - 2) as usize } else { 0 };
    let anchor = match selected {
        Some(i) => i,
        None => 0,
    };
    let back = if count >= 1 { count - 1 } else { 0 };
    let first = if anchor >= back { anchor - back } else { 0 };
    let shown: usize = if first >= n {
        0
    } else if count <= n - first {
        count
    } else {
        n - first
    };
    let ghost s = *snapshot;
    let ghost st = *state;
    proof {
        assert(first == files_first(s, height));
        assert(shown == files_shown(s, height));
        assert(lines_views(lines@) =~~= seq![seq![(pad_spec("CHANGED "@ + decimal(n as nat), FILES_WIDTH as nat), plain_style(Role::Emphasis))]]);
    }
    let ghost header = lines_views(lines@)[0];
    let mut k: usize = 0;
    while k < shown
        invariant
            s == *snapshot,
            st == *state,
            first == files_first(s, height),
            shown == files_shown(s, height),
            first + shown <= snapshot.files@.len(),
            shown <= count,
            count <= height,
            selected == selected_spec(s),
            k <= shown,
            lines_views(lines@) == seq![header] + Seq::new(k as nat, |j: int| file_line(s, st, height, j)),
            hits@ == Seq::new(k as nat, |j: int| file_hit(s, height, j)),
        decreases shown - k,
    {
        let i = first + k;
        let mut line = file_row_line(&snapshot.files, i, selected);
        let hit = Hit { y: (k + 2) as u16, x0: 0, x1: FILES_WIDTH, action: Action::SelectFile(i) };
        proof {
            assert(hit == file_hit(s, height, k as int));
        }
        if hit.hovered(state) {
            emphasize(&mut line);
        }
        let ghost lv = lines_views(lines@);
        let ghost one = span_views(line@);
        hits.push(hit);
        lines.push(line);
        proof {
            assert(one == file_line(s, st, height, k as int));
            assert(lines_views(lines@) =~= lv.push(one));
            assert(Seq::new((k + 1) as nat, |j: int| file_line(s, st, height, j)) =~= Seq::new(
                k as nat,
                |j: int| file_line(s, st, height, j),
            ).push(one));
            assert(lines_views(lines@) =~= seq![header] + Seq::new((k + 1) as nat, |j: int| file_line(s, st, height, j)));
            assert(hits@ =~= Seq::new((k + 1) as nat, |j: int| file_hit(s, height, j)));
        }
        k = k + 1;
    }
    if height > 1 {
        let ghost body = lines_views(lines@);
        let target = (height - 1) as usize;
        let mut filled: usize = 0;
        let ghost start_len = lines@.len();
        let ghost blank = seq![(repeat_char(' ', FILES_WIDTH as nat), plain_style(Role::Body))];
        while lines.len() < target
            invariant
                lines@.len() == start_len + filled,
                start_len == body.len(),
                blank == seq![(repeat_char(' ', FILES_WIDTH as nat), plain_style(Role::Body))],
                filled == 0 || start_len + filled <= target,
                target == height - 1,
                lines_views(lines@) == body + Seq::new(filled as nat, |j: int| blank),
            decreases target - lines@.len(),
        {
            let ghost lv = lines_views(lines@);
            let l: Line = vec![Span::body(spaces(FILES_WIDTH as usize))];
            proof {
                assert(span_views(l@) =~~= blank);
            }
            lines.push(l);
            proof {
                assert(lines_views(lines@) =~~= lv.push(blank));
                assert(Seq::new((filled + 1) as nat, |j: int| blank) =~= Seq::new(filled as nat, |j: int| blank).push(blank));
            }
            filled = filled + 1;
        }
        proof {
            assert(filled == sat_sub(height - 1, body.len() as int));
        }
        let (add, del) = totals(&snapshot.files);
        proof {
            reveal_strlit(" −");
            reveal_strlit(" · ");
            reveal_strlit(" files");
        }
        let mut t = String::new();
        t.push('+');
        crate::strs::push_str(&mut t, decimal_string(add as u128).as_str());
        crate::strs::push_str(&mut t, " −");
        crate::strs::push_str(&mut t, decimal_string(del as u128).as_str());
        crate::strs::push_str(&mut t, " · ");
        crate::strs::push_str(&mut t, decimal_string(n as u128).as_str());
        crate::strs::push_str(&mut t, " files");
        let ghost lv = lines_views(lines@);
        lines.push(vec![Span::label(pad(t.as_str(), FILES_WIDTH as usize))]);
        proof {
            assert(lines_views(lines@) =~~= files_lines_spec(s, st, height).0);
        }
    } else {
        proof {
            assert(lines_views(lines@) =~~= files_lines_spec(s, st, height).0);
        }
    }
    (lines, hits)
}

// ---------------------------------------------------------------------------
// The toolbar.
// ---------------------------------------------------------------------------

/// One toolbar item: its text pieces (clickable when they carry an action) and its drop order.
pub type ToolbarItem = (Vec<(String, Option<Action>)>, u8);

pub type PieceView = (Seq<char>, Option<Action>);

pub type ItemView = (Seq<PieceView>, u8);

pub open spec fn pieces_view(v: Seq<(String, Option<Action>)>) -> Seq<PieceView> {
    v.map_values(|p: (String, Option<Action>)| (p.0@, p.1))
}

pub open spec fn items_view(v: Seq<ToolbarItem>) -> Seq<ItemView> {
    v.map_values(|i: ToolbarItem| (pieces_view(i.0@), i.1))
}

/// The selected row's file name, without its directory.
pub open spec fn file_name_spec(s: Snapshot) -> Seq<char> {
    match s.selected {
        Some(k) => sanitize_spec(dir_name(k.path@).1),
        None => "no file"@,
    }
}

/// ` <row>/<rows> `, the row counted from one; 0 when none is selected.
pub open spec fn position_text(s: Snapshot) -> Seq<char> {
    seq![' '] + decimal(
        match selected_spec(s) {
            Some(i) => (i + 1) as nat,
            None => 0,
        },
    ) + seq!['/'] + decimal(s.files@.len()) + seq![' ']
}

pub open spec fn hunk_position(s: Snapshot, st: ViewState) -> nat {
    match s.diff {
        DiffState::Ready(d) => match st.cursor {
            Some(c) => if c < d.targets@.len() {
                (d.targets@[c as int].hunk_index + 1) as nat
            } else {
                0
            },
            None => 0,
        },
        _ => 0,
    }
}

pub open spec fn hunk_total(s: Snapshot) -> nat {
    match s.diff {
        DiffState::Ready(d) => d.file_diff.hunks@.len(),
        _ => 0,
    }
}

pub open spec fn stats_text(s: Snapshot) -> Seq<char> {
    match s.diff {
        DiffState::Ready(_) => match selected_spec(s) {
            Some(i) => seq!['+'] + decimal(
                match s.files@[i as int].insertions {
                    Some(n) => n as nat,
                    None => 0,
                },
            ) + " −"@ + decimal(
                match s.files@[i as int].deletions {
                    Some(n) => n as nat,
                    None => 0,
                },
            ),
            None => seq![],
        },
        _ => seq![],
    }
}

pub open spec fn staged_flag(s: Snapshot) -> bool {
    match s.diff {
        DiffState::Ready(d) => d.key.staged,
        _ => match s.selected {
            Some(k) => k.staged,
            None => false,
        },
    }
}

pub open spec fn busy_text(s: Snapshot) -> Seq<char> {
    if s.refreshing || s.diff is Loading {
        "…"@
    } else {
        "⟳"@
    }
}

pub open spec fn scope_chip_text(s: Snapshot) -> Seq<char> {
    match (s.scope, s.base) {
        (Scope::Branch, Some(b)) => "vs "@ + truncate_spec(sanitize_spec(ref_label_spec(b.requested@)), 16),
        _ => "worktree"@,
    }
}

/// Cells left for the file name: the steppers, gaps and position take the rest.
pub open spec fn name_cells(s: Snapshot, total_width: u16) -> nat {
    sat_sub(total_width as int, 11 + display_width(position_text(s)))
}

/// Toolbar items left to right; a higher drop order drops first.
pub open spec fn items_spec(s: Snapshot, st: ViewState, total_width: u16) -> Seq<ItemView> {
    let name = truncate_spec(file_name_spec(s), name_cells(s, total_width));
    seq![
        (seq![("‹"@, Some(Action::PrevFile)), (seq![' '] + name + position_text(s), None), ("›"@, Some(Action::NextFile))], 0u8),
        (seq![
            ("{} "@ + decimal(hunk_position(s, st)) + seq!['/'] + decimal(hunk_total(s)) + seq![' '], None),
            ("↑"@, Some(Action::PrevHunk)),
            (" "@, None),
            ("↓"@, Some(Action::NextHunk)),
        ], 1u8),
        (seq![(scope_chip_text(s), Some(Action::ToggleScope))], 2u8),
        (seq![(if st.mode == ViewMode::Split {
            "split"@
        } else {
            "unified"@
        }, Some(Action::ToggleView))], 3u8),
    ] + (if s.scope == Scope::Worktree {
        seq![(seq![(if staged_flag(s) {
            "STAGED"@
        } else {
            "UNSTAGED"@
        }, None)], 4u8)]
    } else {
        seq![]
    }) + seq![
        (seq![(stats_text(s), None)], 5u8),
        (seq![("files"@, Some(Action::ToggleFiles))], 6u8),
        (seq![(busy_text(s), Some(Action::Refresh))], 7u8),
    ]
}

fn piece(text: String, action: Option<Action>) -> (r: (String, Option<Action>))
    ensures
        r.0@ == text@,
        r.1 == action,
{
    (text, action)
}

#[verifier::rlimit(40)]
fn toolbar_items(snapshot: &Snapshot, state: &ViewState, total_width: u16) -> (r: Vec<ToolbarItem>)
    ensures
        items_view(r@) == items_spec(*snapshot, *state, total_width),
{
    let total = snapshot.files.len();
    let index = selected_index(snapshot);
    let name = match &snapshot.selected {
        Some(k) => sanitize(dir_and_name(k.path.as_str()).1.as_str()),
        None => own("no file"),
    };
    let mut position = String::new();
    position.push(' ');
    let row = match index {
        Some(i) => i as u128 + 1,
        None => 0,
    };
    crate::strs::push_str(&mut position, decimal_string(row).as_str());
    position.push('/');
    crate::strs::push_str(&mut position, decimal_string(total as u128).as_str());
    position.push(' ');
    proof {
        assert(position@ =~= position_text(*snapshot));
    }
    let taken: u128 = 11 + width(position.as_str()) as u128;
    let cells: usize = if total_width as u128 >= taken { (total_width as u128 - taken) as usize } else { 0 };
    let name = truncate(name.as_str(), cells);
    let (hunk_pos, hunks, stats, staged): (u128, u128, String, bool) = match &snapshot.diff {
        DiffState::Ready(d) => {
            let pos = match state.cursor {
                Some(c) => if c < d.targets.len() {
                    d.targets[c].hunk_index as u128 + 1
                } else {
                    0
                },
                None => 0,
            };
            let stats = match index {
                Some(i) => {
                    let f = &snapshot.files[i];
                    let mut t = String::new();
                    t.push('+');
                    crate::strs::push_str(&mut t, decimal_string(match f.insertions {
                        Some(n) => n as u128,
                        None => 0,
                    }).as_str());
                    crate::strs::push_str(&mut t, " −");
                    crate::strs::push_str(&mut t, decimal_string(match f.deletions {
                        Some(n) => n as u128,
                        None => 0,
                    }).as_str());
                    t
                },
                None => String::new(),
            };
            (pos, d.file_diff.hunks.len() as u128, stats, d.key.staged)
        },
        _ => (0, 0, String::new(), match &snapshot.selected {
            Some(k) => k.staged,
            None => false,
        }),
    };
    proof {
        assert(stats@ =~= stats_text(*snapshot));
    }
    let busy = match &snapshot.diff {
        DiffState::Loading => "…",
        _ => if snapshot.refreshing { "…" } else { "⟳" },
    };
    let scope_chip = match (snapshot.scope, &snapshot.base) {
        (Scope::Branch, Some(base)) => cat("vs ", truncate(sanitize(base.label().as_str()).as_str(), 16).as_str()),
        _ => own("worktree"),
    };
    let mut first_text = String::new();
    first_text.push(' ');
    crate::strs::push_str(&mut first_text, name.as_str());
    crate::strs::push_str(&mut first_text, position.as_str());
    let mut hunk_text = own("{} ");
    crate::strs::push_str(&mut hunk_text, decimal_string(hunk_pos).as_str());
    hunk_text.push('/');
    crate::strs::push_str(&mut hunk_text, decimal_string(hunks).as_str());
    hunk_text.push(' ');
    let mode_text = if state.mode == ViewMode::Split { "split" } else { "unified" };
    let mut items: Vec<ToolbarItem> = Vec::new();
    items.push((vec![piece(own("‹"), Some(Action::PrevFile)), piece(first_text, None), piece(own("›"), Some(Action::NextFile))], 0));
    items.push((vec![
        piece(hunk_text, None),
        piece(own("↑"), Some(Action::PrevHunk)),
        piece(own(" "), None),
        piece(own("↓"), Some(Action::NextHunk)),
    ], 1));
    items.push((vec![piece(scope_chip, Some(Action::ToggleScope))], 2));
    items.push((vec![piece(own(mode_text), Some(Action::ToggleView))], 3));
    if snapshot.scope == Scope::Worktree {
        items.push((vec![piece(own(if staged { "STAGED" } else { "UNSTAGED" }), None)], 4));
    }
    items.push((vec![piece(stats, None)], 5));
    items.push((vec![piece(own("files"), Some(Action::ToggleFiles))], 6));
    items.push((vec![piece(own(busy), Some(Action::Refresh))], 7));
    proof {
        assert(items_view(items@) =~~= items_spec(*snapshot, *state, total_width));
    }
    items
}

/// A clickable piece padded with a space on each side.
pub open spec fn pad_piece(p: PieceView) -> PieceView {
    if p.1 is Some {
        (seq![' '] + p.0 + seq![' '], p.1)
    } else {
        p
    }
}

pub open spec fn padded_items(items: Seq<ItemView>) -> Seq<ItemView> {
    items.map_values(|it: ItemView| (it.0.map_values(|p: PieceView| pad_piece(p)), it.1))
}

pub open spec fn pieces_width(pieces: Seq<PieceView>) -> nat
    decreases pieces.len(),
{
    if pieces.len() == 0 {
        0
    } else {
        pieces_width(pieces.drop_last()) + display_width(pieces.last().0) as nat
    }
}

/// The width of the items with the three-cell gap after each.
pub open spec fn items_width(items: Seq<ItemView>) -> nat
    decreases items.len(),
{
    if items.len() == 0 {
        0
    } else {
        items_width(items.drop_last()) + pieces_width(items.last().0) + 3
    }
}

/// The index of the item with the highest drop order, the last of equals, from `i` on.
pub open spec fn worst_from(items: Seq<ItemView>, i: int, best: int) -> int
    decreases items.len() - i,
{
    if i < 0 || i >= items.len() {
        best
    } else if items[i].1 >= items[best].1 {
        worst_from(items, i + 1, i)
    } else {
        worst_from(items, i + 1, best)
    }
}

pub proof fn lemma_worst_range(items: Seq<ItemView>, i: int, best: int)
    requires
        0 <= best < items.len(),
        0 <= i,
    ensures
        0 <= worst_from(items, i, best) < items.len(),
    decreases items.len() - i,
{
    if i < items.len() {
        if items[i].1 >= items[best].1 {
            lemma_worst_range(items, i + 1, i);
        } else {
            lemma_worst_range(items, i + 1, best);
        }
    }
}

/// Items dropped by highest order until they fit or one is left.
pub open spec fn drop_items(items: Seq<ItemView>, total_width: u16) -> Seq<ItemView>
    decreases items.len(),
{
    if items.len() > 1 && 1 + items_width(items) > total_width {
        proof {
            lemma_worst_range(items, 1, 0);
        }
        drop_items(items.remove(worst_from(items, 1, 0)), total_width)
    } else {
        items
    }
}

/// Whether a chip can be clicked: file steps need two files, hunk steps two hunks, the view
/// toggle room for the split view or a split already asked for, the scope toggle a base.
pub open spec fn enabled_spec(a: Action, s: Snapshot, st: ViewState, total_width: u16) -> bool {
    match a {
        Action::PrevFile | Action::NextFile => s.files@.len() >= 2,
        Action::PrevHunk | Action::NextHunk => s.diff matches DiffState::Ready(d) && d.file_diff.hunks@.len() >= 2,
        Action::ToggleView => total_width >= MIN_SPLIT_WIDTH || st.requested_mode == ViewMode::Split,
        Action::ToggleScope => s.base is Some,
        _ => true,
    }
}

pub open spec fn wrap16(x: u16, y: u16) -> u16 {
    if x + y > u16::MAX {
        (x + y - 65536) as u16
    } else {
        (x + y) as u16
    }
}

pub open spec fn chip_style(hit: Hit, st: ViewState) -> Style {
    Style {
        reverse: true,
        semantic: if hovered_spec(hit, st) {
            None
        } else {
            Some(Semantic::Accent)
        },
        ..plain_style(Role::Emphasis)
    }
}

/// The spans and hits of an item's pieces from column `x`, and the column after them.
pub open spec fn lay_pieces(pieces: Seq<PieceView>, s: Snapshot, st: ViewState, total_width: u16, x: u16) -> (Seq<(Seq<char>, Style)>, Seq<Hit>, u16)
    decreases pieces.len(),
{
    if pieces.len() == 0 {
        (seq![], seq![], x)
    } else {
        let p = pieces[0];
        let next = wrap16(x, display_width(p.0) as u16);
        let r = lay_pieces(pieces.drop_first(), s, st, total_width, next);
        match p.1 {
            Some(a) => if enabled_spec(a, s, st, total_width) {
                let h = Hit { y: 0, x0: x, x1: next, action: a };
                (seq![(p.0, chip_style(h, st))] + r.0, seq![h] + r.1, r.2)
            } else {
                (seq![(p.0, plain_style(Role::Label))] + r.0, r.1, r.2)
            },
            None => (seq![(p.0, plain_style(Role::Body))] + r.0, r.1, r.2),
        }
    }
}

pub open spec fn lay_items(items: Seq<ItemView>, s: Snapshot, st: ViewState, total_width: u16, x: u16) -> (Seq<(Seq<char>, Style)>, Seq<Hit>)
    decreases items.len(),
{
    if items.len() == 0 {
        (seq![], seq![])
    } else {
        let r = lay_pieces(items[0].0, s, st, total_width, x);
        let rest = lay_items(items.drop_first(), s, st, total_width, wrap16(r.2, 3));
        (r.0 + seq![("   "@, plain_style(Role::Body))] + rest.0, r.1 + rest.1)
    }
}

/// Every hit of `hits` is on the toolbar's row and names an action that is enabled.
pub open spec fn hits_enabled(hits: Seq<Hit>, s: Snapshot, st: ViewState, total_width: u16) -> bool {
    forall|k: int| 0 <= k < hits.len() ==> #[trigger] hits[k].y == 0 && enabled_spec(hits[k].action, s, st, total_width)
}

proof fn lemma_hits_enabled_concat(a: Seq<Hit>, b: Seq<Hit>, s: Snapshot, st: ViewState, total_width: u16)
    requires
        hits_enabled(a, s, st, total_width),
        hits_enabled(b, s, st, total_width),
    ensures
        hits_enabled(a + b, s, st, total_width),
{
    assert forall|k: int| #![trigger (a + b)[k]] 0 <= k < (a + b).len() implies (a + b)[k].y == 0 && enabled_spec((a + b)[k].action, s, st, total_width) by {
        if k < a.len() {
            assert((a + b)[k] == a[k]);
            assert(a[k].y == 0 && enabled_spec(a[k].action, s, st, total_width));
        } else {
            assert((a + b)[k] == b[k - a.len()]);
            assert(b[k - a.len()].y == 0 && enabled_spec(b[k - a.len()].action, s, st, total_width));
        }
    }
}

proof fn lemma_lay_pieces_enabled(pieces: Seq<PieceView>, s: Snapshot, st: ViewState, total_width: u16, x: u16)
    ensures
        hits_enabled(lay_pieces(pieces, s, st, total_width, x).1, s, st, total_width),
    decreases pieces.len(),
{
    if pieces.len() > 0 {
        let p = pieces[0];
        let next = wrap16(x, display_width(p.0) as u16);
        lemma_lay_pieces_enabled(pieces.drop_first(), s, st, total_width, next);
        let r = lay_pieces(pieces.drop_first(), s, st, total_width, next);
        if let Some(a) = p.1 {
            if enabled_spec(a, s, st, total_width) {
                let h = Hit { y: 0, x0: x, x1: next, action: a };
                assert(hits_enabled(seq![h], s, st, total_width));
                lemma_hits_enabled_concat(seq![h], r.1, s, st, total_width);
            }
        }
    }
}

proof fn lemma_lay_items_enabled(items: Seq<ItemView>, s: Snapshot, st: ViewState, total_width: u16, x: u16)
    ensures
        hits_enabled(lay_items(items, s, st, total_width, x).1, s, st, total_width),
    decreases items.len(),
{
    if items.len() > 0 {
        let r = lay_pieces(items[0].0, s, st, total_width, x);
        lemma_lay_pieces_enabled(items[0].0, s, st, total_width, x);
        lemma_lay_items_enabled(items.drop_first(), s, st, total_width, wrap16(r.2, 3));
        let rest = lay_items(items.drop_first(), s, st, total_width, wrap16(r.2, 3));
        lemma_hits_enabled_concat(r.1, rest.1, s, st, total_width);
    }
}

/// Only enabled toolbar controls can be clicked: every hit the toolbar lays out is on its row
/// and names an action that is enabled (file steppers with two files or more, hunk steppers
/// with two loaded hunks or more, the view chip at 100 columns or when a split is requested,
/// the scope chip when there is a base).
pub proof fn law_only_enabled_controls_are_clickable(s: Snapshot, st: ViewState, total_width: u16)
    ensures
        hits_enabled(toolbar_spec(s, st, total_width).1, s, st, total_width),
{
    let items = drop_items(padded_items(items_spec(s, st, total_width)), total_width);
    lemma_lay_items_enabled(items, s, st, total_width, 1);
}

/// The toolbar: the items that fit after a one-cell margin, chips in reverse video.
pub open spec fn toolbar_spec(s: Snapshot, st: ViewState, total_width: u16) -> (Seq<(Seq<char>, Style)>, Seq<Hit>) {
    let items = drop_items(padded_items(items_spec(s, st, total_width)), total_width);
    let r = lay_items(items, s, st, total_width, 1);
    (seq![(" "@, plain_style(Role::Body))] + r.0, r.1)
}

proof fn lemma_items_width_prefix(items: Seq<ItemView>, n: int)
    requires
        0 <= n <= items.len(),
    ensures
        items_width(items.take(n)) <= items_width(items),
    decreases items.len() - n,
{
    if n < items.len() {
        lemma_items_width_prefix(items, n + 1);
        assert(items.take(n + 1).drop_last() == items.take(n));
    } else {
        assert(items.take(n) == items);
    }
}

fn pieces_cells(pieces: &Vec<(String, Option<Action>)>) -> (r: u128)
    ensures
        r == pieces_width(pieces_view(pieces@)),
{
    let mut acc: u128 = 0;
    let mut i: usize = 0;
    while i < pieces.len()
        invariant
            i <= pieces@.len(),
            acc == pieces_width(pieces_view(pieces@.take(i as int))),
            acc <= i * 0x1_0000_0000_0000_0000,
        decreases pieces@.len() - i,
    {
        proof {
            assert(pieces_view(pieces@.take(i + 1)).drop_last() =~= pieces_view(pieces@.take(i as int)));
        }
        acc = acc + width(pieces[i].0.as_str()) as u128;
        proof {
            assert(acc <= (i + 1) * 0x1_0000_0000_0000_0000) by (nonlinear_arith)
                requires
                    acc <= i * 0x1_0000_0000_0000_0000 + 0xffff_ffff_ffff_ffff,
            ;
        }
        i = i + 1;
    }
    proof {
        assert(pieces@.take(pieces@.len() as int) == pieces@);
    }
    acc
}

/// Whether the items with the margin are wider than the bar.
fn too_wide(items: &Vec<ToolbarItem>, total_width: u16) -> (r: bool)
    ensures
        r == (1 + items_width(items_view(items@)) > total_width),
{
    let ghost all = items_view(items@);
    if total_width == 0 {
        return true;
    }
    let mut acc: u128 = 1;
    let mut i: usize = 0;
    proof {
        assert(all.take(0) =~= Seq::<ItemView>::empty());
    }
    while i < items.len()
        invariant
            all == items_view(items@),
            i <= items@.len(),
            acc == 1 + items_width(all.take(i as int)),
            acc <= total_width,
        decreases items@.len() - i,
    {
        proof {
            assert(all.take(i + 1).drop_last() =~= all.take(i as int));
            assert(all.take(i + 1).last() == all[i as int]);
            assert(all[i as int].0 == pieces_view(items@[i as int].0@));
        }
        let w = pieces_cells(&items[i].0);
        if w > total_width as u128 {
            proof {
                lemma_items_width_prefix(all, i + 1);
            }
            return true;
        }
        acc = acc + w + 3;
        if acc > total_width as u128 {
            proof {
                lemma_items_width_prefix(all, i + 1);
            }
            return true;
        }
        i = i + 1;
    }
    proof {
        assert(all.take(i as int) == all);
    }
    false
}

/// The index of the item with the highest drop order, the last of equals.
fn worst_index(items: &Vec<ToolbarItem>) -> (r: usize)
    requires
        items@.len() >= 1,
    ensures
        r == worst_from(items_view(items@), 1, 0),
{
    let ghost all = items_view(items@);
    let mut best: usize = 0;
    let mut i: usize = 1;
    while i < items.len()
        invariant
            all == items_view(items@),
            1 <= i <= items@.len(),
            best < items@.len(),
            worst_from(all, 1, 0) == worst_from(all, i as int, best as int),
        decreases items@.len() - i,
    {
        proof {
            assert(all[i as int].1 == items@[i as int].1);
            assert(all[best as int].1 == items@[best as int].1);
        }
        if items[i].1 >= items[best].1 {
            best = i;
        }
        i = i + 1;
    }
    best
}

fn pad_pieces(items: Vec<ToolbarItem>) -> (r: Vec<ToolbarItem>)
    ensures
        items_view(r@) == padded_items(items_view(items@)),
{
    let mut out: Vec<ToolbarItem> = Vec::new();
    let mut i: usize = 0;
    while i < items.len()
        invariant
            i <= items@.len(),
            items_view(out@) == padded_items(items_view(items@)).take(i as int),
        decreases items@.len() - i,
    {
        let mut pieces: Vec<(String, Option<Action>)> = Vec::new();
        let mut j: usize = 0;
        let ghost src = pieces_view(items@[i as int].0@);
        while j < items[i].0.len()
            invariant
                i < items@.len(),
                src == pieces_view(items@[i as int].0@),
                j <= src.len(),
                pieces_view(pieces@) == src.map_values(|p: PieceView| pad_piece(p)).take(j as int),
            decreases src.len() - j,
        {
            let (text, action) = (&items[i].0[j].0, items[i].0[j].1);
            let t = if action.is_some() {
                let mut t = String::new();
                t.push(' ');
                crate::strs::push_str(&mut t, text.as_str());
                t.push(' ');
                t
            } else {
                copy(text)
            };
            let ghost before = pieces_view(pieces@);
            proof {
                assert(src[j as int] == (items@[i as int].0@[j as int].0@, items@[i as int].0@[j as int].1));
                assert(t@ == pad_piece(src[j as int]).0);
                assert(action == pad_piece(src[j as int]).1);
            }
            pieces.push((t, action));
            proof {
                assert(pieces_view(pieces@) =~= before.push(pad_piece(src[j as int])));
                assert(src.map_values(|p: PieceView| pad_piece(p)).take(j + 1) =~= src.map_values(|p: PieceView| pad_piece(p)).take(j as int).push(pad_piece(src[j as int])));
                assert(pieces_view(pieces@) =~~= src.map_values(|p: PieceView| pad_piece(p)).take(j + 1));
            }
            j = j + 1;
        }
        let ghost before = items_view(out@);
        let ghost pv = pieces_view(pieces@);
        out.push((pieces, items[i].1));
        proof {
            assert(items_view(out@) =~= before.push((pv, items@[i as int].1)));
            assert(padded_items(items_view(items@))[i as int] == (src.map_values(|p: PieceView| pad_piece(p)), items@[i as int].1));
            assert(padded_items(items_view(items@)).take(i + 1) =~= padded_items(items_view(items@)).take(i as int).push(padded_items(items_view(items@))[i as int]));
            assert(src.map_values(|p: PieceView| pad_piece(p)).take(src.len() as int) == src.map_values(|p: PieceView| pad_piece(p)));
            assert(items_view(out@) =~~= padded_items(items_view(items@)).take(i + 1));
        }
        i = i + 1;
    }
    proof {
        assert(padded_items(items_view(items@)).take(items@.len() as int) == padded_items(items_view(items@)));
    }
    out
}

fn enabled(action: Action, snapshot: &Snapshot, state: &ViewState, total_width: u16) -> (r: bool)
    ensures
        r == enabled_spec(action, *snapshot, *state, total_width),
{
    match action {
        Action::PrevFile | Action::NextFile => snapshot.files.len() >= 2,
        Action::PrevHunk | Action::NextHunk => match &snapshot.diff {
            DiffState::Ready(d) => d.file_diff.hunks.len() >= 2,
            _ => false,
        },
        Action::ToggleView => total_width >= MIN_SPLIT_WIDTH || state.requested_mode == ViewMode::Split,
        Action::ToggleScope => snapshot.base.is_some(),
        _ => true,
    }
}

fn toolbar(snapshot: &Snapshot, state: &ViewState, total_width: u16) -> (r: (Line, Vec<Hit>))
    ensures
        span_views(r.0@) == toolbar_spec(*snapshot, *state, total_width).0,
        r.1@ == toolbar_spec(*snapshot, *state, total_width).1,
{
    let mut items = pad_pieces(toolbar_items(snapshot, state, total_width));
    let ghost s = *snapshot;
    let ghost st = *state;
    let ghost target = drop_items(padded_items(items_spec(s, st, total_width)), total_width);
    while items.len() > 1 && too_wide(&items, total_width)
        invariant
            drop_items(items_view(items@), total_width) == target,
        decreases items@.len(),
    {
        let worst = worst_index(&items);
        proof {
            lemma_worst_range(items_view(items@), 1, 0);
        }
        let ghost before = items_view(items@);
        items.remove(worst);
        proof {
            assert(items_view(items@) =~= before.remove(worst as int));
        }
    }
    let ghost all = items_view(items@);
    proof {
        assert(all == target);
    }
    let mut line: Line = vec![Span::body(own(" "))];
    let mut hits: Vec<Hit> = Vec::new();
    let mut x: u16 = 1;
    let mut i: usize = 0;
    let ghost head = span_views(line@);
    let ghost whole = lay_items(all, s, st, total_width, 1);
    proof {
        assert(all.skip(0) == all);
    }
    while i < items.len()
        invariant
            all == items_view(items@),
            s == *snapshot,
            st == *state,
            whole == lay_items(all, s, st, total_width, 1),
            head == seq![(" "@, plain_style(Role::Body))],
            i <= items@.len(),
            ({
                let r = lay_items(all.skip(i as int), s, st, total_width, x);
                &&& span_views(line@) + r.0 == head + whole.0
                &&& hits@ + r.1 == whole.1
            }),
        decreases items@.len() - i,
    {
        let ghost rest = all.skip(i as int);
        proof {
            assert(rest[0] == all[i as int]);
            assert(rest.drop_first() == all.skip(i + 1));
        }
        let pieces = &items[i].0;
        let ghost pv = pieces_view(pieces@);
        let ghost x0 = x;
        let ghost line0 = span_views(line@);
        let ghost hits0 = hits@;
        let mut j: usize = 0;
        proof {
            assert(pv.skip(0) == pv);
            assert(pv == all[i as int].0);
        }
        while j < pieces.len()
            invariant
                pv == pieces_view(pieces@),
                s == *snapshot,
                st == *state,
                j <= pv.len(),
                ({
                    let r = lay_pieces(pv.skip(j as int), s, st, total_width, x);
                    let r0 = lay_pieces(pv, s, st, total_width, x0);
                    &&& span_views(line@) + r.0 == line0 + r0.0
                    &&& hits@ + r.1 == hits0 + r0.1
                    &&& r.2 == r0.2
                }),
            decreases pv.len() - j,
        {
            let ghost prest = pv.skip(j as int);
            proof {
                assert(prest[0] == pv[j as int]);
                assert(prest.drop_first() == pv.skip(j + 1));
                assert(pv[j as int] == (pieces@[j as int].0@, pieces@[j as int].1));
            }
            let text = copy(&pieces[j].0);
            let action = pieces[j].1;
            let w = width(text.as_str()) as u16;
            let next = x.wrapping_add(w);
            let ghost lv = span_views(line@);
            let ghost hv = hits@;
            match action {
                Some(a) => {
                    if enabled(a, snapshot, state, total_width) {
                        let hit = Hit { y: 0, x0: x, x1: next, action: a };
                        let style = Style {
                            reverse: true,
                            semantic: if hit.hovered(state) { None } else { Some(Semantic::Accent) },
                            ..Style::role(Role::Emphasis)
                        };
                        line.push(Span::new(text, style));
                        hits.push(hit);
                    } else {
                        line.push(Span::label(text));
                    }
                },
                None => {
                    line.push(Span::body(text));
                },
            }
            proof {
                assert(span_views(line@) =~= lv.push(span_views(line@).last()));
            }
            x = next;
            j = j + 1;
        }
        proof {
            assert(pv.skip(j as int) =~= Seq::<PieceView>::empty());
        }
        let ghost r0 = lay_pieces(pv, s, st, total_width, x0);
        let ghost lv = span_views(line@);
        line.push(Span::body(own("   ")));
        x = x.wrapping_add(3);
        proof {
            assert(x == wrap16(r0.2, 3));
            let big = lay_items(rest, s, st, total_width, x0);
            let tail = lay_items(all.skip(i + 1), s, st, total_width, x);
            assert(big.0 == r0.0 + seq![("   "@, plain_style(Role::Body))] + tail.0);
            assert(big.1 == r0.1 + tail.1);
            assert(span_views(line@) =~= lv.push(("   "@, plain_style(Role::Body))));
            assert(lv == line0 + r0.0);
            assert(span_views(line@) + tail.0 =~= line0 + big.0);
            assert(hits@ + tail.1 =~= hits0 + big.1);
        }
        i = i + 1;
    }
    proof {
        assert(all.skip(i as int) =~= Seq::<ItemView>::empty());
    }
    (line, hits)
}

// ---------------------------------------------------------------------------
// The frame.
// ---------------------------------------------------------------------------

pub type LineView = Seq<(Seq<char>, Style)>;

/// Columns the files panel takes with its rule.
pub open spec fn panel_columns(st: ViewState) -> u16 {
    if st.files_panel == FilesPanel::Hidden {
        0
    } else {
        (FILES_WIDTH + 1) as u16
    }
}

/// A message centred in the body's width.
pub open spec fn message_line(message: Seq<char>, body_width: u16) -> LineView {
    let text = truncate_spec(message, body_width as nat);
    let left = sat_sub(body_width as int, display_width(text) as int) / 2;
    seq![(repeat_char(' ', left) + text, plain_style(Role::Body))]
}

/// The body cells of screen row `y + 1` before fitting, and the hit they make.
pub open spec fn body_cells(s: Snapshot, st: ViewState, columns: u16, height_body: u16, y: int) -> (LineView, Option<Hit>) {
    let pc = panel_columns(st);
    let bw = (columns - pc) as u16;
    match state_message_spec(s) {
        Some(m) => if y == height_body / 2 {
            (message_line(m, bw), None)
        } else {
            (seq![], None)
        },
        None => match st.rows {
            Some(r) => {
                let ri = sat_add(st.offset as nat, y as nat);
                if ri < r.rows@.len() {
                    let cursor = cursor_row(st.rows, st.cursor) == Some(ri as usize);
                    (
                        body_line_spec(r.rows@[ri as int]@, bw, st.hscroll as nat, cursor),
                        Some(Hit { y: (y + 1) as u16, x0: pc, x1: columns, action: Action::CursorToRow(ri as usize) }),
                    )
                } else {
                    (seq![], None)
                }
            },
            None => (seq![], None),
        },
    }
}

/// Screen row `y + 1`: the files panel's line and rule, then the body.
pub open spec fn frame_line(s: Snapshot, st: ViewState, columns: u16, height_body: u16, panel: Seq<LineView>, y: int) -> LineView {
    let pc = panel_columns(st);
    (if y < panel.len() {
        panel[y]
    } else {
        seq![]
    }) + (if pc > 0 {
        seq![("│"@, plain_style(Role::Rule))]
    } else {
        seq![]
    }) + fit_spec(body_cells(s, st, columns, height_body, y).0, (columns - pc) as nat)
}

/// The body's hits from its first `n` rows.
pub open spec fn body_hits(s: Snapshot, st: ViewState, columns: u16, height_body: u16, n: int) -> Seq<Hit>
    decreases n,
{
    if n <= 0 {
        seq![]
    } else {
        body_hits(s, st, columns, height_body, n - 1) + match body_cells(s, st, columns, height_body, n - 1).1 {
            Some(h) => seq![h],
            None => seq![],
        }
    }
}

pub open spec fn all_hints() -> Seq<Seq<char>> {
    seq!["j/k line"@, "[ ] hunk"@, "n/p file"@, "t view"@, "e files"@, "r refresh"@, "? help"@, "q quit"@]
}

/// Hints dropped, the third from the end first, until they fit: help and quit go last.
pub open spec fn drop_hints(hints: Seq<Seq<char>>, columns: u16) -> Seq<Seq<char>>
    decreases hints.len(),
{
    if hints.len() > 0 && display_width(join_spec(hints, "  "@)) > columns {
        drop_hints(hints.remove(sat_sub(hints.len() as int, 3) as int), columns)
    } else {
        hints
    }
}

pub open spec fn first_hovered(hits: Seq<Hit>, st: ViewState, i: int) -> Option<Hit>
    decreases hits.len() - i,
{
    if i < 0 || i >= hits.len() {
        None
    } else if hovered_spec(hits[i], st) {
        Some(hits[i])
    } else {
        first_hovered(hits, st, i + 1)
    }
}

/// The first binding, from `i` on, of the action.
pub open spec fn binding_from(table: Seq<BindingView>, a: KeyAction, i: int) -> Option<BindingView>
    decreases table.len() - i,
{
    if i < 0 || i >= table.len() {
        None
    } else if table[i].2 == a {
        Some(table[i])
    } else {
        binding_from(table, a, i + 1)
    }
}

/// At most the first `n` characters.
pub open spec fn take_upto(s: Seq<char>, n: nat) -> Seq<char> {
    if s.len() <= n {
        s
    } else {
        s.take(n as int)
    }
}

/// The footer: the hovered chip's key and what it does, else the hints that fit.
pub open spec fn hint_spec(s: Snapshot, st: ViewState, hits: Seq<Hit>, columns: u16) -> Seq<char> {
    let plain = join_spec(drop_hints(all_hints(), columns), "  "@);
    match first_hovered(hits, st, 0) {
        Some(h) => match key_action_spec(h.action) {
            Some(ka) => match binding_from(key_table(), ka, 0) {
                Some(b) => {
                    let hint = b.1 + " · "@ + b.0;
                    if ka == KeyAction::ToggleScope && s.base is Some {
                        hint + " · "@ + sanitize_spec(ref_label_spec(s.base->0.requested@)) + " @ "@ + sanitize_spec(
                            take_upto(s.base->0.commit@, 7),
                        )
                    } else {
                        hint
                    }
                },
                None => plain,
            },
            None => plain,
        },
        None => plain,
    }
}

/// Hits cut at the right edge; an emptied one is dropped.
pub open spec fn clamp_hits(hits: Seq<Hit>, columns: u16) -> Seq<Hit>
    decreases hits.len(),
{
    if hits.len() == 0 {
        seq![]
    } else {
        let h = hits.last();
        let x1 = if h.x1 <= columns {
            h.x1
        } else {
            columns
        };
        clamp_hits(hits.drop_last(), columns) + if h.x0 < x1 {
            seq![Hit { x1, ..h }]
        } else {
            seq![]
        }
    }
}

/// The frame without overlays: toolbar, body rows, notice and footer, and their hits.
pub open spec fn base_frame(s: Snapshot, st: ViewState, columns: u16, height: u16) -> (Seq<LineView>, Seq<Hit>) {
    let bar = toolbar_spec(s, st, columns);
    let notice = notice_spec(st, s);
    let height_body = body_height_spec(st, s, height);
    let pc = panel_columns(st);
    let files = if pc > 0 {
        files_lines_spec(s, st, height_body)
    } else {
        (seq![], seq![])
    };
    let hits = bar.1 + files.1 + body_hits(s, st, columns, height_body, height_body as int);
    let body = Seq::new(height_body as nat, |y: int| frame_line(s, st, columns, height_body, files.0, y));
    let notice_lines = match notice {
        Some(n) => seq![seq![(pad_spec(sanitize_spec(n), columns as nat), plain_style(Role::Label))]],
        None => seq![],
    };
    let footer = seq![(pad_spec(hint_spec(s, st, hits, columns), columns as nat), plain_style(Role::Label))];
    (seq![fit_spec(bar.0, columns as nat)] + body + notice_lines + seq![footer], clamp_hits(hits, columns))
}

/// Screen rows `1..=overlay.len()` replaced by the overlay drawn at column `x`, `width` wide.
pub open spec fn overlaid(lines: Seq<LineView>, overlay: Seq<LineView>, x: nat, width: nat, columns: nat) -> Seq<LineView> {
    Seq::new(
        lines.len(),
        |k: int|
            if 1 <= k <= overlay.len() {
                clip_spec(lines[k], 0, x) + overlay[k - 1] + clip_spec(lines[k], x + width, sat_sub(columns as int, (x + width) as int))
            } else {
                lines[k]
            },
    )
}

/// The key sheet over the frame.
pub open spec fn help_overlay(st: ViewState, columns: u16, height: u16) -> Seq<LineView> {
    let pw: u16 = if columns <= 60 {
        columns
    } else {
        60
    };
    let ph = sat_sub(height as int, 2) as u16;
    let rows = sheet_rows(key_table()) + if st.popup {
        seq![RowText::Entry("esc"@, "close"@, false)]
    } else {
        seq![]
    };
    let offset = clamp_spec(
        st.help_offset as int,
        min_nat(rows_line_count(rows, sat_sub(pw as int, 4)), usize::MAX as nat) as int,
        sat_sub(ph as int, 4) as int,
    ) as usize;
    render_view("Keys"@, rows, "esc closes"@, None, offset, pw, ph)
}

/// The picker over the frame.
pub open spec fn picker_overlay(p: Picker, s: Snapshot, columns: u16, height: u16) -> Seq<LineView> {
    let pw: u16 = if columns <= picker::WIDTH {
        columns
    } else {
        picker::WIDTH
    };
    let ph = sat_sub(height as int, 2) as u16;
    let visible = visible_spec(p, ph);
    let first = window_spec(p.offset as nat, p.cursor as nat, visible);
    let rows = head_rows(p, pw) + window_rows(rows_spec(p, s), first, visible).map_values(|r: RowView| entry_row(r));
    render_view(
        "Compare against"@,
        rows,
        footer_spec(p, s),
        Some((head_lines(p) + p.cursor - first) as usize),
        0,
        pw,
        ph,
    )
}

/// One hit per drawn list row of the picker.
pub open spec fn picker_hits(p: Picker, s: Snapshot, columns: u16, height: u16) -> Seq<Hit> {
    let pw: u16 = if columns <= picker::WIDTH {
        columns
    } else {
        picker::WIDTH
    };
    let ph = sat_sub(height as int, 2) as u16;
    let x = (columns - pw) / 2;
    let visible = visible_spec(p, ph);
    let first = window_spec(p.offset as nat, p.cursor as nat, visible);
    let head = head_rows(p, pw).len();
    let listed = window_rows(rows_spec(p, s), first, visible).len();
    Seq::new(
        listed,
        |i: int|
            Hit {
                y: (2 + head + i) as u16,
                x0: x as u16,
                x1: (x + pw) as u16,
                action: Action::PickRow((first + i) as usize),
            },
    )
}

/// The whole frame: exactly `height` lines of `columns` cells' worth of spans, or one line when
/// the terminal is too small; the key sheet or the picker drawn over it take every hit.
pub open spec fn render_spec(s: Snapshot, st: ViewState, columns: u16, height: u16) -> (Seq<LineView>, Seq<Hit>) {
    if columns < 40 || height < 10 {
        (seq![seq![("terminal too small"@, plain_style(Role::Body))]], seq![])
    } else {
        let base = base_frame(s, st, columns, height);
        let after_help = if st.help_open {
            let pw: u16 = if columns <= 60 {
                columns
            } else {
                60
            };
            (overlaid(base.0, help_overlay(st, columns, height), ((columns - pw) / 2) as nat, pw as nat, columns as nat), seq![])
        } else {
            base
        };
        match st.picker {
            Some(p) => {
                let pw: u16 = if columns <= picker::WIDTH {
                    columns
                } else {
                    picker::WIDTH
                };
                (
                    overlaid(after_help.0, picker_overlay(p, s, columns, height), ((columns - pw) / 2) as nat, pw as nat, columns as nat),
                    picker_hits(p, s, columns, height),
                )
            },
            None => after_help,
        }
    }
}

fn clone_line(line: &Line) -> (r: Line)
    ensures
        span_views(r@) == span_views(line@),
{
    let mut out: Line = Vec::new();
    let mut i: usize = 0;
    while i < line.len()
        invariant
            i <= line@.len(),
            span_views(out@) == span_views(line@).take(i as int),
        decreases line@.len() - i,
    {
        let d = line[i].duplicate();
        let ghost before = span_views(out@);
        out.push(d);
        proof {
            assert(span_views(out@) =~= before.push((d.text@, d.style)));
            assert(span_views(line@).take(i + 1) =~= span_views(line@).take(i as int).push(span_views(line@)[i as int]));
        }
        i = i + 1;
    }
    proof {
        assert(span_views(line@).take(line@.len() as int) == span_views(line@));
    }
    out
}

fn message_cells(message: &str, body_width: u16) -> (r: Line)
    ensures
        span_views(r@) == message_line(message@, body_width),
{
    let text = truncate(message, body_width as usize);
    let w = width(text.as_str());
    let left = (if body_width as usize >= w { body_width as usize - w } else { 0 }) / 2;
    let mut t = spaces(left);
    crate::strs::push_str(&mut t, text.as_str());
    let r = vec![Span::body(t)];
    proof {
        assert(span_views(r@) =~= message_line(message@, body_width));
    }
    r
}

/// The body cells of screen row `y + 1`, and their hit.
fn body_row(
    snapshot: &Snapshot,
    state: &ViewState,
    message: &Option<String>,
    columns: u16,
    height_body: u16,
    y: u16,
) -> (r: (Line, Option<Hit>))
    requires
        opt_view(*message) == state_message_spec(*snapshot),
        columns >= 40,
        y < height_body,
    ensures
        span_views(r.0@) == body_cells(*snapshot, *state, columns, height_body, y as int).0,
        r.1 == body_cells(*snapshot, *state, columns, height_body, y as int).1,
{
    let pc: u16 = if state.files_panel == FilesPanel::Hidden { 0 } else { FILES_WIDTH + 1 };
    let bw = columns - pc;
    match message {
        Some(m) => {
            if y == height_body / 2 {
                (message_cells(m.as_str(), bw), None)
            } else {
                (Vec::new(), None)
            }
        },
        None => match &state.rows {
            Some(rows) => {
                let ri = state.offset.saturating_add(y as usize);
                if ri < rows.rows.len() {
                    let cursor = match state.cursor {
                        Some(c) => c < rows.row_of_target.len() && rows.row_of_target[c] == ri,
                        None => false,
                    };
                    let line = body_line(&rows.rows[ri], bw, state.hscroll, state.mode, cursor);
                    (line, Some(Hit { y: y + 1, x0: pc, x1: columns, action: Action::CursorToRow(ri) }))
                } else {
                    (Vec::new(), None)
                }
            },
            None => (Vec::new(), None),
        },
    }
}

fn join_hints(hints: &Vec<&'static str>) -> (r: String)
    ensures
        r@ == join_spec(hints@.map_values(|h: &'static str| h@), "  "@),
{
    let ghost hv = hints@.map_values(|h: &'static str| h@);
    let mut out = String::new();
    let mut i: usize = 0;
    while i < hints.len()
        invariant
            hv == hints@.map_values(|h: &'static str| h@),
            i <= hints@.len(),
            out@ == join_spec(hv.take(i as int), "  "@),
        decreases hints@.len() - i,
    {
        proof {
            assert(hv.take(i + 1).drop_last() =~= hv.take(i as int));
            assert(hv.take(i + 1).last() == hints@[i as int]@);
            if i == 0 {
                assert(hv.take(0) =~= Seq::<Seq<char>>::empty());
            }
        }
        if i > 0 {
            crate::strs::push_str(&mut out, "  ");
        }
        crate::strs::push_str(&mut out, hints[i]);
        i = i + 1;
    }
    proof {
        assert(hv.take(hints@.len() as int) == hv);
    }
    out
}

/// The hints that fit in `columns`.
fn fitting_hints(columns: u16) -> (r: String)
    ensures
        r@ == join_spec(drop_hints(all_hints(), columns), "  "@),
{
    let mut hints: Vec<&'static str> = vec![
        "j/k line",
        "[ ] hunk",
        "n/p file",
        "t view",
        "e files",
        "r refresh",
        "? help",
        "q quit",
    ];
    proof {
        assert(hints@.map_values(|h: &'static str| h@) =~= all_hints());
    }
    loop
        invariant
            drop_hints(hints@.map_values(|h: &'static str| h@), columns) == drop_hints(all_hints(), columns),
        decreases hints@.len(),
    {
        let joined = join_hints(&hints);
        if hints.len() == 0 || width(joined.as_str()) <= columns as usize {
            proof {
                if hints@.len() == 0 {
                    assert(hints@.map_values(|h: &'static str| h@) =~= Seq::<Seq<char>>::empty());
                }
            }
            return joined;
        }
        let at = if hints.len() >= 3 { hints.len() - 3 } else { 0 };
        let ghost before = hints@.map_values(|h: &'static str| h@);
        hints.remove(at);
        proof {
            assert(hints@.map_values(|h: &'static str| h@) =~= before.remove(at as int));
        }
    }
}

fn hovered_hit(hits: &Vec<Hit>, state: &ViewState) -> (r: Option<Hit>)
    ensures
        r == first_hovered(hits@, *state, 0),
{
    let mut i: usize = 0;
    while i < hits.len()
        invariant
            i <= hits@.len(),
            first_hovered(hits@, *state, 0) == first_hovered(hits@, *state, i as int),
        decreases hits@.len() - i,
    {
        if hits[i].hovered(state) {
            return Some(hits[i]);
        }
        i = i + 1;
    }
    None
}

fn binding_of(table: &Vec<Binding>, a: KeyAction) -> (r: Option<usize>)
    ensures
        match binding_from(binding_views(table@), a, 0) {
            Some(b) => r matches Some(i) && i < table@.len() && binding_view(table@[i as int]) == b,
            None => r is None,
        },
{
    let ghost t = binding_views(table@);
    let mut i: usize = 0;
    while i < table.len()
        invariant
            t == binding_views(table@),
            i <= table@.len(),
            binding_from(t, a, 0) == binding_from(t, a, i as int),
        decreases table@.len() - i,
    {
        proof {
            assert(t[i as int] == binding_view(table@[i as int]));
        }
        if table[i].action == a {
            return Some(i);
        }
        i = i + 1;
    }
    None
}

/// The footer's text.
fn hint_text(snapshot: &Snapshot, state: &ViewState, hits: &Vec<Hit>, columns: u16) -> (r: String)
    ensures
        r@ == hint_spec(*snapshot, *state, hits@, columns),
{
    let hit = match hovered_hit(hits, state) {
        Some(h) => h,
        None => return fitting_hints(columns),
    };
    let ka = match hit.action.key_action() {
        Some(k) => k,
        None => return fitting_hints(columns),
    };
    let table = keys();
    let i = match binding_of(&table, ka) {
        Some(i) => i,
        None => return fitting_hints(columns),
    };
    let b = &table[i];
    let mut hint = own(b.label);
    crate::strs::push_str(&mut hint, " · ");
    crate::strs::push_str(&mut hint, b.key);
    if ka == KeyAction::ToggleScope {
        if let Some(base) = &snapshot.base {
            let cs = crate::strs::chars(base.commit.as_str());
            let n = if cs.len() <= 7 { cs.len() } else { 7 };
            let commit = crate::strs::collect(&cs, 0, n);
            crate::strs::push_str(&mut hint, " · ");
            crate::strs::push_str(&mut hint, sanitize(base.label().as_str()).as_str());
            crate::strs::push_str(&mut hint, " @ ");
            crate::strs::push_str(&mut hint, sanitize(commit.as_str()).as_str());
            proof {
                assert(commit@ == take_upto(base.commit@, 7));
            }
        }
    }
    hint
}

fn clamp_all(hits: Vec<Hit>, columns: u16) -> (r: Vec<Hit>)
    ensures
        r@ == clamp_hits(hits@, columns),
{
    let mut out: Vec<Hit> = Vec::new();
    let mut i: usize = 0;
    while i < hits.len()
        invariant
            i <= hits@.len(),
            out@ == clamp_hits(hits@.take(i as int), columns),
        decreases hits@.len() - i,
    {
        proof {
            assert(hits@.take(i + 1).drop_last() == hits@.take(i as int));
            assert(hits@.take(i + 1).last() == hits@[i as int]);
        }
        let h = hits[i];
        let x1 = if h.x1 <= columns { h.x1 } else { columns };
        if h.x0 < x1 {
            out.push(Hit { x1, ..h });
        }
        i = i + 1;
    }
    proof {
        assert(hits@.take(hits@.len() as int) == hits@);
    }
    out
}

/// Draws `overlay` over screen rows `1..=overlay.len()` at column `x`.
fn draw_over(lines: &mut Vec<Line>, overlay: Vec<Line>, x: usize, width: usize, columns: usize)
    requires
        overlay@.len() < old(lines)@.len(),
        x + width <= columns,
    ensures
        lines_views(final(lines)@) == overlaid(lines_views(old(lines)@), lines_views(overlay@), x as nat, width as nat, columns as nat),
{
    let ghost before = lines_views(lines@);
    let ghost ov = lines_views(overlay@);
    let mut y: usize = 0;
    while y < overlay.len()
        invariant
            before == lines_views(old(lines)@),
            ov == lines_views(overlay@),
            overlay@.len() < lines@.len(),
            lines@.len() == old(lines)@.len(),
            x + width <= columns,
            y <= overlay@.len(),
            forall|k: int|
                0 <= k < lines@.len() ==> #[trigger] lines_views(lines@)[k] == if 1 <= k <= y {
                    overlaid(before, ov, x as nat, width as nat, columns as nat)[k]
                } else {
                    before[k]
                },
        decreases overlay@.len() - y,
    {
        let mut line = clip_line(&lines[y + 1], 0, x);
        let ghost left = span_views(line@);
        let mut middle = clone_line(&overlay[y]);
        let ghost mid = span_views(middle@);
        line.append(&mut middle);
        let right = x + width;
        let mut tail = clip_line(&lines[y + 1], right, columns - right);
        let ghost rv = span_views(tail@);
        let ghost lm = span_views(line@);
        line.append(&mut tail);
        proof {
            assert(lm =~= left + mid);
            assert(span_views(line@) =~= lm + rv);
            assert(ov[y as int] == span_views(overlay@[y as int]@));
            assert(before[y + 1] == lines_views(lines@)[y + 1]);
            assert(span_views(line@) == overlaid(before, ov, x as nat, width as nat, columns as nat)[y + 1]);
        }
        let ghost prev = lines@;
        lines.set(y + 1, line);
        proof {
            assert forall|k: int| 0 <= k < lines@.len() implies #[trigger] lines_views(lines@)[k] == if 1 <= k <= y + 1 {
                overlaid(before, ov, x as nat, width as nat, columns as nat)[k]
            } else {
                before[k]
            } by {
                if k != y + 1 {
                    assert(lines@[k] == prev[k]);
                    assert(lines_views(lines@)[k] == lines_views(prev)[k]);
                }
            }
        }
        y = y + 1;
    }
    proof {
        assert(lines_views(lines@) =~= overlaid(before, ov, x as nat, width as nat, columns as nat));
    }
}

/// The frame's lines and hit regions.
#[verifier::rlimit(100)]
pub fn render(snapshot: &Snapshot, state: &ViewState, columns: u16, height: u16) -> (r: Rendered)
    requires
        insertions_total(snapshot.files@) <= u64::MAX,
        deletions_total(snapshot.files@) <= u64::MAX,
        state.picker matches Some(p) ==> p.cursor + 2 <= usize::MAX,
    ensures
        lines_views(r.lines@) == render_spec(*snapshot, *state, columns, height).0,
        r.hits@ == render_spec(*snapshot, *state, columns, height).1,
{
    if columns < 40 || height < 10 {
        let lines: Vec<Line> = vec![vec![Span::body(own("terminal too small"))]];
        proof {
            assert(lines_views(lines@) =~~= render_spec(*snapshot, *state, columns, height).0);
        }
        return Rendered { lines, hits: Vec::new() };
    }
    let ghost s = *snapshot;
    let ghost st = *state;
    let (bar, mut hits) = toolbar(snapshot, state, columns);
    let mut lines: Vec<Line> = Vec::new();
    lines.push(fit_line(bar, columns as usize));
    let notice = notice(state, snapshot);
    let height_body = body_height(state, snapshot, height);
    let pc: u16 = if state.files_panel == FilesPanel::Hidden { 0 } else { FILES_WIDTH + 1 };
    let (panel, mut file_hits) = if pc > 0 {
        files_lines(snapshot, state, height_body)
    } else {
        (Vec::new(), Vec::new())
    };
    let ghost pv = lines_views(panel@);
    proof {
        if pc == 0 {
            assert(pv =~= Seq::<LineView>::empty());
        }
    }
    let ghost bar_hits = hits@;
    let ghost fh = file_hits@;
    hits.append(&mut file_hits);
    let ghost hits0 = hits@;
    proof {
        assert(hits0 == bar_hits + fh);
        let files = if pc > 0 {
            files_lines_spec(s, st, height_body)
        } else {
            (seq![], seq![])
        };
        assert(pv == files.0);
        assert(fh == files.1);
        assert(hits0 == toolbar_spec(s, st, columns).1 + files.1);
        assert(lines_views(lines@) =~~= seq![fit_spec(toolbar_spec(s, st, columns).0, columns as nat)]);
        assert(height_body == body_height_spec(st, s, height));
    }
    let message = state_message(snapshot);
    let ghost head = lines_views(lines@);
    let mut y: u16 = 0;
    while y < height_body
        invariant
            s == *snapshot,
            st == *state,
            columns >= 40,
            pc == panel_columns(st),
            pv == lines_views(panel@),
            opt_view(message) == state_message_spec(s),
            lines_views(lines@) == head + Seq::new(y as nat, |k: int| frame_line(s, st, columns, height_body, pv, k)),
            hits@ == hits0 + body_hits(s, st, columns, height_body, y as int),
            y <= height_body,
        decreases height_body - y,
    {
        let mut line: Line = if (y as usize) < panel.len() {
            clone_line(&panel[y as usize])
        } else {
            Vec::new()
        };
        if pc > 0 {
            line.push(Span::new(own("│"), Style::role(Role::Rule)));
        }
        let ghost lp = span_views(line@);
        let (body, hit) = body_row(snapshot, state, &message, columns, height_body, y);
        let mut fitted = fit_line(body, (columns - pc) as usize);
        line.append(&mut fitted);
        if let Some(h) = hit {
            hits.push(h);
        }
        let ghost lv = lines_views(lines@);
        proof {
            assert(span_views(line@) =~= frame_line(s, st, columns, height_body, pv, y as int));
        }
        lines.push(line);
        proof {
            assert(lines_views(lines@) =~= lv.push(frame_line(s, st, columns, height_body, pv, y as int)));
            assert(Seq::new((y + 1) as nat, |k: int| frame_line(s, st, columns, height_body, pv, k)) =~= Seq::new(
                y as nat,
                |k: int| frame_line(s, st, columns, height_body, pv, k),
            ).push(frame_line(s, st, columns, height_body, pv, y as int)));
        }
        y = y + 1;
    }
    let ghost framed = lines_views(lines@);
    if let Some(n) = &notice {
        let l: Line = vec![Span::label(pad(sanitize(n.as_str()).as_str(), columns as usize))];
        proof {
            assert(span_views(l@) =~~= seq![(pad_spec(sanitize_spec(notice_spec(st, s)->0), columns as nat), plain_style(Role::Label))]);
        }
        lines.push(l);
    }
    let ghost with_notice = lines_views(lines@);
    proof {
        let notice_lines = match notice_spec(st, s) {
            Some(n) => seq![seq![(pad_spec(sanitize_spec(n), columns as nat), plain_style(Role::Label))]],
            None => seq![],
        };
        assert(with_notice =~~= framed + notice_lines);
    }
    let hint = hint_text(snapshot, state, &hits, columns);
    let footer: Line = vec![Span::label(pad(hint.as_str(), columns as usize))];
    proof {
        assert(span_views(footer@) =~~= seq![(pad_spec(hint_spec(s, st, hits@, columns), columns as nat), plain_style(Role::Label))]);
    }
    lines.push(footer);
    proof {
        assert(lines@.len() == height);
    }
    let mut hits = clamp_all(hits, columns);
    proof {
        assert(lines_views(lines@) =~~= base_frame(s, st, columns, height).0);
        assert(hits@ == base_frame(s, st, columns, height).1);
    }
    if state.help_open {
        let pw: u16 = if columns <= 60 { columns } else { 60 };
        let ph: u16 = if height >= 2 { height - 2 } else { 0 };
        let x = ((columns - pw) / 2) as usize;
        let mut sheet = crate::tui::keys::help_panel(state.popup);
        let count = crate::tui::dialog::line_count(&sheet, pw);
        sheet.offset = clamp_scroll(state.help_offset, count, if ph >= 4 { ph - 4 } else { 0 });
        let overlay = crate::tui::dialog::render(&sheet, pw, ph);
        proof {
            assert(lines_views(overlay@) == help_overlay(st, columns, height));
        }
        draw_over(&mut lines, overlay, x, pw as usize, columns as usize);
        hits = Vec::new();
        proof {
            assert(lines_views(lines@).len() == lines@.len());
            assert(lines@.len() == height);
        }
    }
    if let Some(picker) = &state.picker {
        let pw: u16 = if columns <= picker::WIDTH { columns } else { picker::WIDTH };
        let ph: u16 = if height >= 2 { height - 2 } else { 0 };
        let x = ((columns - pw) / 2) as usize;
        let panel = picker.panel(snapshot, pw, ph);
        let overlay = crate::tui::dialog::render(&panel, pw, ph);
        proof {
            assert(lines_views(overlay@) == picker_overlay(*picker, s, columns, height));
        }
        draw_over(&mut lines, overlay, x, pw as usize, columns as usize);
        let head = picker.head();
        let visible = picker.visible(ph);
        let first = picker.window(visible);
        proof {
            assert(row_texts(panel.rows@).len() == panel.rows@.len());
            assert(head_rows(*picker, pw).len() == head);
        }
        let listed = panel.rows.len() - head;
        proof {
            assert(listed == window_rows(rows_spec(*picker, s), first as nat, visible as nat).len());
            assert(listed <= visible);
            assert(visible <= ph || visible == 1);
            assert(listed == 0 || first + listed <= rows_spec(*picker, s).len());
        }
        let mut picks: Vec<Hit> = Vec::new();
        let mut i: usize = 0;
        while i < listed
            invariant
                i <= listed,
                listed <= 65536,
                head <= 2,
                x + pw <= columns,
                listed == 0 || first + listed <= usize::MAX,
                s == *snapshot,
                pw == (if columns <= picker::WIDTH { columns } else { picker::WIDTH }),
                ph == sat_sub(height as int, 2),
                x == (columns - pw) / 2,
                visible == visible_spec(*picker, ph),
                first == window_spec(picker.offset as nat, picker.cursor as nat, visible as nat),
                head == head_rows(*picker, pw).len(),
                listed == window_rows(rows_spec(*picker, s), first as nat, visible as nat).len(),
                picks@ == picker_hits(*picker, s, columns, height).take(i as int),
            decreases listed - i,
        {
            picks.push(
                Hit {
                    y: (2 + head + i) as u16,
                    x0: x as u16,
                    x1: (x + pw as usize) as u16,
                    action: Action::PickRow(first + i),
                },
            );
            proof {
                assert(picker_hits(*picker, s, columns, height).take(i + 1) =~= picker_hits(*picker, s, columns, height).take(i as int).push(picker_hits(*picker, s, columns, height)[i as int]));
            }
            i = i + 1;
        }
        hits = picks;
    }
    Rendered { lines, hits }
}

} // verus!
