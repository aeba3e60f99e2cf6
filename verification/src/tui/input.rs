//! Pure input handling: change view state or request an engine command.
use vstd::prelude::*;

use crate::engine::nav::{
    law_a_hunk_lands_on_its_first_change, move_line, move_line_spec, move_side, move_side_spec, target_index_for_hunk,
    target_index_for_hunk_spec, Side, Target, ViewMode,
};
use crate::engine::types::{key_of_file, key_view};
use crate::engine::{Command, DiffState, FileKey, LoadedDiff, Snapshot, NO_BASE_NOTICE};
use crate::strs::{opt_view, own};
use crate::tui::dialog::{line_count, rows_line_count, RowText};
use crate::tui::keys::{
    help_panel, key_table, lookup, lookup_spec, sheet_rows, KeyAction, KeyCode, KeyEvent,
    KeyEventKind, KeyModifiers,
};
use crate::tui::layout::{clamp_scroll, clamp_spec};
use crate::tui::state::{cursor_set, FilesPanel, ViewState};
use crate::tui::view::{self, first_hit_from, notice_spec, Action, Rendered, MIN_SPLIT_WIDTH};

verus! {

#[derive(Debug, PartialEq, Eq)]
pub enum Outcome {
    Quit,
    Redraw,
    Inert,
    Engine(Command),
}

#[derive(Clone, Copy, Debug, PartialEq, Eq, Structural)]
pub enum MouseButton {
    Left,
    Right,
    Middle,
}

#[derive(Clone, Copy, Debug, PartialEq, Eq, Structural)]
pub enum MouseEventKind {
    Down(MouseButton),
    Up(MouseButton),
    Drag(MouseButton),
    Moved,
    ScrollDown,
    ScrollUp,
    ScrollLeft,
    ScrollRight,
}

/// A mouse event at a screen cell.
#[derive(Clone, Copy, Debug, PartialEq, Eq, Structural)]
pub struct MouseEvent {
    pub kind: MouseEventKind,
    pub column: u16,
    pub row: u16,
    pub modifiers: KeyModifiers,
}

/// `x + d`, held within `0..=usize::MAX`.
pub open spec fn add_signed(x: usize, d: isize) -> usize {
    if x + d > usize::MAX {
        usize::MAX
    } else if x + d < 0 {
        0
    } else {
        (x + d) as usize
    }
}

fn saturating_add_signed(x: usize, d: isize) -> (r: usize)
    ensures
        r == add_signed(x, d),
{
    if d >= 0 {
        let up = d as usize;
        if x <= usize::MAX - up {
            x + up
        } else {
            usize::MAX
        }
    } else {
        let down: usize = if d == isize::MIN {
            (isize::MAX as usize) + 1
        } else {
            (-d) as usize
        };
        if x >= down {
            x - down
        } else {
            0
        }
    }
}

/// The offset after a scroll by `delta` rows, kept where the last page is full.
pub open spec fn scroll_spec(offset: usize, delta: isize, total: usize, height: u16) -> usize {
    clamp_spec(add_signed(offset, delta) as int, total as int, height as int) as usize
}

pub open spec fn scroll_outcome(old: usize, new: usize) -> Outcome {
    if new == old {
        Outcome::Inert
    } else {
        Outcome::Redraw
    }
}

fn scroll(offset: &mut usize, delta: isize, total: usize, height: u16) -> (r: Outcome)
    ensures
        *final(offset) == scroll_spec(*old(offset), delta, total, height),
        r == scroll_outcome(*old(offset), *final(offset)),
{
    let next = clamp_scroll(saturating_add_signed(*offset, delta), total, height);
    if next == *offset {
        Outcome::Inert
    } else {
        *offset = next;
        Outcome::Redraw
    }
}

/// The rows the key sheet's body has at a frame `width` wide.
pub open spec fn help_total(st: ViewState, width: u16) -> usize {
    let pw: u16 = if width <= 60 {
        width
    } else {
        60
    };
    let rows = sheet_rows(key_table()) + if st.popup {
        seq![RowText::Entry("esc"@, "close"@, false)]
    } else {
        seq![]
    };
    if rows_line_count(rows, crate::tui::dialog::sat_sub(pw as int, 4)) <= usize::MAX {
        rows_line_count(rows, crate::tui::dialog::sat_sub(pw as int, 4)) as usize
    } else {
        usize::MAX
    }
}

/// The sheet covers the body and notice; four rows belong to its frame and footer.
pub open spec fn help_height(st: ViewState, s: Snapshot) -> u16 {
    let covered: int = st.body_height + if notice_spec(st, s) is Some {
        1int
    } else {
        0
    };
    let covered: int = if covered > u16::MAX {
        u16::MAX as int
    } else {
        covered
    };
    if covered >= 4 {
        (covered - 4) as u16
    } else {
        0
    }
}

/// The key sheet scrolled by `delta`, and nothing else changed.
pub open spec fn help_scrolled(old: ViewState, s: Snapshot, width: u16, delta: isize, new: ViewState, r: Outcome) -> bool {
    let next = scroll_spec(old.help_offset, delta, help_total(old, width), help_height(old, s));
    &&& new == ViewState { help_offset: next, ..old }
    &&& r == scroll_outcome(old.help_offset, next)
}

fn scroll_help(state: &mut ViewState, snapshot: &Snapshot, width: u16, delta: isize) -> (r: Outcome)
    ensures
        help_scrolled(*old(state), *snapshot, width, delta, *final(state), r),
{
    let pw = if width <= 60 { width } else { 60 };
    let sheet = help_panel(state.popup);
    let total = line_count(&sheet, pw);
    let extra: u16 = if view::notice(state, snapshot).is_some() { 1 } else { 0 };
    let height = state.body_height.saturating_add(extra).saturating_sub(4);
    scroll(&mut state.help_offset, delta, total, height)
}

/// The target a movement key asks for, for the keys that name one.
pub open spec fn move_target(diff: LoadedDiff, cursor: usize, mode: ViewMode, action: KeyAction) -> Option<usize> {
    let targets = diff.targets@;
    let unified = diff.unified_order@;
    match action {
        KeyAction::LineDown => Some(move_line_spec(targets, unified, cursor, 1, mode)),
        KeyAction::LineUp => Some(move_line_spec(targets, unified, cursor, -1i32, mode)),
        KeyAction::SideDeletions => Some(move_side_spec(targets, cursor, Side::Deletions, mode)),
        KeyAction::SideAdditions => Some(move_side_spec(targets, cursor, Side::Additions, mode)),
        KeyAction::HunkNext => if targets[cursor as int].hunk_index < usize::MAX {
            target_index_for_hunk_spec(targets, (targets[cursor as int].hunk_index + 1) as usize)
        } else {
            None
        },
        KeyAction::HunkPrev => if targets[cursor as int].hunk_index > 0 {
            target_index_for_hunk_spec(targets, (targets[cursor as int].hunk_index - 1) as usize)
        } else {
            None
        },
        KeyAction::First => match mode {
            ViewMode::Unified => if unified.len() > 0 {
                Some(unified[0])
            } else {
                None
            },
            ViewMode::Split => Some(0),
        },
        KeyAction::Last => match mode {
            ViewMode::Unified => if unified.len() > 0 {
                Some(unified.last())
            } else {
                None
            },
            ViewMode::Split => Some((targets.len() - 1) as usize),
        },
        _ => None,
    }
}

pub open spec fn abs_diff(a: usize, b: nat) -> nat {
    if a >= b {
        (a - b) as nat
    } else {
        (b - a) as nat
    }
}

/// The first index, from `i` on, of a row closest to `centre`.
pub open spec fn closest_from(rows: Seq<usize>, centre: nat, i: int, best: Option<usize>) -> Option<usize>
    decreases rows.len() - i,
{
    if i < 0 || i >= rows.len() {
        best
    } else {
        let better = match best {
            Some(b) => abs_diff(rows[i], centre) < abs_diff(rows[b as int], centre),
            None => true,
        };
        closest_from(rows, centre, i + 1, if better { Some(i as usize) } else { best })
    }
}

/// What a movement key does to the state: the cursor moves to the target it asks for, half
/// pages scroll and put the cursor on the target nearest the centre, and sideways keys scroll.
pub open spec fn move_rel(old: ViewState, s: Snapshot, action: KeyAction, new: ViewState, r: Outcome) -> bool {
    match (s.diff, old.cursor) {
        (DiffState::Ready(d), Some(c)) => if c < d.targets@.len() {
            let diff = *d;
            match action {
                KeyAction::HalfPageDown | KeyAction::HalfPageUp => match old.rows {
                    Some(rows) => {
                        let step: isize = (old.body_height / 2) as isize;
                        let next = scroll_spec(
                            old.offset,
                            if action == KeyAction::HalfPageDown {
                                step
                            } else {
                                (-step) as isize
                            },
                            rows.rows@.len() as usize,
                            old.body_height,
                        );
                        if next == old.offset {
                            r == Outcome::Inert && new == old
                        } else {
                            let mid = ViewState { offset: next, ..old };
                            let centre = next + old.body_height / 2;
                            &&& r == Outcome::Redraw
                            &&& match closest_from(rows.row_of_target@, centre as nat, 0, None) {
                                Some(t) => cursor_set(mid, new, diff.targets@, t),
                                None => new == mid,
                            }
                        }
                    },
                    None => r == Outcome::Inert && new == old,
                },
                KeyAction::ScrollLeft | KeyAction::ScrollRight => {
                    let next = scroll_spec(
                        old.hscroll,
                        if action == KeyAction::ScrollRight {
                            8isize
                        } else {
                            -8isize
                        },
                        usize::MAX,
                        0,
                    );
                    new == ViewState { hscroll: next, ..old } && r == scroll_outcome(old.hscroll, next)
                },
                _ => match move_target(diff, c, old.mode, action) {
                    Some(t) => if t != c {
                        r == Outcome::Redraw && cursor_set(old, new, diff.targets@, t)
                    } else {
                        r == Outcome::Inert && new == old
                    },
                    None => r == Outcome::Inert && new == old,
                },
            }
        } else {
            r == Outcome::Inert && new == old
        },
        _ => r == Outcome::Inert && new == old,
    }
}

/// The row of `rows` closest to `centre`, the first of equals.
fn closest_row(rows: &Vec<usize>, centre: usize) -> (r: Option<usize>)
    ensures
        r == closest_from(rows@, centre as nat, 0, None),
        r matches Some(i) ==> i < rows@.len(),
{
    let mut best: Option<usize> = None;
    let mut i: usize = 0;
    while i < rows.len()
        invariant
            i <= rows@.len(),
            best matches Some(b) ==> b < i,
            closest_from(rows@, centre as nat, 0, None) == closest_from(rows@, centre as nat, i as int, best),
        decreases rows@.len() - i,
    {
        let d = if rows[i] >= centre { rows[i] - centre } else { centre - rows[i] };
        let better = match best {
            Some(b) => {
                let db = if rows[b] >= centre { rows[b] - centre } else { centre - rows[b] };
                d < db
            },
            None => true,
        };
        if better {
            best = Some(i);
        }
        i = i + 1;
    }
    best
}

fn move_cursor(state: &mut ViewState, snapshot: &Snapshot, action: KeyAction) -> (r: Outcome)
    requires
        old(state).wf(),
    ensures
        final(state).wf(),
        move_rel(*old(state), *snapshot, action, *final(state), r),
{
    let diff = match &snapshot.diff {
        DiffState::Ready(d) => d,
        _ => return Outcome::Inert,
    };
    let cursor = match state.cursor {
        Some(c) => c,
        None => return Outcome::Inert,
    };
    if cursor >= diff.targets.len() {
        return Outcome::Inert;
    }
    let current = diff.targets[cursor];
    let target: Option<usize> = match action {
        KeyAction::LineDown => Some(move_line(diff.targets.as_slice(), diff.unified_order.as_slice(), cursor, 1, state.mode)),
        KeyAction::LineUp => Some(move_line(diff.targets.as_slice(), diff.unified_order.as_slice(), cursor, -1, state.mode)),
        KeyAction::SideDeletions => Some(move_side(diff.targets.as_slice(), cursor, Side::Deletions, state.mode)),
        KeyAction::SideAdditions => Some(move_side(diff.targets.as_slice(), cursor, Side::Additions, state.mode)),
        KeyAction::HunkNext => if current.hunk_index < usize::MAX {
            target_index_for_hunk(diff.targets.as_slice(), current.hunk_index + 1)
        } else {
            None
        },
        KeyAction::HunkPrev => if current.hunk_index > 0 {
            target_index_for_hunk(diff.targets.as_slice(), current.hunk_index - 1)
        } else {
            None
        },
        KeyAction::First => match state.mode {
            ViewMode::Unified => if diff.unified_order.len() > 0 {
                Some(diff.unified_order[0])
            } else {
                None
            },
            ViewMode::Split => Some(0),
        },
        KeyAction::Last => match state.mode {
            ViewMode::Unified => if diff.unified_order.len() > 0 {
                Some(diff.unified_order[diff.unified_order.len() - 1])
            } else {
                None
            },
            ViewMode::Split => Some(diff.targets.len() - 1),
        },
        KeyAction::HalfPageDown | KeyAction::HalfPageUp => {
            let total = match &state.rows {
                Some(rows) => rows.rows.len(),
                None => return Outcome::Inert,
            };
            let step = (state.body_height / 2) as isize;
            let delta = if action == KeyAction::HalfPageDown { step } else { -step };
            let height = state.body_height;
            let outcome = scroll(&mut state.offset, delta, total, height);
            if let Outcome::Inert = outcome {
                return outcome;
            }
            let ghost mid = *state;
            proof {
                assert(state.offset <= total);
            }
            let centre = state.offset + (state.body_height / 2) as usize;
            let nearest = match &state.rows {
                Some(rows) => closest_row(&rows.row_of_target, centre),
                None => None,
            };
            if let Some(t) = nearest {
                state.set_cursor(diff, t);
            }
            return Outcome::Redraw;
        },
        KeyAction::ScrollLeft | KeyAction::ScrollRight => {
            let delta: isize = if action == KeyAction::ScrollRight { 8 } else { -8 };
            return scroll(&mut state.hscroll, delta, usize::MAX, 0);
        },
        _ => return Outcome::Inert,
    };
    match target {
        Some(t) => if t != cursor {
            state.set_cursor(diff, t);
            Outcome::Redraw
        } else {
            Outcome::Inert
        },
        None => Outcome::Inert,
    }
}

pub open spec fn other_mode(m: ViewMode) -> ViewMode {
    match m {
        ViewMode::Unified => ViewMode::Split,
        ViewMode::Split => ViewMode::Unified,
    }
}

/// What a bound key does.
pub open spec fn act_rel(old: ViewState, s: Snapshot, action: KeyAction, width: u16, new: ViewState, r: Outcome) -> bool {
    match action {
        KeyAction::Quit => r == Outcome::Quit && new == old,
        KeyAction::Refresh => r == Outcome::Engine(Command::Refresh) && new == old,
        KeyAction::FileNext => r == Outcome::Engine(Command::SelectNext) && new == old,
        KeyAction::FilePrev => r == Outcome::Engine(Command::SelectPrev) && new == old,
        KeyAction::ToggleView => r == Outcome::Redraw && if old.mode == ViewMode::Unified && width
            < MIN_SPLIT_WIDTH {
            new == ViewState { notice: new.notice, ..old } && opt_view(new.notice) == Some(
                "split view needs 100 columns"@,
            )
        } else {
            new == ViewState { mode: other_mode(old.mode), requested_mode: other_mode(old.mode), ..old }
        },
        KeyAction::ToggleFiles => r == Outcome::Redraw && new == ViewState {
            files_panel: if old.files_panel == FilesPanel::Hidden {
                FilesPanel::Shown
            } else {
                FilesPanel::Hidden
            },
            ..old
        },
        KeyAction::PinFiles => r == Outcome::Redraw && new == ViewState {
            files_panel: if old.files_panel == FilesPanel::Pinned {
                FilesPanel::Shown
            } else {
                FilesPanel::Pinned
            },
            ..old
        },
        KeyAction::ToggleMouse => r == Outcome::Redraw && new == ViewState { mouse_requested: !old.mouse_requested, ..old },
        KeyAction::Help => r == Outcome::Redraw && new == ViewState { help_open: true, help_offset: 0, ..old },
        KeyAction::ToggleScope => if s.base is Some {
            r == Outcome::Engine(Command::SetScope(s.scope.other_spec())) && new == old
        } else {
            r == Outcome::Redraw && new == ViewState { notice: new.notice, ..old } && opt_view(new.notice)
                == Some(NO_BASE_NOTICE@)
        },
        _ => move_rel(old, s, action, new, r),
    }
}

fn act(state: &mut ViewState, snapshot: &Snapshot, action: KeyAction, width: u16) -> (r: Outcome)
    requires
        old(state).wf(),
    ensures
        final(state).wf(),
        act_rel(*old(state), *snapshot, action, width, *final(state), r),
{
    match action {
        KeyAction::Quit => return Outcome::Quit,
        KeyAction::Refresh => return Outcome::Engine(Command::Refresh),
        KeyAction::FileNext => return Outcome::Engine(Command::SelectNext),
        KeyAction::FilePrev => return Outcome::Engine(Command::SelectPrev),
        KeyAction::ToggleView => {
            if state.mode == ViewMode::Unified && width < MIN_SPLIT_WIDTH {
                state.notice = Some(own("split view needs 100 columns"));
            } else {
                let next = match state.mode {
                    ViewMode::Unified => ViewMode::Split,
                    ViewMode::Split => ViewMode::Unified,
                };
                state.mode = next;
                state.requested_mode = next;
            }
        },
        KeyAction::ToggleFiles => {
            state.files_panel = match state.files_panel {
                FilesPanel::Hidden => FilesPanel::Shown,
                _ => FilesPanel::Hidden,
            };
        },
        KeyAction::PinFiles => {
            state.files_panel = match state.files_panel {
                FilesPanel::Pinned => FilesPanel::Shown,
                _ => FilesPanel::Pinned,
            };
        },
        KeyAction::ToggleMouse => state.mouse_requested = !state.mouse_requested,
        KeyAction::Help => {
            state.help_open = true;
            state.help_offset = 0;
        },
        KeyAction::ToggleScope => {
            if snapshot.base.is_some() {
                return Outcome::Engine(Command::SetScope(snapshot.scope.other()));
            }
            state.notice = Some(own(NO_BASE_NOTICE));
        },
        _ => return move_cursor(state, snapshot, action),
    }
    Outcome::Redraw
}

/// A bound key, with a shown notice cleared by it: clearing it is itself a change to draw.
pub open spec fn apply_rel(old: ViewState, s: Snapshot, action: KeyAction, width: u16, new: ViewState, r: Outcome) -> bool {
    exists|after: ViewState, inner: Outcome|
        #![trigger act_rel(ViewState { notice: None, ..old }, s, action, width, after, inner)]
        act_rel(ViewState { notice: None, ..old }, s, action, width, after, inner) && new == after && r == if old.notice
            is Some && inner == Outcome::Inert {
            Outcome::Redraw
        } else {
            inner
        }
}

fn apply_action(state: &mut ViewState, snapshot: &Snapshot, action: KeyAction, width: u16) -> (r: Outcome)
    requires
        old(state).wf(),
    ensures
        final(state).wf(),
        apply_rel(*old(state), *snapshot, action, width, *final(state), r),
{
    let cleared = state.notice.is_some();
    state.notice = None;
    let ghost cleared_state = *state;
    let outcome = act(state, snapshot, action, width);
    let ghost inner = outcome;
    let ghost after = *state;
    proof {
        assert(act_rel(cleared_state, *snapshot, action, width, after, inner));
    }
    if cleared {
        if let Outcome::Inert = outcome {
            return Outcome::Redraw;
        }
    }
    outcome
}

/// What a key does: releases nothing, ctrl+c quits, the open key sheet takes every key, escape
/// closes a popup viewer, and a bound key acts.
pub open spec fn key_rel(old: ViewState, s: Snapshot, key: KeyEvent, width: u16, new: ViewState, r: Outcome) -> bool {
    if key.kind == KeyEventKind::Release {
        r == Outcome::Inert && new == old
    } else if key.code == KeyCode::Char('c') && key.modifiers.control {
        r == Outcome::Quit && new == old
    } else {
        let action = lookup_spec(key);
        if old.help_open {
            if (key.code == KeyCode::Esc && key.modifiers.is_empty_spec()) || action == Some(KeyAction::Help)
                || action == Some(KeyAction::Quit) {
                r == Outcome::Redraw && new == ViewState { help_open: false, help_offset: 0, notice: None, ..old }
            } else if action == Some(KeyAction::LineDown) {
                help_scrolled(old, s, width, 1, new, r)
            } else if action == Some(KeyAction::LineUp) {
                help_scrolled(old, s, width, -1isize, new, r)
            } else {
                r == Outcome::Inert && new == old
            }
        } else if key.code == KeyCode::Esc && key.modifiers.is_empty_spec() && old.popup {
            r == Outcome::Quit && new == old
        } else {
            match action {
                Some(a) => apply_rel(old, s, a, width, new, r),
                None => r == Outcome::Inert && new == old,
            }
        }
    }
}

pub fn handle_key(state: &mut ViewState, snapshot: &Snapshot, key: KeyEvent, width: u16) -> (r: Outcome)
    requires
        old(state).wf(),
    ensures
        final(state).wf(),
        key_rel(*old(state), *snapshot, key, width, *final(state), r),
{
    if key.kind == KeyEventKind::Release {
        return Outcome::Inert;
    }
    if key.code == KeyCode::Char('c') && key.modifiers.control {
        return Outcome::Quit;
    }
    let action = lookup(&key);
    if state.help_open {
        let closes = match action {
            Some(KeyAction::Help) | Some(KeyAction::Quit) => true,
            _ => false,
        };
        if (key.code == KeyCode::Esc && key.modifiers.is_empty()) || closes {
            state.help_open = false;
            state.help_offset = 0;
            state.notice = None;
            return Outcome::Redraw;
        }
        return match action {
            Some(KeyAction::LineDown) => scroll_help(state, snapshot, width, 1),
            Some(KeyAction::LineUp) => scroll_help(state, snapshot, width, -1),
            _ => Outcome::Inert,
        };
    }
    if key.code == KeyCode::Esc && key.modifiers.is_empty() && state.popup {
        return Outcome::Quit;
    }
    match action {
        Some(a) => apply_action(state, snapshot, a, width),
        None => Outcome::Inert,
    }
}

/// The first row's width in cells, at most `u16::MAX`: the frame the hits were made for.
pub open spec fn frame_width(rendered: Rendered) -> u16 {
    if rendered.lines@.len() == 0 {
        0
    } else {
        let w = spans_width(rendered.lines@[0]@);
        if w > u16::MAX {
            u16::MAX
        } else {
            w as u16
        }
    }
}

pub open spec fn spans_width(spans: Seq<crate::tui::style::Span>) -> nat
    decreases spans.len(),
{
    if spans.len() == 0 {
        0
    } else {
        spans_width(spans.drop_last()) + crate::tui::format::display_width(spans.last().text@) as nat
    }
}

fn first_line_width(rendered: &Rendered) -> (r: u16)
    ensures
        r == frame_width(*rendered),
{
    if rendered.lines.len() == 0 {
        return 0;
    }
    let line = &rendered.lines[0];
    let mut total: u128 = 0;
    let mut i: usize = 0;
    while i < line.len()
        invariant
            i <= line@.len(),
            line@ == rendered.lines@[0]@,
            total == spans_width(line@.take(i as int)) || (total == 0x1_0000 && spans_width(line@.take(i as int)) >= 0x1_0000),
            total <= 0x1_0000,
        decreases line@.len() - i,
    {
        proof {
            assert(line@.take(i + 1).drop_last() == line@.take(i as int));
            lemma_spans_width_mono(line@, i + 1);
        }
        let w = crate::tui::format::width(line[i].text.as_str()) as u128;
        total = if total + w >= 0x1_0000 { 0x1_0000 } else { total + w };
        i = i + 1;
    }
    proof {
        assert(line@.take(line@.len() as int) == line@);
    }
    if total > u16::MAX as u128 {
        u16::MAX
    } else {
        total as u16
    }
}

proof fn lemma_spans_width_mono(spans: Seq<crate::tui::style::Span>, n: int)
    requires
        0 < n <= spans.len(),
    ensures
        spans_width(spans.take(n - 1)) <= spans_width(spans.take(n)),
{
    assert(spans.take(n).drop_last() == spans.take(n - 1));
}

pub open spec fn toolbar_key(a: Action) -> Option<KeyAction> {
    match a {
        Action::PrevFile => Some(KeyAction::FilePrev),
        Action::NextFile => Some(KeyAction::FileNext),
        Action::PrevHunk => Some(KeyAction::HunkPrev),
        Action::NextHunk => Some(KeyAction::HunkNext),
        Action::ToggleScope => Some(KeyAction::ToggleScope),
        Action::ToggleView => Some(KeyAction::ToggleView),
        Action::ToggleFiles => Some(KeyAction::ToggleFiles),
        Action::Refresh => Some(KeyAction::Refresh),
        _ => None,
    }
}

/// The first index of `row` in `rows`.
pub open spec fn index_of_row(rows: Seq<usize>, row: usize, i: int) -> Option<usize>
    decreases rows.len() - i,
{
    if i < 0 || i >= rows.len() {
        None
    } else if rows[i] == row {
        Some(i as usize)
    } else {
        index_of_row(rows, row, i + 1)
    }
}

/// What a mouse event does: the wheel scrolls the sheet or the body three rows, a left click
/// acts like the key of the chip under it, selects a file row or puts the cursor on a diff row.
pub open spec fn mouse_rel(old: ViewState, s: Snapshot, rendered: Rendered, ev: MouseEvent, new: ViewState, r: Outcome) -> bool {
    let width = frame_width(rendered);
    if !ev.modifiers.is_empty_spec() {
        r == Outcome::Inert && new == old
    } else if ev.kind == MouseEventKind::ScrollDown || ev.kind == MouseEventKind::ScrollUp {
        let delta: isize = if ev.kind == MouseEventKind::ScrollDown {
            3isize
        } else {
            -3isize
        };
        if old.help_open {
            help_scrolled(old, s, width, delta, new, r)
        } else {
            match old.rows {
                Some(rows) => {
                    let next = scroll_spec(old.offset, delta, rows.rows@.len() as usize, old.body_height);
                    new == ViewState { offset: next, ..old } && r == scroll_outcome(old.offset, next)
                },
                None => r == Outcome::Inert && new == old,
            }
        }
    } else if old.help_open || ev.kind != MouseEventKind::Down(MouseButton::Left) {
        r == Outcome::Inert && new == old
    } else {
        match first_hit_from(rendered.hits@, ev.column, ev.row, 0) {
            Some(Action::SelectFile(i)) => new == old && if i < s.files@.len() {
                r matches Outcome::Engine(Command::Select(k)) && key_view(k) == key_of_file(s.files@[i as int])
            } else {
                r == Outcome::Inert
            },
            Some(Action::CursorToRow(row)) => match (s.diff, old.rows) {
                (DiffState::Ready(d), Some(rows)) => match index_of_row(rows.row_of_target@, row, 0) {
                    Some(t) => if old.cursor != Some(t) {
                        r == Outcome::Redraw && cursor_set(old, new, d.targets@, t)
                    } else {
                        r == Outcome::Inert && new == old
                    },
                    None => r == Outcome::Inert && new == old,
                },
                _ => r == Outcome::Inert && new == old,
            },
            Some(a) => match toolbar_key(a) {
                Some(k) => apply_rel(old, s, k, width, new, r),
                None => r == Outcome::Inert && new == old,
            },
            None => r == Outcome::Inert && new == old,
        }
    }
}

fn row_index(rows: &Vec<usize>, row: usize) -> (r: Option<usize>)
    ensures
        r == index_of_row(rows@, row, 0),
{
    let mut i: usize = 0;
    while i < rows.len()
        invariant
            i <= rows@.len(),
            index_of_row(rows@, row, 0) == index_of_row(rows@, row, i as int),
        decreases rows@.len() - i,
    {
        if rows[i] == row {
            return Some(i);
        }
        i = i + 1;
    }
    None
}

pub fn handle_mouse(state: &mut ViewState, snapshot: &Snapshot, rendered: &Rendered, ev: MouseEvent) -> (r: Outcome)
    requires
        old(state).wf(),
    ensures
        final(state).wf(),
        mouse_rel(*old(state), *snapshot, *rendered, ev, *final(state), r),
{
    if !ev.modifiers.is_empty() {
        return Outcome::Inert;
    }
    let width = first_line_width(rendered);
    if ev.kind == MouseEventKind::ScrollDown || ev.kind == MouseEventKind::ScrollUp {
        let delta: isize = if ev.kind == MouseEventKind::ScrollDown { 3 } else { -3 };
        if state.help_open {
            return scroll_help(state, snapshot, width, delta);
        }
        let total = match &state.rows {
            Some(rows) => rows.rows.len(),
            None => return Outcome::Inert,
        };
        let height = state.body_height;
        return scroll(&mut state.offset, delta, total, height);
    }
    if state.help_open || ev.kind != MouseEventKind::Down(MouseButton::Left) {
        return Outcome::Inert;
    }
    let action = match rendered.hit(ev.column, ev.row) {
        Some(a) => *a,
        None => return Outcome::Inert,
    };
    let key = match action {
        Action::PrevFile => KeyAction::FilePrev,
        Action::NextFile => KeyAction::FileNext,
        Action::PrevHunk => KeyAction::HunkPrev,
        Action::NextHunk => KeyAction::HunkNext,
        Action::ToggleScope => KeyAction::ToggleScope,
        Action::ToggleView => KeyAction::ToggleView,
        Action::ToggleFiles => KeyAction::ToggleFiles,
        Action::Refresh => KeyAction::Refresh,
        Action::SelectFile(index) => {
            return if index < snapshot.files.len() {
                Outcome::Engine(Command::Select(FileKey::of(&snapshot.files[index])))
            } else {
                Outcome::Inert
            };
        },
        Action::CursorToRow(row) => {
            if let (DiffState::Ready(diff), Some(rows)) = (&snapshot.diff, &state.rows) {
                if let Some(target) = row_index(&rows.row_of_target, row) {
                    let unchanged = match state.cursor {
                        Some(c) => c == target,
                        None => false,
                    };
                    if !unchanged {
                        state.set_cursor(diff, target);
                        return Outcome::Redraw;
                    }
                }
            }
            return Outcome::Inert;
        },
        Action::PickRow(_) => return Outcome::Inert,
    };
    apply_action(state, snapshot, key, width)
}

/// `]` and `[` move to the next and the previous hunk: from a cursor in hunk `h`, when hunk
/// `h + 1` (or `h - 1`) has targets, the cursor lands in that hunk, on a change when it has
/// one, and the frame is redrawn.
pub proof fn law_hunk_keys_move_to_the_adjacent_hunk(old: ViewState, s: Snapshot, new: ViewState, r: Outcome, next: bool)
    requires
        s.diff matches DiffState::Ready(d) && old.cursor matches Some(c) && c < d.targets@.len()
            && d.targets@.len() <= usize::MAX,
        move_rel(old, s, if next { KeyAction::HunkNext } else { KeyAction::HunkPrev }, new, r),
    ensures
        ({
            let d = s.diff->Ready_0;
            let targets = d.targets@;
            let c = old.cursor->0;
            let h = targets[c as int].hunk_index as int;
            let wanted = if next { h + 1 } else { h - 1 };
            (exists|j: int| 0 <= j < targets.len() && #[trigger] targets[j].hunk_index == wanted) ==> {
                &&& r == Outcome::Redraw
                &&& new.cursor matches Some(t) && t < targets.len() && targets[t as int].hunk_index == wanted
                &&& (exists|j: int| 0 <= j < targets.len() && #[trigger] targets[j].hunk_index == wanted
                    && targets[j].changed) ==> targets[new.cursor->0 as int].changed
            }
        }),
{
    let d = s.diff->Ready_0;
    let targets = d.targets@;
    let c = old.cursor->0;
    let h = targets[c as int].hunk_index as int;
    let wanted = if next { h + 1 } else { h - 1 };
    if exists|j: int| 0 <= j < targets.len() && #[trigger] targets[j].hunk_index == wanted {
        let j = choose|j: int| 0 <= j < targets.len() && #[trigger] targets[j].hunk_index == wanted;
        assert(0 <= wanted <= usize::MAX);
        law_a_hunk_lands_on_its_first_change(targets, wanted as usize);
    }
}

} // verus!
