//! Everything the TUI owns that is not in the snapshot, and the reconciliation rules.
use std::sync::Arc;

use vstd::prelude::*;

use crate::engine::nav::{
    diff_numbers_fit,
    find, first_index, at_line, nearest, nearest_spec, target_index_for_hunk,
    target_index_for_hunk_spec, Side, Target, ViewMode,
};
use crate::engine::types::{comparison_view, diffs_match, key_view, same_comparison, same_diff};
use crate::engine::{DiffState, LoadedDiff, Snapshot};
use crate::strs::{copy_opt, opt_view, same, same_opt_str};
use crate::tui::layout::{
    clamp_scroll, clamp_spec, ensure_visible, ensure_visible_spec, reanchor, reanchor_spec, LineSpan,
};
use crate::tui::picker::Picker;
use crate::tui::rows::{self, last_showing, max_width, row_specs, rows_index_ok, rows_spec, Rows};
use crate::tui::sanitize::{sanitize, sanitize_spec};
use crate::tui::view::{FILES_WIDTH, MIN_SPLIT_WIDTH};

verus! {

#[derive(Debug, Clone, Copy, PartialEq, Eq, Structural)]
pub enum FilesPanel {
    Hidden,
    Shown,
    Pinned,
}

/// `Arc::ptr_eq`: two handles of one allocation hold one value.
#[verifier::external_body]
fn same_allocation(a: &Arc<LoadedDiff>, b: &Arc<LoadedDiff>) -> (r: bool)
    ensures
        r ==> *a == *b,
{
    Arc::ptr_eq(a, b)
}

pub struct ViewState {
    pub requested_mode: ViewMode,
    pub mode: ViewMode,
    pub cursor: Option<usize>,
    pub cursor_id: Option<(Side, u32)>,
    pub offset: usize,
    pub hscroll: usize,
    pub files_panel: FilesPanel,
    pub mouse_requested: bool,
    pub hover: Option<(u16, u16)>,
    pub popup: bool,
    pub help_open: bool,
    pub picker: Option<Picker>,
    /// Last submitted pick's reply sequence, retained when the picker closes.
    pub submitted_pick_seq: u64,
    pub notice: Option<String>,
    pub rows: Option<Rows>,
    pub body_height: u16,
    pub help_offset: usize,
    pub seen_base_error: Option<String>,
    pub width: u16,
    /// The diff the rows were built from. Holding the Arc makes `Arc::ptr_eq` a cheap
    /// "did anything change" test; the engine swaps the Arc only on change.
    pub built_from: Option<(Arc<LoadedDiff>, ViewMode)>,
}

/// Every target's row is one of the rows.
pub open spec fn rows_wf(r: Rows) -> bool {
    forall|t: usize| t < r.row_of_target@.len() ==> #[trigger] r.row_of_target@[t as int] < r.rows@.len()
}

pub open spec fn sat_sub(a: int, b: int) -> int {
    if a >= b {
        a - b
    } else {
        0
    }
}

/// How far the text can scroll sideways: its widest line less the columns the text gets.
pub open spec fn max_hscroll_spec(
    width: u16,
    files_panel: FilesPanel,
    mode: ViewMode,
    rows: Option<Rows>,
) -> nat {
    let columns = sat_sub(
        width as int,
        if files_panel == FilesPanel::Hidden {
            0
        } else {
            FILES_WIDTH + 1
        },
    );
    let raw = match mode {
        ViewMode::Unified => sat_sub(columns, 14),
        ViewMode::Split => sat_sub(sat_sub(columns, 1) / 2, 8),
    };
    let text_columns = if raw >= 1 {
        raw
    } else {
        1
    };
    match rows {
        Some(r) => sat_sub(r.max_text_width as int, text_columns) as nat,
        None => 0,
    }
}

/// The offset that keeps the cursor's row in view, when there is a cursor on a known row.
pub open spec fn keep_visible_spec(offset: nat, rows: Option<Rows>, cursor: Option<usize>, viewport: u16) -> nat {
    match (rows, cursor) {
        (Some(r), Some(c)) => if c < r.row_of_target@.len() {
            ensure_visible_spec(
                offset as int,
                LineSpan { start: r.row_of_target@[c as int], height: 1 },
                viewport as int,
                r.rows@.len() as int,
            ) as nat
        } else {
            offset
        },
        _ => offset,
    }
}

pub open spec fn min_nat(a: nat, b: nat) -> nat {
    if a <= b {
        a
    } else {
        b
    }
}


/// Whether a new diff shows the file the rows were built from: the same row, or the same path
/// under another comparison.
pub open spec fn same_file_spec(built: Option<(Arc<LoadedDiff>, ViewMode)>, diff: LoadedDiff) -> bool {
    match built {
        Some((b, _)) => key_view(b.key) == key_view(diff.key) || (comparison_view(b.comparison)
            != comparison_view(diff.comparison) && b.key.path@ == diff.key.path@),
        None => false,
    }
}

/// The target on the cursor's remembered line, else the nearest, as long as it is on that side.
pub open spec fn followed(cursor_id: Option<(Side, u32)>, targets: Seq<Target>) -> Option<usize> {
    match cursor_id {
        Some((side, line)) => {
            let found = match first_index(targets, at_line(side, line)) {
                Some(i) => Some(i),
                None => nearest_spec(targets, side, line),
            };
            match found {
                Some(i) => if targets[i as int].side == side {
                    Some(i)
                } else {
                    None
                },
                None => None,
            }
        },
        None => None,
    }
}

/// Where the cursor lands on a new diff.
pub open spec fn reconciled_cursor(
    same_file: bool,
    cursor: Option<usize>,
    cursor_id: Option<(Side, u32)>,
    targets: Seq<Target>,
) -> Option<usize> {
    if !same_file {
        target_index_for_hunk_spec(targets, 0)
    } else {
        match followed(cursor_id, targets) {
            Some(i) => Some(i),
            None => match cursor {
                Some(c) => if targets.len() > 0 {
                    Some(
                        if c < targets.len() - 1 {
                            c
                        } else {
                            (targets.len() - 1) as usize
                        },
                    )
                } else {
                    target_index_for_hunk_spec(targets, 0)
                },
                None => target_index_for_hunk_spec(targets, 0),
            },
        }
    }
}

pub open spec fn cursor_identity(cursor: Option<usize>, targets: Seq<Target>) -> Option<(Side, u32)> {
    match cursor {
        Some(c) => if c < targets.len() {
            Some((targets[c as int].side, targets[c as int].line_number))
        } else {
            None
        },
        None => None,
    }
}

/// The row the cursor was on.
pub open spec fn cursor_row(rows: Option<Rows>, cursor: Option<usize>) -> Option<usize> {
    match (rows, cursor) {
        (Some(r), Some(c)) => if c < r.row_of_target@.len() {
            Some(r.row_of_target@[c as int])
        } else {
            None
        },
        _ => None,
    }
}

/// Rows that are those of `diff` in `mode`.
pub open spec fn rows_of(r: Rows, diff: LoadedDiff, mode: ViewMode) -> bool {
    &&& row_specs(r.rows@) == rows_spec(diff, mode)
    &&& r.row_of_target@.len() == diff.targets@.len()
    &&& rows_index_ok(r.row_of_target@, rows_spec(diff, mode))
    &&& r.max_text_width == max_width(rows_spec(diff, mode))
}

/// The state after rows are rebuilt for `d`: the cursor follows its line within the same file
/// and starts at the first change of another, and the viewport keeps the cursor's screen line.
pub open spec fn rebuilt(old: ViewState, new: ViewState, d: Arc<LoadedDiff>) -> bool {
    let diff = *d;
    let targets = diff.targets@;
    let same = same_file_spec(old.built_from, diff);
    let cursor = reconciled_cursor(same, old.cursor, old.cursor_id, targets);
    let old_row = cursor_row(old.rows, old.cursor);
    let start_offset: nat = if same {
        old.offset as nat
    } else {
        0
    };
    let start_hscroll: nat = if same && cursor is Some {
        old.hscroll as nat
    } else {
        0
    };
    &&& new.rows matches Some(r) && rows_of(r, diff, old.mode)
    &&& new.cursor == cursor
    &&& new.cursor_id == cursor_identity(cursor, targets)
    &&& {
        let placed: nat = if cursor is None {
            0
        } else if same && old_row is Some && cursor_row(new.rows, cursor) is Some {
            reanchor_spec(
                start_offset as int,
                old_row->0 as int,
                cursor_row(new.rows, cursor)->0 as int,
                old.body_height as int,
                rows_spec(diff, old.mode).len() as int,
            ) as nat
        } else {
            start_offset
        };
        new.offset == keep_visible_spec(placed, new.rows, cursor, old.body_height)
    }
    &&& new.hscroll == min_nat(
        start_hscroll,
        max_hscroll_spec(old.width, old.files_panel, old.mode, new.rows),
    )
    &&& new.built_from == Some((d, old.mode))
    &&& new.requested_mode == old.requested_mode
    &&& new.mode == old.mode
    &&& new.files_panel == old.files_panel
    &&& new.mouse_requested == old.mouse_requested
    &&& new.hover == old.hover
    &&& new.popup == old.popup
    &&& new.help_open == old.help_open
    &&& new.picker == old.picker
    &&& new.submitted_pick_seq == old.submitted_pick_seq
    &&& new.notice == old.notice
    &&& new.body_height == old.body_height
    &&& new.help_offset == old.help_offset
    &&& new.seen_base_error == old.seen_base_error
    &&& new.width == old.width
}

/// Whether the rows already built are those of a diff holding what `d` holds, in the current
/// mode.
pub open spec fn up_to_date(st: ViewState, d: Arc<LoadedDiff>) -> bool {
    st.built_from matches Some((b, m)) && same_diff(*b, *d) && m == st.mode && st.rows is Some
}

proof fn lemma_last_showing_bound(rows: Seq<rows::RowSpec>, t: usize)
    requires
        rows.len() > 0,
    ensures
        last_showing(rows, t) < rows.len(),
    decreases rows.len(),
{
    if rows.len() > 1 {
        lemma_last_showing_bound(rows.drop_last(), t);
    } else {
        assert(last_showing(rows.drop_last(), t) == 0);
    }
}


/// Where the cursor lands on new targets.
fn place_cursor(same_file: bool, cursor: Option<usize>, cursor_id: Option<(Side, u32)>, targets: &Vec<Target>) -> (r: Option<usize>)
    ensures
        r == reconciled_cursor(same_file, cursor, cursor_id, targets@),
{
    if !same_file {
        return target_index_for_hunk(targets.as_slice(), 0);
    }
    let followed = match cursor_id {
        Some((side, line)) => {
            let found = match find(targets.as_slice(), side, line) {
                Some(i) => Some(i),
                None => nearest(targets.as_slice(), side, line),
            };
            match found {
                Some(i) => if targets[i].side == side {
                    Some(i)
                } else {
                    None
                },
                None => None,
            }
        },
        None => None,
    };
    if followed.is_some() {
        return followed;
    }
    match cursor {
        Some(c) => if targets.len() > 0 {
            Some(if c < targets.len() - 1 { c } else { targets.len() - 1 })
        } else {
            target_index_for_hunk(targets.as_slice(), 0)
        },
        None => target_index_for_hunk(targets.as_slice(), 0),
    }
}

/// The state after the cursor is put on `target`: its line is remembered and its row kept in
/// view; a target the diff does not have changes nothing.
pub open spec fn cursor_set(old: ViewState, new: ViewState, targets: Seq<Target>, target: usize) -> bool {
    if target < targets.len() {
        let t = targets[target as int];
        new == ViewState {
            cursor: Some(target),
            cursor_id: Some((t.side, t.line_number)),
            offset: keep_visible_spec(old.offset as nat, old.rows, Some(target), old.body_height) as usize,
            ..old
        }
    } else {
        new == old
    }
}

impl ViewState {
    pub open spec fn wf(&self) -> bool {
        self.rows matches Some(r) ==> rows_wf(r)
    }

    pub fn new(mode: ViewMode, files_panel: FilesPanel, mouse: bool) -> (r: Self)
        ensures
            r.wf(),
            r.requested_mode == mode,
            r.mode == mode,
            r.cursor is None,
            r.cursor_id is None,
            r.offset == 0,
            r.hscroll == 0,
            r.files_panel == files_panel,
            r.mouse_requested == mouse,
            r.hover is None,
            !r.popup,
            !r.help_open,
            r.picker is None,
            r.submitted_pick_seq == 0,
            r.notice is None,
            r.rows is None,
            r.body_height == 0,
            r.help_offset == 0,
            r.seen_base_error is None,
            r.width == 0,
            r.built_from is None,
    {
        ViewState {
            requested_mode: mode,
            mode,
            cursor: None,
            cursor_id: None,
            offset: 0,
            hscroll: 0,
            files_panel,
            mouse_requested: mouse,
            hover: None,
            popup: false,
            help_open: false,
            picker: None,
            submitted_pick_seq: 0,
            notice: None,
            rows: None,
            body_height: 0,
            help_offset: 0,
            seen_base_error: None,
            width: 0,
            built_from: None,
        }
    }

    pub fn max_hscroll(&self) -> (r: usize)
        ensures
            r == max_hscroll_spec(self.width, self.files_panel, self.mode, self.rows),
    {
        let reserved: u16 = if self.files_panel == FilesPanel::Hidden { 0 } else { FILES_WIDTH + 1 };
        let columns: u16 = if self.width >= reserved { self.width - reserved } else { 0 };
        let raw: u16 = match self.mode {
            ViewMode::Unified => if columns >= 14 { columns - 14 } else { 0 },
            ViewMode::Split => {
                let half: u16 = (if columns >= 1 { columns - 1 } else { 0 }) / 2;
                if half >= 8 { half - 8 } else { 0 }
            },
        };
        let text_columns: usize = if raw >= 1 { raw as usize } else { 1 };
        match &self.rows {
            Some(rows) => if rows.max_text_width >= text_columns {
                rows.max_text_width - text_columns
            } else {
                0
            },
            None => 0,
        }
    }

    fn keep_cursor_visible(&mut self)
        requires
            old(self).wf(),
        ensures
            final(self).offset == keep_visible_spec(
                old(self).offset as nat,
                old(self).rows,
                old(self).cursor,
                old(self).body_height,
            ),
            *final(self) == (ViewState { offset: final(self).offset, ..*old(self) }),
    {
        if let (Some(rows), Some(cursor)) = (&self.rows, self.cursor) {
            if cursor < rows.row_of_target.len() {
                let row = rows.row_of_target[cursor];
                let total = rows.rows.len();
                proof {
                    assert(row < rows.rows@.len());
                }
                self.offset = ensure_visible(self.offset, LineSpan { start: row, height: 1 }, self.body_height, total);
            }
        }
    }

    /// The state after a resize to `width` columns and `body_height` rows: the effective mode
    /// is the requested one unless the width is too narrow for a split, the horizontal scroll
    /// is clamped, and the offset is clamped and follows the cursor when the height changed.
    pub open spec fn resized(s: ViewState, width: u16, body_height: u16) -> ViewState {
        let mode = if width < MIN_SPLIT_WIDTH {
            ViewMode::Unified
        } else {
            s.requested_mode
        };
        let hscroll = min_nat(
            s.hscroll as nat,
            max_hscroll_spec(width, s.files_panel, mode, s.rows),
        );
        let offset = if s.body_height == body_height {
            s.offset as nat
        } else {
            match s.rows {
                Some(r) => keep_visible_spec(
                    clamp_spec(s.offset as int, r.rows@.len() as int, body_height as int) as nat,
                    s.rows,
                    s.cursor,
                    body_height,
                ),
                None => s.offset as nat,
            }
        };
        ViewState {
            width,
            mode,
            hscroll: hscroll as usize,
            body_height,
            offset: offset as usize,
            ..s
        }
    }

    /// Resolves the effective mode and clamps offsets before each frame.
    pub fn resize(&mut self, width: u16, body_height: u16)
        requires
            old(self).wf(),
        ensures
            final(self).wf(),
            *final(self) == Self::resized(*old(self), width, body_height),
    {
        self.width = width;
        self.mode = if width < MIN_SPLIT_WIDTH { ViewMode::Unified } else { self.requested_mode };
        let limit = self.max_hscroll();
        if limit < self.hscroll {
            self.hscroll = limit;
        }
        if self.body_height == body_height {
            return;
        }
        self.body_height = body_height;
        let total = match &self.rows {
            Some(rows) => Some(rows.rows.len()),
            None => None,
        };
        if let Some(total) = total {
            self.offset = clamp_scroll(self.offset, total, body_height);
            self.keep_cursor_visible();
        }
    }

    pub fn set_cursor(&mut self, diff: &LoadedDiff, target: usize)
        requires
            old(self).wf(),
        ensures
            final(self).wf(),
            cursor_set(*old(self), *final(self), diff.targets@, target),
    {
        if target < diff.targets.len() {
            let t = diff.targets[target];
            self.cursor = Some(target);
            self.cursor_id = Some((t.side, t.line_number));
            self.keep_cursor_visible();
        }
    }


    /// Rebuilds the rows when the diff or the mode changed, and places the cursor and viewport.
    #[verifier::rlimit(40)]
    pub fn reconcile(&mut self, snapshot: &Snapshot)
        requires
            old(self).wf(),
            snapshot.diff matches DiffState::Ready(d) ==> diff_numbers_fit(d.file_diff.hunks@) && rows::ends_fit(
                d.file_diff.hunks@,
            ),
        ensures
            final(self).wf(),
            match snapshot.diff {
                DiffState::Ready(d) => if up_to_date(*old(self), d) {
                    *final(self) == *old(self)
                } else {
                    rebuilt(*old(self), *final(self), d)
                },
                _ => *final(self) == (ViewState {
                    rows: None,
                    cursor: None,
                    offset: 0,
                    hscroll: 0,
                    ..*old(self)
                }),
            },
    {
        let diff = match &snapshot.diff {
            DiffState::Ready(diff) => diff,
            _ => {
                self.rows = None;
                self.cursor = None;
                self.offset = 0;
                self.hscroll = 0;
                return;
            },
        };
        if let Some((built, mode)) = &self.built_from {
            if *mode == self.mode && self.rows.is_some() && (same_allocation(built, diff) || diffs_match(built, diff)) {
                return;
            }
        }
        let ghost old_state = *self;
        let same_file = match &self.built_from {
            Some((built, _)) => built.key.same(&diff.key) || (!same_comparison(&built.comparison, &diff.comparison)
                && same(built.key.path.as_str(), diff.key.path.as_str())),
            None => false,
        };
        proof {
            assert(same_file == same_file_spec(old_state.built_from, **diff));
        }
        let old_row = match (&self.rows, self.cursor) {
            (Some(rows), Some(c)) => if c < rows.row_of_target.len() {
                Some(rows.row_of_target[c])
            } else {
                None
            },
            _ => None,
        };
        let rows = rows::build(diff, self.mode);
        proof {
            assert forall|t: usize| t < rows.row_of_target@.len() implies #[trigger] rows.row_of_target@[t as int]
                < rows.rows@.len() by {
                lemma_last_showing_bound(row_specs(rows.rows@), t);
            }
        }
        let targets = &diff.targets;
        if !same_file {
            self.offset = 0;
            self.hscroll = 0;
        }
        self.cursor = place_cursor(same_file, self.cursor, self.cursor_id, targets);
        proof {
            assert(self.cursor == reconciled_cursor(same_file, old_state.cursor, old_state.cursor_id, targets@));
            assert(old_row == cursor_row(old_state.rows, old_state.cursor));
        }
        self.cursor_id = match self.cursor {
            Some(c) => if c < targets.len() {
                Some((targets[c].side, targets[c].line_number))
            } else {
                None
            },
            None => None,
        };
        let new_row = match self.cursor {
            Some(c) => if c < rows.row_of_target.len() {
                Some(rows.row_of_target[c])
            } else {
                None
            },
            None => None,
        };
        if self.cursor.is_none() {
            self.offset = 0;
            self.hscroll = 0;
        } else if let (true, Some(old), Some(new)) = (same_file, old_row, new_row) {
            self.offset = reanchor(self.offset, old, new, self.body_height, rows.rows.len());
        }
        let ghost placed = self.offset;
        self.rows = Some(rows);
        proof {
            assert(rows_of(self.rows->0, **diff, old_state.mode));
            assert(new_row == cursor_row(self.rows, self.cursor));
        }
        let limit = self.max_hscroll();
        if limit < self.hscroll {
            self.hscroll = limit;
        }
        let ghost before_keep = *self;
        self.keep_cursor_visible();
        proof {
            assert(before_keep.offset == placed);
            assert(self.offset == keep_visible_spec(placed as nat, before_keep.rows, before_keep.cursor, before_keep.body_height));
        }
        self.built_from = Some((diff.clone(), self.mode));
    }

    /// Called once per snapshot the shell receives, before the next frame.
    pub fn observe(&mut self, snapshot: &Snapshot)
        requires
            old(self).wf(),
        ensures
            final(self).wf(),
            ({
                let picker_done = old(self).picker matches Some(p) && (p.done || (p.pending matches Some(
                    sent,
                ) && snapshot.pick_seq > sent && snapshot.pick_error is None));
                let fresh = opt_view(snapshot.base_error) != opt_view(old(self).seen_base_error);
                &&& (final(self).picker is None <==> (old(self).picker is None || picker_done))
                &&& opt_view(final(self).seen_base_error) == if fresh {
                    opt_view(snapshot.base_error)
                } else {
                    opt_view(old(self).seen_base_error)
                }
                &&& opt_view(final(self).notice) == if fresh && snapshot.base_error is Some
                    && final(self).picker is None {
                    Some(sanitize_spec(snapshot.base_error->0@))
                } else {
                    opt_view(old(self).notice)
                }
                &&& final(self).rows == old(self).rows
                &&& final(self).cursor == old(self).cursor
                &&& final(self).cursor_id == old(self).cursor_id
                &&& final(self).offset == old(self).offset
                &&& final(self).hscroll == old(self).hscroll
                &&& final(self).mode == old(self).mode
                &&& final(self).requested_mode == old(self).requested_mode
                &&& final(self).built_from == old(self).built_from
                &&& final(self).body_height == old(self).body_height
                &&& final(self).width == old(self).width
            }),
    {
        let mut close = false;
        if let Some(picker) = &mut self.picker {
            picker.observe(snapshot);
            close = picker.done;
        }
        if close {
            self.picker = None;
        }
        if !same_opt_str(&snapshot.base_error, &self.seen_base_error) {
            self.seen_base_error = copy_opt(&snapshot.base_error);
            if let Some(error) = &snapshot.base_error {
                if self.picker.is_none() {
                    self.notice = Some(sanitize(error.as_str()));
                }
            }
        }
    }
}

/// A requested split that a narrow terminal shows as unified comes back once the terminal is
/// widened again: the mode a resize leaves depends on the requested mode and the width alone.
pub proof fn law_a_requested_split_returns_when_widened(s: ViewState, narrow: u16, wide: u16, h1: u16, h2: u16)
    requires
        s.requested_mode == ViewMode::Split,
        narrow < MIN_SPLIT_WIDTH,
        wide >= MIN_SPLIT_WIDTH,
    ensures
        ViewState::resized(s, narrow, h1).mode == ViewMode::Unified,
        ViewState::resized(ViewState::resized(s, narrow, h1), wide, h2).mode == ViewMode::Split,
{
}

/// While a diff loads or fails, the view forgets its rows and cursor but keeps the cursor's
/// line and the diff it last built; when a diff of the same file is ready again, the cursor
/// returns to that line (or the nearest on its side), else to the first change.
pub proof fn law_a_reloaded_file_puts_the_cursor_back_on_its_line(old: ViewState, mid: ViewState, new: ViewState, d: Arc<LoadedDiff>)
    requires
        mid == (ViewState { rows: None, cursor: None, offset: 0, hscroll: 0, ..old }),
        rebuilt(mid, new, d),
        same_file_spec(old.built_from, *d),
    ensures
        mid.cursor_id == old.cursor_id,
        new.cursor == match followed(old.cursor_id, d.targets@) {
            Some(i) => Some(i),
            None => target_index_for_hunk_spec(d.targets@, 0),
        },
{
}

/// Reconciling twice with the same diff changes nothing the second time: the first call
/// leaves the view up to date with that diff, and an up-to-date view is kept as it is.
pub proof fn law_reconciling_twice_changes_nothing(old: ViewState, mid: ViewState, new: ViewState, d: Arc<LoadedDiff>)
    requires
        if up_to_date(old, d) { mid == old } else { rebuilt(old, mid, d) },
        if up_to_date(mid, d) { new == mid } else { rebuilt(mid, new, d) },
    ensures
        new == mid,
{
    assert(up_to_date(mid, d));
}

} // verus!
