//! The viewer's first state, from its settings and the terminal's width.
use vstd::prelude::*;

use crate::engine::nav::ViewMode;
use crate::strs::{cat, decimal, decimal_string, opt_view, own, push_str, views};
use crate::tui::config::{Config, FilesSetting, ModeSetting};
use crate::tui::state::{FilesPanel, ViewState};
use crate::engine::nav::{diff_numbers_fit, hunk_numbers_fit};
use crate::engine::{DiffState, Snapshot};
use crate::git::{ChangedFile, DiffHunk};
use crate::tui::rows::ends_fit;
use crate::tui::view::{
    body_height, deletions_total, insertions_total, lines_views, render, render_spec, Rendered, MIN_SPLIT_WIDTH,
};

verus! {

/// The mode a setting asks for at a width: `auto` splits from 120 columns.
pub open spec fn initial_mode(setting: ModeSetting, width: u16) -> ViewMode {
    match setting {
        ModeSetting::Auto => if width >= 120 {
            ViewMode::Split
        } else {
            ViewMode::Unified
        },
        ModeSetting::Split => ViewMode::Split,
        ModeSetting::Unified => ViewMode::Unified,
    }
}

/// The files panel a setting asks for at a width: `auto` pins it from 100 columns.
pub open spec fn initial_files(setting: FilesSetting, width: u16) -> FilesPanel {
    match setting {
        FilesSetting::Pinned => FilesPanel::Pinned,
        FilesSetting::Auto => if width >= 100 {
            FilesPanel::Pinned
        } else {
            FilesPanel::Hidden
        },
        FilesSetting::Hidden => FilesPanel::Hidden,
    }
}

/// The state before the first frame: the requested mode and panel, the effective mode for
/// the width, and a notice when an explicit split does not fit.
pub fn initial_state(config: &Config, width: u16) -> (state: ViewState)
    ensures
        state.wf(),
        state.requested_mode == initial_mode(config.mode, width),
        state.mode == if width < MIN_SPLIT_WIDTH {
            ViewMode::Unified
        } else {
            initial_mode(config.mode, width)
        },
        state.files_panel == initial_files(config.files, width),
        state.mouse_requested == config.mouse,
        state.width == width,
        state.cursor is None,
        state.rows is None,
        !state.help_open,
        opt_view(state.notice) == if config.mode == ModeSetting::Split && width < MIN_SPLIT_WIDTH {
            Some("split view needs 100 columns"@)
        } else {
            None::<Seq<char>>
        },
{
    let mode = match config.mode {
        ModeSetting::Auto => if width >= 120 {
            ViewMode::Split
        } else {
            ViewMode::Unified
        },
        ModeSetting::Split => ViewMode::Split,
        ModeSetting::Unified => ViewMode::Unified,
    };
    let files = match config.files {
        FilesSetting::Pinned => FilesPanel::Pinned,
        FilesSetting::Auto => if width >= 100 {
            FilesPanel::Pinned
        } else {
            FilesPanel::Hidden
        },
        FilesSetting::Hidden => FilesPanel::Hidden,
    };
    let mut state = ViewState::new(mode, files, config.mouse);
    state.resize(width, 0);
    if config.mode == ModeSetting::Split && width < MIN_SPLIT_WIDTH {
        state.notice = Some(own("split view needs 100 columns"));
    }
    state
}

/// Whether a snapshot can be drawn: its line totals fit `u64`, and a loaded diff's line
/// numbers fit `u32`.
pub open spec fn frame_fits_spec(snapshot: Snapshot) -> bool {
    &&& insertions_total(snapshot.files@) <= u64::MAX
    &&& deletions_total(snapshot.files@) <= u64::MAX
    &&& snapshot.diff matches DiffState::Ready(d) ==> diff_numbers_fit(d.file_diff.hunks@) && ends_fit(d.file_diff.hunks@)
}

fn totals_fit(files: &Vec<ChangedFile>) -> (r: bool)
    ensures
        r == (insertions_total(files@) <= u64::MAX && deletions_total(files@) <= u64::MAX),
{
    let mut ins: u128 = 0;
    let mut del: u128 = 0;
    let mut i: usize = 0;
    while i < files.len()
        invariant
            i <= files@.len(),
            ins == insertions_total(files@.take(i as int)),
            del == deletions_total(files@.take(i as int)),
            ins <= i * 0x1_0000_0000,
            del <= i * 0x1_0000_0000,
        decreases files@.len() - i,
    {
        proof {
            assert(files@.take(i + 1).drop_last() =~= files@.take(i as int));
            assert(files@.take(i + 1).last() == files@[i as int]);
        }
        let a: u128 = match files[i].insertions {
            Some(n) => n as u128,
            None => 0,
        };
        let b: u128 = match files[i].deletions {
            Some(n) => n as u128,
            None => 0,
        };
        proof {
            assert(i * 0x1_0000_0000 + 0x1_0000_0000 <= 0x1_0000_0000_0000_0000_0000_0000) by (nonlinear_arith)
                requires
                    i < 0x1_0000_0000_0000_0000,
            ;
        }
        ins = ins + a;
        del = del + b;
        i = i + 1;
    }
    proof {
        assert(files@.take(files@.len() as int) == files@);
    }
    ins <= u64::MAX as u128 && del <= u64::MAX as u128
}

fn hunks_fit(hunks: &Vec<DiffHunk>) -> (r: bool)
    ensures
        r == (diff_numbers_fit(hunks@) && ends_fit(hunks@)),
{
    let mut i: usize = 0;
    while i < hunks.len()
        invariant
            i <= hunks@.len(),
            forall|k: int| 0 <= k < i ==> #[trigger] hunk_numbers_fit(hunks@[k]),
            forall|k: int| 0 <= k < i ==> #[trigger] hunks@[k].new_start + hunks@[k].new_lines <= u32::MAX,
        decreases hunks@.len() - i,
    {
        let h = &hunks[i];
        let n = h.lines.len() as u128;
        if h.old_start as u128 + n > u32::MAX as u128 || h.new_start as u128 + n > u32::MAX as u128 || h.new_start
            as u128 + h.new_lines as u128 > u32::MAX as u128 {
            proof {
                let k = i as int;
                if h.new_start as u128 + h.new_lines as u128 > u32::MAX as u128 {
                    assert(!(hunks@[k].new_start + hunks@[k].new_lines <= u32::MAX));
                } else {
                    assert(!hunk_numbers_fit(hunks@[k]));
                }
            }
            return false;
        }
        i = i + 1;
    }
    true
}

/// Whether a snapshot can be drawn.
pub fn frame_fits(snapshot: &Snapshot) -> (r: bool)
    ensures
        r == frame_fits_spec(*snapshot),
{
    if !totals_fit(&snapshot.files) {
        return false;
    }
    match &snapshot.diff {
        DiffState::Ready(d) => hunks_fit(&d.file_diff.hunks),
        _ => true,
    }
}

/// One frame: the state takes the terminal's size and the snapshot, then it is drawn.
pub fn prepare_frame(state: &mut ViewState, snapshot: &Snapshot, width: u16, height: u16) -> (r: Rendered)
    requires
        old(state).wf(),
        frame_fits_spec(*snapshot),
        old(state).picker matches Some(p) ==> p.cursor + 2 <= usize::MAX,
    ensures
        final(state).wf(),
        final(state).width == width,
        lines_views(r.lines@) == render_spec(*snapshot, *final(state), width, height).0,
        r.hits@ == render_spec(*snapshot, *final(state), width, height).1,
{
    let body = body_height(state, snapshot, height);
    state.resize(width, body);
    state.reconcile(snapshot);
    render(snapshot, state, width, height)
}

/// What became of the log of configuration problems.
#[derive(Debug, Clone, PartialEq, Eq)]
pub enum ProblemLog {
    /// There is no state directory to write it in.
    NoDirectory,
    Written,
    /// Writing it failed, for this reason.
    Failed(String),
}

pub open spec fn notice_text(count: nat, log: ProblemLog) -> Seq<char> {
    match log {
        ProblemLog::NoDirectory => "config: "@ + decimal(count) + " problem(s); no state directory for the log"@,
        ProblemLog::Written => "config: "@ + decimal(count) + " problem(s), see config-problems.log"@,
        ProblemLog::Failed(e) => "config: "@ + decimal(count) + " problem(s); cannot write config-problems.log: "@ + e@,
    }
}

/// The notice that the viewer opens with when the configuration had problems: how many, and
/// where they were logged. None without problems.
pub fn config_notice(problem_count: usize, log: &ProblemLog) -> (r: Option<String>)
    ensures
        problem_count == 0 ==> r is None,
        problem_count > 0 ==> (r matches Some(t) && t@ == notice_text(problem_count as nat, *log)),
{
    if problem_count == 0 {
        return None;
    }
    let mut t = own("config: ");
    let n = decimal_string(problem_count as u128);
    push_str(&mut t, n.as_str());
    match log {
        ProblemLog::NoDirectory => push_str(&mut t, " problem(s); no state directory for the log"),
        ProblemLog::Written => push_str(&mut t, " problem(s), see config-problems.log"),
        ProblemLog::Failed(e) => {
            push_str(&mut t, " problem(s); cannot write config-problems.log: ");
            push_str(&mut t, e.as_str());
        },
    }
    Some(t)
}

pub open spec fn log_lines(problems: Seq<Seq<char>>) -> Seq<char>
    decreases problems.len(),
{
    if problems.len() == 0 {
        Seq::empty()
    } else {
        log_lines(problems.drop_last()) + problems.last() + "\n"@
    }
}

/// The text of the problem log: each problem on a line of its own.
pub fn problem_log_text(problems: &Vec<String>) -> (r: String)
    ensures
        r@ == log_lines(views(problems@)),
{
    let mut t = String::new();
    let mut i: usize = 0;
    while i < problems.len()
        invariant
            i <= problems@.len(),
            t@ == log_lines(views(problems@).take(i as int)),
        decreases problems@.len() - i,
    {
        proof {
            assert(views(problems@).take(i + 1).drop_last() =~= views(problems@).take(i as int));
        }
        push_str(&mut t, problems[i].as_str());
        push_str(&mut t, "\n");
        i = i + 1;
    }
    proof {
        assert(views(problems@).take(problems@.len() as int) =~= views(problems@));
    }
    t
}

} // verus!
