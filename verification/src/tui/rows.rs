//! Display rows for one LoadedDiff in one view mode. Built once per diff or mode change.
use std::collections::HashMap;

use vstd::prelude::*;

use crate::engine::nav::{hunk_numbers_fit, diff_numbers_fit, max_len, Side, Target, ViewMode};
use crate::engine::LoadedDiff;
use crate::git::{DiffHunk, DiffLine, DiffLineType};
use crate::strs::copy;
use crate::tui::format::{display_width, width};
use crate::tui::sanitize::{sanitize, sanitize_spec};

verus! {

broadcast use vstd::std_specs::hash::group_hash_axioms;

#[derive(Debug, Clone)]
pub struct Cell {
    pub target: Option<usize>,
    pub no: Option<u32>,
    pub sign: char,
    pub text: String,
}

#[derive(Debug, Clone)]
pub enum Row {
    FileHeader { path: String },
    HunkHeader { hunk_index: usize, text: String },
    Gap { lines: u32 },
    Unified { target: usize, old_no: Option<u32>, new_no: Option<u32>, sign: char, text: String },
    Split { left: Option<Cell>, right: Option<Cell> },
    Truncated { lines: usize },
}

pub struct Rows {
    pub rows: Vec<Row>,
    pub max_text_width: usize,
    /// Row index that displays each target.
    pub row_of_target: Vec<usize>,
}

/// A cell as characters.
pub struct CellSpec {
    pub target: Option<usize>,
    pub no: Option<u32>,
    pub sign: char,
    pub text: Seq<char>,
}

/// A row as characters.
pub enum RowSpec {
    FileHeader(Seq<char>),
    HunkHeader(usize, Seq<char>),
    Gap(u32),
    Unified(usize, Option<u32>, Option<u32>, char, Seq<char>),
    Split(Option<CellSpec>, Option<CellSpec>),
    Truncated(usize),
}

impl View for Cell {
    type V = CellSpec;

    open spec fn view(&self) -> CellSpec {
        CellSpec { target: self.target, no: self.no, sign: self.sign, text: self.text@ }
    }
}

pub open spec fn opt_cell(c: Option<Cell>) -> Option<CellSpec> {
    match c {
        Some(x) => Some(x@),
        None => None,
    }
}

impl View for Row {
    type V = RowSpec;

    open spec fn view(&self) -> RowSpec {
        match self {
            Row::FileHeader { path } => RowSpec::FileHeader(path@),
            Row::HunkHeader { hunk_index, text } => RowSpec::HunkHeader(*hunk_index, text@),
            Row::Gap { lines } => RowSpec::Gap(*lines),
            Row::Unified { target, old_no, new_no, sign, text } => RowSpec::Unified(
                *target,
                *old_no,
                *new_no,
                *sign,
                text@,
            ),
            Row::Split { left, right } => RowSpec::Split(opt_cell(*left), opt_cell(*right)),
            Row::Truncated { lines } => RowSpec::Truncated(*lines),
        }
    }
}

pub open spec fn row_specs(rows: Seq<Row>) -> Seq<RowSpec> {
    rows.map_values(|r: Row| r@)
}

impl Cell {
    /// A copy of the cell.
    pub fn duplicate(&self) -> (r: Cell)
        ensures
            r@ == self@,
    {
        Cell { target: self.target, no: self.no, sign: self.sign, text: copy(&self.text) }
    }
}

// ---------------------------------------------------------------------------
// Finding the target a line shows.
// ---------------------------------------------------------------------------

/// The last target of `targets[..n]` in hunk `hunk_index` on `side` at line `no`.
pub open spec fn last_with(targets: Seq<Target>, n: int, hunk_index: usize, side: Side, no: u32) -> Option<usize>
    decreases n,
{
    if n <= 0 {
        None
    } else if targets[n - 1].hunk_index == hunk_index && targets[n - 1].side == side
        && targets[n - 1].line_number == no {
        Some((n - 1) as usize)
    } else {
        last_with(targets, n - 1, hunk_index, side, no)
    }
}

/// The target a line of hunk `hunk_index` on `side` at line `no` is: the last such in the list.
pub open spec fn lookup(targets: Seq<Target>, hunk_index: usize, side: Side, no: u32) -> Option<usize> {
    last_with(targets, targets.len() as int, hunk_index, side, no)
}

/// One integer per (hunk, side, line): distinct triples give distinct keys.
pub open spec fn pack(hunk_index: usize, side: Side, no: u32) -> u128 {
    (hunk_index * 0x2_0000_0000 + (if side == Side::Deletions {
        0x1_0000_0000int
    } else {
        0int
    }) + no) as u128
}

pub open spec fn key_of(t: Target) -> u128 {
    pack(t.hunk_index, t.side, t.line_number)
}

/// The key of each target mapped to its index; a later target with the same key replaces it.
pub open spec fn index_map(targets: Seq<Target>) -> Map<u128, usize>
    decreases targets.len(),
{
    if targets.len() == 0 {
        Map::empty()
    } else {
        index_map(targets.drop_last()).insert(key_of(targets.last()), (targets.len() - 1) as usize)
    }
}

proof fn lemma_pack_injective(h1: usize, s1: Side, n1: u32, h2: usize, s2: Side, n2: u32)
    requires
        pack(h1, s1, n1) == pack(h2, s2, n2),
    ensures
        h1 == h2 && s1 == s2 && n1 == n2,
{
    let a: int = if s1 == Side::Deletions { 1 } else { 0 };
    let b: int = if s2 == Side::Deletions { 1 } else { 0 };
    assert(h1 * 0x2_0000_0000 + a * 0x1_0000_0000 + n1 == h2 * 0x2_0000_0000 + b * 0x1_0000_0000 + n2);
    assert(h1 == h2 && a == b && n1 == n2) by (nonlinear_arith)
        requires
            h1 * 0x2_0000_0000 + a * 0x1_0000_0000 + n1 == h2 * 0x2_0000_0000 + b * 0x1_0000_0000 + n2,
            0 <= a <= 1,
            0 <= b <= 1,
            0 <= n1 < 0x1_0000_0000,
            0 <= n2 < 0x1_0000_0000,
            h1 >= 0,
            h2 >= 0,
    ;
}

proof fn lemma_index_map(targets: Seq<Target>, hunk_index: usize, side: Side, no: u32)
    ensures
        ({
            let m = index_map(targets);
            let k = pack(hunk_index, side, no);
            match last_with(targets, targets.len() as int, hunk_index, side, no) {
                Some(i) => m.contains_key(k) && m[k] == i,
                None => !m.contains_key(k),
            }
        }),
    decreases targets.len(),
{
    if targets.len() > 0 {
        let prev = targets.drop_last();
        lemma_index_map(prev, hunk_index, side, no);
        let t = targets.last();
        assert(targets[targets.len() - 1] == t);
        if key_of(t) == pack(hunk_index, side, no) {
            lemma_pack_injective(t.hunk_index, t.side, t.line_number, hunk_index, side, no);
        }
        assert forall|n: int| 0 <= n <= prev.len() implies last_with(targets, n, hunk_index, side, no)
            == #[trigger] last_with(prev, n, hunk_index, side, no) by {
            lemma_last_with_prefix(targets, prev, n, hunk_index, side, no);
        }
    }
}

proof fn lemma_last_with_prefix(a: Seq<Target>, b: Seq<Target>, n: int, hunk_index: usize, side: Side, no: u32)
    requires
        0 <= n <= b.len() <= a.len(),
        forall|i: int| 0 <= i < b.len() ==> a[i] == b[i],
    ensures
        last_with(a, n, hunk_index, side, no) == last_with(b, n, hunk_index, side, no),
    decreases n,
{
    if n > 0 {
        lemma_last_with_prefix(a, b, n - 1, hunk_index, side, no);
    }
}

proof fn lemma_last_with_bound(targets: Seq<Target>, n: int, hunk_index: usize, side: Side, no: u32)
    requires
        0 <= n <= targets.len(),
    ensures
        last_with(targets, n, hunk_index, side, no) matches Some(i) ==> i < n,
    decreases n,
{
    if n > 0 {
        lemma_last_with_bound(targets, n - 1, hunk_index, side, no);
    }
}

fn key(hunk_index: usize, side: Side, no: u32) -> (k: u128)
    ensures
        k == pack(hunk_index, side, no),
{
    let s: u128 = match side {
        Side::Deletions => 0x1_0000_0000,
        Side::Additions => 0,
    };
    (hunk_index as u128) * 0x2_0000_0000 + s + (no as u128)
}

/// Each target's key mapped to its index.
fn index_targets(targets: &Vec<Target>) -> (m: HashMap<u128, usize>)
    ensures
        m@ == index_map(targets@),
{
    let mut m: HashMap<u128, usize> = HashMap::new();
    let mut i: usize = 0;
    while i < targets.len()
        invariant
            i <= targets@.len(),
            m@ == index_map(targets@.take(i as int)),
        decreases targets@.len() - i,
    {
        let t = targets[i];
        m.insert(key(t.hunk_index, t.side, t.line_number), i);
        proof {
            assert(targets@.take(i + 1).drop_last() == targets@.take(i as int));
            assert(targets@.take(i + 1).last() == t);
        }
        i = i + 1;
    }
    proof {
        assert(targets@.take(targets@.len() as int) == targets@);
    }
    m
}

/// The target the line shows, when there is one.
fn find_target(
    index: &HashMap<u128, usize>,
    targets: &Vec<Target>,
    hunk_index: usize,
    side: Side,
    no: u32,
) -> (r: Option<usize>)
    requires
        index@ == index_map(targets@),
    ensures
        r == lookup(targets@, hunk_index, side, no),
        r matches Some(t) ==> t < targets@.len(),
{
    proof {
        lemma_index_map(targets@, hunk_index, side, no);
        lemma_last_with_bound(targets@, targets@.len() as int, hunk_index, side, no);
    }
    match index.get(&key(hunk_index, side, no)) {
        Some(t) => Some(*t),
        None => None,
    }
}

// ---------------------------------------------------------------------------
// The rows of a diff.
// ---------------------------------------------------------------------------

pub open spec fn old_no_of(l: DiffLine, old: u32) -> u32 {
    match l.old_line_number {
        Some(n) => n,
        None => old,
    }
}

pub open spec fn new_no_of(l: DiffLine, new: u32) -> u32 {
    match l.new_line_number {
        Some(n) => n,
        None => new,
    }
}

/// Unified rows for the remaining `lines` of hunk `hunk_index`, `old`/`new` the next line numbers:
/// one row per line that is a target.
pub open spec fn unified_lines(lines: Seq<DiffLine>, targets: Seq<Target>, hunk_index: usize, old: u32, new: u32) -> Seq<RowSpec>
    decreases lines.len(),
{
    if lines.len() == 0 {
        seq![]
    } else {
        let l = lines[0];
        let rest = lines.drop_first();
        let text = sanitize_spec(l.content@);
        match l.line_type {
            DiffLineType::Removed => {
                let no = old_no_of(l, old);
                (match lookup(targets, hunk_index, Side::Deletions, no) {
                    Some(t) => seq![RowSpec::Unified(t, Some(no), None, '-', text)],
                    None => seq![],
                }) + unified_lines(rest, targets, hunk_index, (old + 1) as u32, new)
            },
            DiffLineType::Added => {
                let no = new_no_of(l, new);
                (match lookup(targets, hunk_index, Side::Additions, no) {
                    Some(t) => seq![RowSpec::Unified(t, None, Some(no), '+', text)],
                    None => seq![],
                }) + unified_lines(rest, targets, hunk_index, old, (new + 1) as u32)
            },
            DiffLineType::Context => {
                let shown_new = new_no_of(l, new);
                let shown_old = old_no_of(l, old);
                (match lookup(targets, hunk_index, Side::Additions, shown_new) {
                    Some(t) => seq![RowSpec::Unified(t, Some(shown_old), Some(shown_new), ' ', text)],
                    None => seq![],
                }) + unified_lines(rest, targets, hunk_index, (old + 1) as u32, (new + 1) as u32)
            },
        }
    }
}

/// A changed block side by side: the `i`-th deletion beside the `i`-th addition.
pub open spec fn pair_rows(dels: Seq<CellSpec>, adds: Seq<CellSpec>) -> Seq<RowSpec> {
    Seq::new(
        max_len(dels.len(), adds.len()),
        |i: int|
            RowSpec::Split(
                if i < dels.len() {
                    Some(dels[i])
                } else {
                    None
                },
                if i < adds.len() {
                    Some(adds[i])
                } else {
                    None
                },
            ),
    )
}

/// Split rows for the remaining `lines`, with `dels`/`adds` the changed block collected so far.
pub open spec fn split_lines(
    lines: Seq<DiffLine>,
    targets: Seq<Target>,
    hunk_index: usize,
    old: u32,
    new: u32,
    dels: Seq<CellSpec>,
    adds: Seq<CellSpec>,
) -> Seq<RowSpec>
    decreases lines.len(),
{
    if lines.len() == 0 {
        pair_rows(dels, adds)
    } else {
        let l = lines[0];
        let rest = lines.drop_first();
        let text = sanitize_spec(l.content@);
        match l.line_type {
            DiffLineType::Removed => {
                let no = old_no_of(l, old);
                let cell = CellSpec {
                    target: lookup(targets, hunk_index, Side::Deletions, no),
                    no: Some(no),
                    sign: '-',
                    text,
                };
                split_lines(rest, targets, hunk_index, (old + 1) as u32, new, dels.push(cell), adds)
            },
            DiffLineType::Added => {
                let no = new_no_of(l, new);
                let cell = CellSpec {
                    target: lookup(targets, hunk_index, Side::Additions, no),
                    no: Some(no),
                    sign: '+',
                    text,
                };
                split_lines(rest, targets, hunk_index, old, (new + 1) as u32, dels, adds.push(cell))
            },
            DiffLineType::Context => {
                let shown_new = new_no_of(l, new);
                let shown_old = old_no_of(l, old);
                pair_rows(dels, adds) + (match lookup(targets, hunk_index, Side::Additions, shown_new) {
                    Some(t) => seq![
                        RowSpec::Split(
                            Some(CellSpec { target: None, no: Some(shown_old), sign: ' ', text }),
                            Some(CellSpec { target: Some(t), no: Some(shown_new), sign: ' ', text }),
                        ),
                    ],
                    None => seq![],
                }) + split_lines(
                    rest,
                    targets,
                    hunk_index,
                    (old + 1) as u32,
                    (new + 1) as u32,
                    seq![],
                    seq![],
                )
            },
        }
    }
}

pub open spec fn body_rows(h: DiffHunk, targets: Seq<Target>, hunk_index: usize, mode: ViewMode) -> Seq<RowSpec> {
    match mode {
        ViewMode::Unified => unified_lines(h.lines@, targets, hunk_index, h.old_start, h.new_start),
        ViewMode::Split => split_lines(
            h.lines@,
            targets,
            hunk_index,
            h.old_start,
            h.new_start,
            seq![],
            seq![],
        ),
    }
}

/// The first new-file line after hunk `i - 1`; 1 before the first hunk.
pub open spec fn previous_end(hunks: Seq<DiffHunk>, i: int) -> int {
    if i <= 0 {
        1
    } else {
        hunks[i - 1].new_start + hunks[i - 1].new_lines
    }
}

/// A hunk's rows: a gap row for the unchanged lines before it, its header, its lines.
pub open spec fn hunk_rows(hunks: Seq<DiffHunk>, i: int, targets: Seq<Target>, mode: ViewMode) -> Seq<RowSpec> {
    let h = hunks[i];
    let prev = previous_end(hunks, i);
    (if h.new_start > prev {
        seq![RowSpec::Gap((h.new_start - prev) as u32)]
    } else {
        seq![]
    }) + seq![RowSpec::HunkHeader(i as usize, sanitize_spec(h.header@))] + body_rows(
        h,
        targets,
        i as usize,
        mode,
    )
}

pub open spec fn hunks_rows(hunks: Seq<DiffHunk>, n: int, targets: Seq<Target>, mode: ViewMode) -> Seq<RowSpec>
    decreases n,
{
    if n <= 0 {
        seq![]
    } else {
        hunks_rows(hunks, n - 1, targets, mode) + hunk_rows(hunks, n - 1, targets, mode)
    }
}

/// The file header, every hunk's rows, and a last row for lines left out.
pub open spec fn rows_spec(diff: LoadedDiff, mode: ViewMode) -> Seq<RowSpec> {
    let hunks = diff.file_diff.hunks@;
    seq![RowSpec::FileHeader(sanitize_spec(diff.file_diff.file_path@))] + hunks_rows(
        hunks,
        hunks.len() as int,
        diff.targets@,
        mode,
    ) + (if diff.truncated_lines > 0 {
        seq![RowSpec::Truncated(diff.truncated_lines)]
    } else {
        seq![]
    })
}

pub open spec fn cell_shows(c: Option<CellSpec>, t: usize) -> bool {
    c matches Some(x) && x.target == Some(t)
}

/// Whether `r` displays target `t`.
pub open spec fn shows(r: RowSpec, t: usize) -> bool {
    match r {
        RowSpec::Unified(x, _, _, _, _) => x == t,
        RowSpec::Split(left, right) => cell_shows(left, t) || cell_shows(right, t),
        _ => false,
    }
}

/// The last row that displays `t`; 0 when none does.
pub open spec fn last_showing(rows: Seq<RowSpec>, t: usize) -> nat
    decreases rows.len(),
{
    if rows.len() == 0 {
        0
    } else if shows(rows.last(), t) {
        (rows.len() - 1) as nat
    } else {
        last_showing(rows.drop_last(), t)
    }
}

pub open spec fn cell_width(c: Option<CellSpec>) -> nat {
    match c {
        Some(x) => display_width(x.text) as nat,
        None => 0,
    }
}

/// The display width of a row's text.
pub open spec fn row_width(r: RowSpec) -> nat {
    match r {
        RowSpec::FileHeader(p) => display_width(p) as nat,
        RowSpec::HunkHeader(_, t) => display_width(t) as nat,
        RowSpec::Unified(_, _, _, _, t) => display_width(t) as nat,
        RowSpec::Split(l, r) => max_len(cell_width(l), cell_width(r)),
        _ => 0,
    }
}

pub open spec fn max_width(rows: Seq<RowSpec>) -> nat
    decreases rows.len(),
{
    if rows.len() == 0 {
        0
    } else {
        max_len(max_width(rows.drop_last()), row_width(rows.last()))
    }
}

/// Every row a target maps to is the last that displays it.
pub open spec fn rows_index_ok(rot: Seq<usize>, rows: Seq<RowSpec>) -> bool {
    forall|t: usize| t < rot.len() ==> #[trigger] rot[t as int] == last_showing(rows, t)
}

pub open spec fn cell_below(c: Option<CellSpec>, n: nat) -> bool {
    match c {
        Some(x) => match x.target {
            Some(t) => t < n,
            None => true,
        },
        None => true,
    }
}

/// Every target the row displays is one of `n`.
pub open spec fn row_below(r: RowSpec, n: nat) -> bool {
    match r {
        RowSpec::Unified(t, _, _, _, _) => t < n,
        RowSpec::Split(left, right) => cell_below(left, n) && cell_below(right, n),
        _ => true,
    }
}

/// Previous ends fit in `u32`.
pub open spec fn ends_fit(hunks: Seq<DiffHunk>) -> bool {
    forall|i: int| 0 <= i < hunks.len() ==> #[trigger] hunks[i].new_start + hunks[i].new_lines <= u32::MAX
}

pub open spec fn cell_specs(v: Seq<Cell>) -> Seq<CellSpec> {
    v.map_values(|c: Cell| c@)
}

pub open spec fn cells_below(v: Seq<CellSpec>, n: nat) -> bool {
    forall|i: int| 0 <= i < v.len() ==> cell_below(Some(#[trigger] v[i]), n)
}

proof fn lemma_last_showing_push(rows: Seq<RowSpec>, r: RowSpec, t: usize)
    ensures
        last_showing(rows.push(r), t) == if shows(r, t) {
            rows.len()
        } else {
            last_showing(rows, t)
        },
{
    assert(rows.push(r).drop_last() == rows);
    assert(rows.push(r).last() == r);
}

/// Appends a row, pointing every target it displays at it.
fn push_row(rows: &mut Vec<Row>, rot: &mut Vec<usize>, row: Row)
    requires
        rows_index_ok(old(rot)@, row_specs(old(rows)@)),
        row_below(row@, old(rot)@.len() as nat),
    ensures
        row_specs(final(rows)@) == row_specs(old(rows)@).push(row@),
        final(rot)@.len() == old(rot)@.len(),
        rows_index_ok(final(rot)@, row_specs(final(rows)@)),
{
    let at = rows.len();
    let ghost old_rot = rot@;
    match &row {
        Row::Unified { target, .. } => {
            rot.set(*target, at);
        },
        Row::Split { left, right } => {
            if let Some(c) = left {
                if let Some(t) = c.target {
                    rot.set(t, at);
                }
            }
            if let Some(c) = right {
                if let Some(t) = c.target {
                    rot.set(t, at);
                }
            }
        },
        _ => {},
    }
    let ghost before = row_specs(rows@);
    let ghost r = row@;
    proof {
        assert forall|t: usize| t < rot@.len() implies #[trigger] rot@[t as int] == if shows(r, t) {
            at as nat
        } else {
            old_rot[t as int] as nat
        } by {}
    }
    rows.push(row);
    proof {
        assert(row_specs(rows@) =~= before.push(r));
        assert forall|t: usize| t < rot@.len() implies #[trigger] rot@[t as int] == last_showing(row_specs(rows@), t) by {
            lemma_last_showing_push(before, r, t);
        }
    }
}

/// Appends a changed block side by side and empties it.
fn flush(rows: &mut Vec<Row>, rot: &mut Vec<usize>, dels: &mut Vec<Cell>, adds: &mut Vec<Cell>)
    requires
        rows_index_ok(old(rot)@, row_specs(old(rows)@)),
        cells_below(cell_specs(old(dels)@), old(rot)@.len() as nat),
        cells_below(cell_specs(old(adds)@), old(rot)@.len() as nat),
    ensures
        row_specs(final(rows)@) == row_specs(old(rows)@) + pair_rows(cell_specs(old(dels)@), cell_specs(old(adds)@)),
        final(rot)@.len() == old(rot)@.len(),
        rows_index_ok(final(rot)@, row_specs(final(rows)@)),
        final(dels)@.len() == 0,
        final(adds)@.len() == 0,
{
    let n = if dels.len() >= adds.len() { dels.len() } else { adds.len() };
    let ghost d = cell_specs(dels@);
    let ghost a = cell_specs(adds@);
    let ghost start = row_specs(rows@);
    let mut i: usize = 0;
    while i < n
        invariant
            d == cell_specs(dels@),
            a == cell_specs(adds@),
            n == max_len(d.len(), a.len()),
            i <= n,
            rot@.len() == old(rot)@.len(),
            cells_below(d, rot@.len() as nat),
            cells_below(a, rot@.len() as nat),
            rows_index_ok(rot@, row_specs(rows@)),
            row_specs(rows@) == start + pair_rows(d, a).take(i as int),
        decreases n - i,
    {
        let left = if i < dels.len() { Some(dels[i].duplicate()) } else { None };
        let right = if i < adds.len() { Some(adds[i].duplicate()) } else { None };
        let row = Row::Split { left, right };
        proof {
            if i < d.len() {
                assert(cell_below(Some(d[i as int]), rot@.len() as nat));
                assert(d[i as int] == dels@[i as int]@);
            }
            if i < a.len() {
                assert(cell_below(Some(a[i as int]), rot@.len() as nat));
                assert(a[i as int] == adds@[i as int]@);
            }
            assert(row@ == pair_rows(d, a)[i as int]);
            assert(row_below(row@, rot@.len() as nat));
        }
        push_row(rows, rot, row);
        proof {
            assert(pair_rows(d, a).take(i + 1) == pair_rows(d, a).take(i as int).push(pair_rows(d, a)[i as int]));
        }
        i = i + 1;
    }
    proof {
        assert(pair_rows(d, a).take(n as int) == pair_rows(d, a));
    }
    dels.clear();
    adds.clear();
}

/// Appends the unified rows of hunk `hunk_index`.
fn unified_body(
    rows: &mut Vec<Row>,
    rot: &mut Vec<usize>,
    index: &HashMap<u128, usize>,
    targets: &Vec<Target>,
    hunk: &DiffHunk,
    hunk_index: usize,
)
    requires
        rows_index_ok(old(rot)@, row_specs(old(rows)@)),
        old(rot)@.len() == targets@.len(),
        index@ == index_map(targets@),
        hunk_numbers_fit(*hunk),
    ensures
        row_specs(final(rows)@) == row_specs(old(rows)@) + unified_lines(
            hunk.lines@,
            targets@,
            hunk_index,
            hunk.old_start,
            hunk.new_start,
        ),
        final(rot)@.len() == old(rot)@.len(),
        rows_index_ok(final(rot)@, row_specs(final(rows)@)),
{
    let lines = &hunk.lines;
    let ghost start = row_specs(rows@);
    let mut old_no = hunk.old_start;
    let mut new_no = hunk.new_start;
    let mut j: usize = 0;
    proof {
        assert(lines@.skip(0) == lines@);
    }
    while j < lines.len()
        invariant
            hunk_numbers_fit(*hunk),
            lines == &hunk.lines,
            j <= lines@.len(),
            old_no <= hunk.old_start + j,
            new_no <= hunk.new_start + j,
            rot@.len() == targets@.len(),
            index@ == index_map(targets@),
            rows_index_ok(rot@, row_specs(rows@)),
            start + unified_lines(lines@, targets@, hunk_index, hunk.old_start, hunk.new_start)
                == row_specs(rows@) + unified_lines(lines@.skip(j as int), targets@, hunk_index, old_no, new_no),
        decreases lines@.len() - j,
    {
        let line = &lines[j];
        let ghost rest = lines@.skip(j as int);
        proof {
            assert(rest[0] == lines@[j as int]);
            assert(rest.drop_first() == lines@.skip(j + 1));
        }
        let text = sanitize(line.content.as_str());
        let ghost before = row_specs(rows@);
        let ghost o = old_no;
        let ghost nn = new_no;
        match line.line_type {
            DiffLineType::Removed => {
                let no = match line.old_line_number {
                    Some(n) => n,
                    None => old_no,
                };
                if let Some(t) = find_target(index, targets, hunk_index, Side::Deletions, no) {
                    push_row(rows, rot, Row::Unified { target: t, old_no: Some(no), new_no: None, sign: '-', text });
                }
                old_no = old_no + 1;
            },
            DiffLineType::Added => {
                let no = match line.new_line_number {
                    Some(n) => n,
                    None => new_no,
                };
                if let Some(t) = find_target(index, targets, hunk_index, Side::Additions, no) {
                    push_row(rows, rot, Row::Unified { target: t, old_no: None, new_no: Some(no), sign: '+', text });
                }
                new_no = new_no + 1;
            },
            DiffLineType::Context => {
                let shown_new = match line.new_line_number {
                    Some(n) => n,
                    None => new_no,
                };
                let shown_old = match line.old_line_number {
                    Some(n) => n,
                    None => old_no,
                };
                if let Some(t) = find_target(index, targets, hunk_index, Side::Additions, shown_new) {
                    push_row(
                        rows,
                        rot,
                        Row::Unified {
                            target: t,
                            old_no: Some(shown_old),
                            new_no: Some(shown_new),
                            sign: ' ',
                            text,
                        },
                    );
                }
                old_no = old_no + 1;
                new_no = new_no + 1;
            },
        }
        proof {
            assert(row_specs(rows@) + unified_lines(lines@.skip(j + 1), targets@, hunk_index, old_no, new_no)
                =~= before + unified_lines(rest, targets@, hunk_index, o, nn));
        }
        j = j + 1;
    }
}

proof fn lemma_cells_push(v: Seq<Cell>, c: Cell, n: nat)
    requires
        cells_below(cell_specs(v), n),
        cell_below(Some(c@), n),
    ensures
        cell_specs(v.push(c)) == cell_specs(v).push(c@),
        cells_below(cell_specs(v.push(c)), n),
{
    assert(cell_specs(v.push(c)) =~= cell_specs(v).push(c@));
}

/// Appends the split rows of hunk `hunk_index`.
fn split_body(
    rows: &mut Vec<Row>,
    rot: &mut Vec<usize>,
    index: &HashMap<u128, usize>,
    targets: &Vec<Target>,
    hunk: &DiffHunk,
    hunk_index: usize,
)
    requires
        rows_index_ok(old(rot)@, row_specs(old(rows)@)),
        old(rot)@.len() == targets@.len(),
        index@ == index_map(targets@),
        hunk_numbers_fit(*hunk),
    ensures
        row_specs(final(rows)@) == row_specs(old(rows)@) + split_lines(
            hunk.lines@,
            targets@,
            hunk_index,
            hunk.old_start,
            hunk.new_start,
            seq![],
            seq![],
        ),
        final(rot)@.len() == old(rot)@.len(),
        rows_index_ok(final(rot)@, row_specs(final(rows)@)),
{
    let lines = &hunk.lines;
    let ghost start = row_specs(rows@);
    let mut old_no = hunk.old_start;
    let mut new_no = hunk.new_start;
    let mut deletions: Vec<Cell> = Vec::new();
    let mut additions: Vec<Cell> = Vec::new();
    let mut j: usize = 0;
    proof {
        assert(lines@.skip(0) == lines@);
        assert(cell_specs(deletions@) =~= Seq::<CellSpec>::empty());
        assert(cell_specs(additions@) =~= Seq::<CellSpec>::empty());
    }
    while j < lines.len()
        invariant
            hunk_numbers_fit(*hunk),
            lines == &hunk.lines,
            j <= lines@.len(),
            old_no <= hunk.old_start + j,
            new_no <= hunk.new_start + j,
            rot@.len() == targets@.len(),
            index@ == index_map(targets@),
            rows_index_ok(rot@, row_specs(rows@)),
            cells_below(cell_specs(deletions@), rot@.len() as nat),
            cells_below(cell_specs(additions@), rot@.len() as nat),
            start + split_lines(lines@, targets@, hunk_index, hunk.old_start, hunk.new_start, seq![], seq![])
                == row_specs(rows@) + split_lines(
                lines@.skip(j as int),
                targets@,
                hunk_index,
                old_no,
                new_no,
                cell_specs(deletions@),
                cell_specs(additions@),
            ),
        decreases lines@.len() - j,
    {
        let line = &lines[j];
        let ghost rest = lines@.skip(j as int);
        proof {
            assert(rest[0] == lines@[j as int]);
            assert(rest.drop_first() == lines@.skip(j + 1));
        }
        let text = sanitize(line.content.as_str());
        let ghost before = row_specs(rows@);
        let ghost o = old_no;
        let ghost nn = new_no;
        let ghost d0 = cell_specs(deletions@);
        let ghost a0 = cell_specs(additions@);
        match line.line_type {
            DiffLineType::Removed => {
                let no = match line.old_line_number {
                    Some(n) => n,
                    None => old_no,
                };
                let target = find_target(index, targets, hunk_index, Side::Deletions, no);
                let cell = Cell { target, no: Some(no), sign: '-', text };
                proof {
                    lemma_cells_push(deletions@, cell, rot@.len() as nat);
                }
                deletions.push(cell);
                old_no = old_no + 1;
            },
            DiffLineType::Added => {
                let no = match line.new_line_number {
                    Some(n) => n,
                    None => new_no,
                };
                let target = find_target(index, targets, hunk_index, Side::Additions, no);
                let cell = Cell { target, no: Some(no), sign: '+', text };
                proof {
                    lemma_cells_push(additions@, cell, rot@.len() as nat);
                }
                additions.push(cell);
                new_no = new_no + 1;
            },
            DiffLineType::Context => {
                flush(rows, rot, &mut deletions, &mut additions);
                let ghost flushed = row_specs(rows@);
                let shown_new = match line.new_line_number {
                    Some(n) => n,
                    None => new_no,
                };
                let shown_old = match line.old_line_number {
                    Some(n) => n,
                    None => old_no,
                };
                if let Some(t) = find_target(index, targets, hunk_index, Side::Additions, shown_new) {
                    let left = Cell { target: None, no: Some(shown_old), sign: ' ', text: copy(&text) };
                    let right = Cell { target: Some(t), no: Some(shown_new), sign: ' ', text };
                    push_row(rows, rot, Row::Split { left: Some(left), right: Some(right) });
                }
                old_no = old_no + 1;
                new_no = new_no + 1;
                proof {
                    assert(cell_specs(deletions@) =~= Seq::<CellSpec>::empty());
                    assert(cell_specs(additions@) =~= Seq::<CellSpec>::empty());
                }
            },
        }
        proof {
            assert(row_specs(rows@) + split_lines(
                lines@.skip(j + 1),
                targets@,
                hunk_index,
                old_no,
                new_no,
                cell_specs(deletions@),
                cell_specs(additions@),
            ) =~= before + split_lines(rest, targets@, hunk_index, o, nn, d0, a0));
        }
        j = j + 1;
    }
    proof {
        assert(lines@.skip(j as int) =~= Seq::<DiffLine>::empty());
    }
    flush(rows, rot, &mut deletions, &mut additions);
}

fn cell_text_width(c: &Option<Cell>) -> (w: usize)
    ensures
        w == cell_width(opt_cell(*c)),
{
    match c {
        Some(x) => width(x.text.as_str()),
        None => 0,
    }
}

/// The display width of a row's text.
fn row_text_width(row: &Row) -> (w: usize)
    ensures
        w == row_width(row@),
{
    match row {
        Row::FileHeader { path } => width(path.as_str()),
        Row::HunkHeader { text, .. } => width(text.as_str()),
        Row::Unified { text, .. } => width(text.as_str()),
        Row::Split { left, right } => {
            let l = cell_text_width(left);
            let r = cell_text_width(right);
            if l >= r { l } else { r }
        },
        _ => 0,
    }
}

/// The widest row text.
fn widest(rows: &Vec<Row>) -> (w: usize)
    ensures
        w == max_width(row_specs(rows@)),
{
    let mut m: usize = 0;
    let mut i: usize = 0;
    while i < rows.len()
        invariant
            i <= rows@.len(),
            m == max_width(row_specs(rows@.take(i as int))),
        decreases rows@.len() - i,
    {
        let w = row_text_width(&rows[i]);
        proof {
            assert(row_specs(rows@.take(i + 1)).drop_last() =~= row_specs(rows@.take(i as int)));
            assert(row_specs(rows@.take(i + 1)).last() == rows@[i as int]@);
        }
        if w > m {
            m = w;
        }
        i = i + 1;
    }
    proof {
        assert(rows@.take(rows@.len() as int) == rows@);
    }
    m
}

/// The rows of `diff` in `mode`, the row each target is shown on, and the widest text.
pub fn build(diff: &LoadedDiff, mode: ViewMode) -> (out: Rows)
    requires
        diff_numbers_fit(diff.file_diff.hunks@),
        ends_fit(diff.file_diff.hunks@),
    ensures
        row_specs(out.rows@) == rows_spec(*diff, mode),
        out.row_of_target@.len() == diff.targets@.len(),
        rows_index_ok(out.row_of_target@, rows_spec(*diff, mode)),
        out.max_text_width == max_width(rows_spec(*diff, mode)),
{
    let index = index_targets(&diff.targets);
    let hunks = &diff.file_diff.hunks;
    let ghost hs = hunks@;
    let mut rows: Vec<Row> = Vec::new();
    rows.push(Row::FileHeader { path: sanitize(diff.file_diff.file_path.as_str()) });
    let mut row_of_target: Vec<usize> = Vec::new();
    let mut z: usize = 0;
    while z < diff.targets.len()
        invariant
            z <= diff.targets@.len(),
            row_of_target@.len() == z,
            forall|t: int| 0 <= t < z ==> row_of_target@[t] == 0,
        decreases diff.targets@.len() - z,
    {
        row_of_target.push(0);
        z = z + 1;
    }
    let ghost head = row_specs(rows@);
    proof {
        assert(head =~= seq![RowSpec::FileHeader(sanitize_spec(diff.file_diff.file_path@))]);
        assert forall|t: usize| t < row_of_target@.len() implies #[trigger] row_of_target@[t as int] == last_showing(head, t) by {
            assert(head.drop_last() =~= Seq::<RowSpec>::empty());
            assert(!shows(head.last(), t));
            assert(last_showing(head.drop_last(), t) == 0);
            assert(row_of_target@[t as int] == 0);
        }
    }
    let mut previous: u32 = 1;
    let mut hi: usize = 0;
    while hi < hunks.len()
        invariant
            hunks == &diff.file_diff.hunks,
            hs == hunks@,
            diff_numbers_fit(hs),
            ends_fit(hs),
            hi <= hs.len(),
            previous == previous_end(hs, hi as int),
            row_of_target@.len() == diff.targets@.len(),
            index@ == index_map(diff.targets@),
            rows_index_ok(row_of_target@, row_specs(rows@)),
            row_specs(rows@) == head + hunks_rows(hs, hi as int, diff.targets@, mode),
        decreases hs.len() - hi,
    {
        let hunk = &hunks[hi];
        proof {
            assert(hunk_numbers_fit(hs[hi as int]));
            assert(hs[hi as int].new_start + hs[hi as int].new_lines <= u32::MAX);
        }
        let ghost before = row_specs(rows@);
        if hunk.new_start > previous {
            push_row(&mut rows, &mut row_of_target, Row::Gap { lines: hunk.new_start - previous });
        }
        previous = hunk.new_start + hunk.new_lines;
        push_row(
            &mut rows,
            &mut row_of_target,
            Row::HunkHeader { hunk_index: hi, text: sanitize(hunk.header.as_str()) },
        );
        let ghost headed = row_specs(rows@);
        match mode {
            ViewMode::Unified => unified_body(&mut rows, &mut row_of_target, &index, &diff.targets, hunk, hi),
            ViewMode::Split => split_body(&mut rows, &mut row_of_target, &index, &diff.targets, hunk, hi),
        }
        proof {
            assert(row_specs(rows@) =~= before + hunk_rows(hs, hi as int, diff.targets@, mode));
        }
        hi = hi + 1;
    }
    if diff.truncated_lines > 0 {
        push_row(&mut rows, &mut row_of_target, Row::Truncated { lines: diff.truncated_lines });
    }
    proof {
        assert(row_specs(rows@) =~= rows_spec(*diff, mode));
    }
    let max_text_width = widest(&rows);
    Rows { rows, max_text_width, row_of_target }
}

} // verus!
