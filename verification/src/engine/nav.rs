//! The navigation model: every diff row a cursor can rest on, and how the cursor moves.
use vstd::prelude::*;

use crate::git::{DiffHunk, DiffLine, DiffLineType, FileDiff};

verus! {

#[derive(Debug, Clone, Copy, PartialEq, Eq, Hash, Structural)]
pub enum Side {
    /// New-file line numbers.
    Additions,
    /// Old-file line numbers.
    Deletions,
}

#[derive(Debug, Clone, Copy, PartialEq, Eq, Structural)]
pub enum ViewMode {
    Unified,
    Split,
}

#[derive(Debug, Clone, Copy, PartialEq, Eq, Structural)]
pub struct Target {
    pub line_number: u32,
    pub side: Side,
    pub hunk_index: usize,
    pub split_row_index: usize,
    pub changed: bool,
}

// ---------------------------------------------------------------------------
// The targets of a diff.
// ---------------------------------------------------------------------------

pub open spec fn with_row(t: Target, row: int) -> Target {
    Target { split_row_index: row as usize, ..t }
}

pub open spec fn max_len(a: nat, b: nat) -> nat {
    if a >= b {
        a
    } else {
        b
    }
}

/// A changed block from row `k` on: row `row + k` holds the `k`-th deletion, then the `k`-th addition.
pub open spec fn block_from(dels: Seq<Target>, adds: Seq<Target>, row: int, k: int) -> Seq<Target>
    decreases max_len(dels.len(), adds.len()) - k,
{
    if k < 0 || k >= max_len(dels.len(), adds.len()) {
        seq![]
    } else {
        let d = if k < dels.len() {
            seq![with_row(dels[k], row + k)]
        } else {
            seq![]
        };
        let a = if k < adds.len() {
            seq![with_row(adds[k], row + k)]
        } else {
            seq![]
        };
        d + a + block_from(dels, adds, row, k + 1)
    }
}

/// A changed block in split order: deletions and additions paired row by row.
pub open spec fn block_rows(dels: Seq<Target>, adds: Seq<Target>, row: int) -> Seq<Target> {
    block_from(dels, adds, row, 0)
}

pub open spec fn deletion_target(l: DiffLine, hunk_index: usize, old: u32) -> Target {
    Target {
        line_number: match l.old_line_number {
            Some(n) => n,
            None => old,
        },
        side: Side::Deletions,
        hunk_index,
        split_row_index: 0,
        changed: true,
    }
}

pub open spec fn addition_target(l: DiffLine, hunk_index: usize, new: u32) -> Target {
    Target {
        line_number: match l.new_line_number {
            Some(n) => n,
            None => new,
        },
        side: Side::Additions,
        hunk_index,
        split_row_index: 0,
        changed: true,
    }
}

pub open spec fn context_target(l: DiffLine, hunk_index: usize, new: u32, row: int) -> Target {
    Target {
        line_number: match l.new_line_number {
            Some(n) => n,
            None => new,
        },
        side: Side::Additions,
        hunk_index,
        split_row_index: row as usize,
        changed: false,
    }
}

/// The targets of the remaining `lines` of hunk `hunk_index`, with `old`/`new` the next line
/// numbers, `row` the next split row and `dels`/`adds` the changed block collected so far.
pub open spec fn line_targets(
    lines: Seq<DiffLine>,
    hunk_index: usize,
    old: u32,
    new: u32,
    row: int,
    dels: Seq<Target>,
    adds: Seq<Target>,
) -> Seq<Target>
    decreases lines.len(),
{
    if lines.len() == 0 {
        block_rows(dels, adds, row)
    } else {
        let l = lines[0];
        let rest = lines.drop_first();
        match l.line_type {
            DiffLineType::Removed => line_targets(
                rest,
                hunk_index,
                (old + 1) as u32,
                new,
                row,
                dels.push(deletion_target(l, hunk_index, old)),
                adds,
            ),
            DiffLineType::Added => line_targets(
                rest,
                hunk_index,
                old,
                (new + 1) as u32,
                row,
                dels,
                adds.push(addition_target(l, hunk_index, new)),
            ),
            DiffLineType::Context => {
                let after = row + max_len(dels.len(), adds.len());
                block_rows(dels, adds, row) + seq![context_target(l, hunk_index, new, after)]
                    + line_targets(
                    rest,
                    hunk_index,
                    (old + 1) as u32,
                    (new + 1) as u32,
                    after + 1,
                    seq![],
                    seq![],
                )
            },
        }
    }
}

/// A hunk without lines is one changed target at its start.
pub open spec fn hunk_targets(h: DiffHunk, hunk_index: usize) -> Seq<Target> {
    if h.lines@.len() == 0 {
        let deleted_only = h.new_lines == 0;
        seq![
            Target {
                line_number: if deleted_only {
                    h.old_start
                } else {
                    h.new_start
                },
                side: if deleted_only {
                    Side::Deletions
                } else {
                    Side::Additions
                },
                hunk_index,
                split_row_index: 0,
                changed: true,
            },
        ]
    } else {
        line_targets(h.lines@, hunk_index, h.old_start, h.new_start, 0, seq![], seq![])
    }
}

/// The targets of the first `n` hunks, in row order.
pub open spec fn targets_upto(hunks: Seq<DiffHunk>, n: int) -> Seq<Target>
    decreases n,
{
    if n <= 0 {
        seq![]
    } else {
        targets_upto(hunks, n - 1) + hunk_targets(hunks[n - 1], (n - 1) as usize)
    }
}

pub open spec fn diff_targets(hunks: Seq<DiffHunk>) -> Seq<Target> {
    targets_upto(hunks, hunks.len() as int)
}

/// Line numbers of every hunk fit in `u32` while counting through its lines.
pub open spec fn hunk_numbers_fit(h: DiffHunk) -> bool {
    h.old_start + h.lines@.len() <= u32::MAX && h.new_start + h.lines@.len() <= u32::MAX
}

pub open spec fn diff_numbers_fit(hunks: Seq<DiffHunk>) -> bool {
    forall|i: int| 0 <= i < hunks.len() ==> #[trigger] hunk_numbers_fit(hunks[i])
}

/// Appends a changed block to `targets` in split order and empties it.
fn flush(
    targets: &mut Vec<Target>,
    split_row: &mut usize,
    deletions: &mut Vec<Target>,
    additions: &mut Vec<Target>,
)
    requires
        *old(split_row) + old(deletions)@.len() + old(additions)@.len() <= usize::MAX,
    ensures
        final(targets)@ == old(targets)@ + block_rows(old(deletions)@, old(additions)@, *old(split_row) as int),
        *final(split_row) == *old(split_row) + max_len(old(deletions)@.len(), old(additions)@.len()),
        final(deletions)@ == Seq::<Target>::empty(),
        final(additions)@ == Seq::<Target>::empty(),
{
    let rows = if deletions.len() >= additions.len() {
        deletions.len()
    } else {
        additions.len()
    };
    let ghost dels = deletions@;
    let ghost adds = additions@;
    let ghost start = targets@;
    let row0 = *split_row;
    let mut offset: usize = 0;
    while offset < rows
        invariant
            rows == max_len(dels.len(), adds.len()),
            offset <= rows,
            dels == deletions@,
            adds == additions@,
            row0 + dels.len() + adds.len() <= usize::MAX,
            start + block_from(dels, adds, row0 as int, 0) == targets@ + block_from(
                dels,
                adds,
                row0 as int,
                offset as int,
            ),
        decreases rows - offset,
    {
        let ghost before = targets@;
        if offset < deletions.len() {
            let d = deletions[offset];
            targets.push(Target { split_row_index: row0 + offset, ..d });
        }
        if offset < additions.len() {
            let a = additions[offset];
            targets.push(Target { split_row_index: row0 + offset, ..a });
        }
        proof {
            let d = if offset < dels.len() {
                seq![with_row(dels[offset as int], row0 + offset)]
            } else {
                seq![]
            };
            let a = if offset < adds.len() {
                seq![with_row(adds[offset as int], row0 + offset)]
            } else {
                seq![]
            };
            assert(block_from(dels, adds, row0 as int, offset as int) == d + a + block_from(
                dels,
                adds,
                row0 as int,
                offset + 1,
            ));
            assert(targets@ == before + d + a);
            assert(before + (d + a + block_from(dels, adds, row0 as int, offset + 1)) == targets@
                + block_from(dels, adds, row0 as int, offset + 1));
        }
        offset = offset + 1;
    }
    proof {
        assert(block_from(dels, adds, row0 as int, rows as int) == Seq::<Target>::empty());
        assert(targets@ == start + block_from(dels, adds, row0 as int, 0));
    }
    *split_row = row0 + rows;
    deletions.clear();
    additions.clear();
}

proof fn lemma_line_targets_step(
    lines: Seq<DiffLine>,
    i: int,
    hunk_index: usize,
    old: u32,
    new: u32,
    row: int,
    dels: Seq<Target>,
    adds: Seq<Target>,
)
    requires
        0 <= i < lines.len(),
    ensures
        line_targets(lines.skip(i), hunk_index, old, new, row, dels, adds) == ({
            let l = lines[i];
            let rest = lines.skip(i + 1);
            match l.line_type {
                DiffLineType::Removed => line_targets(
                    rest,
                    hunk_index,
                    (old + 1) as u32,
                    new,
                    row,
                    dels.push(deletion_target(l, hunk_index, old)),
                    adds,
                ),
                DiffLineType::Added => line_targets(
                    rest,
                    hunk_index,
                    old,
                    (new + 1) as u32,
                    row,
                    dels,
                    adds.push(addition_target(l, hunk_index, new)),
                ),
                DiffLineType::Context => {
                    let after = row + max_len(dels.len(), adds.len());
                    block_rows(dels, adds, row) + seq![context_target(l, hunk_index, new, after)]
                        + line_targets(
                        rest,
                        hunk_index,
                        (old + 1) as u32,
                        (new + 1) as u32,
                        after + 1,
                        seq![],
                        seq![],
                    )
                },
            }
        }),
{
    let s = lines.skip(i);
    assert(s[0] == lines[i]);
    assert(s.drop_first() == lines.skip(i + 1));
}

/// The targets of one hunk, appended to `targets`.
fn push_hunk_targets(targets: &mut Vec<Target>, hunk: &DiffHunk, hunk_index: usize)
    requires
        hunk_numbers_fit(*hunk),
    ensures
        final(targets)@ == old(targets)@ + hunk_targets(*hunk, hunk_index),
{
    if hunk.lines.len() == 0 {
        let deleted_only = hunk.new_lines == 0;
        targets.push(
            Target {
                line_number: if deleted_only {
                    hunk.old_start
                } else {
                    hunk.new_start
                },
                side: if deleted_only {
                    Side::Deletions
                } else {
                    Side::Additions
                },
                hunk_index,
                split_row_index: 0,
                changed: true,
            },
        );
        return ;
    }
    let ghost start = targets@;
    let ghost lines = hunk.lines@;
    let mut old_line = hunk.old_start;
    let mut new_line = hunk.new_start;
    let mut split_row: usize = 0;
    let mut deletions: Vec<Target> = Vec::new();
    let mut additions: Vec<Target> = Vec::new();
    let mut i: usize = 0;
    proof {
        assert(lines.skip(0) == lines);
    }
    while i < hunk.lines.len()
        invariant
            lines == hunk.lines@,
            hunk_numbers_fit(*hunk),
            i <= lines.len(),
            old_line <= hunk.old_start + i,
            new_line <= hunk.new_start + i,
            split_row + deletions@.len() + additions@.len() <= i,
            start + line_targets(lines, hunk_index, hunk.old_start, hunk.new_start, 0, seq![], seq![])
                == targets@ + line_targets(
                lines.skip(i as int),
                hunk_index,
                old_line,
                new_line,
                split_row as int,
                deletions@,
                additions@,
            ),
        decreases lines.len() - i,
    {
        let line = &hunk.lines[i];
        proof {
            lemma_line_targets_step(
                lines,
                i as int,
                hunk_index,
                old_line,
                new_line,
                split_row as int,
                deletions@,
                additions@,
            );
        }
        match line.line_type {
            DiffLineType::Removed => {
                let number = match line.old_line_number {
                    Some(n) => n,
                    None => old_line,
                };
                deletions.push(
                    Target {
                        line_number: number,
                        side: Side::Deletions,
                        hunk_index,
                        split_row_index: 0,
                        changed: true,
                    },
                );
                old_line = old_line + 1;
            },
            DiffLineType::Added => {
                let number = match line.new_line_number {
                    Some(n) => n,
                    None => new_line,
                };
                additions.push(
                    Target {
                        line_number: number,
                        side: Side::Additions,
                        hunk_index,
                        split_row_index: 0,
                        changed: true,
                    },
                );
                new_line = new_line + 1;
            },
            DiffLineType::Context => {
                let ghost before = targets@;
                let ghost block = block_rows(deletions@, additions@, split_row as int);
                flush(targets, &mut split_row, &mut deletions, &mut additions);
                let number = match line.new_line_number {
                    Some(n) => n,
                    None => new_line,
                };
                targets.push(
                    Target {
                        line_number: number,
                        side: Side::Additions,
                        hunk_index,
                        split_row_index: split_row,
                        changed: false,
                    },
                );
                proof {
                    assert(targets@ == before + block + seq![
                        context_target(*line, hunk_index, new_line, split_row as int),
                    ]);
                }
                split_row = split_row + 1;
                old_line = old_line + 1;
                new_line = new_line + 1;
            },
        }
        i = i + 1;
    }
    proof {
        assert(lines.skip(lines.len() as int) == Seq::<DiffLine>::empty());
    }
    let ghost before = targets@;
    flush(targets, &mut split_row, &mut deletions, &mut additions);
}

/// Row-ordered targets; a changed block is emitted pair-interleaved (split order).
pub fn targets_for_diff(file_diff: &FileDiff) -> (targets: Vec<Target>)
    requires
        diff_numbers_fit(file_diff.hunks@),
    ensures
        targets@ == diff_targets(file_diff.hunks@),
{
    let mut targets: Vec<Target> = Vec::new();
    let mut hunk_index: usize = 0;
    while hunk_index < file_diff.hunks.len()
        invariant
            hunk_index <= file_diff.hunks@.len(),
            diff_numbers_fit(file_diff.hunks@),
            targets@ == targets_upto(file_diff.hunks@, hunk_index as int),
        decreases file_diff.hunks@.len() - hunk_index,
    {
        proof {
            assert(hunk_numbers_fit(file_diff.hunks@[hunk_index as int]));
        }
        push_hunk_targets(&mut targets, &file_diff.hunks[hunk_index], hunk_index);
        hunk_index = hunk_index + 1;
    }
    targets
}


// ---------------------------------------------------------------------------
// Unified display order.
// ---------------------------------------------------------------------------

/// The end of the changed run of hunk `hunk` that continues at `j`.
pub open spec fn run_end(targets: Seq<Target>, hunk: usize, j: int) -> int
    decreases targets.len() - j,
{
    if j < 0 || j >= targets.len() || !targets[j].changed || targets[j].hunk_index != hunk {
        j
    } else {
        run_end(targets, hunk, j + 1)
    }
}

/// Indices `k` in `[from, to)` whose target is on `side`, ascending.
pub open spec fn side_indices(targets: Seq<Target>, from: int, to: int, side: Side) -> Seq<usize>
    decreases to - from,
{
    if from >= to {
        seq![]
    } else if targets[from].side == side {
        seq![from as usize] + side_indices(targets, from + 1, to, side)
    } else {
        side_indices(targets, from + 1, to, side)
    }
}

/// Unified order from index `i`: an unchanged target as is; a changed run of one hunk as its
/// deletions, then its additions.
pub open spec fn order_from(targets: Seq<Target>, i: int) -> Seq<usize>
    decreases targets.len() - i,
{
    if i < 0 || i >= targets.len() {
        seq![]
    } else if !targets[i].changed {
        seq![i as usize] + order_from(targets, i + 1)
    } else {
        let end = run_end(targets, targets[i].hunk_index, i);
        if end <= i || end > targets.len() {
            seq![]
        } else {
            side_indices(targets, i, end, Side::Deletions) + side_indices(
                targets,
                i,
                end,
                Side::Additions,
            ) + order_from(targets, end)
        }
    }
}

pub open spec fn unified_order_spec(targets: Seq<Target>) -> Seq<usize> {
    order_from(targets, 0)
}

proof fn lemma_run_end_bounds(targets: Seq<Target>, hunk: usize, j: int)
    requires
        0 <= j <= targets.len(),
    ensures
        j <= run_end(targets, hunk, j) <= targets.len(),
        forall|k: int|
            j <= k < run_end(targets, hunk, j) ==> #[trigger] targets[k].changed
                && targets[k].hunk_index == hunk,
    decreases targets.len() - j,
{
    if j < targets.len() && targets[j].changed && targets[j].hunk_index == hunk {
        lemma_run_end_bounds(targets, hunk, j + 1);
    }
}

proof fn lemma_side_indices_push(targets: Seq<Target>, from: int, to: int, side: Side)
    requires
        from <= to,
    ensures
        side_indices(targets, from, to + 1, side) == if targets[to].side == side {
            side_indices(targets, from, to, side).push(to as usize)
        } else {
            side_indices(targets, from, to, side)
        },
    decreases to - from,
{
    if from < to {
        lemma_side_indices_push(targets, from + 1, to, side);
        if targets[from].side == side {
            assert(seq![from as usize] + side_indices(targets, from + 1, to, side).push(to as usize)
                == (seq![from as usize] + side_indices(targets, from + 1, to, side)).push(
                to as usize,
            ));
        }
    } else {
        assert(side_indices(targets, to + 1, to + 1, side) == Seq::<usize>::empty());
    }
}

/// Appends the indices in `[from, to)` on `side`.
fn push_side(order: &mut Vec<usize>, targets: &[Target], from: usize, to: usize, side: Side)
    requires
        from <= to <= targets@.len(),
    ensures
        final(order)@ == old(order)@ + side_indices(targets@, from as int, to as int, side),
{
    let mut k = from;
    let ghost start = order@;
    while k < to
        invariant
            from <= k <= to <= targets@.len(),
            order@ == start + side_indices(targets@, from as int, k as int, side),
        decreases to - k,
    {
        proof {
            lemma_side_indices_push(targets@, from as int, k as int, side);
        }
        if targets[k].side == side {
            order.push(k);
        }
        k = k + 1;
    }
}

/// Indices into `targets` in unified display order: a block's deletions, then its additions.
pub fn unified_order(targets: &[Target]) -> (order: Vec<usize>)
    ensures
        order@ == unified_order_spec(targets@),
{
    let mut order: Vec<usize> = Vec::new();
    let mut i: usize = 0;
    while i < targets.len()
        invariant
            i <= targets@.len(),
            order@ + order_from(targets@, i as int) == unified_order_spec(targets@),
        decreases targets@.len() - i,
    {
        if !targets[i].changed {
            proof {
                assert(order@ + order_from(targets@, i as int) == order@.push(i) + order_from(
                    targets@,
                    i + 1,
                ));
            }
            order.push(i);
            i = i + 1;
            continue;
        }
        let hunk = targets[i].hunk_index;
        let mut end = i;
        while end < targets.len() && targets[end].changed && targets[end].hunk_index == hunk
            invariant
                i <= end <= targets@.len(),
                run_end(targets@, hunk, end as int) == run_end(targets@, hunk, i as int),
            decreases targets@.len() - end,
        {
            end = end + 1;
        }
        proof {
            lemma_run_end_bounds(targets@, hunk, i as int);
            assert(run_end(targets@, hunk, end as int) == end);
        }
        let ghost before = order@;
        push_side(&mut order, targets, i, end, Side::Deletions);
        push_side(&mut order, targets, i, end, Side::Additions);
        proof {
            assert(before + order_from(targets@, i as int) == order@ + order_from(
                targets@,
                end as int,
            ));
        }
        i = end;
    }
    order
}

// ---------------------------------------------------------------------------
// Searching.
// ---------------------------------------------------------------------------

/// The first index at or after `i` whose target satisfies `p`.
pub open spec fn first_from(s: Seq<Target>, p: spec_fn(Target) -> bool, i: int) -> Option<usize>
    decreases s.len() - i,
{
    if i < 0 || i >= s.len() {
        None
    } else if p(s[i]) {
        Some(i as usize)
    } else {
        first_from(s, p, i + 1)
    }
}

pub open spec fn first_index(s: Seq<Target>, p: spec_fn(Target) -> bool) -> Option<usize> {
    first_from(s, p, 0)
}

pub open spec fn changed_in_hunk(hunk: usize) -> spec_fn(Target) -> bool {
    |t: Target| t.hunk_index == hunk && t.changed
}

pub open spec fn in_hunk(hunk: usize) -> spec_fn(Target) -> bool {
    |t: Target| t.hunk_index == hunk
}

pub open spec fn at_line(side: Side, line: u32) -> spec_fn(Target) -> bool {
    |t: Target| t.side == side && t.line_number == line
}

/// The target on `side` in split row `row` of hunk `hunk`.
pub open spec fn in_row(hunk: usize, row: usize, side: Side) -> spec_fn(Target) -> bool {
    |t: Target| t.hunk_index == hunk && t.split_row_index == row && t.side == side
}

proof fn lemma_first_from_bounds(s: Seq<Target>, p: spec_fn(Target) -> bool, i: int)
    requires
        0 <= i,
        s.len() <= usize::MAX,
    ensures
        first_from(s, p, i) matches Some(k) ==> i <= k < s.len() && p(s[k as int]),
    decreases s.len() - i,
{
    if i < s.len() && !p(s[i]) {
        lemma_first_from_bounds(s, p, i + 1);
    }
}

/// The first index satisfying `p`, by a scan from the front.
fn position(targets: &[Target], p: Ghost<spec_fn(Target) -> bool>, kind: u8, a: usize, b: usize, side: Side, line: u32) -> (r: Option<usize>)
    requires
        kind == 0 ==> p@ == changed_in_hunk(a),
        kind == 1 ==> p@ == in_hunk(a),
        kind == 2 ==> p@ == at_line(side, line),
        kind == 3 ==> p@ == in_row(a, b, side),
        kind <= 3,
    ensures
        r == first_index(targets@, p@),
        r matches Some(k) ==> k < targets@.len() && (p@)(targets@[k as int]),
{
    let mut i: usize = 0;
    let n = targets.len();
    proof {
        lemma_first_from_bounds(targets@, p@, 0);
    }
    while i < targets.len()
        invariant
            i <= targets@.len(),
            first_from(targets@, p@, i as int) == first_index(targets@, p@),
            kind == 0 ==> p@ == changed_in_hunk(a),
            kind == 1 ==> p@ == in_hunk(a),
            kind == 2 ==> p@ == at_line(side, line),
            kind == 3 ==> p@ == in_row(a, b, side),
            kind <= 3,
        decreases targets@.len() - i,
    {
        let t = &targets[i];
        let hit = if kind == 0 {
            t.hunk_index == a && t.changed
        } else if kind == 1 {
            t.hunk_index == a
        } else if kind == 2 {
            t.side == side && t.line_number == line
        } else {
            t.hunk_index == a && t.split_row_index == b && t.side == side
        };
        assert(hit == (p@)(targets@[i as int]));
        if hit {
            return Some(i);
        }
        i = i + 1;
    }
    None
}

pub open spec fn target_index_for_hunk_spec(targets: Seq<Target>, hunk_index: usize) -> Option<usize> {
    match first_index(targets, changed_in_hunk(hunk_index)) {
        Some(i) => Some(i),
        None => first_index(targets, in_hunk(hunk_index)),
    }
}

/// The first changed target of a hunk, else its first target.
pub fn target_index_for_hunk(targets: &[Target], hunk_index: usize) -> (r: Option<usize>)
    ensures
        r == target_index_for_hunk_spec(targets@, hunk_index),
        r matches Some(i) ==> i < targets@.len() && targets@[i as int].hunk_index == hunk_index,
{
    match position(targets, Ghost(changed_in_hunk(hunk_index)), 0, hunk_index, 0, Side::Additions, 0) {
        Some(i) => Some(i),
        None => position(targets, Ghost(in_hunk(hunk_index)), 1, hunk_index, 0, Side::Additions, 0),
    }
}

pub fn find(targets: &[Target], side: Side, line_number: u32) -> (r: Option<usize>)
    ensures
        r == first_index(targets@, at_line(side, line_number)),
        r matches Some(i) ==> i < targets@.len() && targets@[i as int].side == side
            && targets@[i as int].line_number == line_number,
{
    position(targets, Ghost(at_line(side, line_number)), 2, 0, 0, side, line_number)
}

pub open spec fn distance(a: u32, b: u32) -> int {
    if a >= b {
        a - b
    } else {
        b - a
    }
}

/// The first target on `side` with the least distance to `line`, scanning from `i` with `best`
/// the best found before `i`.
pub open spec fn nearest_from(s: Seq<Target>, side: Side, line: u32, i: int, best: Option<usize>) -> Option<usize>
    decreases s.len() - i,
{
    if i < 0 || i >= s.len() {
        best
    } else if s[i].side == side && (match best {
        None => true,
        Some(b) => distance(s[i].line_number, line) < distance(s[b as int].line_number, line),
    }) {
        nearest_from(s, side, line, i + 1, Some(i as usize))
    } else {
        nearest_from(s, side, line, i + 1, best)
    }
}

pub open spec fn nearest_spec(s: Seq<Target>, side: Side, line: u32) -> Option<usize> {
    match nearest_from(s, side, line, 0, None) {
        Some(i) => Some(i),
        None => if s.len() == 0 {
            None
        } else {
            Some(0)
        },
    }
}

proof fn lemma_nearest_bounds(s: Seq<Target>, side: Side, line: u32, i: int, best: Option<usize>)
    requires
        0 <= i,
        s.len() <= usize::MAX,
        best matches Some(b) ==> b < s.len() && s[b as int].side == side,
    ensures
        nearest_from(s, side, line, i, best) matches Some(b) ==> b < s.len() && s[b as int].side
            == side,
        best is Some ==> nearest_from(s, side, line, i, best) is Some,
    decreases s.len() - i,
{
    if i < s.len() {
        if s[i].side == side && (match best {
            None => true,
            Some(b) => distance(s[i].line_number, line) < distance(s[b as int].line_number, line),
        }) {
            lemma_nearest_bounds(s, side, line, i + 1, Some(i as usize));
        } else {
            lemma_nearest_bounds(s, side, line, i + 1, best);
        }
    }
}

/// Same side, smallest line distance; used when a refresh removed the cursor's line.
pub fn nearest(targets: &[Target], side: Side, line_number: u32) -> (r: Option<usize>)
    ensures
        r == nearest_spec(targets@, side, line_number),
        r matches Some(i) ==> i < targets@.len(),
        r is None <==> targets@.len() == 0,
{
    let mut best: Option<usize> = None;
    let mut i: usize = 0;
    while i < targets.len()
        invariant
            i <= targets@.len(),
            nearest_from(targets@, side, line_number, i as int, best) == nearest_from(
                targets@,
                side,
                line_number,
                0,
                None,
            ),
            best matches Some(b) ==> b < targets@.len() && targets@[b as int].side == side,
        decreases targets@.len() - i,
    {
        let t = &targets[i];
        if t.side == side {
            let closer = match best {
                None => true,
                Some(b) => {
                    let d = if t.line_number >= line_number {
                        t.line_number - line_number
                    } else {
                        line_number - t.line_number
                    };
                    let bl = targets[b].line_number;
                    let e = if bl >= line_number {
                        bl - line_number
                    } else {
                        line_number - bl
                    };
                    d < e
                },
            };
            if closer {
                best = Some(i);
            }
        }
        i = i + 1;
    }
    let n = targets.len();
    proof {
        lemma_nearest_bounds(targets@, side, line_number, 0, None);
    }
    match best {
        Some(b) => Some(b),
        None => if targets.len() == 0 {
            None
        } else {
            Some(0)
        },
    }
}

// ---------------------------------------------------------------------------
// Moving the cursor.
// ---------------------------------------------------------------------------

pub open spec fn first_pos(unified: Seq<usize>, value: usize, k: int) -> int
    decreases unified.len() - k,
{
    if k < 0 || k >= unified.len() {
        0
    } else if unified[k] == value {
        k
    } else {
        first_pos(unified, value, k + 1)
    }
}

/// Scans from `row` in direction `forward` while the target stays in `base`'s split row.
pub open spec fn scan_row(targets: Seq<Target>, base: Target, row: int, forward: bool) -> int
    decreases (if forward {
        targets.len() - row
    } else {
        row
    }),
{
    let next = if forward {
        row + 1
    } else {
        row - 1
    };
    if row < 0 || row >= targets.len() || next < 0 || next >= targets.len() {
        row
    } else if targets[next].hunk_index != base.hunk_index || targets[next].split_row_index
        != base.split_row_index {
        next
    } else {
        scan_row(targets, base, next, forward)
    }
}

pub open spec fn move_line_spec(
    targets: Seq<Target>,
    unified: Seq<usize>,
    cursor: usize,
    delta: i32,
    mode: ViewMode,
) -> usize {
    if targets.len() == 0 || delta == 0 {
        cursor
    } else {
        let current = if cursor < targets.len() {
            cursor
        } else {
            (targets.len() - 1) as usize
        };
        let forward = delta > 0;
        match mode {
            ViewMode::Unified => {
                let pos = first_pos(unified, current, 0);
                let next = if forward {
                    pos + 1
                } else {
                    pos - 1
                };
                if next < 0 || next >= unified.len() {
                    current
                } else {
                    unified[next]
                }
            },
            ViewMode::Split => {
                let base = targets[current as int];
                let next = if forward {
                    current + 1
                } else {
                    current - 1
                };
                if next < 0 || next >= targets.len() {
                    current
                } else {
                    let row = scan_row(targets, base, current as int, forward);
                    let landed = targets[row];
                    match first_index(
                        targets,
                        in_row(landed.hunk_index, landed.split_row_index, base.side),
                    ) {
                        Some(i) => i,
                        None => row as usize,
                    }
                }
            },
        }
    }
}

proof fn lemma_scan_row_bounds(targets: Seq<Target>, base: Target, row: int, forward: bool)
    requires
        0 <= row < targets.len(),
    ensures
        0 <= scan_row(targets, base, row, forward) < targets.len(),
    decreases (if forward {
        targets.len() - row
    } else {
        row
    }),
{
    let next = if forward {
        row + 1
    } else {
        row - 1
    };
    if 0 <= next < targets.len() && !(targets[next].hunk_index != base.hunk_index
        || targets[next].split_row_index != base.split_row_index) {
        lemma_scan_row_bounds(targets, base, next, forward);
    }
}

/// `delta` is +1 or -1 (only its sign counts). Clamps at both ends. Returns the new cursor index.
pub fn move_line(targets: &[Target], unified: &[usize], cursor: usize, delta: i32, mode: ViewMode) -> (r: usize)
    ensures
        r == move_line_spec(targets@, unified@, cursor, delta, mode),
{
    if targets.len() == 0 || delta == 0 {
        return cursor;
    }
    let current = if cursor < targets.len() {
        cursor
    } else {
        targets.len() - 1
    };
    let forward = delta > 0;
    match mode {
        ViewMode::Unified => {
            let mut k: usize = 0;
            while k < unified.len() && unified[k] != current
                invariant
                    k <= unified@.len(),
                    first_pos(unified@, current, k as int) == first_pos(unified@, current, 0),
                decreases unified@.len() - k,
            {
                k = k + 1;
            }
            let pos = if k < unified.len() {
                k
            } else {
                0
            };
            assert(pos as int == first_pos(unified@, current, 0));
            if forward {
                if unified.len() == 0 || pos >= unified.len() - 1 {
                    current
                } else {
                    unified[pos + 1]
                }
            } else {
                if pos == 0 {
                    current
                } else {
                    unified[pos - 1]
                }
            }
        },
        ViewMode::Split => {
            let base = targets[current];
            if (forward && current >= targets.len() - 1) || (!forward && current == 0) {
                return current;
            }
            let mut row = current;
            loop
                invariant_except_break
                    scan_row(targets@, base, row as int, forward) == scan_row(
                        targets@,
                        base,
                        current as int,
                        forward,
                    ),
                invariant
                    current < targets@.len(),
                    0 <= row < targets@.len(),
                    base == targets@[current as int],
                ensures
                    0 <= row < targets@.len(),
                    row as int == scan_row(targets@, base, current as int, forward),
                decreases (if forward {
                    targets@.len() - row
                } else {
                    row as int
                }),
            {
                if (forward && row >= targets.len() - 1) || (!forward && row == 0) {
                    break;
                }
                let next = if forward {
                    row + 1
                } else {
                    row - 1
                };
                let t = &targets[next];
                row = next;
                if t.hunk_index != base.hunk_index || t.split_row_index != base.split_row_index {
                    break;
                }
            }
            let landed = targets[row];
            match position(
                targets,
                Ghost(in_row(landed.hunk_index, landed.split_row_index, base.side)),
                3,
                landed.hunk_index,
                landed.split_row_index,
                base.side,
                0,
            ) {
                Some(i) => i,
                None => row,
            }
        },
    }
}

pub open spec fn move_side_spec(targets: Seq<Target>, cursor: usize, side: Side, mode: ViewMode) -> usize {
    if mode != ViewMode::Split || targets.len() == 0 {
        cursor
    } else {
        let current = targets[if cursor < targets.len() {
            cursor as int
        } else {
            targets.len() - 1
        }];
        match first_index(targets, in_row(current.hunk_index, current.split_row_index, side)) {
            Some(i) => i,
            None => cursor,
        }
    }
}

/// In split mode, the target on `side` of the cursor's row, if there is one.
pub fn move_side(targets: &[Target], cursor: usize, side: Side, mode: ViewMode) -> (r: usize)
    ensures
        r == move_side_spec(targets@, cursor, side, mode),
{
    if mode != ViewMode::Split || targets.len() == 0 {
        return cursor;
    }
    let current = targets[if cursor < targets.len() {
        cursor
    } else {
        targets.len() - 1
    }];
    match position(
        targets,
        Ghost(in_row(current.hunk_index, current.split_row_index, side)),
        3,
        current.hunk_index,
        current.split_row_index,
        side,
        0,
    ) {
        Some(i) => i,
        None => cursor,
    }
}

// ---------------------------------------------------------------------------
// Counting the targets.
// ---------------------------------------------------------------------------

/// One target per line of each hunk, and one for a hunk without lines: of the first `n` hunks.
pub open spec fn target_count(hunks: Seq<DiffHunk>, n: int) -> nat
    decreases n,
{
    if n <= 0 {
        0
    } else {
        target_count(hunks, n - 1) + max_len(hunks[n - 1].lines@.len(), 1)
    }
}

/// Every target of `ts` belongs to hunk `i`.
pub open spec fn all_of_hunk(ts: Seq<Target>, i: usize) -> bool {
    forall|k: int| 0 <= k < ts.len() ==> (#[trigger] ts[k]).hunk_index == i
}

proof fn lemma_block_from(dels: Seq<Target>, adds: Seq<Target>, row: int, k: int, i: usize)
    requires
        0 <= k <= max_len(dels.len(), adds.len()),
        all_of_hunk(dels, i),
        all_of_hunk(adds, i),
    ensures
        block_from(dels, adds, row, k).len() == (dels.len() - (if k < dels.len() { k } else { dels.len() as int }))
            + (adds.len() - (if k < adds.len() { k } else { adds.len() as int })),
        all_of_hunk(block_from(dels, adds, row, k), i),
    decreases max_len(dels.len(), adds.len()) - k,
{
    if k < max_len(dels.len(), adds.len()) {
        lemma_block_from(dels, adds, row, k + 1, i);
        let d = if k < dels.len() { seq![with_row(dels[k], row + k)] } else { seq![] };
        let a = if k < adds.len() { seq![with_row(adds[k], row + k)] } else { seq![] };
        let rest = block_from(dels, adds, row, k + 1);
        assert(block_from(dels, adds, row, k) == d + a + rest);
        assert forall|j: int| 0 <= j < (d + a + rest).len() implies (#[trigger] (d + a + rest)[j]).hunk_index == i by {
            if j < d.len() {
                assert((d + a + rest)[j] == d[j]);
            } else if j < d.len() + a.len() {
                assert((d + a + rest)[j] == a[j - d.len()]);
            } else {
                assert((d + a + rest)[j] == rest[j - d.len() - a.len()]);
            }
        }
    }
}

proof fn lemma_line_targets(
    lines: Seq<DiffLine>,
    i: usize,
    old: u32,
    new: u32,
    row: int,
    dels: Seq<Target>,
    adds: Seq<Target>,
)
    requires
        all_of_hunk(dels, i),
        all_of_hunk(adds, i),
    ensures
        line_targets(lines, i, old, new, row, dels, adds).len() == lines.len() + dels.len() + adds.len(),
        all_of_hunk(line_targets(lines, i, old, new, row, dels, adds), i),
    decreases lines.len(),
{
    if lines.len() == 0 {
        lemma_block_from(dels, adds, row, 0, i);
    } else {
        let l = lines[0];
        let rest = lines.drop_first();
        match l.line_type {
            DiffLineType::Removed => {
                let d2 = dels.push(deletion_target(l, i, old));
                assert forall|k: int| 0 <= k < d2.len() implies (#[trigger] d2[k]).hunk_index == i by {
                    if k < dels.len() {
                        assert(d2[k] == dels[k]);
                    }
                }
                lemma_line_targets(rest, i, (old + 1) as u32, new, row, d2, adds);
            },
            DiffLineType::Added => {
                let a2 = adds.push(addition_target(l, i, new));
                assert forall|k: int| 0 <= k < a2.len() implies (#[trigger] a2[k]).hunk_index == i by {
                    if k < adds.len() {
                        assert(a2[k] == adds[k]);
                    }
                }
                lemma_line_targets(rest, i, old, (new + 1) as u32, row, dels, a2);
            },
            DiffLineType::Context => {
                let after = row + max_len(dels.len(), adds.len());
                lemma_block_from(dels, adds, row, 0, i);
                lemma_line_targets(rest, i, (old + 1) as u32, (new + 1) as u32, after + 1, seq![], seq![]);
                let b = block_rows(dels, adds, row);
                let c = seq![context_target(l, i, new, after)];
                let t = line_targets(rest, i, (old + 1) as u32, (new + 1) as u32, after + 1, seq![], seq![]);
                assert forall|j: int| 0 <= j < (b + c + t).len() implies (#[trigger] (b + c + t)[j]).hunk_index == i by {
                    if j < b.len() {
                        assert((b + c + t)[j] == b[j]);
                    } else if j < b.len() + 1 {
                        assert((b + c + t)[j] == c[0]);
                    } else {
                        assert((b + c + t)[j] == t[j - b.len() - 1]);
                    }
                }
            },
        }
    }
}

proof fn lemma_hunk_targets(h: DiffHunk, i: usize)
    ensures
        hunk_targets(h, i).len() == max_len(h.lines@.len(), 1),
        all_of_hunk(hunk_targets(h, i), i),
{
    if h.lines@.len() > 0 {
        lemma_line_targets(h.lines@, i, h.old_start, h.new_start, 0, seq![], seq![]);
    }
}

proof fn lemma_targets_upto(hunks: Seq<DiffHunk>, n: int)
    requires
        0 <= n <= hunks.len(),
        n <= usize::MAX + 1,
    ensures
        targets_upto(hunks, n).len() == target_count(hunks, n),
        forall|k: int| 0 <= k < targets_upto(hunks, n).len() ==> (#[trigger] targets_upto(hunks, n)[k]).hunk_index < n,
        forall|a: int, b: int| 0 <= a <= b < targets_upto(hunks, n).len()
            ==> (#[trigger] targets_upto(hunks, n)[a]).hunk_index <= (#[trigger] targets_upto(hunks, n)[b]).hunk_index,
    decreases n,
{
    if n > 0 {
        lemma_targets_upto(hunks, n - 1);
        lemma_hunk_targets(hunks[n - 1], (n - 1) as usize);
        let p = targets_upto(hunks, n - 1);
        let h = hunk_targets(hunks[n - 1], (n - 1) as usize);
        assert(targets_upto(hunks, n) == p + h);
        assert forall|k: int| 0 <= k < (p + h).len() implies (#[trigger] (p + h)[k]).hunk_index < n by {
            if k < p.len() {
                assert((p + h)[k] == p[k]);
            } else {
                assert((p + h)[k] == h[k - p.len()]);
            }
        }
        assert forall|a: int, b: int| 0 <= a <= b < (p + h).len()
            implies (#[trigger] (p + h)[a]).hunk_index <= (#[trigger] (p + h)[b]).hunk_index by {
            if b < p.len() {
                assert((p + h)[a] == p[a]);
                assert((p + h)[b] == p[b]);
            } else if a < p.len() {
                assert((p + h)[a] == p[a]);
                assert((p + h)[b] == h[b - p.len()]);
            } else {
                assert((p + h)[a] == h[a - p.len()]);
                assert((p + h)[b] == h[b - p.len()]);
            }
        }
    }
}

/// A diff has one target per line of each hunk, and one for a hunk without lines; the targets
/// come hunk by hunk, each naming a hunk of the diff.
pub proof fn law_one_target_per_line_in_hunk_order(hunks: Seq<DiffHunk>)
    requires
        hunks.len() <= usize::MAX,
    ensures
        diff_targets(hunks).len() == target_count(hunks, hunks.len() as int),
        forall|k: int| 0 <= k < diff_targets(hunks).len() ==> (#[trigger] diff_targets(hunks)[k]).hunk_index < hunks.len(),
        forall|a: int, b: int| 0 <= a <= b < diff_targets(hunks).len()
            ==> (#[trigger] diff_targets(hunks)[a]).hunk_index <= (#[trigger] diff_targets(hunks)[b]).hunk_index,
{
    lemma_targets_upto(hunks, hunks.len() as int);
}

// ---------------------------------------------------------------------------
// The unified order visits every target once.
// ---------------------------------------------------------------------------

pub open spec fn other_side(side: Side) -> Side {
    match side {
        Side::Deletions => Side::Additions,
        Side::Additions => Side::Deletions,
    }
}

proof fn lemma_side_indices(targets: Seq<Target>, from: int, to: int, side: Side)
    requires
        0 <= from <= to <= targets.len(),
        targets.len() <= usize::MAX,
    ensures
        ({
            let s = side_indices(targets, from, to, side);
            &&& forall|j: int| 0 <= j < s.len() ==> from <= #[trigger] s[j] < to && targets[s[j] as int].side == side
            &&& forall|a: int, b: int| 0 <= a < b < s.len() ==> #[trigger] s[a] < #[trigger] s[b]
            &&& forall|k: usize| from <= k < to && targets[k as int].side == side ==> #[trigger] s.contains(k)
            &&& s.len() + side_indices(targets, from, to, other_side(side)).len() == to - from
        }),
    decreases to - from,
{
    if from < to {
        lemma_side_indices(targets, from + 1, to, side);
        let rest = side_indices(targets, from + 1, to, side);
        let s = side_indices(targets, from, to, side);
        if targets[from].side == side {
            assert(s == seq![from as usize] + rest);
            assert forall|j: int| 0 <= j < s.len() implies from <= #[trigger] s[j] < to && targets[s[j] as int].side == side by {
                if j > 0 {
                    assert(s[j] == rest[j - 1]);
                }
            }
            assert forall|a: int, b: int| 0 <= a < b < s.len() implies #[trigger] s[a] < #[trigger] s[b] by {
                assert(s[b] == rest[b - 1]);
                if a > 0 {
                    assert(s[a] == rest[a - 1]);
                }
            }
            assert forall|k: usize| from <= k < to && targets[k as int].side == side implies #[trigger] s.contains(k) by {
                if k == from {
                    assert(s[0] == k);
                } else {
                    assert(rest.contains(k));
                    let j = choose|j: int| 0 <= j < rest.len() && rest[j] == k;
                    assert(s[j + 1] == rest[j]);
                }
            }
        } else {
            assert forall|k: usize| from <= k < to && targets[k as int].side == side implies #[trigger] s.contains(k) by {
                assert(k != from);
            }
        }
    }
}

proof fn lemma_run_is_longer(targets: Seq<Target>, i: int)
    requires
        0 <= i < targets.len(),
        targets[i].changed,
    ensures
        run_end(targets, targets[i].hunk_index, i) > i,
{
    lemma_run_end_bounds(targets, targets[i].hunk_index, i + 1);
}

proof fn lemma_order_from(targets: Seq<Target>, i: int)
    requires
        0 <= i <= targets.len(),
        targets.len() <= usize::MAX,
    ensures
        ({
            let o = order_from(targets, i);
            &&& o.len() == targets.len() - i
            &&& forall|j: int| 0 <= j < o.len() ==> i <= #[trigger] o[j] < targets.len()
            &&& forall|a: int, b: int| 0 <= a < b < o.len() ==> #[trigger] o[a] != #[trigger] o[b]
            &&& forall|k: usize| i <= k < targets.len() ==> #[trigger] o.contains(k)
        }),
    decreases targets.len() - i,
{
    if i < targets.len() {
        let o = order_from(targets, i);
        if !targets[i].changed {
            lemma_order_from(targets, i + 1);
            let rest = order_from(targets, i + 1);
            assert(o == seq![i as usize] + rest);
            assert forall|j: int| 0 <= j < o.len() implies i <= #[trigger] o[j] < targets.len() by {
                if j > 0 {
                    assert(o[j] == rest[j - 1]);
                }
            }
            assert forall|a: int, b: int| 0 <= a < b < o.len() implies #[trigger] o[a] != #[trigger] o[b] by {
                assert(o[b] == rest[b - 1]);
                if a > 0 {
                    assert(o[a] == rest[a - 1]);
                }
            }
            assert forall|k: usize| i <= k < targets.len() implies #[trigger] o.contains(k) by {
                if k == i {
                    assert(o[0] == k);
                } else {
                    assert(rest.contains(k));
                    let j = choose|j: int| 0 <= j < rest.len() && rest[j] == k;
                    assert(o[j + 1] == rest[j]);
                }
            }
        } else {
            let hunk = targets[i].hunk_index;
            let end = run_end(targets, hunk, i);
            lemma_run_end_bounds(targets, hunk, i);
            lemma_run_is_longer(targets, i);
            lemma_order_from(targets, end);
            lemma_side_indices(targets, i, end, Side::Deletions);
            lemma_side_indices(targets, i, end, Side::Additions);
            let d = side_indices(targets, i, end, Side::Deletions);
            let a = side_indices(targets, i, end, Side::Additions);
            let r = order_from(targets, end);
            assert(o == d + a + r);
            let da = d + a;
            assert forall|j: int| 0 <= j < o.len() implies i <= #[trigger] o[j] < targets.len() by {
                if j < d.len() {
                    assert(o[j] == d[j]);
                } else if j < d.len() + a.len() {
                    assert(o[j] == a[j - d.len()]);
                } else {
                    assert(o[j] == r[j - d.len() - a.len()]);
                }
            }
            assert forall|x: int, y: int| 0 <= x < y < o.len() implies #[trigger] o[x] != #[trigger] o[y] by {
                if y < d.len() {
                    assert(o[x] == d[x] && o[y] == d[y]);
                } else if y < d.len() + a.len() {
                    assert(o[y] == a[y - d.len()]);
                    if x < d.len() {
                        assert(o[x] == d[x]);
                        assert(targets[d[x] as int].side != targets[a[y - d.len()] as int].side);
                    } else {
                        assert(o[x] == a[x - d.len()]);
                    }
                } else {
                    assert(o[y] == r[y - d.len() - a.len()]);
                    if x < d.len() {
                        assert(o[x] == d[x]);
                    } else if x < d.len() + a.len() {
                        assert(o[x] == a[x - d.len()]);
                    } else {
                        assert(o[x] == r[x - d.len() - a.len()]);
                    }
                }
            }
            assert forall|k: usize| i <= k < targets.len() implies #[trigger] o.contains(k) by {
                if k < end {
                    if targets[k as int].side == Side::Deletions {
                        assert(d.contains(k));
                    let j = choose|j: int| 0 <= j < d.len() && d[j] == k;
                        assert(o[j] == d[j]);
                    } else {
                        assert(a.contains(k));
                    let j = choose|j: int| 0 <= j < a.len() && a[j] == k;
                        assert(o[j + d.len()] == a[j]);
                    }
                } else {
                    assert(r.contains(k));
                    let j = choose|j: int| 0 <= j < r.len() && r[j] == k;
                    assert(o[j + d.len() + a.len()] == r[j]);
                }
            }
        }
    }
}

/// The unified order visits every target exactly once: it is a permutation of the target
/// indices.
pub proof fn law_unified_order_is_a_permutation(targets: Seq<Target>)
    requires
        targets.len() <= usize::MAX,
    ensures
        unified_order_spec(targets).len() == targets.len(),
        forall|j: int| 0 <= j < unified_order_spec(targets).len() ==> #[trigger] unified_order_spec(targets)[j] < targets.len(),
        forall|a: int, b: int| 0 <= a < b < unified_order_spec(targets).len()
            ==> #[trigger] unified_order_spec(targets)[a] != #[trigger] unified_order_spec(targets)[b],
        forall|k: usize| k < targets.len() ==> #[trigger] unified_order_spec(targets).contains(k),
{
    lemma_order_from(targets, 0);
}

// ---------------------------------------------------------------------------
// Moving between the sides of a split row.
// ---------------------------------------------------------------------------

proof fn lemma_first_from_found(s: Seq<Target>, p: spec_fn(Target) -> bool, i: int, j: int)
    requires
        0 <= i <= j < s.len(),
        s.len() <= usize::MAX,
        p(s[j]),
    ensures
        first_from(s, p, i) matches Some(k) && i <= k <= j && p(s[k as int]),
    decreases j - i,
{
    if !p(s[i]) {
        lemma_first_from_found(s, p, i + 1, j);
    }
}

/// `h` and `l` stay in the cursor's split row: when the cursor moves, it lands on the
/// requested side of the same row of the same hunk; when that row has a target on that side,
/// the cursor ends on one. In unified mode the cursor stays.
pub proof fn law_a_side_switch_stays_in_the_row(targets: Seq<Target>, cursor: usize, side: Side, mode: ViewMode)
    requires
        cursor < targets.len(),
        targets.len() <= usize::MAX,
    ensures
        mode != ViewMode::Split ==> move_side_spec(targets, cursor, side, mode) == cursor,
        move_side_spec(targets, cursor, side, mode) != cursor ==> ({
            let r = move_side_spec(targets, cursor, side, mode) as int;
            &&& 0 <= r < targets.len()
            &&& targets[r].side == side
            &&& targets[r].hunk_index == targets[cursor as int].hunk_index
            &&& targets[r].split_row_index == targets[cursor as int].split_row_index
        }),
        mode == ViewMode::Split && (exists|j: int| 0 <= j < targets.len() && #[trigger] targets[j].side == side
            && targets[j].hunk_index == targets[cursor as int].hunk_index
            && targets[j].split_row_index == targets[cursor as int].split_row_index) ==> ({
            let r = move_side_spec(targets, cursor, side, mode) as int;
            &&& 0 <= r < targets.len()
            &&& targets[r].side == side
            &&& targets[r].hunk_index == targets[cursor as int].hunk_index
            &&& targets[r].split_row_index == targets[cursor as int].split_row_index
        }),
{
    let c = targets[cursor as int];
    let p = in_row(c.hunk_index, c.split_row_index, side);
    lemma_first_from_bounds(targets, p, 0);
    if mode == ViewMode::Split {
        if exists|j: int| 0 <= j < targets.len() && #[trigger] targets[j].side == side
            && targets[j].hunk_index == c.hunk_index && targets[j].split_row_index == c.split_row_index {
            let j = choose|j: int| 0 <= j < targets.len() && #[trigger] targets[j].side == side
                && targets[j].hunk_index == c.hunk_index && targets[j].split_row_index == c.split_row_index;
            assert(p(targets[j]));
            lemma_first_from_found(targets, p, 0, j);
        }
    }
}

/// A hunk's landing target is in that hunk whenever the hunk has targets, and is a change
/// whenever the hunk has one.
pub proof fn law_a_hunk_lands_on_its_first_change(targets: Seq<Target>, hunk: usize)
    requires
        targets.len() <= usize::MAX,
    ensures
        (exists|j: int| 0 <= j < targets.len() && #[trigger] targets[j].hunk_index == hunk) ==> (
            target_index_for_hunk_spec(targets, hunk) matches Some(t) && t < targets.len()
                && targets[t as int].hunk_index == hunk),
        (exists|j: int| 0 <= j < targets.len() && #[trigger] targets[j].hunk_index == hunk && targets[j].changed) ==> (
            target_index_for_hunk_spec(targets, hunk) matches Some(t) && t < targets.len()
                && targets[t as int].hunk_index == hunk && targets[t as int].changed),
        target_index_for_hunk_spec(targets, hunk) matches Some(t) ==> t < targets.len()
            && targets[t as int].hunk_index == hunk,
{
    lemma_first_from_bounds(targets, changed_in_hunk(hunk), 0);
    lemma_first_from_bounds(targets, in_hunk(hunk), 0);
    if exists|j: int| 0 <= j < targets.len() && #[trigger] targets[j].hunk_index == hunk && targets[j].changed {
        let j = choose|j: int| 0 <= j < targets.len() && #[trigger] targets[j].hunk_index == hunk && targets[j].changed;
        assert(changed_in_hunk(hunk)(targets[j]));
        lemma_first_from_found(targets, changed_in_hunk(hunk), 0, j);
    }
    if exists|j: int| 0 <= j < targets.len() && #[trigger] targets[j].hunk_index == hunk {
        let j = choose|j: int| 0 <= j < targets.len() && #[trigger] targets[j].hunk_index == hunk;
        assert(in_hunk(hunk)(targets[j]));
        lemma_first_from_found(targets, in_hunk(hunk), 0, j);
    }
}

} // verus!
