//! Scroll arithmetic with `usize` content offsets: a diff can exceed 65,535 rows.
use vstd::prelude::*;

verus! {

#[derive(Debug, Clone, Copy, PartialEq, Eq, Structural)]
pub struct LineSpan {
    pub start: usize,
    pub height: usize,
}

pub open spec fn clamp_spec(offset: int, total_lines: int, viewport: int) -> int {
    let last = if total_lines >= viewport {
        total_lines - viewport
    } else {
        0
    };
    if offset <= last {
        offset
    } else {
        last
    }
}

/// The offset, kept where the last page is still full.
pub fn clamp_scroll(offset: usize, total_lines: usize, viewport_height: u16) -> (r: usize)
    ensures
        r == clamp_spec(offset as int, total_lines as int, viewport_height as int),
{
    let last = total_lines.saturating_sub(viewport_height as usize);
    if offset <= last {
        offset
    } else {
        last
    }
}

pub open spec fn ensure_visible_spec(offset: int, span: LineSpan, viewport: int, total_lines: int) -> int {
    let end = span.start + span.height;
    let next = if span.start < offset {
        span.start as int
    } else if end > offset + viewport {
        if end >= viewport {
            end - viewport
        } else {
            0
        }
    } else {
        offset
    };
    clamp_spec(next, total_lines, viewport)
}

/// The smallest scroll that brings `span` into a viewport of `viewport` rows.
pub fn ensure_visible(offset: usize, span: LineSpan, viewport: u16, total_lines: usize) -> (r: usize)
    requires
        span.start + span.height <= usize::MAX,
    ensures
        r == ensure_visible_spec(offset as int, span, viewport as int, total_lines as int),
{
    let viewport = viewport as usize;
    let end = span.start + span.height;
    let next = if span.start < offset {
        span.start
    } else if offset <= usize::MAX - viewport && end > offset + viewport {
        end.saturating_sub(viewport)
    } else if offset > usize::MAX - viewport {
        offset
    } else {
        offset
    };
    clamp_scroll(next, total_lines, viewport as u16)
}

pub open spec fn reanchor_spec(offset: int, old_row: int, new_row: int, viewport: int, total_lines: int) -> int {
    let viewport_line = if old_row >= offset {
        old_row - offset
    } else {
        0
    };
    clamp_spec(
        if new_row >= viewport_line {
            new_row - viewport_line
        } else {
            0
        },
        total_lines,
        viewport,
    )
}

/// Keeps the row that was at `old_row` on the same viewport line now that it is `new_row`.
pub fn reanchor(offset: usize, old_row: usize, new_row: usize, viewport: u16, total_lines: usize) -> (r: usize)
    ensures
        r == reanchor_spec(offset as int, old_row as int, new_row as int, viewport as int, total_lines as int),
{
    let viewport_line = old_row.saturating_sub(offset);
    clamp_scroll(new_row.saturating_sub(viewport_line), total_lines, viewport)
}

/// Clamping never scrolls forward, keeps an offset whose page is full, never leaves part of
/// the viewport empty when the content could fill it, and keeps the last full page
/// reachable.
pub proof fn law_clamp_keeps_the_last_page(offset: int, total_lines: int, viewport: int)
    requires
        0 <= offset,
        0 <= total_lines,
        0 <= viewport,
    ensures
        0 <= clamp_spec(offset, total_lines, viewport) <= offset,
        offset + viewport <= total_lines ==> clamp_spec(offset, total_lines, viewport) == offset,
        total_lines >= viewport ==> clamp_spec(offset, total_lines, viewport) + viewport <= total_lines,
        total_lines >= viewport ==> clamp_spec(total_lines - viewport, total_lines, viewport) == total_lines - viewport,
{
}

/// A span that fits both the viewport and the content is on screen after `ensure_visible`;
/// one already on screen does not move the viewport.
pub proof fn law_ensure_visible_shows_the_span(offset: int, span: LineSpan, viewport: int, total_lines: int)
    requires
        0 <= offset,
        0 <= viewport,
        span.height <= viewport,
        span.start + span.height <= total_lines,
    ensures
        ensure_visible_spec(offset, span, viewport, total_lines) <= span.start,
        span.start + span.height <= ensure_visible_spec(offset, span, viewport, total_lines) + viewport,
        offset <= span.start && span.start + span.height <= offset + viewport && offset + viewport
            <= total_lines ==> ensure_visible_spec(offset, span, viewport, total_lines) == offset,
{
}

/// The row that moved from `old_row` to `new_row` stays on the same viewport line, unless
/// the content's ends stop the viewport.
pub proof fn law_reanchor_keeps_the_viewport_line(offset: int, old_row: int, new_row: int, viewport: int, total_lines: int)
    requires
        0 <= offset <= old_row,
        0 <= viewport,
        old_row - offset <= new_row,
        new_row - (old_row - offset) + viewport <= total_lines,
    ensures
        reanchor_spec(offset, old_row, new_row, viewport, total_lines) + (old_row - offset) == new_row,
{
}

} // verus!
