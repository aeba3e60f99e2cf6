//! Display-cell measurement, padding and truncation.
use unicode_width::{UnicodeWidthChar, UnicodeWidthStr};
use vstd::prelude::*;

use crate::strs::{repeat_char, spaces};

verus! {

/// The display width `unicode_width` gives a whole string.
pub uninterp spec fn display_width(s: Seq<char>) -> usize;

/// The display width `unicode_width` gives a single character: `None` for a control.
pub uninterp spec fn char_cells(c: char) -> Option<usize>;

pub open spec fn is_printable_ascii(c: char) -> bool {
    ' ' <= c && c <= '~'
}

pub open spec fn printable_ascii(s: Seq<char>) -> bool {
    forall|i: int| 0 <= i < s.len() ==> is_printable_ascii(#[trigger] s[i])
}

/// `UnicodeWidthStr::width`. Its source folds the characters from the right: every printable
/// ASCII character counts one cell and passes no context to its left neighbour, so a string of
/// them is as wide as it is long, and a space-led tail adds its own width to what precedes it.
/// `…` is one cell and passes no context either, so a trailing space or `…` adds one cell.
#[verifier::external_body]
pub fn width(s: &str) -> (w: usize)
    ensures
        w == display_width(s@),
        printable_ascii(s@) ==> w == s@.len(),
        forall|a: Seq<char>, b: Seq<char>|
            #![trigger display_width(a), display_width(b)]
            s@ == a + b && b.len() > 0 && b[0] == ' ' && display_width(a) + display_width(b)
                <= usize::MAX ==> w == display_width(a) + display_width(b),
        s@.len() > 0 && (s@.last() == ' ' || s@.last() == '…') && display_width(s@.drop_last()) < usize::MAX
            ==> w == display_width(s@.drop_last()) + 1,
{
    UnicodeWidthStr::width(s)
}

/// `UnicodeWidthChar::width`: `None` for the controls below U+0020 and U+007F..U+009F, one cell
/// for printable ASCII, and at most three cells for anything (U+17D8 alone takes three).
#[verifier::external_body]
pub fn char_width(c: char) -> (w: Option<usize>)
    ensures
        w == char_cells(c),
        is_printable_ascii(c) ==> w == Some(1usize),
        (c < ' ' || ('\u{7f}' <= c && c < '\u{a0}')) ==> w is None,
        c >= '\u{a0}' ==> w is Some,
        w matches Some(n) ==> n <= 3,
{
    UnicodeWidthChar::width(c)
}

/// How many leading characters a truncation to `limit` cells keeps, from `k` on: the prefix
/// grows while the whole of it, measured as one string, still fits.
pub open spec fn fit_len(s: Seq<char>, k: nat, limit: nat) -> nat
    decreases s.len() - k,
{
    if k < s.len() && display_width(s.take(k + 1 as int)) <= limit {
        fit_len(s, k + 1, limit)
    } else {
        k
    }
}

/// `s` when it fits in `max_cells`; otherwise the longest prefix that fits in one cell fewer
/// and `…`, or nothing when fewer than two cells are left.
pub open spec fn truncate_spec(s: Seq<char>, max_cells: nat) -> Seq<char> {
    if display_width(s) <= max_cells {
        s
    } else if max_cells < 2 {
        seq![]
    } else {
        s.take(fit_len(s, 0, (max_cells - 1) as nat) as int).push('…')
    }
}

/// `s` truncated to `cells`, then padded with spaces to `cells` cells.
pub open spec fn pad_spec(s: Seq<char>, cells: nat) -> Seq<char> {
    let t = truncate_spec(s, cells);
    let w = display_width(t);
    t + repeat_char(' ', if w >= cells {
        0
    } else {
        (cells - w) as nat
    })
}

/// Left-aligned padding by display cells. Truncates first, so the result is `cells` wide.
pub fn pad(s: &str, cells: usize) -> (out: String)
    ensures
        out@ == pad_spec(s@, cells as nat),
        display_width(out@) == cells,
{
    let mut out = truncate(s, cells);
    let w = width(out.as_str());
    let fill = if w >= cells {
        0
    } else {
        cells - w
    };
    let tail = spaces(fill);
    let ghost t = out@;
    if fill > 0 {
        // Both measures carry the facts the width bound is proved from.
        let _tail_width = width(tail.as_str());
        crate::strs::push_str(&mut out, tail.as_str());
        let _total = width(out.as_str());
        proof {
            assert(printable_ascii(tail@));
            assert(out@ == t + tail@);
            assert(tail@[0] == ' ');
        }
    } else {
        proof {
            assert(tail@ =~= Seq::<char>::empty());
        }
        crate::strs::push_str(&mut out, tail.as_str());
        proof {
            assert(out@ =~= t);
        }
    }
    out
}

/// Truncates by display cells, always ending in `…`. A budget below 2 yields an empty string:
/// the caller omits the field entirely.
pub fn truncate(s: &str, max_cells: usize) -> (out: String)
    ensures
        out@ == truncate_spec(s@, max_cells as nat),
        display_width(out@) <= max_cells,
{
    if width(s) <= max_cells {
        return crate::strs::own(s);
    }
    if max_cells < 2 {
        let out = String::new();
        let _empty_width = width(out.as_str());
        proof {
            assert(out@ =~= Seq::<char>::empty());
        }
        return out;
    }
    let limit = max_cells - 1;
    let v = crate::strs::chars(s);
    let mut out = String::new();
    let mut k: usize = 0;
    let mut done = false;
    let _empty_width = width(out.as_str());
    proof {
        assert(out@ =~= s@.take(0));
    }
    while !done && k < v.len()
        invariant
            v@ == s@,
            k <= v@.len(),
            out@ == s@.take(k as int),
            display_width(out@) <= limit,
            !done ==> fit_len(s@, 0, limit as nat) == fit_len(s@, k as nat, limit as nat),
            done ==> fit_len(s@, 0, limit as nat) == k,
        decreases v@.len() - k + (if done { 0int } else { 1int }),
    {
        let mut candidate = crate::strs::copy(&out);
        candidate.push(v[k]);
        proof {
            assert(candidate@ =~= s@.take(k + 1));
        }
        let w = width(candidate.as_str());
        if w > limit {
            done = true;
        } else {
            out = candidate;
            k = k + 1;
        }
    }
    proof {
        if !done {
            assert(k == s@.len());
        }
    }
    let ghost kept = out@;
    out.push('…');
    proof {
        assert(out@.drop_last() == kept);
        assert(out@.last() == '…');
    }
    // Measured for the width bound: the kept prefix and one cell for `…`.
    let _total = width(out.as_str());
    out
}

} // verus!
