//! Panels: a description in, framed lines out.
use vstd::prelude::*;

use crate::strs::{
    chars, collect, lemma_split_on_nonempty, push_str, repeat, repeat_char, spaces, split, split_on,
    views,
};
use crate::tui::format::{display_width, truncate, truncate_spec};
use crate::tui::style::{plain_style, Line, Role, Semantic, Span, Style};

verus! {

pub struct Panel {
    pub title: String,
    pub rows: Vec<Row>,
    pub footer: String,
    /// `None` in a panel with nothing to select, which then scrolls instead.
    pub cursor: Option<usize>,
    /// First row drawn. Only meaningful without a cursor.
    pub offset: usize,
}

#[derive(Debug)]
pub enum Row {
    /// `enabled: false` is shown but cannot be acted on.
    Entry { label: String, value: String, enabled: bool },
    /// Evidence, a path, a remedy. Wrapped rather than truncated.
    Note(String),
    /// A note that has to be read: same wrapping, warning style.
    Warn(String),
    /// Preformatted body text: spaces and hard line breaks are content.
    Text(String),
    Rule,
}

/// A panel row as characters.
pub enum RowText {
    Entry(Seq<char>, Seq<char>, bool),
    Note(Seq<char>),
    Warn(Seq<char>),
    Text(Seq<char>),
    Rule,
}

impl View for Row {
    type V = RowText;

    open spec fn view(&self) -> RowText {
        match self {
            Row::Entry { label, value, enabled } => RowText::Entry(label@, value@, *enabled),
            Row::Note(t) => RowText::Note(t@),
            Row::Warn(t) => RowText::Warn(t@),
            Row::Text(t) => RowText::Text(t@),
            Row::Rule => RowText::Rule,
        }
    }
}

pub open spec fn row_texts(rows: Seq<Row>) -> Seq<RowText> {
    rows.map_values(|r: Row| r@)
}

pub const GAP: usize = 3;

// ---------------------------------------------------------------------------
// Wrapping.
// ---------------------------------------------------------------------------

/// How many leading characters of `rest` fit in `width` cells, measured as a whole.
pub open spec fn head_len(rest: Seq<char>, width: nat, k: nat) -> nat
    decreases rest.len() - k,
{
    if k < rest.len() && display_width(rest.take((k + 1) as int)) <= width {
        head_len(rest, width, k + 1)
    } else {
        k
    }
}

/// One hard line cut into pieces of at most `width` cells without changing its spacing.
pub open spec fn wrap_lines(rest: Seq<char>, width: nat) -> Seq<Seq<char>>
    decreases rest.len(),
{
    if display_width(rest) <= width {
        seq![rest]
    } else {
        let n = head_len(rest, width, 0);
        if n == 0 || n > rest.len() {
            seq![rest]
        } else {
            seq![rest.take(n as int)] + wrap_lines(rest.skip(n as int), width)
        }
    }
}

pub open spec fn wrap_verbatim_line_spec(text: Seq<char>, width: nat) -> Seq<Seq<char>> {
    if width == 0 {
        seq![seq![]]
    } else {
        wrap_lines(text, width)
    }
}

proof fn lemma_head_len_bound(rest: Seq<char>, width: nat, k: nat)
    requires
        k <= rest.len(),
    ensures
        k <= head_len(rest, width, k) <= rest.len(),
    decreases rest.len() - k,
{
    if k < rest.len() && display_width(rest.take((k + 1) as int)) <= width {
        lemma_head_len_bound(rest, width, k + 1);
    }
}

proof fn lemma_wrap_lines_nonempty(rest: Seq<char>, width: nat)
    ensures
        wrap_lines(rest, width).len() >= 1,
    decreases rest.len(),
{
    if !(display_width(rest) <= width) {
        let n = head_len(rest, width, 0);
        if !(n == 0 || n > rest.len()) {
            lemma_wrap_lines_nonempty(rest.skip(n as int), width);
        }
    }
}

/// Slices one hard line by terminal-cell width without changing its spacing.
fn wrap_verbatim_line(text: &str, width: usize) -> (out: Vec<String>)
    ensures
        views(out@) == wrap_verbatim_line_spec(text@, width as nat),
{
    if width == 0 {
        let mut out = Vec::new();
        out.push(String::new());
        proof {
            assert(views(out@) == seq![Seq::<char>::empty()]);
        }
        return out;
    }
    let v = chars(text);
    let n = v.len();
    let mut out: Vec<String> = Vec::new();
    let mut start: usize = 0;
    let mut rest = collect(&v, 0, v.len());
    proof {
        assert(v@.subrange(0, v@.len() as int) == v@);
        assert(v@.skip(0) == v@);
        assert(views(out@) == Seq::<Seq<char>>::empty());
        assert(wrap_lines(text@, width as nat) == views(out@) + wrap_lines(text@, width as nat));
    }
    loop
        invariant
            v@ == text@,
            width > 0,
            start <= v@.len(),
            rest@ == v@.skip(start as int),
            v@.len() <= usize::MAX,
            wrap_lines(text@, width as nat) == views(out@) + wrap_lines(rest@, width as nat),
        ensures
            wrap_lines(rest@, width as nat) == seq![rest@],
        decreases v@.len() - start,
    {
        if crate::tui::format::width(rest.as_str()) <= width {
            break;
        }
        let ghost r = rest@;
        let mut taken: usize = 0;
        let remaining = v.len() - start;
        while taken < remaining && crate::tui::format::width(collect(&v, start, start + taken + 1).as_str()) <= width
            invariant
                v@ == text@,
                start <= v@.len(),
                remaining == v@.len() - start,
                r == v@.skip(start as int),
                v@.len() <= usize::MAX,
                taken <= remaining,
                head_len(r, width as nat, taken as nat) == head_len(r, width as nat, 0),
            decreases remaining - taken,
        {
            proof {
                assert(v@.subrange(start as int, start + taken + 1) == r.take(taken + 1));
            }
            taken = taken + 1;
        }
        proof {
            if taken < remaining {
                assert(v@.subrange(start as int, start + taken + 1) == r.take(taken + 1));
            }
            assert(head_len(r, width as nat, taken as nat) == taken);
        }
        if taken == 0 {
            break;
        }
        let head = collect(&v, start, start + taken);
        proof {
            assert(head@ == r.take(taken as int));
            assert(v@.skip(start + taken) == r.skip(taken as int));
            assert(wrap_lines(r, width as nat) == seq![head@] + wrap_lines(r.skip(taken as int), width as nat));
        }
        let ghost before = views(out@);
        out.push(head);
        proof {
            assert(views(out@) == before.push(head@));
            assert(before + (seq![head@] + wrap_lines(r.skip(taken as int), width as nat))
                == before.push(head@) + wrap_lines(r.skip(taken as int), width as nat));
        }
        start = start + taken;
        rest = collect(&v, start, v.len());
        proof {
            assert(v@.subrange(start as int, v@.len() as int) == v@.skip(start as int));
        }
    }
    let ghost before = views(out@);
    let ghost last = rest@;
    out.push(rest);
    proof {
        assert(views(out@) == before.push(last));
        assert(before + seq![last] == before.push(last));
    }
    out
}

/// The wrapped pieces of each of `lines`, in order.
pub open spec fn wrap_each_verbatim(lines: Seq<Seq<char>>, width: nat) -> Seq<Seq<char>>
    decreases lines.len(),
{
    if lines.len() == 0 {
        seq![]
    } else {
        wrap_each_verbatim(lines.drop_last(), width) + wrap_verbatim_line_spec(lines.last(), width)
    }
}

pub open spec fn wrap_verbatim_spec(text: Seq<char>, width: nat) -> Seq<Seq<char>> {
    wrap_each_verbatim(split_on(text, '\n'), width)
}

/// Every hard line of `text` sliced to `width` cells.
fn wrap_verbatim(text: &str, width: usize) -> (out: Vec<String>)
    ensures
        views(out@) == wrap_verbatim_spec(text@, width as nat),
{
    let lines = split(text, '\n');
    let mut out: Vec<String> = Vec::new();
    let mut i: usize = 0;
    while i < lines.len()
        invariant
            i <= lines@.len(),
            views(lines@) == split_on(text@, '\n'),
            views(out@) == wrap_each_verbatim(views(lines@).take(i as int), width as nat),
        decreases lines@.len() - i,
    {
        let pieces = wrap_verbatim_line(lines[i].as_str(), width);
        let ghost before = views(out@);
        extend_strings(&mut out, pieces);
        proof {
            let ls = views(lines@);
            assert(ls.take(i + 1).drop_last() == ls.take(i as int));
            assert(ls.take(i + 1).last() == lines@[i as int]@);
        }
        i = i + 1;
    }
    proof {
        assert(views(lines@).take(lines@.len() as int) == views(lines@));
    }
    out
}

/// Appends `more` to `out`.
fn extend_strings(out: &mut Vec<String>, more: Vec<String>)
    ensures
        views(final(out)@) == views(old(out)@) + views(more@),
{
    let mut more = more;
    let ghost m = views(more@);
    let ghost start = views(out@);
    let mut rev: Vec<String> = Vec::new();
    while more.len() > 0
        invariant
            views(more@) + views(rev@).reverse() == m,
        decreases more@.len(),
    {
        let ghost before_more = views(more@);
        let ghost before_rev = views(rev@);
        let x = more.pop().unwrap();
        proof {
            assert(views(more@) == before_more.drop_last());
            assert(before_more.last() == x@);
        }
        rev.push(x);
        proof {
            assert(views(rev@) == before_rev.push(x@));
            assert(views(rev@).reverse() == seq![x@] + before_rev.reverse());
            assert(before_more == views(more@).push(x@));
            assert(views(more@) + (seq![x@] + before_rev.reverse()) == views(more@).push(x@)
                + before_rev.reverse());
        }
    }
    proof {
        assert(views(rev@).reverse() == m);
    }
    let ghost all = views(rev@);
    while rev.len() > 0
        invariant
            views(out@) + views(rev@).reverse() == start + m,
        decreases rev@.len(),
    {
        let ghost before_rev = views(rev@);
        let ghost before_out = views(out@);
        let x = rev.pop().unwrap();
        proof {
            assert(views(rev@) == before_rev.drop_last());
            assert(before_rev.last() == x@);
            assert(before_rev.reverse() == seq![x@] + views(rev@).reverse());
        }
        out.push(x);
        proof {
            assert(views(out@) == before_out.push(x@));
            assert(before_out + (seq![x@] + views(rev@).reverse()) == before_out.push(x@)
                + views(rev@).reverse());
        }
    }
    proof {
        assert(views(rev@).reverse() == Seq::<Seq<char>>::empty());
        assert(views(out@) + Seq::<Seq<char>>::empty() == views(out@));
    }
}

/// Words placed greedily on lines of `width` cells; a word wider than a line is sliced.
pub open spec fn wrap_words(words: Seq<Seq<char>>, width: nat, out: Seq<Seq<char>>, line: Seq<char>) -> Seq<Seq<char>>
    decreases words.len(),
{
    if words.len() == 0 {
        if line.len() > 0 || out.len() == 0 {
            out.push(line)
        } else {
            out
        }
    } else {
        let word = words[0];
        let candidate = if line.len() == 0 {
            word
        } else {
            line + seq![' '] + word
        };
        if display_width(candidate) <= width {
            wrap_words(words.drop_first(), width, out, candidate)
        } else {
            let out1 = if line.len() > 0 {
                out.push(line)
            } else {
                out
            };
            let pieces = wrap_verbatim_line_spec(word, width);
            wrap_words(words.drop_first(), width, out1 + pieces.drop_last(), pieces.last())
        }
    }
}

/// `text` split to fit `width` cells, breaking at spaces where it can.
pub open spec fn wrap_spec(text: Seq<char>, width: nat) -> Seq<Seq<char>> {
    if width == 0 {
        seq![seq![]]
    } else {
        wrap_words(split_on(text, ' '), width, seq![], seq![])
    }
}

proof fn lemma_wrap_words_step(words: Seq<Seq<char>>, i: int, width: nat, out: Seq<Seq<char>>, line: Seq<char>)
    requires
        0 <= i < words.len(),
    ensures
        wrap_words(words.skip(i), width, out, line) == ({
            let word = words[i];
            let candidate = if line.len() == 0 {
                word
            } else {
                line + seq![' '] + word
            };
            if display_width(candidate) <= width {
                wrap_words(words.skip(i + 1), width, out, candidate)
            } else {
                let out1 = if line.len() > 0 {
                    out.push(line)
                } else {
                    out
                };
                let pieces = wrap_verbatim_line_spec(word, width);
                wrap_words(words.skip(i + 1), width, out1 + pieces.drop_last(), pieces.last())
            }
        }),
{
    assert(words.skip(i)[0] == words[i]);
    assert(words.skip(i).drop_first() == words.skip(i + 1));
}

/// Splits `text` to fit `width` cells, breaking at spaces where it can.
fn wrap(text: &str, width: usize) -> (out: Vec<String>)
    ensures
        views(out@) == wrap_spec(text@, width as nat),
{
    if width == 0 {
        let mut out = Vec::new();
        out.push(String::new());
        proof {
            assert(views(out@) == seq![Seq::<char>::empty()]);
        }
        return out;
    }
    let words = split(text, ' ');
    let mut out: Vec<String> = Vec::new();
    let mut line = String::new();
    let mut i: usize = 0;
    proof {
        assert(views(words@).skip(0) == views(words@));
        assert(views(out@) == Seq::<Seq<char>>::empty());
        assert(line@ == Seq::<char>::empty());
    }
    while i < words.len()
        invariant
            width > 0,
            i <= words@.len(),
            views(words@) == split_on(text@, ' '),
            wrap_spec(text@, width as nat) == wrap_words(
                views(words@).skip(i as int),
                width as nat,
                views(out@),
                line@,
            ),
        decreases words@.len() - i,
    {
        let ghost ws = views(words@);
        proof {
            lemma_wrap_words_step(ws, i as int, width as nat, views(out@), line@);
            assert(ws[i as int] == words@[i as int]@);
        }
        let word = &words[i];
        let ghost cand = if line@.len() == 0 {
            ws[i as int]
        } else {
            line@ + seq![' '] + ws[i as int]
        };
        let candidate = if line.as_str().is_empty() {
            crate::strs::copy(word)
        } else {
            let mut c = crate::strs::copy(&line);
            c.push(' ');
            push_str(&mut c, word.as_str());
            assert(c@ == line@.push(' ') + word@);
            assert(line@.push(' ') + word@ == line@ + seq![' '] + word@);
            c
        };
        assert(candidate@ == cand);
        let ghost out0 = views(out@);
        let ghost line0 = line@;
        if crate::tui::format::width(candidate.as_str()) <= width {
            line = candidate;
        } else {
            if !line.as_str().is_empty() {
                let ghost before = views(out@);
                let l = line;
                out.push(l);
                line = String::new();
                proof {
                    assert(views(out@) == before.push(l@));
                }
            }
            let mut pieces = wrap_verbatim_line(word.as_str(), width);
            proof {
                lemma_wrap_lines_nonempty(word@, width as nat);
            }
            let ghost pv = views(pieces@);
            line = pieces.pop().unwrap();
            proof {
                assert(views(pieces@) == pv.drop_last());
                assert(line@ == pv.last());
            }
            extend_strings(&mut out, pieces);
            proof {
                let out1 = if line0.len() > 0 {
                    out0.push(line0)
                } else {
                    out0
                };
                assert(views(out@) == out1 + pv.drop_last());
            }
        }
        i = i + 1;
    }
    proof {
        assert(views(words@).skip(words@.len() as int) == Seq::<Seq<char>>::empty());
    }
    if !line.as_str().is_empty() || out.len() == 0 {
        let ghost before = views(out@);
        let l = line;
        out.push(l);
        proof {
            assert(views(out@) == before.push(l@));
        }
    }
    out
}

// ---------------------------------------------------------------------------
// Counting and drawing.
// ---------------------------------------------------------------------------

pub open spec fn sat_sub(a: int, b: int) -> nat {
    if a >= b {
        (a - b) as nat
    } else {
        0
    }
}

pub open spec fn min_nat(a: nat, b: nat) -> nat {
    if a <= b {
        a
    } else {
        b
    }
}

/// How many lines a row draws at an inner width of `inner` cells.
pub open spec fn row_line_count(row: RowText, inner: nat) -> nat {
    match row {
        RowText::Note(note) => wrap_spec(note, inner).len(),
        RowText::Warn(note) => wrap_spec(note, inner).len(),
        RowText::Text(text) => wrap_verbatim_spec(text, inner).len(),
        _ => 1,
    }
}

pub open spec fn rows_line_count(rows: Seq<RowText>, inner: nat) -> nat
    decreases rows.len(),
{
    if rows.len() == 0 {
        0
    } else {
        rows_line_count(rows.drop_last(), inner) + row_line_count(rows.last(), inner)
    }
}

/// How many lines the panel's body draws, which is what a scroll offset is bounded by once
/// notes wrap (`usize::MAX` if that count does not fit).
pub fn line_count(panel: &Panel, width: u16) -> (r: usize)
    ensures
        r == min_nat(rows_line_count(row_texts(panel.rows@), sat_sub(width as int, 4)), usize::MAX as nat),
{
    let inner = (width as usize).saturating_sub(4);
    let mut total: usize = 0;
    let mut i: usize = 0;
    while i < panel.rows.len()
        invariant
            i <= panel.rows@.len(),
            inner == sat_sub(width as int, 4),
            total == min_nat(rows_line_count(row_texts(panel.rows@).take(i as int), inner as nat), usize::MAX as nat),
        decreases panel.rows@.len() - i,
    {
        let n = match &panel.rows[i] {
            Row::Note(note) => wrap(note.as_str(), inner).len(),
            Row::Warn(note) => wrap(note.as_str(), inner).len(),
            Row::Text(text) => wrap_verbatim(text.as_str(), inner).len(),
            _ => 1,
        };
        proof {
            assert(row_texts(panel.rows@).take(i + 1).drop_last() == row_texts(panel.rows@).take(i as int));
            assert(row_texts(panel.rows@).take(i + 1).last() == panel.rows@[i as int]@);
            assert(n == row_line_count(panel.rows@[i as int]@, inner as nat));
        }
        total = total.saturating_add(n);
        i = i + 1;
    }
    proof {
        assert(row_texts(panel.rows@).take(panel.rows@.len() as int) == row_texts(panel.rows@));
    }
    total
}

pub open spec fn line_view(l: Seq<Span>) -> Seq<(Seq<char>, Style)> {
    l.map_values(|s: Span| (s.text@, s.style))
}

pub open spec fn lines_view(ls: Seq<Line>) -> Seq<Seq<(Seq<char>, Style)>> {
    ls.map_values(|l: Line| line_view(l@))
}

pub open spec fn pairs_view(v: Seq<(String, Style)>) -> Seq<(Seq<char>, Style)> {
    v.map_values(|p: (String, Style)| (p.0@, p.1))
}

/// `│ <inner, truncated and padded> │`, the middle carrying `style`.
pub open spec fn framed_line(inner: Seq<char>, style: Style, width: nat) -> Seq<(Seq<char>, Style)> {
    let t = truncate_spec(inner, sat_sub(width as int, 2));
    let pad = sat_sub(width as int, 2 + display_width(t));
    seq![
        (seq!['│'], plain_style(Role::Rule)),
        (t + repeat_char(' ', pad), style),
        (seq!['│'], plain_style(Role::Rule)),
    ]
}

pub open spec fn edge_label(title: Seq<char>) -> Seq<char> {
    if title.len() == 0 {
        seq![]
    } else {
        seq![' '] + title + seq![' ']
    }
}

/// A horizontal border with an optional title.
pub open spec fn edge_line(left: char, right: char, title: Seq<char>, width: nat) -> Seq<(Seq<char>, Style)> {
    let label = edge_label(title);
    seq![
        (seq![left] + label + repeat_char('─', sat_sub(width as int, 2 + display_width(label)))
            + seq![right], plain_style(Role::Rule)),
    ]
}

fn framed_styled(inner: &str, style: Style, width: usize) -> (r: Line)
    ensures
        line_view(r@) == framed_line(inner@, style, width as nat),
{
    let t = truncate(inner, width.saturating_sub(2));
    let w = crate::tui::format::width(t.as_str());
    let pad = if width >= 2 && w <= width - 2 {
        width - 2 - w
    } else {
        0
    };
    let mut middle = t;
    let fill = spaces(pad);
    push_str(&mut middle, fill.as_str());
    let mut left = String::new();
    left.push('│');
    let mut right = String::new();
    right.push('│');
    let mut r: Line = Vec::new();
    r.push(Span::new(left, Style::role(Role::Rule)));
    r.push(Span::new(middle, style));
    r.push(Span::new(right, Style::role(Role::Rule)));
    proof {
        assert(line_view(r@) == framed_line(inner@, style, width as nat));
    }
    r
}

fn framed(inner: String, width: usize) -> (r: Line)
    ensures
        line_view(r@) == framed_line(inner@, plain_style(Role::Body), width as nat),
{
    framed_styled(inner.as_str(), Style::role(Role::Body), width)
}

fn edge(left: char, right: char, title: &str, width: usize) -> (r: Line)
    ensures
        line_view(r@) == edge_line(left, right, title@, width as nat),
{
    let mut label = String::new();
    if !title.is_empty() {
        label.push(' ');
        push_str(&mut label, title);
        label.push(' ');
        proof {
            assert(label@ == seq![' '] + title@ + seq![' ']);
        }
    }
    let lw = crate::tui::format::width(label.as_str());
    let bar = if width >= 2 && lw <= width - 2 {
        width - 2 - lw
    } else {
        0
    };
    let mut text = String::new();
    text.push(left);
    push_str(&mut text, label.as_str());
    let rule = repeat('─', bar);
    push_str(&mut text, rule.as_str());
    text.push(right);
    proof {
        assert(text@ == seq![left] + label@ + repeat_char('─', bar as nat) + seq![right]);
    }
    let mut r: Line = Vec::new();
    r.push(Span::new(text, Style::role(Role::Rule)));
    proof {
        assert(line_view(r@) == edge_line(left, right, title@, width as nat));
    }
    r
}

/// The widest entry label among `rows`, in cells.
pub open spec fn max_label_width(rows: Seq<RowText>) -> nat
    decreases rows.len(),
{
    if rows.len() == 0 {
        0
    } else {
        let rest = max_label_width(rows.drop_last());
        match rows.last() {
            RowText::Entry(label, _, _) => if display_width(label) > rest {
                display_width(label) as nat
            } else {
                rest
            },
            _ => rest,
        }
    }
}

/// Whether some entry is editable; only then are the others marked read-only.
pub open spec fn any_enabled(rows: Seq<RowText>) -> bool {
    exists|i: int| 0 <= i < rows.len() && (#[trigger] rows[i]) matches RowText::Entry(_, _, true)
}

/// The column values start at: the longest label plus the gap, within the inner width.
pub open spec fn value_column_spec(rows: Seq<RowText>, inner: nat) -> nat {
    let wanted = if max_label_width(rows) + 2 + GAP > usize::MAX {
        usize::MAX as nat
    } else {
        (max_label_width(rows) + 2 + GAP) as nat
    };
    min_nat(wanted, sat_sub(inner as int, 1))
}

pub open spec fn selected_style() -> Style {
    Style { role: Role::Emphasis, reverse: true, ..plain_style(Role::Body) }
}

pub open spec fn entry_line(
    label: Seq<char>,
    value: Seq<char>,
    enabled: bool,
    selected: bool,
    value_column: nat,
    mark_read_only: bool,
) -> (Seq<char>, Style) {
    let mark = if selected {
        '▸'
    } else {
        ' '
    };
    let l = truncate_spec(label, sat_sub(value_column as int, 2 + GAP));
    let pad = sat_sub(value_column as int, 2 + display_width(l));
    let dim = if enabled || !mark_read_only {
        seq![]
    } else {
        "  (read-only)"@
    };
    (
        seq![mark, ' '] + l + repeat_char(' ', pad) + value + dim,
        if selected {
            selected_style()
        } else {
            plain_style(Role::Body)
        },
    )
}

pub open spec fn indented(pieces: Seq<Seq<char>>, style: Style) -> Seq<(Seq<char>, Style)> {
    pieces.map_values(|p: Seq<char>| (seq![' ', ' '] + p, style))
}

/// The lines one row contributes to the body.
pub open spec fn row_lines(
    row: RowText,
    selected: bool,
    inner: nat,
    value_column: nat,
    mark_read_only: bool,
) -> Seq<(Seq<char>, Style)> {
    match row {
        RowText::Entry(label, value, enabled) => seq![
            entry_line(label, value, enabled, selected, value_column, mark_read_only),
        ],
        RowText::Note(note) => indented(wrap_spec(note, sat_sub(inner as int, 2)), plain_style(Role::Label)),
        RowText::Warn(note) => indented(
            wrap_spec(note, sat_sub(inner as int, 2)),
            Style { semantic: Some(Semantic::Warn), ..plain_style(Role::Emphasis) },
        ),
        RowText::Text(text) => indented(
            wrap_verbatim_spec(text, sat_sub(inner as int, 2)),
            plain_style(Role::Body),
        ),
        RowText::Rule => seq![(repeat_char('─', inner), plain_style(Role::Rule))],
    }
}

/// The body lines of the first `n` rows.
pub open spec fn panel_lines(
    rows: Seq<RowText>,
    n: int,
    cursor: Option<usize>,
    inner: nat,
    value_column: nat,
    mark_read_only: bool,
) -> Seq<(Seq<char>, Style)>
    decreases n,
{
    if n <= 0 {
        seq![]
    } else {
        panel_lines(rows, n - 1, cursor, inner, value_column, mark_read_only) + row_lines(
            rows[n - 1],
            cursor == Some((n - 1) as usize),
            inner,
            value_column,
            mark_read_only,
        )
    }
}

/// Always exactly `max(height, 3)` lines: the title border, the body window, the footer and its
/// rules (a three-line panel keeps only the footer and its rules).
pub open spec fn render_spec(panel: Panel, width: u16, height: u16) -> Seq<Seq<(Seq<char>, Style)>> {
    render_view(panel.title@, row_texts(panel.rows@), panel.footer@, panel.cursor, panel.offset, width, height)
}

/// The panel's lines from its title, rows, footer, cursor and offset as characters: exactly
/// `height` lines. A panel narrower than its two borders is blank, `width` spaces a line; a
/// panel lower than three lines shows the first lines of the three-line frame.
#[verifier::opaque]
pub open spec fn render_view(
    title: Seq<char>,
    rows: Seq<RowText>,
    footer: Seq<char>,
    cursor: Option<usize>,
    offset: usize,
    width: u16,
    height: u16,
) -> Seq<Seq<(Seq<char>, Style)>> {
    if width < 2 {
        Seq::new(height as nat, |k: int| seq![(repeat_char(' ', width as nat), plain_style(Role::Rule))])
    } else if height >= 3 {
        frame_view(title, rows, footer, cursor, offset, width, height)
    } else {
        frame_view(title, rows, footer, cursor, offset, width, height).take(height as int)
    }
}

/// The bordered frame: title edge, body, fill, footer rule, footer and bottom edge, in
/// `max(height, 3)` lines.
pub open spec fn frame_view(
    title: Seq<char>,
    rows: Seq<RowText>,
    footer: Seq<char>,
    cursor: Option<usize>,
    offset: usize,
    width: u16,
    height: u16,
) -> Seq<Seq<(Seq<char>, Style)>> {
    let w = width as nat;
    let h: nat = if height >= 3 {
        height as nat
    } else {
        3
    };
    let body_rows = sat_sub(h as int, 4);
    let inner = sat_sub(w as int, 2);
    let vc = value_column_spec(rows, inner);
    let lines = panel_lines(rows, rows.len() as int, cursor, inner, vc, any_enabled(rows));
    let first: nat = if cursor is Some {
        0
    } else {
        min_nat(offset as nat, sat_sub(lines.len() as int, 1))
    };
    let shown = min_nat(body_rows, sat_sub(lines.len() as int, first as int));
    let body = Seq::new(
        shown,
        |k: int| framed_line(lines[first + k].0, lines[first + k].1, w),
    );
    let fill = Seq::new(
        sat_sub(h as int - 3, 1 + shown as int),
        |k: int| framed_line(seq![], plain_style(Role::Body), w),
    );
    let head = if h >= 4 {
        seq![edge_line('┌', '┐', title, w)] + body + fill
    } else {
        seq![]
    };
    head + seq![
        edge_line('├', '┤', seq![], w),
        framed_line(seq![' '] + footer, plain_style(Role::Body), w),
        edge_line('└', '┘', seq![], w),
    ]
}

/// Appends each piece, indented by two spaces, with `style`.
fn push_indented(lines: &mut Vec<(String, Style)>, pieces: &Vec<String>, style: Style)
    ensures
        pairs_view(final(lines)@) == pairs_view(old(lines)@) + indented(views(pieces@), style),
{
    let ghost start = pairs_view(lines@);
    let mut i: usize = 0;
    while i < pieces.len()
        invariant
            i <= pieces@.len(),
            pairs_view(lines@) == start + indented(views(pieces@).take(i as int), style),
        decreases pieces@.len() - i,
    {
        let mut text = String::new();
        text.push(' ');
        text.push(' ');
        push_str(&mut text, pieces[i].as_str());
        let ghost before = pairs_view(lines@);
        lines.push((text, style));
        proof {
            assert(views(pieces@).take(i + 1) == views(pieces@).take(i as int).push(pieces@[i as int]@));
            assert(text@ == seq![' ', ' '] + pieces@[i as int]@);
            assert(pairs_view(lines@) == before.push((text@, style)));
            assert(indented(views(pieces@).take(i + 1), style) == indented(
                views(pieces@).take(i as int),
                style,
            ).push((text@, style)));
        }
        i = i + 1;
    }
    proof {
        assert(views(pieces@).take(pieces@.len() as int) == views(pieces@));
    }
}

/// The widest entry label, in cells.
fn widest_label(rows: &Vec<Row>) -> (r: usize)
    ensures
        r == max_label_width(row_texts(rows@)),
{
    let mut best: usize = 0;
    let mut i: usize = 0;
    while i < rows.len()
        invariant
            i <= rows@.len(),
            best == max_label_width(row_texts(rows@).take(i as int)),
        decreases rows@.len() - i,
    {
        proof {
            assert(row_texts(rows@).take(i + 1).drop_last() == row_texts(rows@).take(i as int));
            assert(row_texts(rows@).take(i + 1).last() == rows@[i as int]@);
        }
        match &rows[i] {
            Row::Entry { label, .. } => {
                let w = crate::tui::format::width(label.as_str());
                if w > best {
                    best = w;
                }
            },
            _ => {},
        }
        i = i + 1;
    }
    proof {
        assert(row_texts(rows@).take(rows@.len() as int) == row_texts(rows@));
    }
    best
}

fn has_enabled(rows: &Vec<Row>) -> (r: bool)
    ensures
        r == any_enabled(row_texts(rows@)),
{
    let mut i: usize = 0;
    while i < rows.len()
        invariant
            i <= rows@.len(),
            forall|j: int| 0 <= j < i ==> !((#[trigger] row_texts(rows@)[j]) matches RowText::Entry(_, _, true)),
        decreases rows@.len() - i,
    {
        proof {
            assert(row_texts(rows@)[i as int] == rows@[i as int]@);
        }
        if let Row::Entry { enabled: true, .. } = &rows[i] {
            return true;
        }
        i = i + 1;
    }
    false
}

/// The lines one row contributes to the body, appended.
#[verifier::rlimit(40)]
fn push_row_lines(
    lines: &mut Vec<(String, Style)>,
    row: &Row,
    selected: bool,
    inner: usize,
    value_column: usize,
    mark_read_only: bool,
)
    ensures
        pairs_view(final(lines)@) == pairs_view(old(lines)@) + row_lines(
            row@,
            selected,
            inner as nat,
            value_column as nat,
            mark_read_only,
        ),
{
    match row {
        Row::Entry { label, value, enabled } => {
            let mark = if selected {
                '▸'
            } else {
                ' '
            };
            let shown = truncate(label.as_str(), value_column.saturating_sub(2 + GAP));
            let sw = crate::tui::format::width(shown.as_str());
            let pad = if sw <= value_column && value_column - sw >= 2 {
                value_column - 2 - sw
            } else {
                0
            };
            let mut text = String::new();
            text.push(mark);
            text.push(' ');
            push_str(&mut text, shown.as_str());
            let fill = spaces(pad);
            push_str(&mut text, fill.as_str());
            push_str(&mut text, value.as_str());
            if !(*enabled || !mark_read_only) {
                push_str(&mut text, "  (read-only)");
            }
            let style = if selected {
                Style { role: Role::Emphasis, semantic: None, rgb: None, ansi: None, reverse: true }
            } else {
                Style::role(Role::Body)
            };
            proof {
                let e = entry_line(label@, value@, *enabled, selected, value_column as nat, mark_read_only);
                assert(text@ == e.0);
            }
            let ghost before = pairs_view(lines@);
            lines.push((text, style));
            proof {
                assert(pairs_view(lines@) == before.push((text@, style)));
            }
        },
        Row::Note(note) => {
            let pieces = wrap(note.as_str(), inner.saturating_sub(2));
            push_indented(lines, &pieces, Style::role(Role::Label));
        },
        Row::Warn(note) => {
            let pieces = wrap(note.as_str(), inner.saturating_sub(2));
            push_indented(lines, &pieces, Style::semantic(Role::Emphasis, Semantic::Warn));
        },
        Row::Text(text) => {
            let pieces = wrap_verbatim(text.as_str(), inner.saturating_sub(2));
            push_indented(lines, &pieces, Style::role(Role::Body));
        },
        Row::Rule => {
            let ghost before = pairs_view(lines@);
            let r = repeat('─', inner);
            lines.push((r, Style::role(Role::Rule)));
            proof {
                assert(pairs_view(lines@) == before.push((r@, plain_style(Role::Rule))));
            }
        },
    }
}

/// The body lines of every row.
fn collect_lines(panel: &Panel, inner: usize, value_column: usize, mark_read_only: bool) -> (lines: Vec<(String, Style)>)
    ensures
        pairs_view(lines@) == panel_lines(
            row_texts(panel.rows@),
            panel.rows@.len() as int,
            panel.cursor,
            inner as nat,
            value_column as nat,
            mark_read_only,
        ),
{
    let mut lines: Vec<(String, Style)> = Vec::new();
    let mut index: usize = 0;
    while index < panel.rows.len()
        invariant
            index <= panel.rows@.len(),
            pairs_view(lines@) == panel_lines(
                row_texts(panel.rows@),
                index as int,
                panel.cursor,
                inner as nat,
                value_column as nat,
                mark_read_only,
            ),
        decreases panel.rows@.len() - index,
    {
        let selected = match panel.cursor {
            Some(c) => c == index,
            None => false,
        };
        push_row_lines(&mut lines, &panel.rows[index], selected, inner, value_column, mark_read_only);
        index = index + 1;
    }
    lines
}

/// The bordered frame in `max(height, 3)` lines.
#[verifier::rlimit(60)]
fn render_frame(panel: &Panel, width: u16, height: u16) -> (out: Vec<Line>)
    ensures
        lines_view(out@) == frame_view(panel.title@, row_texts(panel.rows@), panel.footer@, panel.cursor, panel.offset, width, height),
        out@.len() == if height >= 3 {
            height as nat
        } else {
            3
        },
{
    let w = width as usize;
    let mark_read_only = has_enabled(&panel.rows);
    let h: usize = if (height as usize) >= 3 {
        height as usize
    } else {
        3
    };
    let mut out: Vec<Line> = Vec::new();
    out.push(edge('┌', '┐', panel.title.as_str(), w));
    let body_rows = h.saturating_sub(4);
    let inner = w.saturating_sub(2);
    let widest = widest_label(&panel.rows);
    let wanted = widest.saturating_add(2 + GAP);
    let limit = inner.saturating_sub(1);
    let value_column = if wanted <= limit {
        wanted
    } else {
        limit
    };
    let ghost rows = row_texts(panel.rows@);
    let ghost vc = value_column_spec(rows, inner as nat);
    assert(value_column == vc);
    let lines = collect_lines(panel, inner, value_column, mark_read_only);
    let ghost lv = pairs_view(lines@);
    let first: usize = match panel.cursor {
        Some(_) => 0,
        None => {
            let last = lines.len().saturating_sub(1);
            if panel.offset <= last {
                panel.offset
            } else {
                last
            }
        },
    };
    let available = lines.len().saturating_sub(first);
    let shown = if body_rows <= available {
        body_rows
    } else {
        available
    };
    let mut k: usize = 0;
    let nl = lines.len();
    while k < shown
        invariant
            h >= 3,
            body_rows == sat_sub(h as int, 4),
            k <= shown,
            shown <= body_rows,
            first + shown <= lines@.len(),
            lines@.len() <= usize::MAX,
            lv == pairs_view(lines@),
            out@.len() == 1 + k,
            lines_view(out@) == seq![edge_line('┌', '┐', panel.title@, w as nat)] + Seq::new(
                k as nat,
                |j: int| framed_line(lv[first + j].0, lv[first + j].1, w as nat),
            ),
        decreases shown - k,
    {
        let (text, style) = &lines[first + k];
        let line = framed_styled(text.as_str(), *style, w);
        let ghost before = lines_view(out@);
        out.push(line);
        proof {
            assert(lines_view(out@) == before.push(line_view(line@)));
        }
        k = k + 1;
    }
    let ghost body_len = out@.len();
    while out.len() < h - 3
        invariant
            h >= 3,
            h >= 4 ==> out@.len() <= h - 3,
            h == 3 ==> out@.len() == 1,
            body_len <= out@.len(),
            lines_view(out@) == seq![edge_line('┌', '┐', panel.title@, w as nat)] + Seq::new(
                shown as nat,
                |j: int| framed_line(lv[first + j].0, lv[first + j].1, w as nat),
            ) + Seq::new(
                (out@.len() - body_len) as nat,
                |j: int| framed_line(seq![], plain_style(Role::Body), w as nat),
            ),
            body_len == 1 + shown,
        decreases h - out@.len(),
    {
        let ghost before = lines_view(out@);
        let line = framed(String::new(), w);
        out.push(line);
        proof {
            assert(lines_view(out@) == before.push(line_view(line@)));
        }
    }
    let ghost pre = lines_view(out@);
    let ghost fill_len = (out@.len() - body_len) as nat;
    proof {
        if h >= 4 {
            assert(out@.len() == h - 3);
        } else {
            assert(shown == 0);
        }
    }
    out.truncate(h - 3);
    let ghost head = lines_view(out@);
    proof {
        if h >= 4 {
            assert(out@ =~= out@.take((h - 3) as int));
            assert(head == pre);
        } else {
            assert(head =~= Seq::<Seq<(Seq<char>, Style)>>::empty());
        }
    }
    let e1 = edge('├', '┤', "", w);
    let mut foot = String::new();
    foot.push(' ');
    push_str(&mut foot, panel.footer.as_str());
    let f = framed(foot, w);
    let e2 = edge('└', '┘', "", w);
    out.push(e1);
    out.push(f);
    out.push(e2);
    proof {
        reveal_strlit("");
        assert(""@ == Seq::<char>::empty());
        assert(lines_view(out@) == head.push(line_view(e1@)).push(line_view(f@)).push(line_view(e2@)));
        let spec_lines = panel_lines(rows, rows.len() as int, panel.cursor, inner as nat, vc, mark_read_only);
        assert(spec_lines == lv);
        assert(lines_view(out@) =~= frame_view(panel.title@, row_texts(panel.rows@), panel.footer@, panel.cursor, panel.offset, width, height));
    }
    out
}

/// Always exactly `height` lines: the caller draws this over a frame it has already laid out,
/// so a short panel would leave what is under it showing through.
pub fn render(panel: &Panel, width: u16, height: u16) -> (out: Vec<Line>)
    ensures
        lines_view(out@) == render_spec(*panel, width, height),
        out@.len() == height,
{
    proof {
        reveal(render_view);
    }
    if width < 2 {
        let mut out: Vec<Line> = Vec::new();
        let mut k: u16 = 0;
        while k < height
            invariant
                k <= height,
                width < 2,
                lines_view(out@) == Seq::new(k as nat, |j: int| seq![(repeat_char(' ', width as nat), plain_style(Role::Rule))]),
            decreases height - k,
        {
            let span = Span::new(spaces(width as usize), Style::role(Role::Rule));
            let mut line: Line = Vec::new();
            line.push(span);
            let ghost before = lines_view(out@);
            out.push(line);
            proof {
                assert(line_view(line@) =~= seq![(repeat_char(' ', width as nat), plain_style(Role::Rule))]);
                assert(lines_view(out@) == before.push(line_view(line@)));
                assert(lines_view(out@) =~= Seq::new((k + 1) as nat, |j: int| seq![(repeat_char(' ', width as nat), plain_style(Role::Rule))]));
            }
            k = k + 1;
        }
        return out;
    }
    let mut out = render_frame(panel, width, height);
    if height < 3 {
        let ghost full = lines_view(out@);
        out.truncate(height as usize);
        proof {
            assert(lines_view(out@) =~= full.take(height as int));
        }
    }
    out
}

} // verus!
