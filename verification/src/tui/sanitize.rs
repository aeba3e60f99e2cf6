//! Every string from git is untrusted. Nothing reaches a cell without passing here.
use vstd::prelude::*;

use crate::strs::repeat_char;
use crate::tui::format::{char_cells, char_width};

verus! {

pub open spec fn valid_scalar(i: u32) -> bool {
    i <= 0x10ffff && !(0xd800 <= i && i <= 0xdfff)
}

/// `char::from_u32`: the character with that scalar value, or `None` for a surrogate or a
/// value past U+10FFFF.
pub assume_specification[ char::from_u32 ](i: u32) -> (r: Option<char>)
    ensures
        r == (if valid_scalar(i) {
            Some(i as char)
        } else {
            None
        }),
;

pub open spec fn is_bidi_control(c: char) -> bool {
    ('\u{202a}' <= c && c <= '\u{202e}') || ('\u{2066}' <= c && c <= '\u{2069}')
}

/// What one character becomes, with `phase` the column modulo 8.
pub open spec fn cell_text(c: char, phase: nat) -> Seq<char> {
    if c == '\t' {
        repeat_char(' ', (8 - phase) as nat)
    } else if (c as u32) < 0x20 {
        seq![((0x2400 + (c as u32)) as u32) as char]
    } else if c == '\u{7f}' || (0x80 <= (c as u32) && (c as u32) <= 0x9f) || is_bidi_control(c) {
        seq!['\u{fffd}']
    } else {
        seq![c]
    }
}

/// The column modulo 8 after `c`.
pub open spec fn next_phase(c: char, phase: nat) -> nat {
    if c == '\t' {
        0
    } else if (c as u32) < 0x20 || c == '\u{7f}' || (0x80 <= (c as u32) && (c as u32) <= 0x9f)
        || is_bidi_control(c) {
        (phase + 1) % 8
    } else {
        (phase + match char_cells(c) {
            Some(w) => w as nat,
            None => 0,
        }) % 8
    }
}

pub open spec fn sanitize_from(text: Seq<char>, phase: nat) -> Seq<char>
    decreases text.len(),
{
    if text.len() == 0 {
        seq![]
    } else {
        cell_text(text[0], phase) + sanitize_from(text.drop_first(), next_phase(text[0], phase))
    }
}

/// `text` without one trailing `\n`, then without one trailing `\r`.
pub open spec fn strip_line_end(text: Seq<char>) -> Seq<char> {
    let t = if text.len() > 0 && text.last() == '\n' {
        text.drop_last()
    } else {
        text
    };
    if t.len() > 0 && t.last() == '\r' {
        t.drop_last()
    } else {
        t
    }
}

/// Tabs expand to the next multiple of eight columns; C0 controls become control pictures;
/// DEL, C1 controls and bidi overrides and isolates become U+FFFD.
pub open spec fn sanitize_spec(text: Seq<char>) -> Seq<char> {
    sanitize_from(strip_line_end(text), 0)
}

proof fn lemma_sanitize_step(text: Seq<char>, i: int, phase: nat)
    requires
        0 <= i < text.len(),
    ensures
        sanitize_from(text.skip(i), phase) == cell_text(text[i], phase) + sanitize_from(
            text.skip(i + 1),
            next_phase(text[i], phase),
        ),
{
    assert(text.skip(i)[0] == text[i]);
    assert(text.skip(i).drop_first() == text.skip(i + 1));
}

pub fn sanitize(text: &str) -> (out: String)
    ensures
        out@ == sanitize_spec(text@),
{
    let all = crate::strs::chars(text);
    let mut end = all.len();
    if end > 0 && all[end - 1] == '\n' {
        end = end - 1;
    }
    if end > 0 && all[end - 1] == '\r' {
        end = end - 1;
    }
    let ghost t = all@.take(end as int);
    proof {
        let t1 = if text@.len() > 0 && text@.last() == '\n' {
            text@.drop_last()
        } else {
            text@
        };
        assert(t == strip_line_end(text@));
        assert(t.skip(0) == t);
    }
    let mut out = String::new();
    let mut phase: usize = 0;
    let mut i: usize = 0;
    while i < end
        invariant
            end <= all@.len(),
            t == all@.take(end as int),
            i <= end,
            phase < 8,
            sanitize_from(t, 0) == out@ + sanitize_from(t.skip(i as int), phase as nat),
        decreases end - i,
    {
        let c = all[i];
        proof {
            assert(t[i as int] == c);
            lemma_sanitize_step(t, i as int, phase as nat);
        }
        let ghost before = out@;
        let ghost p0 = phase as nat;
        if c == '\t' {
            let pad = 8 - phase;
            let fill = crate::strs::spaces(pad);
            crate::strs::push_str(&mut out, fill.as_str());
            phase = 0;
            assert(out@ == before + cell_text(c, p0));
        } else if (c as u32) < 0x20 {
            let picture = match char::from_u32(0x2400 + c as u32) {
                Some(p) => p,
                None => '\u{fffd}',
            };
            out.push(picture);
            phase = (phase + 1) % 8;
            assert(valid_scalar((0x2400 + (c as u32)) as u32));
            assert(out@ == before + cell_text(c, p0));
        } else if c == '\u{7f}' || (0x80 <= (c as u32) && (c as u32) <= 0x9f) || ('\u{202a}' <= c && c
            <= '\u{202e}') || ('\u{2066}' <= c && c <= '\u{2069}') {
            out.push('\u{fffd}');
            phase = (phase + 1) % 8;
            assert(out@ == before + cell_text(c, p0));
        } else {
            out.push(c);
            let w = match char_width(c) {
                Some(w) => w,
                None => 0,
            };
            phase = (phase + w) % 8;
            assert(out@ == before + cell_text(c, p0));
        }
        assert(phase as nat == next_phase(c, p0));
        i = i + 1;
    }
    proof {
        assert(t.skip(end as int) == Seq::<char>::empty());
        assert(out@ + Seq::<char>::empty() == out@);
    }
    out
}

/// A character that sanitizing leaves as it is, wherever it stands.
pub open spec fn is_plain(c: char) -> bool {
    &&& c != '\t'
    &&& (c as u32) >= 0x20
    &&& !(c == '\u{7f}' || (0x80 <= (c as u32) && (c as u32) <= 0x9f) || is_bidi_control(c))
}

proof fn lemma_cell_text_plain(c: char, phase: nat)
    ensures
        forall|k: int| 0 <= k < cell_text(c, phase).len() ==> is_plain(#[trigger] cell_text(c, phase)[k]),
{
    if (c as u32) < 0x20 && c != '\t' {
        let p = ((0x2400 + (c as u32)) as u32) as char;
        assert(p as u32 == 0x2400 + (c as u32));
        assert(cell_text(c, phase) == seq![p]);
    }
}

proof fn lemma_sanitized_is_plain(text: Seq<char>, phase: nat)
    ensures
        forall|k: int| 0 <= k < sanitize_from(text, phase).len() ==> is_plain(#[trigger] sanitize_from(text, phase)[k]),
    decreases text.len(),
{
    if text.len() > 0 {
        let head = cell_text(text[0], phase);
        let rest = sanitize_from(text.drop_first(), next_phase(text[0], phase));
        lemma_cell_text_plain(text[0], phase);
        lemma_sanitized_is_plain(text.drop_first(), next_phase(text[0], phase));
        assert forall|k: int| 0 <= k < (head + rest).len() implies is_plain(#[trigger] (head + rest)[k]) by {
            if k < head.len() {
                assert((head + rest)[k] == head[k]);
            } else {
                assert((head + rest)[k] == rest[k - head.len()]);
            }
        }
    }
}

proof fn lemma_plain_is_kept(text: Seq<char>, phase: nat)
    requires
        forall|k: int| 0 <= k < text.len() ==> is_plain(#[trigger] text[k]),
    ensures
        sanitize_from(text, phase) == text,
    decreases text.len(),
{
    if text.len() > 0 {
        assert(is_plain(text[0]));
        assert forall|k: int| 0 <= k < text.drop_first().len() implies is_plain(#[trigger] text.drop_first()[k]) by {
            assert(text.drop_first()[k] == text[k + 1]);
        }
        lemma_plain_is_kept(text.drop_first(), next_phase(text[0], phase));
        assert(seq![text[0]] + text.drop_first() =~= text);
    }
}

/// Sanitizing is done once and for all: sanitizing a sanitized text changes nothing.
pub proof fn law_sanitizing_twice_changes_nothing(text: Seq<char>)
    ensures
        sanitize_spec(sanitize_spec(text)) == sanitize_spec(text),
{
    let once = sanitize_spec(text);
    lemma_sanitized_is_plain(strip_line_end(text), 0);
    if once.len() > 0 {
        assert(is_plain(once[once.len() - 1]));
    }
    assert(strip_line_end(once) == once);
    lemma_plain_is_kept(once, 0);
}

/// One trailing line end, LF or CRLF, is dropped and never shown: a line read with its
/// `\r\n` or `\n` shows as the line without it.
pub proof fn law_a_trailing_line_end_is_never_shown(text: Seq<char>)
    ensures
        sanitize_spec(text + seq!['\r', '\n']) == sanitize_from(text, 0),
        text.len() == 0 || (text.last() != '\r' && text.last() != '\n') ==> {
            &&& sanitize_spec(text + seq!['\r', '\n']) == sanitize_spec(text)
            &&& sanitize_spec(text + seq!['\n']) == sanitize_spec(text)
        },
{
    let crlf = text + seq!['\r', '\n'];
    assert(crlf.drop_last() =~= text + seq!['\r']);
    assert((text + seq!['\r']).drop_last() =~= text);
    assert(strip_line_end(crlf) == text);
    let lf = text + seq!['\n'];
    assert(lf.drop_last() =~= text);
    if text.len() == 0 || (text.last() != '\r' && text.last() != '\n') {
        assert(strip_line_end(text) == text);
        assert(strip_line_end(lf) == text);
    }
}

} // verus!
