use vstd::prelude::*;

verus! {

/// A Unicode `Cc` (control) character: U+0000..=U+001F or U+007F..=U+009F.
pub open spec fn is_control_char(c: char) -> bool {
    (c as u32) <= 0x1f || (0x7f <= (c as u32) && (c as u32) <= 0x9f)
}

/// What a diagnostic shows for `c`: controls other than a tab become U+FFFD.
pub open spec fn diagnostic_char(c: char) -> char {
    if c != '\t' && is_control_char(c) {
        '\u{fffd}'
    } else {
        c
    }
}

pub open spec fn diagnostic_text(text: Seq<char>) -> Seq<char> {
    text.map_values(|c: char| diagnostic_char(c))
}

/// `char::is_control`: the `Cc` general category, which is exactly the two ranges above.
pub fn is_control(c: char) -> (r: bool)
    ensures
        r == is_control_char(c),
{
    c <= '\u{1f}' || ('\u{7f}' <= c && c <= '\u{9f}')
}

/// Replaces every control character except a tab with U+FFFD, keeping everything else.
pub fn sanitize(text: &str) -> (out: String)
    ensures
        out@ == diagnostic_text(text@),
{
    let mut out = String::new();
    for ch in it: text.chars()
        invariant
            it.seq() == text@,
            out@ == diagnostic_text(text@.take(it.index() as int)),
    {
        proof {
            assert(text@.take(it.index() + 1) == text@.take(it.index() as int).push(ch));
        }
        if ch != '\t' && is_control(ch) {
            out.push('\u{fffd}');
        } else {
            out.push(ch);
        }
    }
    proof {
        assert(text@.take(text@.len() as int) == text@);
    }
    out
}

/// A diagnostic is cleaned once and for all: cleaning it again changes nothing.
pub proof fn law_diagnostic_sanitizing_twice_changes_nothing(text: Seq<char>)
    ensures
        diagnostic_text(diagnostic_text(text)) == diagnostic_text(text),
{
    assert(diagnostic_text(diagnostic_text(text)) =~= diagnostic_text(text));
}

} // verus!
