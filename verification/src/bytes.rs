//! Raw command output: splitting on a separator byte, and decoding to text.
use vstd::prelude::*;

verus! {

/// The pieces of `s` between occurrences of `sep`, as `<[u8]>::split` gives them: one more
/// piece than there are separators.
pub open spec fn split_bytes(s: Seq<u8>, sep: u8) -> Seq<Seq<u8>>
    decreases s.len(),
{
    if s.len() == 0 {
        seq![seq![]]
    } else {
        let rest = split_bytes(s.drop_first(), sep);
        if s[0] == sep {
            seq![seq![]] + rest
        } else {
            seq![seq![s[0]] + rest[0]] + rest.drop_first()
        }
    }
}

pub proof fn lemma_split_bytes_nonempty(s: Seq<u8>, sep: u8)
    ensures
        split_bytes(s, sep).len() >= 1,
    decreases s.len(),
{
    if s.len() > 0 {
        lemma_split_bytes_nonempty(s.drop_first(), sep);
    }
}

pub open spec fn prepend_bytes(cur: Seq<u8>, parts: Seq<Seq<u8>>) -> Seq<Seq<u8>> {
    seq![cur + parts[0]] + parts.drop_first()
}

pub open spec fn byte_views(v: Seq<Vec<u8>>) -> Seq<Seq<u8>> {
    v.map_values(|x: Vec<u8>| x@)
}

/// `s.split(|&b| b == sep)`, each piece owned.
pub fn split_on_byte(s: &[u8], sep: u8) -> (r: Vec<Vec<u8>>)
    ensures
        byte_views(r@) == split_bytes(s@, sep),
{
    let mut done: Vec<Vec<u8>> = Vec::new();
    let mut cur: Vec<u8> = Vec::new();
    let mut i: usize = 0;
    proof {
        assert(s@.skip(0) == s@);
        lemma_split_bytes_nonempty(s@, sep);
        assert(prepend_bytes(seq![], split_bytes(s@, sep)) == split_bytes(s@, sep));
    }
    while i < s.len()
        invariant
            i <= s@.len(),
            split_bytes(s@, sep) == byte_views(done@) + prepend_bytes(cur@, split_bytes(s@.skip(i as int), sep)),
        decreases s@.len() - i,
    {
        let ghost rest = s@.skip(i as int);
        proof {
            assert(rest[0] == s@[i as int]);
            assert(rest.drop_first() == s@.skip(i + 1));
            lemma_split_bytes_nonempty(s@.skip(i + 1), sep);
        }
        if s[i] == sep {
            let piece = cur;
            cur = Vec::new();
            let ghost before = byte_views(done@);
            done.push(piece);
            proof {
                let tail = split_bytes(s@.skip(i + 1), sep);
                assert(byte_views(done@) == before.push(piece@));
                assert(prepend_bytes(piece@, seq![seq![]] + tail) == seq![piece@] + tail);
                assert(prepend_bytes(seq![], tail) == tail);
                assert(before + (seq![piece@] + tail) == before.push(piece@) + prepend_bytes(seq![], tail));
            }
        } else {
            let ghost old_cur = cur@;
            cur.push(s[i]);
            proof {
                let tail = split_bytes(s@.skip(i + 1), sep);
                let c = s@[i as int];
                let first = seq![c] + tail[0];
                assert(old_cur + first == old_cur.push(c) + tail[0]);
                assert((seq![first] + tail.drop_first())[0] == first);
                assert((seq![first] + tail.drop_first()).drop_first() == tail.drop_first());
                assert(prepend_bytes(old_cur, seq![seq![c] + tail[0]] + tail.drop_first()) == prepend_bytes(
                    old_cur.push(c),
                    tail,
                ));
            }
        }
        i = i + 1;
    }
    proof {
        assert(s@.skip(s@.len() as int) == Seq::<u8>::empty());
    }
    let ghost before = byte_views(done@);
    done.push(cur);
    proof {
        assert(byte_views(done@) == before.push(cur@));
        assert(prepend_bytes(cur@, seq![seq![]]) == seq![cur@]);
    }
    done
}

/// What `String::from_utf8_lossy` makes of some bytes: the text they hold, each invalid
/// sequence replaced by U+FFFD. It depends on the bytes alone.
pub uninterp spec fn lossy(bytes: Seq<u8>) -> Seq<char>;

/// `String::from_utf8_lossy`, owned. The decoding rules of UTF-8, and where a replacement
/// character goes, are left to the name `lossy`.
#[verifier::external_body]
pub fn utf8_lossy(bytes: &[u8]) -> (r: String)
    ensures
        r@ == lossy(bytes@),
{
    String::from_utf8_lossy(bytes).into_owned()
}

/// The UTF-8 encoding of one character.
pub open spec fn utf8(c: char) -> Seq<u8> {
    let n = c as u32;
    if n < 0x80 {
        seq![n as u8]
    } else if n < 0x800 {
        seq![(0xC0 + n / 64) as u8, (0x80 + n % 64) as u8]
    } else if n < 0x10000 {
        seq![(0xE0 + n / 4096) as u8, (0x80 + (n / 64) % 64) as u8, (0x80 + n % 64) as u8]
    } else {
        seq![
            (0xF0 + n / 262144) as u8,
            (0x80 + (n / 4096) % 64) as u8,
            (0x80 + (n / 64) % 64) as u8,
            (0x80 + n % 64) as u8,
        ]
    }
}

/// Appends the UTF-8 encoding of `c`.
pub fn push_utf8(buf: &mut Vec<u8>, c: char)
    ensures
        final(buf)@ == old(buf)@ + utf8(c),
{
    let n = c as u32;
    proof {
        assert(n <= 0x10FFFF);
    }
    if n < 0x80 {
        buf.push(n as u8);
    } else if n < 0x800 {
        buf.push((0xC0 + n / 64) as u8);
        buf.push((0x80 + n % 64) as u8);
    } else if n < 0x10000 {
        buf.push((0xE0 + n / 4096) as u8);
        buf.push((0x80 + (n / 64) % 64) as u8);
        buf.push((0x80 + n % 64) as u8);
    } else {
        buf.push((0xF0 + n / 262144) as u8);
        buf.push((0x80 + (n / 4096) % 64) as u8);
        buf.push((0x80 + (n / 64) % 64) as u8);
        buf.push((0x80 + n % 64) as u8);
    }
    proof {
        assert(buf@ =~= old(buf)@ + utf8(c));
    }
}

} // verus!
