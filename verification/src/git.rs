//! The diff model: changed files and parsed hunks, as the git layer hands them over.
use vstd::prelude::*;

use crate::bytes::{lossy, push_utf8, utf8, utf8_lossy};
use crate::strs::{chars, own};

verus! {

pub assume_specification[ String::push ](string: &mut String, ch: char)
    ensures
        final(string)@ == old(string)@.push(ch),
;

#[derive(Debug, Clone, Copy, PartialEq, Eq, Structural)]
pub enum ChangedFileStatus {
    Modified,
    Added,
    Deleted,
    Renamed,
    Untracked,
}

#[derive(Debug, Clone, PartialEq, Eq)]
pub struct ChangedFile {
    pub path: String,
    pub status: ChangedFileStatus,
    pub staged: bool,
    pub insertions: Option<u32>,
    pub deletions: Option<u32>,
}

#[derive(Debug, Clone, Copy, PartialEq, Eq)]
pub enum DiffLineType {
    Added,
    Removed,
    Context,
}

#[derive(Debug, Clone, PartialEq, Eq)]
pub struct DiffLine {
    pub line_type: DiffLineType,
    pub content: String,
    pub old_line_number: Option<u32>,
    pub new_line_number: Option<u32>,
}

#[derive(Debug, Clone, PartialEq, Eq)]
pub struct DiffHunk {
    pub id: String,
    pub header: String,
    pub old_start: u32,
    pub old_lines: u32,
    pub new_start: u32,
    pub new_lines: u32,
    pub lines: Vec<DiffLine>,
}

#[derive(Debug, Clone, PartialEq, Eq)]
pub struct FileDiff {
    pub file_path: String,
    pub old_path: Option<String>,
    pub new_path: Option<String>,
    pub hunks: Vec<DiffHunk>,
}

/// A status refresh: the repository's toplevel (empty outside a repository) and its rows.
#[derive(Debug, Clone, PartialEq, Eq)]
pub struct GitStatusResponse {
    pub repo_root: String,
    pub files: Vec<ChangedFile>,
}

#[derive(Debug, Clone, PartialEq, Eq)]
pub struct GetGitDiffResponse {
    pub file_diff: FileDiff,
    pub old_text: String,
    pub new_text: String,
    pub raw_diff: String,
    pub repo_root: String,
}

// ---------------------------------------------------------------------------
// Paths in patch headers.
// ---------------------------------------------------------------------------

/// The byte a one-character escape of git's C quoting stands for.
pub open spec fn simple_escape(c: char) -> Option<u8> {
    if c == '\\' {
        Some(92u8)
    } else if c == '"' {
        Some(34u8)
    } else if c == 'a' {
        Some(7u8)
    } else if c == 'b' {
        Some(8u8)
    } else if c == 'f' {
        Some(12u8)
    } else if c == 'n' {
        Some(10u8)
    } else if c == 'r' {
        Some(13u8)
    } else if c == 't' {
        Some(9u8)
    } else if c == 'v' {
        Some(11u8)
    } else {
        None
    }
}

pub open spec fn octal_digit(c: char) -> bool {
    48 <= (c as u32) <= 55
}

/// Whether `s` opens with a three-digit octal escape of one byte, `\\000` to `\\377`.
pub open spec fn octal_escape_at(s: Seq<char>) -> bool {
    &&& s.len() >= 4
    &&& s[0] == '\\'
    &&& 48 <= (s[1] as u32) <= 51
    &&& octal_digit(s[2])
    &&& octal_digit(s[3])
}

pub open spec fn octal_value(s: Seq<char>) -> u8 {
    (((s[1] as u32) - 48) * 64 + ((s[2] as u32) - 48) * 8 + ((s[3] as u32) - 48)) as u8
}

/// The bytes inside a C-quoted path: escapes become the byte they name, every other
/// character its UTF-8 encoding. A backslash that starts no escape stands for itself.
pub open spec fn unquoted(s: Seq<char>) -> Seq<u8>
    decreases s.len(),
{
    if s.len() == 0 {
        seq![]
    } else if octal_escape_at(s) {
        seq![octal_value(s)] + unquoted(s.skip(4))
    } else if s[0] == '\\' && s.len() >= 2 && simple_escape(s[1]) is Some {
        seq![simple_escape(s[1])->0] + unquoted(s.skip(2))
    } else {
        utf8(s[0]) + unquoted(s.skip(1))
    }
}

/// A path token of a patch header: a token in double quotes is unquoted and decoded, any
/// other is the path itself.
pub open spec fn decode_path(s: Seq<char>) -> Seq<char> {
    if s.len() >= 2 && s[0] == '"' && s[s.len() - 1] == '"' {
        lossy(unquoted(s.subrange(1, s.len() - 1)))
    } else {
        s
    }
}

/// The path a patch header token names.
pub fn decode_git_patch_path(token: &str) -> (r: String)
    ensures
        r@ == decode_path(token@),
{
    let v = chars(token);
    let n = v.len();
    if !(n >= 2 && v[0] == '"' && v[n - 1] == '"') {
        return own(token);
    }
    let ghost inner = v@.subrange(1, n - 1);
    let mut out: Vec<u8> = Vec::new();
    let mut i: usize = 1;
    proof {
        assert(inner.skip(0) == inner);
    }
    while i < n - 1
        invariant
            v@ == token@,
            n == v@.len(),
            n >= 2,
            inner == v@.subrange(1, n - 1),
            1 <= i <= n - 1,
            unquoted(inner) == out@ + unquoted(inner.skip(i - 1)),
        decreases n - 1 - i,
    {
        let ghost rest = inner.skip(i - 1);
        let ghost before = out@;
        proof {
            assert(rest.len() == n - 1 - i);
            assert(rest[0] == v@[i as int]);
        }
        if v[i] == '\\' && n - 1 - i > 3 && 48 <= (v[i + 1] as u32) && (v[i + 1] as u32) <= 51
            && 48 <= (v[i + 2] as u32) && (v[i + 2] as u32) <= 55 && 48 <= (v[i + 3] as u32) && (v[i + 3]
            as u32) <= 55 {
            let b = ((v[i + 1] as u32 - 48) * 64 + (v[i + 2] as u32 - 48) * 8 + (v[i + 3] as u32 - 48)) as u8;
            out.push(b);
            proof {
                assert(rest[1] == v@[i + 1]);
                assert(rest[2] == v@[i + 2]);
                assert(rest[3] == v@[i + 3]);
                assert(octal_escape_at(rest));
                assert(rest.skip(4) =~= inner.skip(i + 3));
                assert(out@ == before + seq![octal_value(rest)]);
                assert(out@ + unquoted(inner.skip(i + 3)) =~= before + unquoted(rest));
            }
            i = i + 4;
        } else if v[i] == '\\' && n - 1 - i > 1 && simple_escape_byte(v[i + 1]).is_some() {
            let b = simple_escape_byte(v[i + 1]).unwrap();
            out.push(b);
            proof {
                assert(rest[1] == v@[i + 1]);
                assert(!octal_escape_at(rest));
                assert(rest.skip(2) =~= inner.skip(i + 1));
                assert(out@ == before + seq![simple_escape(rest[1])->0]);
                assert(out@ + unquoted(inner.skip(i + 1)) =~= before + unquoted(rest));
            }
            i = i + 2;
        } else {
            push_utf8(&mut out, v[i]);
            proof {
                if rest.len() >= 2 {
                    assert(rest[1] == v@[i + 1]);
                }
                if rest.len() >= 4 {
                    assert(rest[1] == v@[i + 1]);
                    assert(rest[2] == v@[i + 2]);
                    assert(rest[3] == v@[i + 3]);
                }
                assert(!octal_escape_at(rest));
                assert(rest.skip(1) =~= inner.skip(i as int));
                assert(out@ + unquoted(inner.skip(i as int)) =~= before + unquoted(rest));
            }
            i = i + 1;
        }
    }
    proof {
        assert(inner.skip(i - 1) =~= Seq::<char>::empty());
        assert(out@ + Seq::<u8>::empty() == out@);
    }
    utf8_lossy(out.as_slice())
}

fn simple_escape_byte(c: char) -> (r: Option<u8>)
    ensures
        r == simple_escape(c),
{
    if c == '\\' {
        Some(92)
    } else if c == '"' {
        Some(34)
    } else if c == 'a' {
        Some(7)
    } else if c == 'b' {
        Some(8)
    } else if c == 'f' {
        Some(12)
    } else if c == 'n' {
        Some(10)
    } else if c == 'r' {
        Some(13)
    } else if c == 't' {
        Some(9)
    } else if c == 'v' {
        Some(11)
    } else {
        None
    }
}

} // verus!
