//! Branch scope: rows and diffs against a merge-base pinned once per refresh.
use vstd::prelude::*;

use crate::bytes::{lossy, split_bytes, split_on_byte, utf8_lossy};
use crate::git::{decode_git_patch_path, decode_path, ChangedFile, ChangedFileStatus};
use crate::strs::{
    cat, chars, collect, copy, is_prefix, lemma_newline_from, newline_from, own, push_str, same, strip_prefix,
};

verus! {

/// One `--name-status -z` record; `old` is set for `R` and `C`.
#[derive(Debug, Clone, PartialEq, Eq)]
pub struct NameStatus {
    pub status: char,
    pub old: Option<String>,
    pub path: String,
}

pub open spec fn name_status_view(r: NameStatus) -> (char, Option<Seq<char>>, Seq<char>) {
    (
        r.status,
        match r.old {
            Some(o) => Some(o@),
            None => None,
        },
        r.path@,
    )
}

pub open spec fn name_status_views(v: Seq<NameStatus>) -> Seq<(char, Option<Seq<char>>, Seq<char>)> {
    v.map_values(|r: NameStatus| name_status_view(r))
}

/// The NUL-separated fields of the output, each decoded as text.
pub open spec fn nul_fields(output: Seq<u8>) -> Seq<Seq<char>> {
    split_bytes(output, 0u8).map_values(|f: Seq<u8>| lossy(f))
}

/// Field `i`, or the empty text past the end.
pub open spec fn field(fields: Seq<Seq<char>>, i: int) -> Seq<char> {
    if 0 <= i < fields.len() {
        fields[i]
    } else {
        seq![]
    }
}

pub open spec fn names_two_paths(code: char) -> bool {
    code == 'R' || code == 'C'
}

/// The records that start at field `i`: a status (its first character is the code; an empty
/// status ends the list), then one path, or the old and the new path for a rename or copy.
pub open spec fn records_from(fields: Seq<Seq<char>>, i: int) -> Seq<(char, Option<Seq<char>>, Seq<char>)>
    decreases fields.len() - i,
{
    if i < 0 || i >= fields.len() || fields[i].len() == 0 {
        seq![]
    } else {
        let code = fields[i][0];
        if names_two_paths(code) {
            seq![(code, Some(field(fields, i + 1)), field(fields, i + 2))] + if i + 3 <= fields.len() {
                records_from(fields, i + 3)
            } else {
                seq![]
            }
        } else {
            seq![(code, None, field(fields, i + 1))] + if i + 2 <= fields.len() {
                records_from(fields, i + 2)
            } else {
                seq![]
            }
        }
    }
}

proof fn lemma_views_push(v: Seq<NameStatus>, r: NameStatus)
    ensures
        name_status_views(v.push(r)) == name_status_views(v).push(name_status_view(r)),
{
    assert(name_status_views(v.push(r)) =~= name_status_views(v).push(name_status_view(r)));
}

/// `<status>\0<path>\0`, or `<status>\0<old>\0<new>\0` for renames and copies (the status may
/// carry a score).
pub fn parse_name_status(output: &[u8]) -> (r: Vec<NameStatus>)
    ensures
        name_status_views(r@) == records_from(nul_fields(output@), 0),
{
    let parts = split_on_byte(output, 0);
    let ghost fields = nul_fields(output@);
    proof {
        assert(fields.len() == parts@.len());
        assert forall|k: int| 0 <= k < parts@.len() implies fields[k] == lossy(#[trigger] parts@[k]@) by {
            assert(crate::bytes::byte_views(parts@)[k] == parts@[k]@);
        }
    }
    let mut out: Vec<NameStatus> = Vec::new();
    let mut i: usize = 0;
    while i < parts.len()
        invariant
            fields.len() == parts@.len(),
            forall|k: int| 0 <= k < parts@.len() ==> fields[k] == lossy(#[trigger] parts@[k]@),
            i <= parts@.len(),
            records_from(fields, 0) == name_status_views(out@) + records_from(fields, i as int),
        decreases parts@.len() - i,
    {
        let status = utf8_lossy(parts[i].as_slice());
        let sv = chars(status.as_str());
        let ghost before = name_status_views(out@);
        if sv.len() == 0 {
            proof {
                assert(fields[i as int].len() == 0);
                assert(records_from(fields, parts@.len() as int) == Seq::<(char, Option<Seq<char>>, Seq<char>)>::empty());
                assert(before + records_from(fields, parts@.len() as int) =~= before);
            }
            i = parts.len();
        } else {
            let code = sv[0];
            let first = if parts.len() - i > 1 {
                utf8_lossy(parts[i + 1].as_slice())
            } else {
                String::new()
            };
            proof {
                assert(first@ == field(fields, i + 1));
            }
            let two = code == 'R' || code == 'C';
            let rec = if two {
                let path = if parts.len() - i > 2 {
                    utf8_lossy(parts[i + 2].as_slice())
                } else {
                    String::new()
                };
                proof {
                    assert(path@ == field(fields, i + 2));
                }
                NameStatus { status: code, old: Some(first), path }
            } else {
                NameStatus { status: code, old: None, path: first }
            };
            let ghost rg = rec;
            let ghost old_out = out@;
            out.push(rec);
            proof {
                lemma_views_push(old_out, rg);
            }
            let step: usize = if two {
                3
            } else {
                2
            };
            i = if parts.len() - i > step {
                i + step
            } else {
                parts.len()
            };
        }
    }
    out
}

pub open spec fn status_of_spec(code: char) -> ChangedFileStatus {
    if code == 'A' || code == 'C' {
        ChangedFileStatus::Added
    } else if code == 'D' {
        ChangedFileStatus::Deleted
    } else if code == 'R' {
        ChangedFileStatus::Renamed
    } else {
        ChangedFileStatus::Modified
    }
}

/// The row status a name-status code gives: a copy is a new file, a type change a modification.
pub fn status_of(code: char) -> (r: ChangedFileStatus)
    ensures
        r == status_of_spec(code),
{
    if code == 'A' || code == 'C' {
        ChangedFileStatus::Added
    } else if code == 'D' {
        ChangedFileStatus::Deleted
    } else if code == 'R' {
        ChangedFileStatus::Renamed
    } else {
        ChangedFileStatus::Modified
    }
}

// ---------------------------------------------------------------------------
// `diff --git` headers.
// ---------------------------------------------------------------------------

/// Scanning a C-quoted token from `k`: the index just past the first unescaped `"`.
pub open spec fn quoted_end_from(t: Seq<char>, k: int, escaped: bool) -> Option<int>
    decreases t.len() - k,
{
    if k < 0 || k >= t.len() {
        None
    } else if t[k] == '\\' && !escaped {
        quoted_end_from(t, k + 1, true)
    } else if t[k] == '"' && !escaped {
        Some(k + 1)
    } else {
        quoted_end_from(t, k + 1, false)
    }
}

proof fn lemma_quoted_end_bounds(t: Seq<char>, k: int, escaped: bool)
    requires
        k >= 0,
    ensures
        quoted_end_from(t, k, escaped) matches Some(e) ==> k < e <= t.len() && t[e - 1] == '"',
    decreases t.len() - k,
{
    if k < t.len() {
        lemma_quoted_end_bounds(t, k + 1, true);
        lemma_quoted_end_bounds(t, k + 1, false);
    }
}

/// Index just past the closing quote of a C-quoted token that starts at index 0.
fn quoted_end(t: &Vec<char>) -> (r: Option<usize>)
    ensures
        r matches Some(e) ==> quoted_end_from(t@, 1, false) == Some(e as int),
        r is None ==> quoted_end_from(t@, 1, false) is None,
{
    let mut escaped = false;
    let mut k: usize = 1;
    while k < t.len()
        invariant
            1 <= k,
            quoted_end_from(t@, 1, false) == quoted_end_from(t@, k as int, escaped),
        decreases t@.len() - k,
    {
        if t[k] == '\\' && !escaped {
            escaped = true;
        } else if t[k] == '"' && !escaped {
            return Some(k + 1);
        } else {
            escaped = false;
        }
        k = k + 1;
    }
    None
}

/// The index of the first `c` in `s` at or after `k`.
pub open spec fn index_from(s: Seq<char>, c: char, k: int) -> Option<int>
    decreases s.len() - k,
{
    if k < 0 || k >= s.len() {
        None
    } else if s[k] == c {
        Some(k)
    } else {
        index_from(s, c, k + 1)
    }
}

proof fn lemma_index_from(s: Seq<char>, c: char, k: int)
    requires
        0 <= k,
    ensures
        index_from(s, c, k) matches Some(i) ==> k <= i < s.len() && s[i] == c,
        (exists|j: int| k <= j < s.len() && s[j] == c) ==> index_from(s, c, k) is Some,
    decreases s.len() - k,
{
    if k < s.len() {
        lemma_index_from(s, c, k + 1);
        if s[k] != c && (exists|j: int| k <= j < s.len() && s[j] == c) {
            let j = choose|j: int| k <= j < s.len() && s[j] == c;
            assert(k + 1 <= j);
        }
    }
}

/// Whether a character takes one byte in UTF-8: only then is the index just past it a byte
/// boundary of the header that the next byte can start at.
pub open spec fn one_byte(c: char) -> bool {
    (c as u32) < 128
}

/// `a/<old> b/<new>` from a `diff --git` header, a quoted side decoded. `None` when both sides
/// are plain (a plain path may contain spaces), or when no well-placed separator follows a
/// quoted side.
pub open spec fn split_header_spec(h: Seq<char>) -> Option<(Seq<char>, Seq<char>)> {
    if h.len() > 0 && h[0] == '"' {
        match quoted_end_from(h, 1, false) {
            None => None,
            Some(end) => if end >= h.len() || !one_byte(h[end]) {
                None
            } else {
                let b = h.skip(end + 1);
                Some(
                    (
                        decode_path(h.take(end)),
                        if b.len() > 0 && b[0] == '"' {
                            decode_path(b)
                        } else {
                            b
                        },
                    ),
                )
            },
        }
    } else if h.len() > 0 && h[h.len() - 1] == '"' {
        match index_from(h, '"', 0) {
            Some(start) => if start == 0 || !one_byte(h[start - 1]) {
                None
            } else {
                Some((h.take(start - 1), decode_path(h.skip(start))))
            },
            None => None,
        }
    } else {
        None
    }
}

/// `a/<old> b/<new>` from a `diff --git` header line, with a quoted side decoded.
/// `None` when both sides are plain: a plain path may contain spaces, so the
/// caller compares the whole header against what it expects instead.
pub fn split_header(header: &str) -> (r: Option<(String, String)>)
    ensures
        match r {
            Some((a, b)) => split_header_spec(header@) == Some((a@, b@)),
            None => split_header_spec(header@) is None,
        },
{
    let h = chars(header);
    let n = h.len();
    if n > 0 && h[0] == '"' {
        let end = match quoted_end(&h) {
            Some(end) => end,
            None => return None,
        };
        proof {
            lemma_quoted_end_bounds(h@, 1, false);
        }
        if end >= n || (h[end] as u32) >= 128 {
            return None;
        }
        let a = decode_git_patch_path(collect(&h, 0, end).as_str());
        let rest = collect(&h, end + 1, n);
        let b = if n - (end + 1) > 0 && h[end + 1] == '"' {
            decode_git_patch_path(rest.as_str())
        } else {
            rest
        };
        proof {
            assert(h@.subrange(0, end as int) == h@.take(end as int));
            assert(h@.subrange(end + 1, n as int) == h@.skip(end + 1));
        }
        return Some((a, b));
    }
    if n > 0 && h[n - 1] == '"' {
        let mut start: usize = 0;
        while h[start] != '"'
            invariant
                n == h@.len(),
                n > 0,
                h@[n - 1] == '"',
                start < n,
                index_from(h@, '"', 0) == index_from(h@, '"', start as int),
            decreases n - start,
        {
            start = start + 1;
        }
        if start == 0 || (h[start - 1] as u32) >= 128 {
            return None;
        }
        let a = collect(&h, 0, start - 1);
        let b = decode_git_patch_path(collect(&h, start, n).as_str());
        proof {
            assert(h@.subrange(0, start - 1) == h@.take(start - 1));
            assert(h@.subrange(start as int, n as int) == h@.skip(start as int));
        }
        return Some((a, b));
    }
    None
}

/// Whether a header names the row: exactly the two expected sides, or the two sides it
/// splits into.
pub open spec fn names_row_spec(header: Seq<char>, wanted_a: Seq<char>, wanted_b: Seq<char>) -> bool {
    header == wanted_a + seq![' '] + wanted_b || split_header_spec(header) == Some((wanted_a, wanted_b))
}

fn names_row(header: &str, wanted_a: &str, wanted_b: &str) -> (r: bool)
    ensures
        r == names_row_spec(header@, wanted_a@, wanted_b@),
{
    let mut both = own(wanted_a);
    both.push(' ');
    push_str(&mut both, wanted_b);
    proof {
        assert(both@ =~= wanted_a@ + seq![' '] + wanted_b@);
    }
    if same(header, both.as_str()) {
        return true;
    }
    match split_header(header) {
        Some((a, b)) => same(a.as_str(), wanted_a) && same(b.as_str(), wanted_b),
        None => false,
    }
}

// ---------------------------------------------------------------------------
// Sections of a patch.
// ---------------------------------------------------------------------------

/// Where the line that starts at `start` ends, its newline included.
pub open spec fn line_end(s: Seq<char>, start: int) -> int {
    let e = newline_from(s, start);
    if e < s.len() {
        e + 1
    } else {
        s.len() as int
    }
}

/// `s` without the newlines at its end.
pub open spec fn trim_newlines(s: Seq<char>) -> Seq<char>
    decreases s.len(),
{
    if s.len() > 0 && s[s.len() - 1] == '\n' {
        trim_newlines(s.drop_last())
    } else {
        s
    }
}

pub open spec fn diff_git_prefix() -> Seq<char> {
    "diff --git "@
}

/// After `line`, whether lines are kept: a `diff --git` header decides anew; any other line
/// keeps the decision of the section it is in.
pub open spec fn keep_after(line: Seq<char>, keep: bool, wanted_a: Seq<char>, wanted_b: Seq<char>) -> bool {
    if is_prefix(diff_git_prefix(), line) {
        names_row_spec(trim_newlines(line.skip(diff_git_prefix().len() as int)), wanted_a, wanted_b)
    } else {
        keep
    }
}

/// The kept lines of `s` from the line that starts at `start`.
pub open spec fn kept_from(s: Seq<char>, start: int, keep: bool, wanted_a: Seq<char>, wanted_b: Seq<char>) -> Seq<char>
    decreases s.len() - start,
{
    if start < 0 || start >= s.len() {
        seq![]
    } else {
        let cut = line_end(s, start);
        let line = s.subrange(start, cut);
        let keep_line = keep_after(line, keep, wanted_a, wanted_b);
        if cut <= start {
            seq![]
        } else {
            (if keep_line {
                line
            } else {
                seq![]
            }) + kept_from(s, cut, keep_line, wanted_a, wanted_b)
        }
    }
}

pub open spec fn wanted_a_spec(path: Seq<char>, old: Option<Seq<char>>) -> Seq<char> {
    "a/"@ + match old {
        Some(o) => o,
        None => path,
    }
}

pub open spec fn wanted_b_spec(path: Seq<char>) -> Seq<char> {
    "b/"@ + path
}

fn trim_trailing_newlines(s: &str) -> (r: String)
    ensures
        r@ == trim_newlines(s@),
{
    let v = chars(s);
    let mut n = v.len();
    proof {
        assert(v@.take(n as int) == v@);
    }
    while n > 0 && v[n - 1] == '\n'
        invariant
            v@ == s@,
            n <= v@.len(),
            trim_newlines(s@) == trim_newlines(v@.take(n as int)),
        decreases n,
    {
        proof {
            assert(v@.take(n as int).drop_last() == v@.take(n - 1));
        }
        n = n - 1;
    }
    proof {
        assert(v@.subrange(0, n as int) == v@.take(n as int));
    }
    collect(&v, 0, n)
}

/// The `diff --git` sections whose header names the row: `a/<old-or-path> b/<path>`.
/// A pathspec matches its descendants, so `git diff -- tools` also prints `tools/run`.
pub fn keep_sections(output: &str, path: &str, old: Option<&str>) -> (r: String)
    ensures
        r@ == kept_from(
            output@,
            0,
            false,
            wanted_a_spec(
                path@,
                match old {
                    Some(o) => Some(o@),
                    None => None,
                },
            ),
            wanted_b_spec(path@),
        ),
{
    let wanted_b = cat("b/", path);
    let wanted_a = cat(
        "a/",
        match old {
            Some(o) => o,
            None => path,
        },
    );
    let ghost wa = wanted_a@;
    let ghost wb = wanted_b@;
    proof {
        reveal_strlit("b/");
        reveal_strlit("a/");
    }
    let v = chars(output);
    let n = v.len();
    let mut kept = String::new();
    let mut keep = false;
    let mut start: usize = 0;
    while start < n
        invariant
            v@ == output@,
            n == v@.len(),
            start <= n,
            wa == wanted_a@,
            wb == wanted_b@,
            kept_from(v@, 0, false, wa, wb) == kept@ + kept_from(v@, start as int, keep, wa, wb),
        decreases n - start,
    {
        let mut e = start;
        while e < n && v[e] != '\n'
            invariant
                n == v@.len(),
                start <= e <= n,
                newline_from(v@, start as int) == newline_from(v@, e as int),
            decreases n - e,
        {
            e = e + 1;
        }
        proof {
            lemma_newline_from(v@, start as int);
        }
        let cut = if e < n {
            e + 1
        } else {
            n
        };
        let line = collect(&v, start, cut);
        match strip_prefix(line.as_str(), "diff --git ") {
            Some(header) => {
                proof {
                    reveal_strlit("diff --git ");
                }
                let h = trim_trailing_newlines(header.as_str());
                keep = names_row(h.as_str(), wanted_a.as_str(), wanted_b.as_str());
            },
            None => {
                proof {
                    reveal_strlit("diff --git ");
                }
            },
        }
        let ghost before = kept@;
        if keep {
            push_str(&mut kept, line.as_str());
        }
        proof {
            assert(line_end(v@, start as int) == cut);
            if keep {
                assert(kept@ + kept_from(v@, cut as int, keep, wa, wb) =~= before + (line@ + kept_from(
                    v@,
                    cut as int,
                    keep,
                    wa,
                    wb,
                )));
            } else {
                assert(kept@ + kept_from(v@, cut as int, keep, wa, wb) =~= before + (Seq::<char>::empty()
                    + kept_from(v@, cut as int, keep, wa, wb)));
            }
        }
        start = cut;
    }
    kept
}

// ---------------------------------------------------------------------------
// The rows of branch scope.
// ---------------------------------------------------------------------------

/// Branch scope's rows, and each renamed row's path with its old path.
#[derive(Debug, Clone, PartialEq, Eq)]
pub struct BranchRows {
    pub files: Vec<ChangedFile>,
    pub rename_sources: Vec<(String, String)>,
}

pub open spec fn row_view(f: ChangedFile) -> (Seq<char>, ChangedFileStatus, bool, Option<u32>, Option<u32>) {
    (f.path@, f.status, f.staged, f.insertions, f.deletions)
}

pub open spec fn rows_view(v: Seq<ChangedFile>) -> Seq<(Seq<char>, ChangedFileStatus, bool, Option<u32>, Option<u32>)> {
    v.map_values(|f: ChangedFile| row_view(f))
}

pub type RowView = (Seq<char>, ChangedFileStatus, bool, Option<u32>, Option<u32>);

/// The line counts `counts` gives a path: those of its first entry.
pub open spec fn counts_of(counts: Seq<(Seq<char>, u32, u32)>, path: Seq<char>) -> (Option<u32>, Option<u32>)
    decreases counts.len(),
{
    if counts.len() == 0 {
        (None, None)
    } else if counts[0].0 == path {
        (Some(counts[0].1), Some(counts[0].2))
    } else {
        counts_of(counts.drop_first(), path)
    }
}

/// The row a name-status record gives, with its line counts.
pub open spec fn record_row(r: (char, Option<Seq<char>>, Seq<char>), counts: Seq<(Seq<char>, u32, u32)>) -> RowView {
    let (ins, del) = counts_of(counts, r.2);
    (r.2, status_of_spec(r.0), false, ins, del)
}

/// Orders rows by path, characters compared by their code (the order of UTF-8 bytes), an
/// untracked row after a tracked one of the same path.
pub open spec fn text_less(a: Seq<char>, b: Seq<char>) -> bool
    decreases a.len(),
{
    if b.len() == 0 {
        false
    } else if a.len() == 0 {
        true
    } else if (a[0] as int) < (b[0] as int) {
        true
    } else if (a[0] as int) > (b[0] as int) {
        false
    } else {
        text_less(a.drop_first(), b.drop_first())
    }
}

pub open spec fn row_less(a: RowView, b: RowView) -> bool {
    text_less(a.0, b.0) || (a.0 == b.0 && a.1 != ChangedFileStatus::Untracked && b.1 == ChangedFileStatus::Untracked)
}

/// `sorted` with `x` inserted after every row not greater than it: a stable insertion.
pub open spec fn insert_row(sorted: Seq<RowView>, x: RowView) -> Seq<RowView>
    decreases sorted.len(),
{
    if sorted.len() == 0 {
        seq![x]
    } else if row_less(x, sorted.last()) {
        insert_row(sorted.drop_last(), x).push(sorted.last())
    } else {
        sorted.push(x)
    }
}

/// The rows in order: a stable sort.
pub open spec fn sort_rows(rows: Seq<RowView>) -> Seq<RowView>
    decreases rows.len(),
{
    if rows.len() == 0 {
        seq![]
    } else {
        insert_row(sort_rows(rows.drop_last()), rows.last())
    }
}

/// Repeated paths collapse to their first row, except that a deleted row keeps the row
/// after it: a path deleted on the branch and recreated untracked is two rows.
pub open spec fn dedup_rows(rows: Seq<RowView>) -> Seq<RowView>
    decreases rows.len(),
{
    if rows.len() == 0 {
        seq![]
    } else {
        let kept = dedup_rows(rows.drop_last());
        let x = rows.last();
        if kept.len() > 0 && kept.last().0 == x.0 && kept.last().1 != ChangedFileStatus::Deleted {
            kept
        } else {
            kept.push(x)
        }
    }
}

/// The untracked rows among `rows`, in order.
pub open spec fn untracked_only(rows: Seq<ChangedFile>) -> Seq<RowView>
    decreases rows.len(),
{
    if rows.len() == 0 {
        seq![]
    } else if rows.last().status == ChangedFileStatus::Untracked {
        untracked_only(rows.drop_last()).push(row_view(rows.last()))
    } else {
        untracked_only(rows.drop_last())
    }
}

/// Branch scope's rows: one per name-status record, then the untracked rows of the same
/// refresh, sorted and collapsed.
pub open spec fn branch_rows_spec(
    records: Seq<(char, Option<Seq<char>>, Seq<char>)>,
    counts: Seq<(Seq<char>, u32, u32)>,
    untracked: Seq<ChangedFile>,
) -> Seq<RowView> {
    dedup_rows(sort_rows(records.map_values(|r: (char, Option<Seq<char>>, Seq<char>)| record_row(r, counts)) + untracked_only(untracked)))
}

/// The old path of each renamed row, a later record of the same path replacing an earlier.
pub open spec fn renames(records: Seq<(char, Option<Seq<char>>, Seq<char>)>) -> Map<Seq<char>, Seq<char>>
    decreases records.len(),
{
    if records.len() == 0 {
        Map::empty()
    } else {
        let r = records.last();
        let m = renames(records.drop_last());
        match r.1 {
            Some(old) => if status_of_spec(r.0) == ChangedFileStatus::Renamed {
                m.insert(r.2, old)
            } else {
                m
            },
            None => m,
        }
    }
}

pub open spec fn pairs_map(v: Seq<(String, String)>) -> Map<Seq<char>, Seq<char>>
    decreases v.len(),
{
    if v.len() == 0 {
        Map::empty()
    } else {
        pairs_map(v.drop_last()).insert(v.last().0@, v.last().1@)
    }
}

fn text_less_exec(a: &str, b: &str) -> (r: bool)
    ensures
        r == text_less(a@, b@),
{
    let x = chars(a);
    let y = chars(b);
    let mut i: usize = 0;
    proof {
        assert(x@.skip(0) =~= x@);
        assert(y@.skip(0) =~= y@);
    }
    while i < x.len() && i < y.len() && x[i] == y[i]
        invariant
            x@ == a@,
            y@ == b@,
            i <= x@.len(),
            i <= y@.len(),
            text_less(a@, b@) == text_less(x@.skip(i as int), y@.skip(i as int)),
        decreases x@.len() - i,
    {
        proof {
            assert(x@.skip(i as int).drop_first() == x@.skip(i + 1));
            assert(y@.skip(i as int).drop_first() == y@.skip(i + 1));
        }
        i = i + 1;
    }
    proof {
        assert(x@.skip(i as int).len() == x@.len() - i);
        assert(y@.skip(i as int).len() == y@.len() - i);
        if i < x@.len() {
            assert(x@.skip(i as int)[0] == x@[i as int]);
        }
        if i < y@.len() {
            assert(y@.skip(i as int)[0] == y@[i as int]);
        }
        if i < x@.len() && i < y@.len() {
            assert(x@[i as int] != y@[i as int]);
            assert((x@[i as int] as int) != (y@[i as int] as int));
        }
    }
    if i == y.len() {
        false
    } else if i == x.len() {
        true
    } else {
        x[i] < y[i]
    }
}

fn row_less_exec(a: &ChangedFile, b: &ChangedFile) -> (r: bool)
    ensures
        r == row_less(row_view(*a), row_view(*b)),
{
    text_less_exec(a.path.as_str(), b.path.as_str()) || (same(a.path.as_str(), b.path.as_str()) && a.status
        != ChangedFileStatus::Untracked && b.status == ChangedFileStatus::Untracked)
}

/// Inserts `x` into sorted rows, after every row not greater than it.
fn insert_sorted(rows: &mut Vec<ChangedFile>, x: ChangedFile)
    ensures
        rows_view(final(rows)@) == insert_row(rows_view(old(rows)@), row_view(x)),
{
    let ghost xv = row_view(x);
    let mut tail: Vec<ChangedFile> = Vec::new();
    while rows.len() > 0 && row_less_exec(&x, &rows[rows.len() - 1])
        invariant
            insert_row(rows_view(old(rows)@), xv) == insert_row(rows_view(rows@), xv) + rows_view(tail@).reverse(),
            xv == row_view(x),
        decreases rows@.len(),
    {
        let ghost before = rows_view(rows@);
        let ghost tail_before = rows_view(tail@);
        let last = rows.pop().unwrap();
        proof {
            assert(before.last() == row_view(last));
            assert(before.drop_last() =~= rows_view(rows@));
        }
        tail.push(last);
        proof {
            assert(rows_view(tail@) =~= tail_before.push(before.last()));
            assert(rows_view(tail@).reverse() =~= seq![before.last()] + tail_before.reverse());
            assert(insert_row(before, xv) == insert_row(rows_view(rows@), xv).push(before.last()));
            assert(insert_row(rows_view(rows@), xv).push(before.last()) + tail_before.reverse() =~= insert_row(
                rows_view(rows@),
                xv,
            ) + (seq![before.last()] + tail_before.reverse()));
        }
    }
    let ghost at = rows_view(rows@);
    proof {
        if at.len() > 0 {
            assert(!row_less(xv, at.last()));
        }
        assert(insert_row(at, xv) == at.push(xv));
    }
    rows.push(x);
    proof {
        assert(rows_view(rows@) =~= at.push(xv));
    }
    while tail.len() > 0
        invariant
            insert_row(rows_view(old(rows)@), xv) == rows_view(rows@) + rows_view(tail@).reverse(),
        decreases tail@.len(),
    {
        let ghost r0 = rows_view(rows@);
        let ghost t0 = rows_view(tail@);
        let y = tail.pop().unwrap();
        proof {
            assert(t0.last() == row_view(y));
            assert(t0.drop_last() =~= rows_view(tail@));
            assert(t0.reverse() =~= seq![t0.last()] + rows_view(tail@).reverse());
        }
        rows.push(y);
        proof {
            assert(rows_view(rows@) =~= r0.push(row_view(y)));
            assert(r0 + t0.reverse() =~= rows_view(rows@) + rows_view(tail@).reverse());
        }
    }
    proof {
        assert(rows_view(tail@).reverse() =~= Seq::<RowView>::empty());
        assert(rows_view(rows@) + Seq::<RowView>::empty() =~= rows_view(rows@));
    }
}

pub open spec fn counts_view(v: Seq<(String, u32, u32)>) -> Seq<(Seq<char>, u32, u32)> {
    v.map_values(|c: (String, u32, u32)| (c.0@, c.1, c.2))
}

fn lookup_counts(counts: &Vec<(String, u32, u32)>, path: &str) -> (r: (Option<u32>, Option<u32>))
    ensures
        r == counts_of(counts_view(counts@), path@),
{
    let ghost cv = counts_view(counts@);
    let mut i: usize = 0;
    proof {
        assert(cv.skip(0) =~= cv);
    }
    while i < counts.len()
        invariant
            cv == counts_view(counts@),
            i <= counts@.len(),
            counts_of(cv, path@) == counts_of(cv.skip(i as int), path@),
        decreases counts@.len() - i,
    {
        proof {
            assert(cv.skip(i as int)[0] == (counts@[i as int].0@, counts@[i as int].1, counts@[i as int].2));
            assert(cv.skip(i as int).drop_first() =~= cv.skip(i + 1));
        }
        if same(counts[i].0.as_str(), path) {
            return (Some(counts[i].1), Some(counts[i].2));
        }
        i = i + 1;
    }
    proof {
        assert(cv.skip(i as int).len() == 0);
    }
    (None, None)
}

/// Branch scope's rows from the name-status records against the merge-base, their line
/// counts, and the untracked rows of the same refresh: sorted by path, an untracked row after
/// a deleted one of the same path, other repeats of a path collapsed to the first.
pub fn assemble_rows(records: &Vec<NameStatus>, counts: &Vec<(String, u32, u32)>, untracked: Vec<ChangedFile>) -> (r: BranchRows)
    ensures
        rows_view(r.files@) == branch_rows_spec(name_status_views(records@), counts_view(counts@), untracked@),
        pairs_map(r.rename_sources@) == renames(name_status_views(records@)),
{
    let ghost recs = name_status_views(records@);
    let ghost cv = counts_view(counts@);
    let mut rows: Vec<ChangedFile> = Vec::new();
    let mut renamed: Vec<(String, String)> = Vec::new();
    let mut i: usize = 0;
    while i < records.len()
        invariant
            recs == name_status_views(records@),
            cv == counts_view(counts@),
            i <= records@.len(),
            rows@.len() == i,
            rows_view(rows@) == recs.take(i as int).map_values(
                |r: (char, Option<Seq<char>>, Seq<char>)| record_row(r, cv),
            ),
            pairs_map(renamed@) == renames(recs.take(i as int)),
        decreases records@.len() - i,
    {
        let rec = &records[i];
        let status = status_of(rec.status);
        let (insertions, deletions) = lookup_counts(counts, rec.path.as_str());
        let ghost rv = recs[i as int];
        proof {
            assert(rv == name_status_view(records@[i as int]));
        }
        let ghost before_rows = rows_view(rows@);
        let row = ChangedFile { path: copy(&rec.path), status, staged: false, insertions, deletions };
        proof {
            assert(row_view(row) == record_row(rv, cv));
        }
        let ghost row_g = row;
        let ghost old_rows = rows@;
        rows.push(row);
        proof {
            let target = recs.take(i + 1).map_values(|r: (char, Option<Seq<char>>, Seq<char>)| record_row(r, cv));
            assert(recs.take(i + 1).drop_last() =~= recs.take(i as int));
            assert(rows@ == old_rows.push(row_g));
            assert forall|k: int| 0 <= k < i + 1 implies rows_view(rows@)[k] == target[k] by {
                if k < i {
                    assert(rows@[k] == old_rows[k]);
                    assert(rows_view(rows@)[k] == before_rows[k]);
                    assert(recs.take(i + 1)[k] == recs.take(i as int)[k]);
                } else {
                    assert(recs.take(i + 1)[k] == rv);
                }
            }
            assert(rows_view(rows@) =~= target);
        }
        let ghost before_pairs = renamed@;
        if matches!(status, ChangedFileStatus::Renamed) {
            if let Some(old) = &rec.old {
                renamed.push((copy(&rec.path), copy(old)));
                proof {
                    assert(renamed@.drop_last() == before_pairs);
                }
            }
        }
        proof {
            assert(recs.take(i + 1).last() == rv);
        }
        i = i + 1;
    }
    proof {
        assert(recs.take(records@.len() as int) == recs);
    }
    let ghost tracked_rows = rows_view(rows@);
    let mut j: usize = 0;
    let ghost u = untracked@;
    while j < untracked.len()
        invariant
            u == untracked@,
            j <= u.len(),
            rows_view(rows@) == tracked_rows + untracked_only(u.take(j as int)),
        decreases u.len() - j,
    {
        proof {
            assert(u.take(j + 1).drop_last() =~= u.take(j as int));
            assert(u.take(j + 1).last() == u[j as int]);
        }
        if matches!(untracked[j].status, ChangedFileStatus::Untracked) {
            let f = &untracked[j];
            let ghost before = rows_view(rows@);
            rows.push(ChangedFile {
                path: copy(&f.path),
                status: f.status,
                staged: f.staged,
                insertions: f.insertions,
                deletions: f.deletions,
            });
            proof {
                assert(rows_view(rows@) =~= before.push(row_view(u[j as int])));
            }
        }
        j = j + 1;
    }
    proof {
        assert(u.take(u.len() as int) == u);
    }
    let ghost all = rows_view(rows@);
    // A stable insertion sort.
    let mut sorted: Vec<ChangedFile> = Vec::new();
    let mut rest = rows;
    let mut taken: Vec<ChangedFile> = Vec::new();
    let mut k: usize = 0;
    let n = rest.len();
    let ghost order = rows_view(rest@);
    while k < n
        invariant
            order == all,
            n == order.len(),
            k <= n,
            rest@.len() == n,
            rows_view(rest@) == order,
            rows_view(sorted@) == sort_rows(order.take(k as int)),
        decreases n - k,
    {
        let f = &rest[k];
        let copy_f = ChangedFile { path: copy(&f.path), status: f.status, staged: f.staged, insertions: f.insertions, deletions: f.deletions };
        proof {
            assert(row_view(copy_f) == order[k as int]);
            assert(order.take(k + 1).drop_last() =~= order.take(k as int));
            assert(order.take(k + 1).last() == order[k as int]);
        }
        insert_sorted(&mut sorted, copy_f);
        k = k + 1;
    }
    proof {
        assert(order.take(n as int) == order);
    }
    let ghost ordered = rows_view(sorted@);
    let mut files: Vec<ChangedFile> = Vec::new();
    let mut m: usize = 0;
    while m < sorted.len()
        invariant
            ordered == rows_view(sorted@),
            m <= sorted@.len(),
            rows_view(files@) == dedup_rows(ordered.take(m as int)),
        decreases sorted@.len() - m,
    {
        let f = &sorted[m];
        proof {
            assert(ordered.take(m + 1).drop_last() =~= ordered.take(m as int));
            assert(ordered.take(m + 1).last() == ordered[m as int]);
            assert(ordered[m as int] == row_view(sorted@[m as int]));
        }
        let keep_previous = if files.len() > 0 {
            let last = &files[files.len() - 1];
            same(last.path.as_str(), f.path.as_str()) && !matches!(last.status, ChangedFileStatus::Deleted)
        } else {
            false
        };
        if !keep_previous {
            let ghost before = rows_view(files@);
            files.push(ChangedFile { path: copy(&f.path), status: f.status, staged: f.staged, insertions: f.insertions, deletions: f.deletions });
            proof {
                assert(rows_view(files@) =~= before.push(ordered[m as int]));
            }
        } else {
            proof {
                let kept = rows_view(files@);
                assert(kept.last() == row_view(files@[files@.len() - 1]));
            }
        }
        m = m + 1;
    }
    proof {
        assert(ordered.take(sorted@.len() as int) == ordered);
    }
    BranchRows { files, rename_sources: renamed }
}

} // verus!
