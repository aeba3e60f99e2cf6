//! The unread set and the ancestry classification of a review mark.
//!
//! Classifying a mark asks git at most two questions: whether the mark is an ancestor of
//! the head, and which paths differ between them. The decisions between the questions are
//! here; the loop that runs git hands back each answer.
use vstd::prelude::*;

use crate::bytes::{lossy, split_bytes, split_on_byte, utf8_lossy};
use crate::engine::{Mark, MarkState};
use crate::strs::{copy, copy_opt, decimal, decimal_string, opt_view, own, push_str, same, trim, trim_spec, views};

verus! {

/// A review mark as recorded: the commit and when it was marked.
#[derive(Debug, Clone, PartialEq, Eq)]
pub struct MarkRecord {
    pub commit: String,
    pub at: u64,
}

pub open spec fn state_view(s: MarkState) -> (int, Seq<char>) {
    match s {
        MarkState::Current => (0int, Seq::<char>::empty()),
        MarkState::Rewritten => (1int, Seq::<char>::empty()),
        MarkState::Unreadable(reason) => (2int, reason@),
    }
}

pub open spec fn mark_view(m: Mark) -> (Seq<char>, u64, (int, Seq<char>), Option<Seq<char>>) {
    (m.commit@, m.at, state_view(m.state), opt_view(m.classified_at))
}

fn copy_state(s: &MarkState) -> (r: MarkState)
    ensures
        state_view(r) == state_view(*s),
{
    match s {
        MarkState::Current => MarkState::Current,
        MarkState::Rewritten => MarkState::Rewritten,
        MarkState::Unreadable(reason) => MarkState::Unreadable(copy(reason)),
    }
}

fn copy_strings(v: &Vec<String>) -> (r: Vec<String>)
    ensures
        views(r@) == views(v@),
{
    let mut r: Vec<String> = Vec::new();
    let mut i: usize = 0;
    while i < v.len()
        invariant
            i <= v@.len(),
            r@.len() == i,
            views(r@) == views(v@.take(i as int)),
        decreases v@.len() - i,
    {
        let ghost before = r@;
        r.push(copy(&v[i]));
        proof {
            assert forall|k: int| 0 <= k < i + 1 implies views(r@)[k] == views(v@.take(i + 1))[k] by {
                if k < i {
                    assert(r@[k] == before[k]);
                    assert(views(before)[k] == views(v@.take(i as int))[k]);
                }
            }
            assert(views(r@) =~= views(v@.take(i + 1)));
        }
        i = i + 1;
    }
    proof {
        assert(v@.take(v@.len() as int) == v@);
    }
    r
}

// ---------------------------------------------------------------------------
// git's answers.
// ---------------------------------------------------------------------------

/// The paths a `diff --name-only -z` output names: its non-empty fields, decoded.
pub open spec fn named_paths(output: Seq<u8>) -> Set<Seq<char>> {
    Set::new(
        |p: Seq<char>|
            exists|k: int|
                0 <= k < split_bytes(output, 0u8).len() && #[trigger] split_bytes(output, 0u8)[k].len() > 0 && p
                    == lossy(split_bytes(output, 0u8)[k]),
    )
}

/// The paths of a `git diff <mark> <head> --name-only --no-renames -z` output, each once.
/// Rename detection is off: a detected rename would name its destination alone and leave
/// the deletion of the source, a row of its own, unflagged.
pub fn unread_paths(output: &[u8]) -> (r: Vec<String>)
    ensures
        views(r@).to_set() == named_paths(output@),
        views(r@).no_duplicates(),
{
    let parts = split_on_byte(output, 0);
    let ghost fields = split_bytes(output@, 0u8);
    proof {
        assert(crate::bytes::byte_views(parts@) == fields);
        assert forall|k: int| 0 <= k < parts@.len() implies #[trigger] parts@[k]@ == fields[k] by {
            assert(crate::bytes::byte_views(parts@)[k] == parts@[k]@);
        }
    }
    let mut out: Vec<String> = Vec::new();
    let mut i: usize = 0;
    while i < parts.len()
        invariant
            fields == split_bytes(output@, 0u8),
            fields.len() == parts@.len(),
            forall|k: int| 0 <= k < parts@.len() ==> #[trigger] parts@[k]@ == fields[k],
            i <= parts@.len(),
            views(out@).no_duplicates(),
            forall|p: Seq<char>|
                views(out@).contains(p) <==> exists|k: int|
                    0 <= k < i && #[trigger] fields[k].len() > 0 && p == lossy(fields[k]),
        decreases parts@.len() - i,
    {
        if parts[i].len() > 0 {
            let path = utf8_lossy(parts[i].as_slice());
            let mut seen = false;
            let mut j: usize = 0;
            while j < out.len()
                invariant
                    j <= out@.len(),
                    seen <==> exists|m: int| 0 <= m < j && out@[m]@ == path@,
                decreases out@.len() - j,
            {
                if same(out[j].as_str(), path.as_str()) {
                    seen = true;
                }
                j = j + 1;
            }
            let ghost before = views(out@);
            if !seen {
                out.push(path);
                proof {
                    assert(views(out@) =~= before.push(path@));
                    assert forall|m: int| 0 <= m < before.len() implies before[m] != path@ by {
                        assert(before[m] == out@[m]@);
                    }
                }
            } else {
                proof {
                    let m = choose|m: int| 0 <= m < out@.len() && out@[m]@ == path@;
                    assert(before[m] == path@);
                }
            }
            proof {
                assert forall|p: Seq<char>|
                    views(out@).contains(p) <==> exists|k: int|
                        0 <= k < i + 1 && #[trigger] fields[k].len() > 0 && p == lossy(fields[k]) by {
                    if views(out@).contains(p) && !before.contains(p) {
                        assert(fields[i as int].len() > 0 && p == lossy(fields[i as int]));
                    }
                    if exists|k: int| 0 <= k < i + 1 && #[trigger] fields[k].len() > 0 && p == lossy(fields[k]) {
                        let k = choose|k: int| 0 <= k < i + 1 && #[trigger] fields[k].len() > 0 && p == lossy(fields[k]);
                        if k == i {
                            if seen {
                                let m = choose|m: int| 0 <= m < out@.len() && out@[m]@ == path@;
                                assert(views(out@)[m] == p);
                            } else {
                                assert(views(out@)[before.len() as int] == p);
                            }
                        } else {
                            assert(before.contains(p));
                            let m = choose|m: int| 0 <= m < before.len() && before[m] == p;
                            assert(views(out@)[m] == p);
                        }
                    }
                }
            }
        } else {
            proof {
                assert forall|p: Seq<char>|
                    views(out@).contains(p) <==> exists|k: int|
                        0 <= k < i + 1 && #[trigger] fields[k].len() > 0 && p == lossy(fields[k]) by {
                    if exists|k: int| 0 <= k < i + 1 && #[trigger] fields[k].len() > 0 && p == lossy(fields[k]) {
                        let k = choose|k: int| 0 <= k < i + 1 && #[trigger] fields[k].len() > 0 && p == lossy(fields[k]);
                        assert(k != i);
                    }
                }
            }
        }
        i = i + 1;
    }
    proof {
        assert(views(out@).to_set() =~= named_paths(output@)) by {
            assert forall|p: Seq<char>| views(out@).to_set().contains(p) <==> named_paths(output@).contains(p) by {
                assert(views(out@).to_set().contains(p) <==> views(out@).contains(p));
            }
        }
    }
    out
}

/// The message of a failed `diff --name-only`.
pub open spec fn unread_failure(stderr: Seq<u8>) -> Seq<char> {
    "git diff --name-only failed: "@ + trim_spec(lossy(stderr))
}

/// The answer of `diff --name-only`: its paths on success, git's reason otherwise.
pub fn unread_answer(success: bool, stdout: &[u8], stderr: &[u8]) -> (r: Result<Vec<String>, String>)
    ensures
        success ==> (r matches Ok(v) && views(v@).to_set() == named_paths(stdout@) && views(v@).no_duplicates()),
        !success ==> (r matches Err(m) && m@ == unread_failure(stderr@)),
{
    if success {
        Ok(unread_paths(stdout))
    } else {
        let mut m = own("git diff --name-only failed: ");
        push_str(&mut m, trim(utf8_lossy(stderr).as_str()).as_str());
        Err(m)
    }
}

/// A signed exit code in decimal.
pub open spec fn signed_decimal(code: i32) -> Seq<char> {
    if code < 0 {
        seq!['-'] + decimal((-code) as nat)
    } else {
        decimal(code as nat)
    }
}

pub open spec fn ancestry_spec(code: Option<i32>) -> Result<bool, Seq<char>> {
    match code {
        Some(0) => Ok(true),
        Some(1) => Ok(false),
        Some(c) => Err("merge-base --is-ancestor exited "@ + signed_decimal(c)),
        None => Err("merge-base --is-ancestor was killed"@),
    }
}

/// `merge-base --is-ancestor` answers only by exit 0 (yes) and 1 (no); any other exit, a
/// signal, is no answer.
pub fn ancestry(code: Option<i32>) -> (r: Result<bool, String>)
    ensures
        match (r, ancestry_spec(code)) {
            (Ok(a), Ok(b)) => a == b,
            (Err(a), Err(b)) => a@ == b,
            _ => false,
        },
{
    match code {
        Some(0) => Ok(true),
        Some(1) => Ok(false),
        Some(c) => {
            let mut m = own("merge-base --is-ancestor exited ");
            if c < 0 {
                m.push('-');
                let magnitude: u128 = (0 - (c as i128)) as u128;
                push_str(&mut m, decimal_string(magnitude).as_str());
            } else {
                push_str(&mut m, decimal_string(c as u128).as_str());
            }
            proof {
                assert(m@ =~= "merge-base --is-ancestor exited "@ + signed_decimal(c));
            }
            Err(m)
        },
        None => Err(own("merge-base --is-ancestor was killed")),
    }
}

// ---------------------------------------------------------------------------
// Classification.
// ---------------------------------------------------------------------------

/// After the first decision: classified, with the paths to flag, or ancestry still to ask.
pub enum Classify {
    Done(Mark, Vec<String>),
    AskAncestry(Mark),
}

/// After the ancestry answer: classified, or the paths still to read; `dated` if the
/// classification they complete is dated at the head.
pub enum AfterAncestry {
    Done(Mark, Vec<String>),
    AskUnread { mark: Mark, dated: bool },
}

/// The mark a record starts from: the previous classification carries over while it is of
/// the same commit.
pub open spec fn start_mark(record: MarkRecord, previous: Option<Mark>) -> (Seq<char>, u64, (int, Seq<char>), Option<Seq<char>>) {
    match previous {
        Some(p) => if p.commit@ == record.commit@ {
            (record.commit@, record.at, state_view(p.state), opt_view(p.classified_at))
        } else {
            (record.commit@, record.at, (0int, Seq::<char>::empty()), None)
        },
        None => (record.commit@, record.at, (0int, Seq::<char>::empty()), None),
    }
}

/// Whether a previous answer still holds: the same commit, classified at this head, and
/// its set read at this head.
pub open spec fn reusable(record: MarkRecord, head: Seq<char>, previous: Option<Mark>, read_at: Option<Seq<char>>) -> bool {
    match (previous, read_at) {
        (Some(p), Some(r)) => p.commit@ == record.commit@ && r == head && opt_view(p.classified_at) == Some(head),
        _ => false,
    }
}

/// The first decision of classifying `record` against `head`: a pair answered at this head
/// is reused (taking the record's time, since another viewer may have marked the same commit
/// later); a mark at the head itself is current with nothing unread; otherwise ancestry is asked.
pub fn begin(
    record: &MarkRecord,
    head: &str,
    previous: Option<&Mark>,
    previous_unread: Option<(&str, &Vec<String>)>,
) -> (r: Classify)
    ensures
        ({
            let prev = match previous {
                Some(p) => Some(*p),
                None => None,
            };
            let read_at = match previous_unread {
                Some((at, _)) => Some(at@),
                None => None,
            };
            if reusable(*record, head@, prev, read_at) {
                r matches Classify::Done(m, set) && mark_view(m) == (
                    prev.unwrap().commit@,
                    record.at,
                    state_view(prev.unwrap().state),
                    opt_view(prev.unwrap().classified_at),
                ) && views(set@) == views(previous_unread.unwrap().1@)
            } else if record.commit@ == head@ {
                r matches Classify::Done(m, set) && mark_view(m) == (
                    record.commit@,
                    record.at,
                    (0int, Seq::<char>::empty()),
                    Some(head@),
                ) && set@.len() == 0
            } else {
                r matches Classify::AskAncestry(m) && mark_view(m) == start_mark(*record, prev)
            }
        }),
{
    if let (Some(p), Some((read_at, set))) = (previous, previous_unread) {
        let at_head = match &p.classified_at {
            Some(c) => same(c.as_str(), head),
            None => false,
        };
        if same(p.commit.as_str(), record.commit.as_str()) && same(read_at, head) && at_head {
            let mark = Mark {
                commit: copy(&p.commit),
                at: record.at,
                state: copy_state(&p.state),
                classified_at: copy_opt(&p.classified_at),
            };
            return Classify::Done(mark, copy_strings(set));
        }
    }
    let same_commit = match previous {
        Some(p) => same(p.commit.as_str(), record.commit.as_str()),
        None => false,
    };
    let (state, classified_at) = match previous {
        Some(p) if same_commit => (copy_state(&p.state), copy_opt(&p.classified_at)),
        _ => (MarkState::Current, None),
    };
    if same(record.commit.as_str(), head) {
        let mark = Mark {
            commit: copy(&record.commit),
            at: record.at,
            state: MarkState::Current,
            classified_at: Some(own(head)),
        };
        return Classify::Done(mark, Vec::new());
    }
    Classify::AskAncestry(Mark { commit: copy(&record.commit), at: record.at, state, classified_at })
}

/// The ancestry answer: an ancestor needs its unread set, dated at the head; a commit no
/// longer on the branch is rewritten, every row flagged; no answer keeps the previous
/// classification undated and retries, reading the set all the same.
pub fn after_ancestry(mark: Mark, head: &str, answer: Result<bool, String>) -> (r: AfterAncestry)
    ensures
        match answer {
            Ok(true) => r matches AfterAncestry::AskUnread { mark: m, dated } && dated && m == mark,
            Ok(false) => r matches AfterAncestry::Done(m, set) && mark_view(m) == (
                mark.commit@,
                mark.at,
                (1int, Seq::<char>::empty()),
                Some(head@),
            ) && set@.len() == 0,
            Err(_) => r matches AfterAncestry::AskUnread { mark: m, dated } && !dated && m == mark,
        },
{
    match answer {
        Ok(true) => AfterAncestry::AskUnread { mark, dated: true },
        Ok(false) => AfterAncestry::Done(
            Mark { commit: mark.commit, at: mark.at, state: MarkState::Rewritten, classified_at: Some(own(head)) },
            Vec::new(),
        ),
        Err(_) => AfterAncestry::AskUnread { mark, dated: false },
    }
}

/// The unread answer: its paths, with the mark current and dated when ancestry answered;
/// a failure makes the mark unreadable, dated so that it warns, with nothing flagged
/// by name (the state flags every row).
pub fn after_unread(mark: Mark, head: &str, dated: bool, answer: Result<Vec<String>, String>) -> (r: (Mark, Vec<String>))
    ensures
        match answer {
            Ok(set) => views(r.1@) == views(set@) && if dated {
                mark_view(r.0) == (mark.commit@, mark.at, (0int, Seq::<char>::empty()), Some(head@))
            } else {
                r.0 == mark
            },
            Err(reason) => mark_view(r.0) == (mark.commit@, mark.at, (2int, reason@), Some(head@)) && r.1@.len()
                == 0,
        },
{
    match answer {
        Ok(set) => {
            if dated {
                (
                    Mark { commit: mark.commit, at: mark.at, state: MarkState::Current, classified_at: Some(own(head)) },
                    set,
                )
            } else {
                (mark, set)
            }
        },
        Err(reason) => (
            Mark {
                commit: mark.commit,
                at: mark.at,
                state: MarkState::Unreadable(reason),
                classified_at: Some(own(head)),
            },
            Vec::new(),
        ),
    }
}

} // verus!
