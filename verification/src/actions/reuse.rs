//! Which viewer pane a split may reuse.
use vstd::prelude::*;

use crate::actions::VIEWER_TITLE;
use crate::herdr::api::PaneInfo;
use crate::strs::{opt_view, own, push_str, same, trim, trim_spec};

verus! {

/// The viewer a split opened for an opener pane, and the repository it showed.
#[derive(Debug, Clone, PartialEq, Eq)]
pub struct Record {
    pub viewer_pane_id: String,
    pub repo_cwd: String,
    pub toplevel: String,
}

/// The separator between the socket and the pane id in a key: a unit separator, which
/// neither a path nor a pane id holds.
pub open spec fn key_spec(socket_path: Seq<char>, opener: Seq<char>) -> Seq<char> {
    socket_path + seq!['\u{1f}'] + opener
}

/// Pane ids are session-local and the state directory is shared, so the socket scopes the key.
pub fn key(socket_path: &str, opener: &str) -> (r: String)
    ensures
        r@ == key_spec(socket_path@, opener@),
{
    let mut r = own(socket_path);
    r.push('\u{1f}');
    push_str(&mut r, opener);
    proof {
        assert(r@ =~= key_spec(socket_path@, opener@));
    }
    r
}

/// A recorded viewer is reused only while it still shows the same repository: same
/// toplevel, still titled as a viewer, still in the recorded directory.
pub open spec fn may_reuse_spec(record: Record, toplevel: Seq<char>, viewer: Option<PaneInfo>) -> bool {
    match viewer {
        None => false,
        Some(v) => {
            &&& record.toplevel@ == toplevel
            &&& opt_view(v.label) == Some(VIEWER_TITLE@)
            &&& opt_view(v.cwd) == Some(record.repo_cwd@)
        },
    }
}

pub fn may_reuse(record: &Record, toplevel: &str, viewer: Option<&PaneInfo>) -> (r: bool)
    ensures
        r == may_reuse_spec(
            *record,
            toplevel@,
            match viewer {
                Some(v) => Some(*v),
                None => None,
            },
        ),
{
    let viewer = match viewer {
        Some(v) => v,
        None => return false,
    };
    if !same(record.toplevel.as_str(), toplevel) {
        return false;
    }
    let titled = match &viewer.label {
        Some(label) => same(label.as_str(), VIEWER_TITLE),
        None => false,
    };
    if !titled {
        return false;
    }
    match &viewer.cwd {
        Some(cwd) => same(cwd.as_str(), record.repo_cwd.as_str()),
        None => false,
    }
}

/// Keys are scoped by the socket: the same opener pane under two sockets has two keys.
pub proof fn law_keys_are_scoped_by_socket(socket_a: Seq<char>, socket_b: Seq<char>, opener: Seq<char>)
    requires
        socket_a != socket_b,
    ensures
        key_spec(socket_a, opener) != key_spec(socket_b, opener),
{
    if key_spec(socket_a, opener) == key_spec(socket_b, opener) {
        let ka = key_spec(socket_a, opener);
        assert(ka.len() == socket_a.len() + 1 + opener.len());
        assert(key_spec(socket_b, opener).len() == socket_b.len() + 1 + opener.len());
        assert(socket_a.len() == socket_b.len());
        assert forall|i: int| 0 <= i < socket_a.len() implies socket_a[i] == socket_b[i] by {
            assert(ka[i] == socket_a[i]);
            assert(key_spec(socket_b, opener)[i] == socket_b[i]);
        }
        assert(socket_a =~= socket_b);
    }
}

/// The repository a split shows: what `git rev-parse --show-toplevel` printed, trimmed, when it
/// succeeded with text; otherwise the directory the viewer opens in.
pub open spec fn toplevel_spec(answer: Option<Seq<char>>, repo_cwd: Seq<char>) -> Seq<char> {
    match answer {
        Some(t) => if trim_spec(t).len() > 0 { trim_spec(t) } else { repo_cwd },
        None => repo_cwd,
    }
}

/// The toplevel recorded for a split; `answer` is git's output when it succeeded as UTF-8.
pub fn toplevel_from(answer: Option<&str>, repo_cwd: &str) -> (r: String)
    ensures
        r@ == toplevel_spec(match answer { Some(t) => Some(t@), None => None }, repo_cwd@),
{
    match answer {
        Some(t) => {
            let trimmed = trim(t);
            if trimmed.as_str().unicode_len() > 0 { trimmed } else { own(repo_cwd) }
        },
        None => own(repo_cwd),
    }
}

/// The record kept after a split was opened: the new viewer, when the host named it.
pub fn opened_record(viewer_pane_id: Option<String>, repo_cwd: &str, toplevel: String) -> (r: Option<Record>)
    ensures
        match viewer_pane_id {
            Some(id) => r matches Some(rec) && rec.viewer_pane_id == id && rec.repo_cwd@ == repo_cwd@ && rec.toplevel == toplevel,
            None => r is None,
        },
{
    match viewer_pane_id {
        Some(id) => Some(Record { viewer_pane_id: id, repo_cwd: own(repo_cwd), toplevel }),
        None => None,
    }
}

} // verus!
