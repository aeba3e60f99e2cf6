pub mod base;
pub mod branch;
pub mod gitver;
pub mod marks;
pub mod nav;
pub mod picks;
pub mod session;
pub mod types;

pub use types::{
    ref_label, Base, BaseSource, Command, Comparison, DiffState, FileKey, LoadedDiff, Mark, MarkState,
    QuickBase, RepoState, Scope, Snapshot, MAX_DIFF_LINES, NO_BASE_NOTICE,
};

use vstd::prelude::*;

verus! {

/// The environment every git gets: the frozen tree spawns git itself, so the policy is
/// process-wide.
pub fn git_child_env() -> (r: [(&'static str, &'static str); 3])
    ensures
        r@.map_values(|p: (&'static str, &'static str)| (p.0@, p.1@)) == seq![
            ("GIT_OPTIONAL_LOCKS"@, "0"@),
            ("GIT_LITERAL_PATHSPECS"@, "1"@),
            ("GIT_NO_LAZY_FETCH"@, "1"@),
        ],
{
    let r = [("GIT_OPTIONAL_LOCKS", "0"), ("GIT_LITERAL_PATHSPECS", "1"), ("GIT_NO_LAZY_FETCH", "1")];
    proof {
        assert(r@.map_values(|p: (&'static str, &'static str)| (p.0@, p.1@)) =~= seq![
            ("GIT_OPTIONAL_LOCKS"@, "0"@),
            ("GIT_LITERAL_PATHSPECS"@, "1"@),
            ("GIT_NO_LAZY_FETCH"@, "1"@),
        ]);
    }
    r
}

} // verus!
