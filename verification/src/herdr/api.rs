//! What the host reports about a pane.
use vstd::prelude::*;

verus! {

/// A pane as `pane.get` describes it; the absent fields are `None`.
#[derive(Debug, Clone, PartialEq, Eq)]
pub struct PaneInfo {
    pub pane_id: String,
    pub label: Option<String>,
    pub cwd: Option<String>,
    pub foreground_cwd: Option<String>,
}

} // verus!
