//! Actions run from the host: opening a viewer, reusing an open one, updating the install.
pub mod popup;
pub mod reuse;
pub mod update;

use vstd::prelude::*;

use crate::actions::popup::{popup_view, PopupSize};
use crate::herdr::api::PaneInfo;
use crate::strs::{copy, opt_view, own, same};
use crate::tui::config::opt_str;

verus! {

/// The title the host shows for a viewer pane.
pub const VIEWER_TITLE: &'static str = "Hunks";

/// Where the host opens a viewer.
#[derive(Debug, Clone, Copy, PartialEq, Eq, Structural)]
pub enum Placement {
    Overlay,
    Popup,
    Split,
}

pub open spec fn placement_name(p: Placement) -> Seq<char> {
    match p {
        Placement::Overlay => "overlay"@,
        Placement::Popup => "popup"@,
        Placement::Split => "split"@,
    }
}

impl Placement {
    /// The placement as the host's `plugin.pane.open` names it.
    pub fn name(&self) -> (r: &'static str)
        ensures
            r@ == placement_name(*self),
    {
        proof {
            reveal_strlit("overlay");
            reveal_strlit("popup");
            reveal_strlit("split");
        }
        match self {
            Placement::Overlay => "overlay",
            Placement::Popup => "popup",
            Placement::Split => "split",
        }
    }
}

/// The parameters of a `plugin.pane.open` request that opens a viewer. `env` holds the
/// variables handed to the viewer, as name and value.
#[derive(Debug, Clone, PartialEq, Eq)]
pub struct OpenParams {
    pub plugin_id: String,
    pub entrypoint: String,
    pub placement: Placement,
    pub cwd: String,
    pub env: Vec<(String, String)>,
    pub focus: bool,
    pub width: Option<PopupSize>,
    pub height: Option<PopupSize>,
    pub target_pane_id: Option<String>,
    pub direction: Option<String>,
}

pub open spec fn env_view(env: Seq<(String, String)>) -> Seq<(Seq<char>, Seq<char>)> {
    env.map_values(|e: (String, String)| (e.0@, e.1@))
}

pub open spec fn size_view(s: Option<PopupSize>) -> Option<(bool, int, Seq<char>)> {
    match s {
        Some(p) => Some(popup_view(p)),
        None => None,
    }
}

/// The viewer's environment: its placement unless it is the overlay, then the pane it was
/// opened from, if any.
pub open spec fn open_env(placement: Placement, opener: Option<Seq<char>>) -> Seq<(Seq<char>, Seq<char>)> {
    (if placement != Placement::Overlay {
        seq![("HERDR_HUNKS_PLACEMENT"@, placement_name(placement))]
    } else {
        Seq::empty()
    }) + match opener {
        Some(o) => seq![("HERDR_HUNKS_OPENER_PANE"@, o)],
        None => Seq::empty(),
    }
}

/// The request that opens a viewer: focused, in the repository's directory; a popup at 80%
/// each way; a split to the right of the pane it was opened from.
pub fn open_params(plugin_id: &str, placement: Placement, opener: Option<&str>, repo_cwd: &str) -> (r: OpenParams)
    ensures
        r.plugin_id@ == plugin_id@,
        r.entrypoint@ == "viewer"@,
        r.placement == placement,
        r.cwd@ == repo_cwd@,
        env_view(r.env@) == open_env(placement, opt_str(opener)),
        r.focus,
        size_view(r.width) == if placement == Placement::Popup { Some((false, 0int, "80%"@)) } else { None },
        size_view(r.height) == if placement == Placement::Popup { Some((false, 0int, "80%"@)) } else { None },
        opt_view(r.target_pane_id) == if placement == Placement::Split { opt_str(opener) } else { None },
        opt_view(r.direction) == if placement == Placement::Split { Some("right"@) } else { None },
{
    let mut env: Vec<(String, String)> = Vec::new();
    if placement != Placement::Overlay {
        env.push((own("HERDR_HUNKS_PLACEMENT"), own(placement.name())));
    }
    proof {
        assert(env_view(env@) == (if placement != Placement::Overlay {
            seq![("HERDR_HUNKS_PLACEMENT"@, placement_name(placement))]
        } else {
            Seq::<(Seq<char>, Seq<char>)>::empty()
        }));
    }
    let ghost before = env@;
    let mut target: Option<String> = None;
    if let Some(o) = opener {
        env.push((own("HERDR_HUNKS_OPENER_PANE"), own(o)));
        if placement == Placement::Split {
            target = Some(own(o));
        }
    }
    proof {
        assert(env_view(env@) =~= env_view(before) + match opt_str(opener) {
            Some(o) => seq![("HERDR_HUNKS_OPENER_PANE"@, o)],
            None => Seq::<(Seq<char>, Seq<char>)>::empty(),
        });
    }
    let (width, height) = if placement == Placement::Popup {
        (Some(PopupSize::Percent(own("80%"))), Some(PopupSize::Percent(own("80%"))))
    } else {
        (None, None)
    };
    let direction = if placement == Placement::Split { Some(own("right")) } else { None };
    OpenParams {
        plugin_id: own(plugin_id),
        entrypoint: own("viewer"),
        placement,
        cwd: own(repo_cwd),
        env,
        focus: true,
        width,
        height,
        target_pane_id: target,
        direction,
    }
}

pub open spec fn first_some(a: Option<Seq<char>>, b: Option<Seq<char>>) -> Option<Seq<char>> {
    match a {
        Some(x) => Some(x),
        None => b,
    }
}

/// The directory a viewer opens in: the focused pane's foreground directory, else the pane's
/// own, else the pane directory the host's context reports, else the workspace's.
pub open spec fn open_directory_spec(pane: Option<PaneInfo>, focused_pane_cwd: Option<Seq<char>>, workspace_cwd: Option<Seq<char>>) -> Option<Seq<char>> {
    let from_pane = match pane {
        Some(p) => first_some(opt_view(p.foreground_cwd), opt_view(p.cwd)),
        None => None,
    };
    first_some(first_some(from_pane, focused_pane_cwd), workspace_cwd)
}

fn first_of(a: &Option<String>, b: &Option<String>) -> (r: Option<String>)
    ensures
        opt_view(r) == first_some(opt_view(*a), opt_view(*b)),
{
    match a {
        Some(x) => Some(copy(x)),
        None => match b {
            Some(y) => Some(copy(y)),
            None => None,
        },
    }
}

/// The directory a viewer opens in; `None` when neither the pane nor the context names one.
pub fn open_directory(pane: Option<&PaneInfo>, focused_pane_cwd: Option<&str>, workspace_cwd: Option<&str>) -> (r: Option<String>)
    ensures
        opt_view(r) == open_directory_spec(
            match pane { Some(p) => Some(*p), None => None },
            opt_str(focused_pane_cwd),
            opt_str(workspace_cwd),
        ),
{
    let from_pane = match pane {
        Some(p) => first_of(&p.foreground_cwd, &p.cwd),
        None => None,
    };
    if from_pane.is_some() {
        return from_pane;
    }
    match focused_pane_cwd {
        Some(c) => Some(own(c)),
        None => match workspace_cwd {
            Some(c) => Some(own(c)),
            None => None,
        },
    }
}

/// Whether the focused pane is itself a viewer: its label is the viewer's title. Opening from
/// there would open or focus the viewer on top of itself.
pub fn opened_from_viewer(pane: Option<&PaneInfo>) -> (r: bool)
    ensures
        r == match pane {
            Some(p) => opt_view(p.label) == Some(VIEWER_TITLE@),
            None => false,
        },
{
    match pane {
        Some(p) => match &p.label {
            Some(label) => same(label.as_str(), VIEWER_TITLE),
            None => false,
        },
        None => false,
    }
}

} // verus!
