//! Where the viewer keeps its configuration and its state, from the environment's answers.
use vstd::prelude::*;

use crate::filesystem::scope::{is_absolute, join, join_spec};
use crate::strs::{chars, own};

verus! {

/// A looked-up variable that names an absolute path.
pub open spec fn absolute_opt(v: Option<Seq<char>>) -> Option<Seq<char>> {
    match v {
        Some(p) => if is_absolute(p) {
            Some(p)
        } else {
            None
        },
        None => None,
    }
}

pub open spec fn opt_str(v: Option<&str>) -> Option<Seq<char>> {
    match v {
        Some(s) => Some(s@),
        None => None,
    }
}

/// The plugin's own directory if absolute; else the XDG directory, or `home_suffix` under
/// an absolute home, followed by `herdr-hunks`. Relative and empty values count as unset.
pub open spec fn directory_spec(
    plugin: Option<Seq<char>>,
    xdg: Option<Seq<char>>,
    home: Option<Seq<char>>,
    home_suffix: Seq<char>,
) -> Option<Seq<char>> {
    match absolute_opt(plugin) {
        Some(p) => Some(p),
        None => {
            let base = match absolute_opt(xdg) {
                Some(x) => Some(x),
                None => match absolute_opt(home) {
                    Some(h) => Some(join_spec(h, home_suffix)),
                    None => None,
                },
            };
            match base {
                Some(b) => Some(join_spec(b, "herdr-hunks"@)),
                None => None,
            }
        },
    }
}

fn absolute(v: Option<&str>) -> (r: Option<&str>)
    ensures
        opt_str(r) == absolute_opt(opt_str(v)),
{
    match v {
        Some(p) => {
            let c = chars(p);
            if c.len() > 0 && c[0] == '/' {
                Some(p)
            } else {
                None
            }
        },
        None => None,
    }
}

fn directory(plugin: Option<&str>, xdg: Option<&str>, home: Option<&str>, home_suffix: &str) -> (r: Option<String>)
    ensures
        match r {
            Some(d) => directory_spec(opt_str(plugin), opt_str(xdg), opt_str(home), home_suffix@) == Some(d@),
            None => directory_spec(opt_str(plugin), opt_str(xdg), opt_str(home), home_suffix@) is None,
        },
{
    if let Some(p) = absolute(plugin) {
        return Some(own(p));
    }
    let base = match absolute(xdg) {
        Some(x) => own(x),
        None => match absolute(home) {
            Some(h) => join(h, home_suffix),
            None => return None,
        },
    };
    Some(join(base.as_str(), "herdr-hunks"))
}

/// `$HERDR_PLUGIN_CONFIG_DIR`, else `${XDG_CONFIG_HOME:-~/.config}/herdr-hunks`, from the
/// values of those variables and of `HOME`.
pub fn config_dir(plugin_config_dir: Option<&str>, xdg_config_home: Option<&str>, home: Option<&str>) -> (r: Option<String>)
    ensures
        match r {
            Some(d) => directory_spec(opt_str(plugin_config_dir), opt_str(xdg_config_home), opt_str(home), ".config"@)
                == Some(d@),
            None => directory_spec(opt_str(plugin_config_dir), opt_str(xdg_config_home), opt_str(home), ".config"@) is None,
        },
{
    directory(plugin_config_dir, xdg_config_home, home, ".config")
}

/// `$HERDR_PLUGIN_STATE_DIR`, else `${XDG_STATE_HOME:-~/.local/state}/herdr-hunks`, from the
/// values of those variables and of `HOME`.
pub fn state_dir(plugin_state_dir: Option<&str>, xdg_state_home: Option<&str>, home: Option<&str>) -> (r: Option<String>)
    ensures
        match r {
            Some(d) => directory_spec(opt_str(plugin_state_dir), opt_str(xdg_state_home), opt_str(home), ".local/state"@)
                == Some(d@),
            None => directory_spec(opt_str(plugin_state_dir), opt_str(xdg_state_home), opt_str(home), ".local/state"@)
                is None,
        },
{
    directory(plugin_state_dir, xdg_state_home, home, ".local/state")
}

} // verus!
