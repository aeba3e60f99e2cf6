//! The viewer's settings: their defaults, and what a configuration file's text sets.
use vstd::prelude::*;

use crate::engine::Scope;
use crate::strs::{cat, chars, copy, opt_view, own, push_str, same, views};

verus! {

#[derive(Debug, Clone, Copy, PartialEq, Eq, Structural)]
pub enum ModeSetting {
    Auto,
    Unified,
    Split,
}

#[derive(Debug, Clone, Copy, PartialEq, Eq, Structural)]
pub enum FilesSetting {
    Auto,
    Pinned,
    Hidden,
}

#[derive(Debug, Clone, PartialEq, Eq)]
pub struct Config {
    pub mode: ModeSetting,
    pub files: FilesSetting,
    pub mouse: bool,
    pub scope: Scope,
    pub base: Option<String>,
}

pub open spec fn default_config(c: Config) -> bool {
    &&& c.mode == ModeSetting::Auto
    &&& c.files == FilesSetting::Auto
    &&& c.mouse
    &&& c.scope == Scope::Worktree
    &&& c.base is None
}

impl Default for Config {
    fn default() -> (r: Self)
        ensures
            default_config(r),
    {
        Self { mode: ModeSetting::Auto, files: FilesSetting::Auto, mouse: true, scope: Scope::Worktree, base: None }
    }
}

// ---------------------------------------------------------------------------
// Reading `config.toml`.
// ---------------------------------------------------------------------------

/// What an entry of a TOML document holds, as far as the settings read it.
#[derive(Debug, Clone, PartialEq, Eq)]
pub enum Setting {
    Text(String),
    Integer(i64),
    Flag(bool),
    Table,
    Other,
}

pub open spec fn setting_view(s: Setting) -> (int, Seq<char>, int, bool) {
    match s {
        Setting::Text(t) => (0int, t@, 0int, false),
        Setting::Integer(n) => (1int, Seq::<char>::empty(), n as int, false),
        Setting::Flag(b) => (2int, Seq::<char>::empty(), 0int, b),
        Setting::Table => (3int, Seq::<char>::empty(), 0int, false),
        Setting::Other => (4int, Seq::<char>::empty(), 0int, false),
    }
}

pub open spec fn entry_view(r: Result<Option<Setting>, String>) -> Result<Option<(int, Seq<char>, int, bool)>, Seq<char>> {
    match r {
        Ok(Some(s)) => Ok(Some(setting_view(s))),
        Ok(None) => Ok(None),
        Err(e) => Err(e@),
    }
}

pub open spec fn opt_str(v: Option<&str>) -> Option<Seq<char>> {
    match v {
        Some(s) => Some(s@),
        None => None,
    }
}

/// What the `toml` crate reads from a document at `section`, or at `key` within it: the
/// parse error's text, nothing, or the entry's kind and value. It depends on its arguments
/// alone.
pub uninterp spec fn toml_entry_spec(text: Seq<char>, section: Seq<char>, key: Option<Seq<char>>) -> Result<Option<(int, Seq<char>, int, bool)>, Seq<char>>;

/// `text.parse::<toml::Table>()`, then the entry at `section` (or at `key` in it): the
/// parse error as text, or the entry sorted by kind. TOML's grammar, and the error's wording,
/// are left to the name `toml_entry_spec`.
#[verifier::external_body]
pub(crate) fn toml_entry(text: &str, section: &str, key: Option<&str>) -> (r: Result<Option<Setting>, String>)
    ensures
        entry_view(r) == toml_entry_spec(text@, section@, opt_str(key)),
{
    let table: toml::Table = text.parse().map_err(|e: toml::de::Error| e.to_string())?;
    let value = match key {
        Some(k) => table.get(section).and_then(|s| s.get(k)),
        None => table.get(section),
    };
    Ok(value.map(|v| match v {
        toml::Value::String(s) => Setting::Text(s.clone()),
        toml::Value::Integer(n) => Setting::Integer(*n),
        toml::Value::Boolean(b) => Setting::Flag(*b),
        toml::Value::Table(_) => Setting::Table,
        _ => Setting::Other,
    }))
}

/// What `{:?}` writes for a string: it quoted, with escapes. It depends on the text alone.
pub uninterp spec fn debug_text(s: Seq<char>) -> Seq<char>;

/// `format!("{:?}", s)`; the escaping rules of `str::escape_debug` are left to the name.
#[verifier::external_body]
fn debug_quoted(s: &str) -> (r: String)
    ensures
        r@ == debug_text(s@),
{
    format!("{s:?}")
}

/// How a refused value is named in a problem: `Some` and the quoted text for a string,
/// `None` for anything else.
pub open spec fn got_spec(v: (int, Seq<char>, int, bool)) -> Seq<char> {
    if v.0 == 0 {
        "Some("@ + debug_text(v.1) + ")"@
    } else {
        "None"@
    }
}

fn got(v: &Setting) -> (r: String)
    ensures
        r@ == got_spec(setting_view(*v)),
{
    match v {
        Setting::Text(t) => {
            let mut r = own("Some(");
            push_str(&mut r, debug_quoted(t.as_str()).as_str());
            r.push(')');
            proof {
                reveal_strlit(")");
                reveal_strlit("Some(");
                assert(r@ =~= got_spec(setting_view(*v)));
            }
            r
        },
        _ => own("None"),
    }
}

/// A choice among named values: the entry's value if it is one of the names, a problem
/// naming the choices otherwise, nothing when absent.
pub open spec fn choice(entry: Option<(int, Seq<char>, int, bool)>, names: Seq<Seq<char>>) -> Option<Result<int, Seq<char>>> {
    match entry {
        None => None,
        Some(v) => if v.0 == 0 && name_index(names, v.1, 0) is Some {
            Some(Ok(name_index(names, v.1, 0)->0))
        } else {
            Some(Err(got_spec(v)))
        },
    }
}

/// The first index from `i` on of `name` among `names`.
pub open spec fn name_index(names: Seq<Seq<char>>, name: Seq<char>, i: int) -> Option<int>
    decreases names.len() - i,
{
    if i < 0 || i >= names.len() {
        None
    } else if names[i] == name {
        Some(i)
    } else {
        name_index(names, name, i + 1)
    }
}

/// The settings a configuration text gives, starting from the defaults, and the problems:
/// an unparsable text costs every key; one bad value costs only its own key.
pub open spec fn config_problem_free(text: Seq<char>) -> bool {
    toml_entry_spec(text, "view"@, Some("mode"@)) is Ok
}

pub open spec fn entry_or_none(r: Result<Option<(int, Seq<char>, int, bool)>, Seq<char>>) -> Option<(int, Seq<char>, int, bool)> {
    match r {
        Ok(e) => e,
        Err(_) => None,
    }
}

pub open spec fn mode_names() -> Seq<Seq<char>> {
    seq!["auto"@, "unified"@, "split"@]
}

pub open spec fn files_names() -> Seq<Seq<char>> {
    seq!["auto"@, "pinned"@, "hidden"@]
}

pub open spec fn scope_names() -> Seq<Seq<char>> {
    seq!["worktree"@, "branch"@]
}

pub open spec fn choice_view(c: Option<Result<usize, String>>) -> Option<Result<int, Seq<char>>> {
    match c {
        Some(Ok(i)) => Some(Ok(i as int)),
        Some(Err(m)) => Some(Err(m@)),
        None => None,
    }
}

/// One setting read: its value, or a problem and the default.
fn choose_setting(text: &str, section: &str, key: &str, names: &Vec<&str>) -> (r: Option<Result<usize, String>>)
    ensures
        choice_view(r) == choice(entry_or_none(toml_entry_spec(text@, section@, Some(key@))), names@.map_values(|n: &str| n@)),
{
    let ghost nv = names@.map_values(|n: &str| n@);
    let entry = match toml_entry(text, section, Some(key)) {
        Ok(e) => e,
        Err(_) => None,
    };
    match entry {
        None => None,
        Some(v) => {
            if let Setting::Text(t) = &v {
                let ghost ev = setting_view(v);
                let mut i: usize = 0;
                while i < names.len()
                    invariant
                        entry_or_none(toml_entry_spec(text@, section@, Some(key@))) == Some(ev),
                        ev.0 == 0,
                        ev.1 == t@,
                        nv == names@.map_values(|n: &str| n@),
                        i <= names@.len(),
                        name_index(nv, t@, 0) == name_index(nv, t@, i as int),
                    decreases names@.len() - i,
                {
                    proof {
                        assert(nv[i as int] == names@[i as int]@);
                    }
                    if same(names[i], t.as_str()) {
                        return Some(Ok(i));
                    }
                    i = i + 1;
                }
            }
            Some(Err(got(&v)))
        },
    }
}

pub open spec fn entry_at(text: Seq<char>, section: Seq<char>, key: Seq<char>) -> Option<(int, Seq<char>, int, bool)> {
    entry_or_none(toml_entry_spec(text, section, Some(key)))
}

/// The problem a refused choice costs.
pub open spec fn choice_problem(c: Option<Result<int, Seq<char>>>, prefix: Seq<char>) -> Seq<Seq<char>> {
    match c {
        Some(Err(g)) => seq![prefix + g],
        _ => seq![],
    }
}

pub open spec fn mode_of(c: Option<Result<int, Seq<char>>>) -> ModeSetting {
    match c {
        Some(Ok(i)) => if i == 1 {
            ModeSetting::Unified
        } else if i == 2 {
            ModeSetting::Split
        } else {
            ModeSetting::Auto
        },
        _ => ModeSetting::Auto,
    }
}

pub open spec fn files_of(c: Option<Result<int, Seq<char>>>) -> FilesSetting {
    match c {
        Some(Ok(i)) => if i == 1 {
            FilesSetting::Pinned
        } else if i == 2 {
            FilesSetting::Hidden
        } else {
            FilesSetting::Auto
        },
        _ => FilesSetting::Auto,
    }
}

pub open spec fn scope_of(c: Option<Result<int, Seq<char>>>) -> Scope {
    match c {
        Some(Ok(i)) => if i == 1 {
            Scope::Branch
        } else {
            Scope::Worktree
        },
        _ => Scope::Worktree,
    }
}

pub open spec fn mode_prefix() -> Seq<char> {
    "view.mode: expected \"auto\", \"unified\" or \"split\", got "@
}

pub open spec fn files_prefix() -> Seq<char> {
    "view.files: expected \"auto\", \"pinned\" or \"hidden\", got "@
}

pub open spec fn scope_prefix() -> Seq<char> {
    "view.scope: expected \"worktree\" or \"branch\", got "@
}

pub open spec fn base_prefix() -> Seq<char> {
    "base.ref: expected a revision that does not start with '-', got "@
}

pub open spec fn mouse_problem() -> Seq<char> {
    "input.mouse: expected true or false"@
}

/// Whether the entry is a usable base: text that is not refused before git sees it.
pub open spec fn usable_base(v: (int, Seq<char>, int, bool)) -> bool {
    v.0 == 0 && !crate::engine::base::refused_text(v.1)
}

/// What a configuration text sets: an unparsable text costs every key (and is the one
/// problem); otherwise each key is read on its own, a bad value costing only that key.
pub open spec fn config_read(text: Seq<char>, c: Config, problems: Seq<Seq<char>>) -> bool {
    match toml_entry_spec(text, "view"@, Some("mode"@)) {
        Err(e) => default_config(c) && problems == seq!["config.toml: "@ + e],
        Ok(_) => {
            let mode = choice(entry_at(text, "view"@, "mode"@), mode_names());
            let files = choice(entry_at(text, "view"@, "files"@), files_names());
            let scope = choice(entry_at(text, "view"@, "scope"@), scope_names());
            let mouse = entry_at(text, "input"@, "mouse"@);
            let base = entry_at(text, "base"@, "ref"@);
            &&& c.mode == mode_of(mode)
            &&& c.files == files_of(files)
            &&& c.mouse == match mouse {
                Some(v) => if v.0 == 2 {
                    v.3
                } else {
                    true
                },
                None => true,
            }
            &&& c.scope == scope_of(scope)
            &&& opt_view(c.base) == match base {
                Some(v) => if usable_base(v) {
                    Some(v.1)
                } else {
                    None
                },
                None => None,
            }
            &&& problems == choice_problem(mode, mode_prefix()) + choice_problem(files, files_prefix()) + match mouse {
                Some(v) => if v.0 == 2 {
                    Seq::<Seq<char>>::empty()
                } else {
                    seq![mouse_problem()]
                },
                None => Seq::<Seq<char>>::empty(),
            } + choice_problem(scope, scope_prefix()) + match base {
                Some(v) => if usable_base(v) {
                    Seq::<Seq<char>>::empty()
                } else {
                    seq![base_prefix() + got_spec(v)]
                },
                None => Seq::<Seq<char>>::empty(),
            }
        },
    }
}

fn push_choice_problem(problems: &mut Vec<String>, c: &Option<Result<usize, String>>, prefix: &str)
    ensures
        views(final(problems)@) == views(old(problems)@) + choice_problem(choice_view(*c), prefix@),
{
    if let Some(Err(g)) = c {
        problems.push(cat(prefix, g.as_str()));
        proof {
            assert(views(problems@) =~= views(old(problems)@) + seq![prefix@ + g@]);
        }
    } else {
        proof {
            assert(views(problems@) =~= views(old(problems)@) + Seq::<Seq<char>>::empty());
        }
    }
}

/// The settings a configuration text gives, and the problems met reading it.
pub fn config_from_text(text: &str) -> (r: (Config, Vec<String>))
    ensures
        config_read(text@, r.0, views(r.1@)),
{
    let mut config = Config { mode: ModeSetting::Auto, files: FilesSetting::Auto, mouse: true, scope: Scope::Worktree, base: None };
    let mut problems: Vec<String> = Vec::new();
    proof {
        reveal_strlit("view");
        reveal_strlit("mode");
        reveal_strlit("files");
        reveal_strlit("scope");
        reveal_strlit("input");
        reveal_strlit("mouse");
        reveal_strlit("base");
        reveal_strlit("ref");
        reveal_strlit("auto");
        reveal_strlit("unified");
        reveal_strlit("split");
        reveal_strlit("pinned");
        reveal_strlit("hidden");
        reveal_strlit("worktree");
        reveal_strlit("branch");
    }
    if let Err(e) = toml_entry(text, "view", Some("mode")) {
        problems.push(cat("config.toml: ", e.as_str()));
        proof {
            assert(views(problems@) =~= seq!["config.toml: "@ + e@]);
        }
        return (config, problems);
    }
    let mode_names_v: Vec<&str> = vec!["auto", "unified", "split"];
    let files_names_v: Vec<&str> = vec!["auto", "pinned", "hidden"];
    let scope_names_v: Vec<&str> = vec!["worktree", "branch"];
    proof {
        assert(mode_names_v@.map_values(|n: &str| n@) =~= mode_names());
        assert(files_names_v@.map_values(|n: &str| n@) =~= files_names());
        assert(scope_names_v@.map_values(|n: &str| n@) =~= scope_names());
    }
    let ghost mode_c = choice(entry_at(text@, "view"@, "mode"@), mode_names());
    let ghost files_c = choice(entry_at(text@, "view"@, "files"@), files_names());
    let ghost scope_c = choice(entry_at(text@, "view"@, "scope"@), scope_names());
    let ghost mouse_e = entry_at(text@, "input"@, "mouse"@);
    let ghost base_e = entry_at(text@, "base"@, "ref"@);
    let mode = choose_setting(text, "view", "mode", &mode_names_v);
    config.mode = match mode {
        Some(Ok(1)) => ModeSetting::Unified,
        Some(Ok(2)) => ModeSetting::Split,
        _ => ModeSetting::Auto,
    };
    push_choice_problem(&mut problems, &mode, mode_prefix_str());
    let ghost p1 = views(problems@);
    let files = choose_setting(text, "view", "files", &files_names_v);
    config.files = match files {
        Some(Ok(1)) => FilesSetting::Pinned,
        Some(Ok(2)) => FilesSetting::Hidden,
        _ => FilesSetting::Auto,
    };
    push_choice_problem(&mut problems, &files, files_prefix_str());
    let ghost p2 = views(problems@);
    match toml_entry(text, "input", Some("mouse")) {
        Ok(Some(Setting::Flag(b))) => config.mouse = b,
        Ok(Some(_)) => {
            problems.push(own("input.mouse: expected true or false"));
        },
        _ => {},
    }
    let ghost p3 = views(problems@);
    proof {
        reveal_strlit("input.mouse: expected true or false");
        assert(p3 =~= p2 + match mouse_e {
            Some(v) => if v.0 == 2 {
                Seq::<Seq<char>>::empty()
            } else {
                seq![mouse_problem()]
            },
            None => Seq::<Seq<char>>::empty(),
        });
    }
    let scope = choose_setting(text, "view", "scope", &scope_names_v);
    config.scope = match scope {
        Some(Ok(1)) => Scope::Branch,
        _ => Scope::Worktree,
    };
    push_choice_problem(&mut problems, &scope, scope_prefix_str());
    let ghost p4 = views(problems@);
    match toml_entry(text, "base", Some("ref")) {
        Ok(Some(v)) => {
            let usable = match &v {
                Setting::Text(t) => crate::engine::base::check_text(t.as_str()).is_ok(),
                _ => false,
            };
            if usable {
                if let Setting::Text(t) = v {
                    config.base = Some(t);
                }
            } else {
                let mut m = own(base_prefix_str());
                push_str(&mut m, got(&v).as_str());
                problems.push(m);
            }
        },
        _ => {},
    }
    proof {
        assert(views(problems@) =~= p4 + match base_e {
            Some(v) => if usable_base(v) {
                Seq::<Seq<char>>::empty()
            } else {
                seq![base_prefix() + got_spec(v)]
            },
            None => Seq::<Seq<char>>::empty(),
        });
        assert(p1 =~= choice_problem(mode_c, mode_prefix()));
        assert(p2 =~= p1 + choice_problem(files_c, files_prefix()));
        assert(p4 =~= p3 + choice_problem(scope_c, scope_prefix()));
    }
    (config, problems)
}

fn mode_prefix_str() -> (r: &'static str)
    ensures
        r@ == mode_prefix(),
{
    "view.mode: expected \"auto\", \"unified\" or \"split\", got "
}

fn files_prefix_str() -> (r: &'static str)
    ensures
        r@ == files_prefix(),
{
    "view.files: expected \"auto\", \"pinned\" or \"hidden\", got "
}

fn scope_prefix_str() -> (r: &'static str)
    ensures
        r@ == scope_prefix(),
{
    "view.scope: expected \"worktree\" or \"branch\", got "
}

fn base_prefix_str() -> (r: &'static str)
    ensures
        r@ == base_prefix(),
{
    "base.ref: expected a revision that does not start with '-', got "
}

} // verus!
