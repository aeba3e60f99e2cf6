//! One binding table for input routing and the key sheet.
use vstd::prelude::*;

use crate::strs::{cat, own, same};
use crate::tui::dialog::{row_texts, Panel, Row, RowText};

verus! {

#[derive(Clone, Copy, Debug, PartialEq, Eq, Structural)]
pub enum KeyAction {
    LineDown,
    LineUp,
    HalfPageDown,
    HalfPageUp,
    HunkPrev,
    HunkNext,
    FileNext,
    FilePrev,
    SideDeletions,
    SideAdditions,
    ToggleView,
    ToggleFiles,
    PinFiles,
    Refresh,
    ToggleScope,
    First,
    Last,
    ScrollLeft,
    ScrollRight,
    ToggleMouse,
    Help,
    Quit,
}

pub struct Binding {
    pub key: &'static str,
    pub label: &'static str,
    pub action: KeyAction,
    pub vimeflow: Option<&'static str>,
}

/// A binding as characters: key, label, action, and the command name other hosts use.
pub type BindingView = (Seq<char>, Seq<char>, KeyAction, Option<Seq<char>>);

pub open spec fn binding_view(b: Binding) -> BindingView {
    (
        b.key@,
        b.label@,
        b.action,
        match b.vimeflow {
            Some(v) => Some(v@),
            None => None,
        },
    )
}

pub open spec fn binding_views(v: Seq<Binding>) -> Seq<BindingView> {
    v.map_values(|b: Binding| binding_view(b))
}

/// The key table, in key-sheet order.
pub open spec fn key_table() -> Seq<BindingView> {
    seq![
        ("j"@, "next row"@, KeyAction::LineDown, Some("diff-line-next"@)),
        ("k"@, "previous row"@, KeyAction::LineUp, Some("diff-line-previous"@)),
        ("ctrl+d"@, "half page down"@, KeyAction::HalfPageDown, Some("diff-scroll-page-down"@)),
        ("ctrl+u"@, "half page up"@, KeyAction::HalfPageUp, Some("diff-scroll-page-up"@)),
        ("["@, "previous hunk"@, KeyAction::HunkPrev, Some("diff-hunk-previous"@)),
        ("]"@, "next hunk"@, KeyAction::HunkNext, Some("diff-hunk-next"@)),
        ("n"@, "next file"@, KeyAction::FileNext, Some("diff-file-next"@)),
        ("p"@, "previous file"@, KeyAction::FilePrev, Some("diff-file-previous"@)),
        ("h"@, "deletions side"@, KeyAction::SideDeletions, Some("diff-side-deletions"@)),
        ("l"@, "additions side"@, KeyAction::SideAdditions, Some("diff-side-additions"@)),
        ("t"@, "unified / split"@, KeyAction::ToggleView, Some("diff-view-toggle"@)),
        ("e"@, "toggle files panel"@, KeyAction::ToggleFiles, Some("diff-files-toggle"@)),
        ("E"@, "pin files panel"@, KeyAction::PinFiles, Some("diff-files-pin"@)),
        ("r"@, "refresh"@, KeyAction::Refresh, Some("diff-refresh"@)),
        ("b"@, "switch scope"@, KeyAction::ToggleScope, None),
        ("g"@, "first row"@, KeyAction::First, None),
        ("G"@, "last row"@, KeyAction::Last, None),
        ("H"@, "scroll left"@, KeyAction::ScrollLeft, None),
        ("L"@, "scroll right"@, KeyAction::ScrollRight, None),
        ("m"@, "toggle mouse capture"@, KeyAction::ToggleMouse, None),
        ("?"@, "this key sheet"@, KeyAction::Help, None),
        ("q"@, "quit"@, KeyAction::Quit, None),
    ]
}

/// Keys no binding may ever take.
pub open spec fn reserved_keys() -> Seq<Seq<char>> {
    seq!["s"@, "d"@, "D"@, "i"@, "I"@, "u"@, "U"@, "x"@, "v"@, "y"@, "Y"@, "@"@, "c"@, "/"@]
}

pub fn reserved() -> (r: Vec<&'static str>)
    ensures
        r@.map_values(|k: &'static str| k@) == reserved_keys(),
{
    let r = vec!["s", "d", "D", "i", "I", "u", "U", "x", "v", "y", "Y", "@", "c", "/"];
    proof {
        assert(r@.map_values(|k: &'static str| k@) =~= reserved_keys());
    }
    r
}

/// The key table.
pub fn keys() -> (r: Vec<Binding>)
    ensures
        binding_views(r@) == key_table(),
{
    let r = vec![
        Binding { key: "j", label: "next row", action: KeyAction::LineDown, vimeflow: Some("diff-line-next") },
        Binding { key: "k", label: "previous row", action: KeyAction::LineUp, vimeflow: Some("diff-line-previous") },
        Binding { key: "ctrl+d", label: "half page down", action: KeyAction::HalfPageDown, vimeflow: Some("diff-scroll-page-down") },
        Binding { key: "ctrl+u", label: "half page up", action: KeyAction::HalfPageUp, vimeflow: Some("diff-scroll-page-up") },
        Binding { key: "[", label: "previous hunk", action: KeyAction::HunkPrev, vimeflow: Some("diff-hunk-previous") },
        Binding { key: "]", label: "next hunk", action: KeyAction::HunkNext, vimeflow: Some("diff-hunk-next") },
        Binding { key: "n", label: "next file", action: KeyAction::FileNext, vimeflow: Some("diff-file-next") },
        Binding { key: "p", label: "previous file", action: KeyAction::FilePrev, vimeflow: Some("diff-file-previous") },
        Binding { key: "h", label: "deletions side", action: KeyAction::SideDeletions, vimeflow: Some("diff-side-deletions") },
        Binding { key: "l", label: "additions side", action: KeyAction::SideAdditions, vimeflow: Some("diff-side-additions") },
        Binding { key: "t", label: "unified / split", action: KeyAction::ToggleView, vimeflow: Some("diff-view-toggle") },
        Binding { key: "e", label: "toggle files panel", action: KeyAction::ToggleFiles, vimeflow: Some("diff-files-toggle") },
        Binding { key: "E", label: "pin files panel", action: KeyAction::PinFiles, vimeflow: Some("diff-files-pin") },
        Binding { key: "r", label: "refresh", action: KeyAction::Refresh, vimeflow: Some("diff-refresh") },
        Binding { key: "b", label: "switch scope", action: KeyAction::ToggleScope, vimeflow: None },
        Binding { key: "g", label: "first row", action: KeyAction::First, vimeflow: None },
        Binding { key: "G", label: "last row", action: KeyAction::Last, vimeflow: None },
        Binding { key: "H", label: "scroll left", action: KeyAction::ScrollLeft, vimeflow: None },
        Binding { key: "L", label: "scroll right", action: KeyAction::ScrollRight, vimeflow: None },
        Binding { key: "m", label: "toggle mouse capture", action: KeyAction::ToggleMouse, vimeflow: None },
        Binding { key: "?", label: "this key sheet", action: KeyAction::Help, vimeflow: None },
        Binding { key: "q", label: "quit", action: KeyAction::Quit, vimeflow: None },
    ];
    proof {
        assert(binding_views(r@) =~= key_table());
    }
    r
}

/// A key as the terminal reports it.
#[derive(Clone, Copy, Debug, PartialEq, Eq, Structural)]
pub enum KeyCode {
    Char(char),
    Down,
    Up,
    Left,
    Right,
    PageDown,
    PageUp,
    Home,
    End,
    Enter,
    Esc,
    Backspace,
    Tab,
    Other,
}

/// The modifier keys held with a key.
#[derive(Clone, Copy, Debug, PartialEq, Eq, Structural)]
pub struct KeyModifiers {
    pub shift: bool,
    pub control: bool,
    pub alt: bool,
    pub super_key: bool,
    pub hyper: bool,
    pub meta: bool,
}

impl KeyModifiers {
    pub fn none() -> (r: Self)
        ensures
            !r.shift && !r.control && !r.alt && !r.super_key && !r.hyper && !r.meta,
    {
        KeyModifiers { shift: false, control: false, alt: false, super_key: false, hyper: false, meta: false }
    }

    pub fn shift() -> (r: Self)
        ensures
            r.shift && !r.control && !r.alt && !r.super_key && !r.hyper && !r.meta,
    {
        KeyModifiers { shift: true, ..Self::none() }
    }

    pub fn control() -> (r: Self)
        ensures
            !r.shift && r.control && !r.alt && !r.super_key && !r.hyper && !r.meta,
    {
        KeyModifiers { control: true, ..Self::none() }
    }

    pub fn alt() -> (r: Self)
        ensures
            !r.shift && !r.control && r.alt && !r.super_key && !r.hyper && !r.meta,
    {
        KeyModifiers { alt: true, ..Self::none() }
    }

    pub fn super_key() -> (r: Self)
        ensures
            !r.shift && !r.control && !r.alt && r.super_key && !r.hyper && !r.meta,
    {
        KeyModifiers { super_key: true, ..Self::none() }
    }

    pub fn hyper() -> (r: Self)
        ensures
            !r.shift && !r.control && !r.alt && !r.super_key && r.hyper && !r.meta,
    {
        KeyModifiers { hyper: true, ..Self::none() }
    }

    pub fn meta() -> (r: Self)
        ensures
            !r.shift && !r.control && !r.alt && !r.super_key && !r.hyper && r.meta,
    {
        KeyModifiers { meta: true, ..Self::none() }
    }

    pub open spec fn is_empty_spec(self) -> bool {
        !self.shift && !self.control && !self.alt && !self.super_key && !self.hyper && !self.meta
    }

    /// Whether no modifier is held.
    pub fn is_empty(&self) -> (r: bool)
        ensures
            r == self.is_empty_spec(),
    {
        !self.shift && !self.control && !self.alt && !self.super_key && !self.hyper && !self.meta
    }
}

#[derive(Clone, Copy, Debug, PartialEq, Eq, Structural)]
pub enum KeyEventKind {
    Press,
    Repeat,
    Release,
}

#[derive(Clone, Copy, Debug, PartialEq, Eq, Structural)]
pub struct KeyEvent {
    pub code: KeyCode,
    pub modifiers: KeyModifiers,
    pub kind: KeyEventKind,
}

impl KeyEvent {
    pub fn new(code: KeyCode, modifiers: KeyModifiers) -> (r: Self)
        ensures
            r == (KeyEvent { code, modifiers, kind: KeyEventKind::Press }),
    {
        KeyEvent { code, modifiers, kind: KeyEventKind::Press }
    }

    pub fn new_with_kind(code: KeyCode, modifiers: KeyModifiers, kind: KeyEventKind) -> (r: Self)
        ensures
            r == (KeyEvent { code, modifiers, kind }),
    {
        KeyEvent { code, modifiers, kind }
    }
}

/// The name a character key has in the table: `ctrl+` before it when control is held.
pub open spec fn key_name(ch: char, control: bool) -> Seq<char> {
    if control {
        "ctrl+"@.push(ch)
    } else {
        seq![ch]
    }
}

/// The action of the first binding from `i` on whose key is `name`.
pub open spec fn action_from(table: Seq<BindingView>, name: Seq<char>, i: int) -> Option<KeyAction>
    decreases table.len() - i,
{
    if i < 0 || i >= table.len() {
        None
    } else if table[i].0 == name {
        Some(table[i].2)
    } else {
        action_from(table, name, i + 1)
    }
}

/// What a key does: arrows and paging keys only without modifiers; characters by name, with
/// shift and control the only modifiers allowed.
pub open spec fn lookup_spec(key: KeyEvent) -> Option<KeyAction> {
    let m = key.modifiers;
    if key.kind == KeyEventKind::Release || m.alt || m.super_key || m.hyper || m.meta {
        None
    } else {
        match key.code {
            KeyCode::Char(ch) => action_from(key_table(), key_name(ch, m.control), 0),
            code => if m.is_empty_spec() {
                match code {
                    KeyCode::Down => Some(KeyAction::LineDown),
                    KeyCode::Up => Some(KeyAction::LineUp),
                    KeyCode::Left => Some(KeyAction::SideDeletions),
                    KeyCode::Right => Some(KeyAction::SideAdditions),
                    KeyCode::PageDown => Some(KeyAction::HalfPageDown),
                    KeyCode::PageUp => Some(KeyAction::HalfPageUp),
                    KeyCode::Home => Some(KeyAction::First),
                    KeyCode::End => Some(KeyAction::Last),
                    _ => None,
                }
            } else {
                None
            },
        }
    }
}

/// The action of the first binding whose key is `name`.
fn find_action(table: &Vec<Binding>, name: &str) -> (r: Option<KeyAction>)
    ensures
        r == action_from(binding_views(table@), name@, 0),
{
    let ghost t = binding_views(table@);
    let mut i: usize = 0;
    while i < table.len()
        invariant
            t == binding_views(table@),
            i <= table@.len(),
            action_from(t, name@, 0) == action_from(t, name@, i as int),
        decreases table@.len() - i,
    {
        proof {
            assert(t[i as int] == binding_view(table@[i as int]));
        }
        if same(table[i].key, name) {
            return Some(table[i].action);
        }
        i = i + 1;
    }
    None
}

pub fn lookup(key: &KeyEvent) -> (r: Option<KeyAction>)
    ensures
        r == lookup_spec(*key),
{
    let m = key.modifiers;
    if key.kind == KeyEventKind::Release || m.alt || m.super_key || m.hyper || m.meta {
        return None;
    }
    match key.code {
        KeyCode::Char(ch) => {
            let mut name = if m.control {
                own("ctrl+")
            } else {
                String::new()
            };
            name.push(ch);
            proof {
                reveal_strlit("ctrl+");
                assert(name@ == key_name(ch, m.control));
            }
            find_action(&keys(), name.as_str())
        },
        code => if m.is_empty() {
            match code {
                KeyCode::Down => Some(KeyAction::LineDown),
                KeyCode::Up => Some(KeyAction::LineUp),
                KeyCode::Left => Some(KeyAction::SideDeletions),
                KeyCode::Right => Some(KeyAction::SideAdditions),
                KeyCode::PageDown => Some(KeyAction::HalfPageDown),
                KeyCode::PageUp => Some(KeyAction::HalfPageUp),
                KeyCode::Home => Some(KeyAction::First),
                KeyCode::End => Some(KeyAction::Last),
                _ => None,
            }
        } else {
            None
        },
    }
}

/// The key sheet's rows: each key beside what it does.
pub open spec fn sheet_rows(table: Seq<BindingView>) -> Seq<RowText> {
    table.map_values(|b: BindingView| RowText::Entry(b.0, b.1, false))
}

/// The key sheet; a popup viewer adds a row for closing it with escape.
pub fn help_panel(popup: bool) -> (panel: Panel)
    ensures
        panel.title@ == "Keys"@,
        panel.footer@ == "esc closes"@,
        panel.cursor is None,
        panel.offset == 0,
        row_texts(panel.rows@) == sheet_rows(key_table()) + if popup {
            seq![RowText::Entry("esc"@, "close"@, false)]
        } else {
            seq![]
        },
{
    let table = keys();
    let mut rows: Vec<Row> = Vec::new();
    let mut i: usize = 0;
    while i < table.len()
        invariant
            binding_views(table@) == key_table(),
            i <= table@.len(),
            row_texts(rows@) == sheet_rows(key_table().take(i as int)),
        decreases table@.len() - i,
    {
        let ghost before = row_texts(rows@);
        rows.push(Row::Entry { label: own(table[i].key), value: own(table[i].label), enabled: false });
        proof {
            assert(key_table()[i as int] == binding_view(table@[i as int]));
            assert(row_texts(rows@) =~= before.push(RowText::Entry(table@[i as int].key@, table@[i as int].label@, false)));
            assert(sheet_rows(key_table().take(i + 1)) =~= sheet_rows(key_table().take(i as int)).push(
                RowText::Entry(key_table()[i as int].0, key_table()[i as int].1, false),
            ));
        }
        i = i + 1;
    }
    proof {
        assert(key_table().take(table@.len() as int) =~= key_table());
    }
    if popup {
        let ghost before = row_texts(rows@);
        rows.push(Row::Entry { label: own("esc"), value: own("close"), enabled: false });
        proof {
            assert(row_texts(rows@) =~= before.push(RowText::Entry("esc"@, "close"@, false)));
        }
    }
    Panel { title: own("Keys"), rows, footer: own("esc closes"), cursor: None, offset: 0 }
}

} // verus!
