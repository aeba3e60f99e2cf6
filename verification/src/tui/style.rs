//! Portable styled output. No terminal here: the view decides what a span means and the shell
//! maps that to colours.
use vstd::prelude::*;

verus! {

/// Structural weight. `Label` and `Rule` are dim and reserved for decoration that may vanish.
#[derive(Debug, Clone, Copy, PartialEq, Eq, Structural)]
pub enum Role {
    Body,
    Emphasis,
    Label,
    Rule,
}

impl Default for Role {
    fn default() -> (r: Self)
        ensures
            r == Role::Body,
    {
        Role::Body
    }
}

/// Advisory colour applied over a role. A terminal cell has one foreground, so this replaces
/// the role's colour rather than layering over it.
#[derive(Debug, Clone, Copy, PartialEq, Eq, Structural)]
pub enum Semantic {
    Good,
    Warn,
    Bad,
    Accent,
}

/// A truecolor foreground.
#[derive(Debug, Clone, Copy, PartialEq, Eq, Structural)]
pub struct Rgb {
    pub red: u8,
    pub green: u8,
    pub blue: u8,
}

#[derive(Debug, Clone, Copy, PartialEq, Eq, Structural)]
pub struct Style {
    pub role: Role,
    pub semantic: Option<Semantic>,
    /// An explicit colour: `rgb` when the terminal reports truecolor, `ansi` (0-15) otherwise.
    pub rgb: Option<Rgb>,
    pub ansi: Option<u8>,
    /// Reverse video, used for the cursor row and clickable chips.
    pub reverse: bool,
}

pub open spec fn plain_style(role: Role) -> Style {
    Style { role, semantic: None, rgb: None, ansi: None, reverse: false }
}

impl Default for Style {
    fn default() -> (r: Self)
        ensures
            r == plain_style(Role::Body),
    {
        Style { role: Role::Body, semantic: None, rgb: None, ansi: None, reverse: false }
    }
}

impl Style {
    pub fn role(role: Role) -> (r: Self)
        ensures
            r == plain_style(role),
    {
        Style { role, semantic: None, rgb: None, ansi: None, reverse: false }
    }

    pub fn semantic(role: Role, semantic: Semantic) -> (r: Self)
        ensures
            r == (Style { semantic: Some(semantic), ..plain_style(role) }),
    {
        Style { role, semantic: Some(semantic), rgb: None, ansi: None, reverse: false }
    }
}

#[derive(Debug, Clone, PartialEq, Eq)]
pub struct Span {
    pub text: String,
    pub style: Style,
}

impl Span {
    pub fn new(text: String, style: Style) -> (r: Self)
        ensures
            r.text@ == text@,
            r.style == style,
    {
        Self { text, style }
    }

    pub fn body(text: String) -> (r: Self)
        ensures
            r.text@ == text@,
            r.style == plain_style(Role::Body),
    {
        Self::new(text, Style::role(Role::Body))
    }

    pub fn label(text: String) -> (r: Self)
        ensures
            r.text@ == text@,
            r.style == plain_style(Role::Label),
    {
        Self::new(text, Style::role(Role::Label))
    }

    pub fn emphasis(text: String) -> (r: Self)
        ensures
            r.text@ == text@,
            r.style == plain_style(Role::Emphasis),
    {
        Self::new(text, Style::role(Role::Emphasis))
    }

    /// A copy of this span.
    pub fn duplicate(&self) -> (r: Self)
        ensures
            r.text@ == self.text@,
            r.style == self.style,
    {
        Self { text: crate::strs::copy(&self.text), style: self.style }
    }
}

pub type Line = Vec<Span>;

/// The named terminal colours that the viewer's meanings are drawn in.
#[derive(Debug, Clone, Copy, PartialEq, Eq, Structural)]
pub enum TermColor {
    Green,
    Red,
    Cyan,
    Yellow,
}

/// A style as the terminal draws it: a named foreground, and the dim, bold and reverse
/// attributes. No background is ever set.
#[derive(Debug, Clone, Copy, PartialEq, Eq, Structural)]
pub struct TermStyle {
    pub fg: Option<TermColor>,
    pub dim: bool,
    pub bold: bool,
    pub reversed: bool,
}

pub open spec fn color_of(s: Semantic) -> TermColor {
    match s {
        Semantic::Good => TermColor::Green,
        Semantic::Bad => TermColor::Red,
        Semantic::Accent => TermColor::Cyan,
        Semantic::Warn => TermColor::Yellow,
    }
}

/// How a style is drawn: its meaning as a named colour, labels and rules dim, emphasis bold,
/// reverse kept. Explicit colours are not drawn here.
pub fn term_style(style: &Style) -> (r: TermStyle)
    ensures
        r.fg == match style.semantic {
            Some(s) => Some(color_of(s)),
            None => None::<TermColor>,
        },
        r.dim == (style.role == Role::Label || style.role == Role::Rule),
        r.bold == (style.role == Role::Emphasis),
        r.reversed == style.reverse,
{
    let fg = match style.semantic {
        Some(Semantic::Good) => Some(TermColor::Green),
        Some(Semantic::Bad) => Some(TermColor::Red),
        Some(Semantic::Accent) => Some(TermColor::Cyan),
        Some(Semantic::Warn) => Some(TermColor::Yellow),
        None => None,
    };
    let (dim, bold) = match style.role {
        Role::Label | Role::Rule => (true, false),
        Role::Emphasis => (false, true),
        Role::Body => (false, false),
    };
    TermStyle { fg, dim, bold, reversed: style.reverse }
}

} // verus!
