//! Text styles of the chat pane: a muted palette of colors plus bold,
//! italic, dim and underline.
use vstd::prelude::*;

verus! {

/// A 24-bit color.
#[derive(Debug, Clone, Copy, PartialEq, Eq, Structural)]
pub struct Rgb {
    pub r: u8,
    pub g: u8,
    pub b: u8,
}

/// A color: the terminal's own black, or a 24-bit color.
#[derive(Debug, Clone, Copy, PartialEq, Eq, Structural)]
pub enum Color {
    Black,
    Rgb(Rgb),
}

/// A text style: optional foreground and background colors and four modifiers.
#[derive(Debug, Clone, Copy, PartialEq, Eq, Structural)]
pub struct Style {
    pub fg: Option<Color>,
    pub bg: Option<Color>,
    pub bold: bool,
    pub italic: bool,
    pub dim: bool,
    pub underlined: bool,
}

/// A run of text sharing one style.
pub type Seg = (String, Style);

/// The view of a run.
pub open spec fn seg_view(s: Seg) -> (Seq<char>, Style) {
    (s.0@, s.1)
}

/// The views of a line of runs.
pub open spec fn segs_view(v: Seq<Seg>) -> Seq<(Seq<char>, Style)> {
    v.map_values(|s: Seg| seg_view(s))
}

/// The views of a list of lines.
pub open spec fn lines_view(v: Seq<Vec<Seg>>) -> Seq<Seq<(Seq<char>, Style)>> {
    v.map_values(|l: Vec<Seg>| segs_view(l@))
}

pub open spec fn rgb(r: u8, g: u8, b: u8) -> Rgb {
    Rgb { r, g, b }
}

/// Soft white body text.
pub open spec fn fg_text() -> Rgb { rgb(0xCC, 0xCC, 0xCC) }
/// Muted blue.
pub open spec fn accent_user() -> Rgb { rgb(0x7A, 0xA2, 0xC0) }
/// Sage green.
pub open spec fn accent_ai() -> Rgb { rgb(0x8F, 0xB0, 0x8F) }
/// Muted gold, for tools and code alike.
pub open spec fn accent_tool() -> Rgb { rgb(0xC2, 0xA5, 0x6B) }
/// Muted amber.
pub open spec fn accent_info() -> Rgb { rgb(0xB0, 0x9A, 0x6B) }
/// Muted red.
pub open spec fn accent_err() -> Rgb { rgb(0xC0, 0x7A, 0x7A) }
/// Muted cyan, for links.
pub open spec fn accent_link() -> Rgb { rgb(0x8A, 0xB4, 0xC8) }
/// Grey, for subdued text.
pub open spec fn fg_dim() -> Rgb { rgb(0x80, 0x80, 0x80) }

/// No color and no modifier.
pub open spec fn plain() -> Style {
    Style { fg: None, bg: None, bold: false, italic: false, dim: false, underlined: false }
}

pub open spec fn colored(c: Rgb) -> Style {
    Style { fg: Some(Color::Rgb(c)), ..plain() }
}

pub open spec fn bolded(s: Style) -> Style {
    Style { bold: true, ..s }
}

pub open spec fn italicized(s: Style) -> Style {
    Style { italic: true, ..s }
}

pub open spec fn dimmed(s: Style) -> Style {
    Style { dim: true, ..s }
}

pub open spec fn thinking_style() -> Style { dimmed(italicized(colored(fg_dim()))) }
pub open spec fn subagent_style() -> Style { dimmed(colored(accent_tool())) }
pub open spec fn code_inline_style() -> Style { colored(accent_tool()) }
pub open spec fn code_block_style() -> Style { dimmed(colored(accent_tool())) }
/// The visible label of a link, underlined so it reads as a link.
pub open spec fn link_label_style() -> Style {
    Style { underlined: true, ..colored(accent_link()) }
}
/// The raw URL after a link's label, left un-underlined so terminals that
/// detect URLs can linkify it.
pub open spec fn link_url_style() -> Style { colored(accent_link()) }
pub open spec fn border_style() -> Style { colored(fg_dim()) }

pub fn make_rgb(r: u8, g: u8, b: u8) -> (c: Rgb)
    ensures
        c == rgb(r, g, b),
{
    Rgb { r, g, b }
}

impl Style {
    /// No color and no modifier.
    pub fn plain() -> (s: Style)
        ensures
            s == plain(),
    {
        Style { fg: None, bg: None, bold: false, italic: false, dim: false, underlined: false }
    }

    /// This style in color `c`.
    pub fn with_fg(self, c: Rgb) -> (s: Style)
        ensures
            s == (Style { fg: Some(Color::Rgb(c)), ..self }),
    {
        Style { fg: Some(Color::Rgb(c)), ..self }
    }

    /// This style on background `c`.
    pub fn with_bg(self, c: Color) -> (s: Style)
        ensures
            s == (Style { bg: Some(c), ..self }),
    {
        Style { bg: Some(c), ..self }
    }

    /// This style in the terminal's black.
    pub fn in_black(self) -> (s: Style)
        ensures
            s == (Style { fg: Some(Color::Black), ..self }),
    {
        Style { fg: Some(Color::Black), ..self }
    }

    /// This style in bold.
    pub fn bold(self) -> (s: Style)
        ensures
            s == bolded(self),
    {
        Style { bold: true, ..self }
    }

    /// This style in italics.
    pub fn italic(self) -> (s: Style)
        ensures
            s == italicized(self),
    {
        Style { italic: true, ..self }
    }

    /// This style dimmed.
    pub fn dim(self) -> (s: Style)
        ensures
            s == dimmed(self),
    {
        Style { dim: true, ..self }
    }
}

pub fn thinking() -> (s: Style)
    ensures
        s == thinking_style(),
{
    Style::plain().with_fg(make_rgb(0x80, 0x80, 0x80)).italic().dim()
}

pub fn subagent() -> (s: Style)
    ensures
        s == subagent_style(),
{
    Style::plain().with_fg(make_rgb(0xC2, 0xA5, 0x6B)).dim()
}

pub fn code_inline() -> (s: Style)
    ensures
        s == code_inline_style(),
{
    Style::plain().with_fg(make_rgb(0xC2, 0xA5, 0x6B))
}

pub fn code_block() -> (s: Style)
    ensures
        s == code_block_style(),
{
    Style::plain().with_fg(make_rgb(0xC2, 0xA5, 0x6B)).dim()
}

pub fn link_label() -> (s: Style)
    ensures
        s == link_label_style(),
{
    Style { underlined: true, ..Style::plain().with_fg(make_rgb(0x8A, 0xB4, 0xC8)) }
}

pub fn link_url() -> (s: Style)
    ensures
        s == link_url_style(),
{
    Style::plain().with_fg(make_rgb(0x8A, 0xB4, 0xC8))
}

pub fn border() -> (s: Style)
    ensures
        s == border_style(),
{
    Style::plain().with_fg(make_rgb(0x80, 0x80, 0x80))
}

} // verus!
