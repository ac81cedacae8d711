//! Styled text: what the panes are made of, before a terminal draws them.
use unicode_width::UnicodeWidthStr;
use vstd::prelude::*;

verus! {

#[derive(Debug, Clone, Copy, PartialEq, Eq, Structural)]
pub enum Color {
    /// The terminal's own default.
    Reset,
    /// An entry of the terminal's palette.
    Indexed(u8),
    Rgb(u8, u8, u8),
}

#[derive(Debug, Clone, Copy, PartialEq, Eq, Structural)]
pub enum Modifier {
    Bold,
    Dim,
    Italic,
    Underlined,
    Reversed,
    CrossedOut,
}

/// What a style says of one modifier.
#[derive(Debug, Clone, Copy, PartialEq, Eq, Structural)]
pub enum Switch {
    Keep,
    On,
    Off,
}

#[derive(Debug, Clone, Copy, PartialEq, Eq, Structural)]
pub struct Style {
    pub fg: Option<Color>,
    pub bg: Option<Color>,
    pub bold: Switch,
    pub dim: Switch,
    pub italic: Switch,
    pub underlined: Switch,
    pub reversed: Switch,
    pub crossed_out: Switch,
}

/// The style that changes nothing.
pub open spec fn plain() -> Style {
    Style {
        fg: None,
        bg: None,
        bold: Switch::Keep,
        dim: Switch::Keep,
        italic: Switch::Keep,
        underlined: Switch::Keep,
        reversed: Switch::Keep,
        crossed_out: Switch::Keep,
    }
}

/// The style that only sets the foreground.
pub open spec fn fg(color: Color) -> Style {
    Style { fg: Some(color), ..plain() }
}

/// `style` with one modifier set to `to` and the rest as they were.
pub open spec fn switched(style: Style, modifier: Modifier, to: Switch) -> Style {
    match modifier {
        Modifier::Bold => Style { bold: to, ..style },
        Modifier::Dim => Style { dim: to, ..style },
        Modifier::Italic => Style { italic: to, ..style },
        Modifier::Underlined => Style { underlined: to, ..style },
        Modifier::Reversed => Style { reversed: to, ..style },
        Modifier::CrossedOut => Style { crossed_out: to, ..style },
    }
}

pub open spec fn with(style: Style, modifier: Modifier) -> Style {
    switched(style, modifier, Switch::On)
}

impl Style {
    pub fn new() -> (r: Style)
        ensures
            r == plain(),
    {
        Style {
            fg: None,
            bg: None,
            bold: Switch::Keep,
            dim: Switch::Keep,
            italic: Switch::Keep,
            underlined: Switch::Keep,
            reversed: Switch::Keep,
            crossed_out: Switch::Keep,
        }
    }

    pub fn fg(self, color: Color) -> (r: Style)
        ensures
            r == (Style { fg: Some(color), ..self }),
    {
        let mut out = self;
        out.fg = Some(color);
        out
    }

    pub fn bg(self, color: Color) -> (r: Style)
        ensures
            r == (Style { bg: Some(color), ..self }),
    {
        let mut out = self;
        out.bg = Some(color);
        out
    }

    fn switch(self, modifier: Modifier, to: Switch) -> (r: Style)
        ensures
            r == switched(self, modifier, to),
    {
        let mut out = self;
        match modifier {
            Modifier::Bold => { out.bold = to; },
            Modifier::Dim => { out.dim = to; },
            Modifier::Italic => { out.italic = to; },
            Modifier::Underlined => { out.underlined = to; },
            Modifier::Reversed => { out.reversed = to; },
            Modifier::CrossedOut => { out.crossed_out = to; },
        }
        out
    }

    pub fn add_modifier(self, modifier: Modifier) -> (r: Style)
        ensures
            r == with(self, modifier),
    {
        self.switch(modifier, Switch::On)
    }

    pub fn remove_modifier(self, modifier: Modifier) -> (r: Style)
        ensures
            r == switched(self, modifier, Switch::Off),
    {
        self.switch(modifier, Switch::Off)
    }
}

/// A run of text in one style.
#[derive(Debug, Clone, PartialEq, Eq)]
pub struct Span {
    pub content: String,
    pub style: Style,
}

/// A span as a value: its characters and its style.
pub struct Run {
    pub text: Seq<char>,
    pub style: Style,
}

impl DeepView for Span {
    type V = Run;

    open spec fn deep_view(&self) -> Run {
        Run { text: self.content@, style: self.style }
    }
}

impl Span {
    pub fn styled(content: String, style: Style) -> (r: Span)
        ensures
            r.content == content,
            r.style == style,
            r.deep_view() == (Run { text: content@, style }),
    {
        Span { content, style }
    }

    pub fn raw(content: String) -> (r: Span)
        ensures
            r.deep_view() == (Run { text: content@, style: plain() }),
    {
        Span { content, style: Style::new() }
    }
}

/// One row of styled text.
#[derive(Debug, Clone, PartialEq, Eq)]
pub struct Line {
    pub spans: Vec<Span>,
}

impl DeepView for Line {
    type V = Seq<Run>;

    open spec fn deep_view(&self) -> Seq<Run> {
        self.spans.deep_view()
    }
}

impl Line {
    pub fn blank() -> (r: Line)
        ensures
            r.deep_view() == Seq::<Run>::empty(),
    {
        Line { spans: Vec::new() }
    }

    pub fn of(span: Span) -> (r: Line)
        ensures
            r.deep_view() == seq![span.deep_view()],
    {
        let mut spans: Vec<Span> = Vec::new();
        spans.push(span);
        Line { spans }
    }
}

/// The columns that a text takes up on a terminal, by Unicode Standard
/// Annex #11 with ambiguous characters narrow.
pub uninterp spec fn display_width(text: Seq<char>) -> usize;

/// `UnicodeWidthStr::width`: the display width of a string, which depends on
/// its characters alone.
#[verifier::external_body]
pub(crate) fn width_of(text: &str) -> (r: usize)
    ensures
        r == display_width(text@),
{
    text.width()
}

/// The columns that one character takes up on its own.
pub open spec fn char_width(c: char) -> usize {
    display_width(seq![c])
}

pub fn width_of_char(c: char) -> (r: usize)
    ensures
        r == char_width(c),
{
    let mut text = String::new();
    text.push(c);
    assert(text@ == seq![c]);
    width_of(text.as_str())
}

/// The concatenated text of a row of runs.
pub open spec fn text_of(runs: Seq<Run>) -> Seq<char>
    decreases runs.len(),
{
    if runs.len() == 0 {
        seq![]
    } else {
        text_of(runs.drop_last()) + runs.last().text
    }
}

pub proof fn lemma_text_of_push(runs: Seq<Run>, run: Run)
    ensures
        text_of(runs.push(run)) == text_of(runs) + run.text,
{
    assert(runs.push(run).drop_last() == runs);
}

pub proof fn lemma_text_of_add(a: Seq<Run>, b: Seq<Run>)
    ensures
        text_of(a + b) == text_of(a) + text_of(b),
    decreases b.len(),
{
    if b.len() == 0 {
        assert(a + b == a);
        assert(text_of(a) + text_of(b) == text_of(a));
    } else {
        lemma_text_of_add(a, b.drop_last());
        assert((a + b).drop_last() == a + b.drop_last());
        assert(text_of(a) + (text_of(b.drop_last()) + b.last().text) == text_of(a) + text_of(
            b.drop_last(),
        ) + b.last().text);
    }
}

/// Switching a modifier on or off changes that one, and neither the colours
/// nor any of the others.
pub proof fn modifiers_are_switched_apart(style: Style, to: Switch)
    ensures
        switched(style, Modifier::Bold, to) == (Style { bold: to, ..style }),
        switched(style, Modifier::Dim, to) == (Style { dim: to, ..style }),
        switched(style, Modifier::Italic, to) == (Style { italic: to, ..style }),
        switched(style, Modifier::Underlined, to) == (Style { underlined: to, ..style }),
        switched(style, Modifier::Reversed, to) == (Style { reversed: to, ..style }),
        switched(style, Modifier::CrossedOut, to) == (Style { crossed_out: to, ..style }),
        with(style, Modifier::Bold).bold == Switch::On,
        with(style, Modifier::Dim).dim == Switch::On,
        with(style, Modifier::Italic).italic == Switch::On,
        with(style, Modifier::Underlined).underlined == Switch::On,
        with(style, Modifier::Reversed).reversed == Switch::On,
        with(style, Modifier::CrossedOut).crossed_out == Switch::On,
{
}

/// The last switch of a modifier decides, and two different ones can be
/// switched in either order.
pub proof fn the_last_switch_decides(style: Style, a: Modifier, b: Modifier, x: Switch, y: Switch)
    ensures
        switched(switched(style, a, x), a, y) == switched(style, a, y),
        a != b ==> switched(switched(style, a, x), b, y) == switched(switched(style, b, y), a, x),
        x != y ==> switched(style, a, x) != switched(style, a, y),
{
}

/// The style to begin with sets nothing; a coloured one sets the foreground
/// alone.
pub proof fn a_plain_style_sets_nothing(color: Color)
    ensures
        plain().fg is None && plain().bg is None,
        fg(color).fg == Some(color) && fg(color).bg is None,
        plain().bold == Switch::Keep && plain().dim == Switch::Keep && plain().italic
            == Switch::Keep && plain().underlined == Switch::Keep && plain().reversed
            == Switch::Keep && plain().crossed_out == Switch::Keep,
        fg(color) == (Style { fg: Some(color), ..plain() }),
{
}

/// The text of one run is its own, and of two rows one behind the other the
/// texts of both.
pub proof fn texts_add_up(a: Seq<Run>, run: Run, b: Seq<Run>)
    ensures
        text_of(seq![run]) == run.text,
        text_of(a + seq![run] + b) == text_of(a) + run.text + text_of(b),
{
    assert(seq![run].drop_last() =~= Seq::<Run>::empty());
    assert(text_of(Seq::<Run>::empty()) =~= Seq::<char>::empty());
    assert(text_of(seq![run]) =~= run.text);
    lemma_text_of_add(a, seq![run]);
    lemma_text_of_add(a + seq![run], b);
}

} // verus!
