//! The sidebar, the header, the input line and the status bar.
use vstd::prelude::*;

use crate::model::{ConvKind, Millis};
use crate::number::{decimal, decimal_nat};
use crate::text::{cat, cat3, cat4, chars_of, repeat, repeated};
use crate::ui::app::{is_flashing, is_here, label_in, selected_conv, App, Mode, Screen};
use crate::ui::render::{texts_are_kept_from_the_front, truncate, truncated};
use crate::ui::style::{fg, plain, with, Line, Modifier, Run, Span, Style, Switch};
use crate::ui::theme::Theme;

verus! {

pub open spec fn run(text: Seq<char>, style: Style) -> Run {
    Run { text, style }
}

pub open spec fn heading(theme: Theme) -> Style {
    with(fg(theme.shows(theme.palette.dim)), Modifier::Bold)
}

// ---------------------------------------------------------------------------
// sidebar
// ---------------------------------------------------------------------------

pub open spec fn row_style(theme: Theme, selected: bool) -> Style {
    if selected {
        with(
            Style {
                bg: Some(theme.shows(theme.palette.selection)),
                ..fg(theme.shows(theme.palette.accent))
            },
            Modifier::Bold,
        )
    } else {
        fg(theme.shows(theme.palette.fg))
    }
}

/// What is left of `whole` once `part` is taken from it.
pub open spec fn left_over(whole: int, part: int) -> nat {
    if whole > part {
        (whole - part) as nat
    } else {
        0
    }
}

/// A conversation in the sidebar, filling the width of it.
pub open spec fn sidebar_row(s: Screen, i: int, width: u16) -> Seq<Run> {
    let label = truncated(
        label_in(s.labels, s.convs[i].id),
        left_over(width as int, 2),
    );
    let style = row_style(s.theme, i == s.active);
    seq![
        run(seq![' '], style),
        run(label, style),
        run(repeated(' ', left_over(width as int, label.len() as int + 1)), style),
    ]
}

/// The rows of the channels, or of the rest, among the first `n`
/// conversations.
pub open spec fn sidebar_rows(s: Screen, channels: bool, n: int, width: u16) -> Seq<Seq<Run>>
    decreases n,
{
    if n <= 0 {
        seq![]
    } else if (s.convs[n - 1].kind == ConvKind::Channel) == channels {
        sidebar_rows(s, channels, n - 1, width).push(sidebar_row(s, n - 1, width))
    } else {
        sidebar_rows(s, channels, n - 1, width)
    }
}

/// A section: a blank line before it unless it is the first, its title, and
/// what is in it. An empty one is left out.
pub open spec fn section(
    above: Seq<Seq<Run>>,
    title: Seq<char>,
    rows: Seq<Seq<Run>>,
    theme: Theme,
) -> Seq<Seq<Run>> {
    if rows.len() == 0 {
        above
    } else {
        let gap: Seq<Seq<Run>> = if above.len() == 0 {
            seq![]
        } else {
            seq![seq![]]
        };
        above + gap + seq![seq![run(title, heading(theme))]] + rows
    }
}

pub open spec fn sidebar_of(s: Screen, width: u16) -> Seq<Seq<Run>> {
    let n = s.convs.len() as int;
    let channels = section(
        seq![],
        " CHANNELS"@,
        sidebar_rows(s, true, n, width),
        s.theme,
    );
    section(channels, " DIRECT"@, sidebar_rows(s, false, n, width), s.theme)
}

fn row(app: &App, index: usize, width: u16) -> (r: Line)
    requires
        index < app.convs.len(),
    ensures
        r.deep_view() == sidebar_row(app@, index as int, width),
{
    let theme = &app.theme;
    let name = app.label(app.convs[index].id);
    let label = truncate(name.as_str(), width.saturating_sub(2) as usize);
    let style = if index == app.active {
        Style::new().fg(theme.accent()).bg(theme.selection()).add_modifier(Modifier::Bold)
    } else {
        Style::new().fg(theme.fg())
    };
    assert(style == row_style(app@.theme, index == app@.active));
    let used = chars_of(label.as_str()).len();
    let padding: usize = if width as usize > used {
        width as usize - used - 1
    } else {
        0
    };
    let mut spans: Vec<Span> = Vec::new();
    spans.push(Span::styled(repeat(' ', 1), style));
    spans.push(Span::styled(label, style));
    spans.push(Span::styled(repeat(' ', padding), style));
    proof {
        assert(repeated(' ', 1) =~= seq![' ']);
        assert(spans.deep_view() =~= sidebar_row(app@, index as int, width));
    }
    Line { spans }
}

fn rows(app: &App, channels: bool, width: u16) -> (r: Vec<Line>)
    ensures
        r.deep_view() == sidebar_rows(app@, channels, app@.convs.len() as int, width),
{
    let mut out: Vec<Line> = Vec::new();
    let mut i: usize = 0;
    assert(out.deep_view() =~= seq![]);
    while i < app.convs.len()
        invariant
            i <= app.convs.len(),
            out.deep_view() == sidebar_rows(app@, channels, i as int, width),
        decreases app.convs.len() - i,
    {
        let ghost before = out.deep_view();
        if (app.convs[i].kind == ConvKind::Channel) == channels {
            let line = row(app, i, width);
            out.push(line);
            assert(out.deep_view() =~= before.push(line.deep_view()));
        }
        i += 1;
    }
    out
}

/// Add a section below what is there.
pub fn add_section(lines: &mut Vec<Line>, title: String, rows: Vec<Line>, theme: &Theme)
    ensures
        final(lines).deep_view() == section(
            old(lines).deep_view(),
            title@,
            rows.deep_view(),
            *theme,
        ),
{
    if rows.len() == 0 {
        return;
    }
    let ghost above = lines.deep_view();
    let ghost below = rows.deep_view();
    let ghost name = title@;
    if lines.len() > 0 {
        lines.push(Line::blank());
    }
    let style = Style::new().fg(theme.dim()).add_modifier(Modifier::Bold);
    let head = Line::of(Span::styled(title, style));
    lines.push(head);
    let ghost gap: Seq<Seq<Run>> = if above.len() == 0 {
        seq![]
    } else {
        seq![seq![]]
    };
    assert(head.deep_view() =~= seq![run(name, heading(*theme))]);
    assert(lines.deep_view() =~= above + gap + seq![seq![run(name, heading(*theme))]]);
    let ghost top = lines.deep_view();
    let ghost top_lines = lines@;
    let ghost row_lines = rows@;
    let mut rest = rows;
    lines.append(&mut rest);
    proof {
        assert(lines@ =~= top_lines + row_lines);
        assert(lines.deep_view() =~= top + below);
    }
}

pub fn sidebar(app: &App, width: u16) -> (r: Vec<Line>)
    ensures
        r.deep_view() == sidebar_of(app@, width),
{
    let mut lines: Vec<Line> = Vec::new();
    assert(lines.deep_view() =~= seq![]);
    let channels = rows(app, true, width);
    add_section(&mut lines, " CHANNELS".to_owned(), channels, &app.theme);
    let directs = rows(app, false, width);
    add_section(&mut lines, " DIRECT".to_owned(), directs, &app.theme);
    lines
}

// ---------------------------------------------------------------------------
// header
// ---------------------------------------------------------------------------

pub open spec fn header_of(s: Screen) -> Seq<Run> {
    let dim = fg(s.theme.shows(s.theme.palette.dim));
    let margin = seq![run(" "@, plain())];
    match selected_conv(s) {
        Some(conv) => {
            let named = margin.push(
                run(
                    label_in(s.labels, conv.id),
                    with(fg(s.theme.shows(s.theme.palette.fg)), Modifier::Bold),
                ),
            );
            if conv.topic@.len() > 0 {
                named.push(run("  \u{b7}  "@ + conv.topic@, dim))
            } else {
                named
            }
        },
        None => margin.push(run("no conversations"@, dim)),
    }
}

pub fn header(app: &App) -> (r: Line)
    ensures
        r.deep_view() == header_of(app@),
{
    let theme = &app.theme;
    let mut spans: Vec<Span> = Vec::new();
    spans.push(Span::raw(" ".to_owned()));
    match app.active_conv() {
        Some(conv) => {
            let label = app.label(conv.id);
            spans.push(
                Span::styled(
                    label,
                    Style::new().fg(theme.fg()).add_modifier(Modifier::Bold),
                ),
            );
            if !conv.topic.as_str().is_empty() {
                spans.push(
                    Span::styled(
                        cat("  \u{b7}  ", conv.topic.as_str()),
                        Style::new().fg(theme.dim()),
                    ),
                );
            }
        },
        None => {
            spans.push(
                Span::styled("no conversations".to_owned(), Style::new().fg(theme.dim())),
            );
        },
    }
    assert(spans.deep_view() =~= header_of(app@));
    Line { spans }
}

// ---------------------------------------------------------------------------
// input
// ---------------------------------------------------------------------------

pub open spec fn input_of(s: Screen) -> Seq<Run> {
    let t = s.theme;
    let (prompt, content, prompt_style) = match s.mode {
        Mode::Command => (":"@, s.command, fg(t.shows(t.palette.warn))),
        Mode::Insert => ("\u{203a} "@, s.input, fg(t.shows(t.palette.ok))),
        Mode::Normal => ("\u{203a} "@, s.input, fg(t.shows(t.palette.dim))),
    };
    let idle = s.mode == Mode::Normal && s.input.len() == 0;
    seq![
        run(" "@, plain()),
        run(prompt, prompt_style),
        run(
            if idle {
                "press i to write"@
            } else {
                content
            },
            if idle {
                fg(t.shows(t.palette.dim))
            } else {
                fg(t.shows(t.palette.fg))
            },
        ),
    ]
}

pub fn input(app: &App) -> (r: Line)
    ensures
        r.deep_view() == input_of(app@),
{
    let theme = &app.theme;
    let (prompt, content, prompt_style) = match app.mode {
        Mode::Command => (
            ":",
            app.command.clone(),
            Style::new().fg(theme.color(theme.palette.warn)),
        ),
        Mode::Insert => (
            "\u{203a} ",
            app.input.clone(),
            Style::new().fg(theme.color(theme.palette.ok)),
        ),
        Mode::Normal => ("\u{203a} ", app.input.clone(), Style::new().fg(theme.dim())),
    };
    let idle = app.mode == Mode::Normal && app.input.as_str().is_empty();
    let style = if idle {
        Style::new().fg(theme.dim())
    } else {
        Style::new().fg(theme.fg())
    };
    let shown = if idle {
        "press i to write".to_owned()
    } else {
        content
    };
    let mut spans: Vec<Span> = Vec::new();
    spans.push(Span::raw(" ".to_owned()));
    spans.push(Span::styled(prompt.to_owned(), prompt_style));
    spans.push(Span::styled(shown, style));
    assert(spans.deep_view() =~= input_of(app@));
    Line { spans }
}

/// How far into the input line the caret stands; nowhere while nothing is
/// being typed. Columns are counted in sixteen bits.
pub open spec fn caret_of(s: Screen) -> Option<int> {
    if s.overlay is Some {
        None
    } else {
        match s.mode {
            Mode::Insert => Some((3 + s.cursor) % 0x10000),
            Mode::Command => Some((2 + s.command.len() as int) % 0x10000),
            Mode::Normal => None,
        }
    }
}

/// The column of the caret on an input line that is `width` wide: a real
/// caret, so the terminal's own cursor shows where typing lands.
pub fn caret_column(app: &App, width: u16) -> (r: Option<u16>)
    ensures
        match caret_of(app@) {
            Some(offset) => r is Some && r->Some_0 == if offset < width {
                offset
            } else if width == 0 {
                0
            } else {
                width - 1
            },
            None => r is None,
        },
{
    if app.overlay.is_some() {
        return None;
    }
    let offset: usize = match app.mode {
        Mode::Insert => (app.cursor % 0x10000 + 3) % 0x10000,
        Mode::Command => {
            let count: usize = chars_of(app.command.as_str()).len();
            (count % 0x10000 + 2) % 0x10000
        },
        Mode::Normal => {
            return None;
        },
    };
    if offset < width as usize {
        Some(offset as u16)
    } else if width == 0 {
        Some(0)
    } else {
        Some(width - 1)
    }
}

// ---------------------------------------------------------------------------
// status bar
// ---------------------------------------------------------------------------

/// The name on the bar, and its colour.
pub open spec fn mode_label(s: Screen, now: Millis) -> (Seq<char>, u32) {
    if is_flashing(s, now) {
        ("ERROR"@, s.theme.palette.mode_error)
    } else {
        match s.mode {
            Mode::Normal => ("NORMAL"@, s.theme.palette.mode_normal),
            Mode::Insert => ("INSERT"@, s.theme.palette.mode_insert),
            Mode::Command => ("COMMAND"@, s.theme.palette.mode_command),
        }
    }
}

/// How many of the first `n` members are online.
pub open spec fn online_count(s: Screen, n: int) -> nat
    decreases n,
{
    if n <= 0 {
        0
    } else {
        online_count(s, n - 1) + if is_here(s.users, s.members[n - 1]) {
            1nat
        } else {
            0nat
        }
    }
}

/// What is said of the conversation.
pub open spec fn place_text(s: Screen) -> Seq<char> {
    let name = match selected_conv(s) {
        Some(conv) => label_in(s.labels, conv.id),
        None => seq![],
    };
    name + "  \u{b7}  "@ + decimal_nat(online_count(s, s.members.len() as int)) + " online"@
}

/// What else there is to tell: a message, or how far the view is scrolled back.
pub open spec fn aside_text(s: Screen) -> Seq<char> {
    match s.status {
        Some(status) => "  \u{b7}  "@ + status,
        None => if s.scroll == 0 {
            seq![]
        } else {
            "  \u{b7}  scrolled "@ + decimal_nat(s.scroll as nat) + if s.scroll == 1 {
                " line"@
            } else {
                " lines"@
            }
        },
    }
}

/// Where the conversation starts on a bar of this width, if nothing is in the
/// way: it is centred on the whole bar, not on what the mode leaves of it.
pub open spec fn place_start(place: Seq<char>, width: nat) -> nat {
    left_over(width as int, place.len() as int) / 2
}

/// How much of the bar is filled before the conversation.
pub open spec fn place_gap(label: Seq<char>, place: Seq<char>, width: nat) -> nat {
    let start = place_start(place, width);
    if start > label.len() {
        (start - label.len()) as nat
    } else {
        1
    }
}

/// The bar, from left to right: the mode flush left, the conversation in the
/// middle and what else there is to tell behind it, over the whole width.
pub open spec fn bar_runs(
    label: Seq<char>,
    place: Seq<char>,
    aside: Seq<char>,
    width: nat,
    style: Style,
) -> Seq<Run> {
    let gap = place_gap(label, place, width);
    let used = label.len() + gap + place.len() + aside.len();
    seq![
        run(label, with(style, Modifier::Bold)),
        run(repeated(' ', gap), style),
        run(place, style),
        run(aside, style),
        run(repeated(' ', left_over(width as int, used as int)), style),
    ]
}

pub open spec fn bar_style(theme: Theme, color: u32) -> Style {
    Style { bg: Some(theme.shows(color)), ..fg(theme.shows(0x1b1d23)) }
}

pub open spec fn status_of(s: Screen, width: u16, now: Millis) -> Seq<Run> {
    let (label, color) = mode_label(s, now);
    bar_runs(label, place_text(s), aside_text(s), width as nat, bar_style(s.theme, color))
}

fn count_online(app: &App) -> (r: usize)
    ensures
        r == online_count(app@, app@.members.len() as int),
{
    let mut count: usize = 0;
    let mut i: usize = 0;
    while i < app.members.len()
        invariant
            i <= app.members.len(),
            count <= i,
            count == online_count(app@, i as int),
        decreases app.members.len() - i,
    {
        if app.is_here(app.members[i]) {
            count += 1;
        }
        i += 1;
    }
    count
}

fn place(app: &App) -> (r: String)
    ensures
        r@ == place_text(app@),
{
    let name = match app.active_conv() {
        Some(conv) => app.label(conv.id),
        None => String::new(),
    };
    let count = decimal(count_online(app) as u64);
    proof {
        if selected_conv(app@) is None {
            assert(name@ =~= seq![]);
        }
    }
    cat4(name.as_str(), "  \u{b7}  ", count.as_str(), " online")
}

fn aside(app: &App) -> (r: String)
    ensures
        r@ == aside_text(app@),
{
    match &app.status {
        Some(status) => cat("  \u{b7}  ", status.as_str()),
        None => if app.scroll == 0 {
            let r = String::new();
            assert(r@ =~= seq![]);
            r
        } else {
            let count = decimal(app.scroll as u64);
            let unit = if app.scroll == 1 {
                " line"
            } else {
                " lines"
            };
            cat3("  \u{b7}  scrolled ", count.as_str(), unit)
        },
    }
}

/// Lay the bar out.
pub fn bar(label: &str, place: &str, aside: &str, width: u16, style: Style) -> (r: Line)
    ensures
        r.deep_view() == bar_runs(label@, place@, aside@, width as nat, style),
{
    let width = width as usize;
    let left = chars_of(label).len();
    let middle = chars_of(place).len();
    let right = chars_of(aside).len();
    let start: usize = if width > middle {
        (width - middle) / 2
    } else {
        0
    };
    let gap: usize = if start > left {
        start - left
    } else {
        1
    };
    let rest: usize = width.saturating_sub(left).saturating_sub(gap);
    let fill: usize = rest.saturating_sub(middle).saturating_sub(right);
    assert(gap == place_gap(label@, place@, width as nat));
    let mut spans: Vec<Span> = Vec::new();
    spans.push(Span::styled(label.to_owned(), style.add_modifier(Modifier::Bold)));
    spans.push(Span::styled(repeat(' ', gap), style));
    spans.push(Span::styled(place.to_owned(), style));
    spans.push(Span::styled(aside.to_owned(), style));
    spans.push(Span::styled(repeat(' ', fill), style));
    assert(spans.deep_view() =~= bar_runs(label@, place@, aside@, width as nat, style));
    Line { spans }
}

pub fn status(app: &App, width: u16, now: Millis) -> (r: Line)
    ensures
        r.deep_view() == status_of(app@, width, now),
{
    let theme = &app.theme;
    let (label, color) = if app.flashing(now) {
        ("ERROR", theme.palette.mode_error)
    } else {
        match app.mode {
            Mode::Normal => ("NORMAL", theme.palette.mode_normal),
            Mode::Insert => ("INSERT", theme.palette.mode_insert),
            Mode::Command => ("COMMAND", theme.palette.mode_command),
        }
    };
    let style = Style::new().fg(theme.color(0x1b1d23)).bg(theme.bar_color(color));
    assert(style == bar_style(app@.theme, color));
    let middle = place(app);
    let right = aside(app);
    bar(label, middle.as_str(), right.as_str(), width, style)
}

/// The conversation does not move when the mode changes: where there is room
/// for both names in front of it, it starts in the same column.
pub proof fn the_conversation_stays_put(
    a: Seq<char>,
    b: Seq<char>,
    place: Seq<char>,
    width: nat,
)
    requires
        a.len() < place_start(place, width),
        b.len() < place_start(place, width),
    ensures
        a.len() + place_gap(a, place, width) == b.len() + place_gap(b, place, width),
        a.len() + place_gap(a, place, width) == place_start(place, width),
{
}

/// Where there is room for what it holds, the bar fills its width exactly.
pub proof fn the_bar_fills_its_width(
    label: Seq<char>,
    place: Seq<char>,
    aside: Seq<char>,
    width: nat,
    style: Style,
)
    requires
        label.len() + place_gap(label, place, width) + place.len() + aside.len() <= width,
    ensures
        ({
            let r = bar_runs(label, place, aside, width, style);
            r[0].text.len() + r[1].text.len() + r[2].text.len() + r[3].text.len()
                + r[4].text.len() == width
        }),
{
}

// ---------------------------------------------------------------------------
// what stands where
// ---------------------------------------------------------------------------

/// A row of the sidebar holds the label of its conversation, cut short if it is
/// too long, and fills the width; the one of the conversation that is shown
/// stands out, and no other one.
pub proof fn sidebar_rows_hold_their_labels(s: Screen, i: int, width: u16)
    requires
        0 <= i < s.convs.len(),
        width >= 3,
    ensures
        ({
            let r = sidebar_row(s, i, width);
            let label = label_in(s.labels, s.convs[i].id);
            &&& r.len() == 3
            &&& label.len() <= width - 2 ==> r[1].text == label
            &&& label.len() > width - 2 ==> r[1].text.last() == '\u{2026}' && r[1].text.drop_last()
                == label.take(width - 3)
            &&& r[0].text.len() + r[1].text.len() + r[2].text.len() == width
            &&& r[0].text == seq![' ']
            &&& i == s.active <==> r[1].style.bg is Some
            &&& i == s.active ==> r[1].style.bg == Some(s.theme.shows(s.theme.palette.selection))
                && r[1].style.fg == Some(s.theme.shows(s.theme.palette.accent))
            &&& i != s.active ==> r[1].style == fg(s.theme.shows(s.theme.palette.fg))
        }),
{
    let label = label_in(s.labels, s.convs[i].id);
    if label.len() > width - 2 {
        texts_are_kept_from_the_front(label, (width - 2) as nat);
    }
}

proof fn lemma_sidebar_rows(s: Screen, channels: bool, n: int, width: u16, i: int)
    requires
        0 <= i < n <= s.convs.len(),
        (s.convs[i].kind == ConvKind::Channel) == channels,
    ensures
        sidebar_rows(s, channels, n, width).contains(sidebar_row(s, i, width)),
    decreases n,
{
    let all = sidebar_rows(s, channels, n, width);
    let rest = sidebar_rows(s, channels, n - 1, width);
    if i == n - 1 {
        assert(all[rest.len() as int] == sidebar_row(s, i, width));
    } else {
        lemma_sidebar_rows(s, channels, n - 1, width, i);
        let k = choose|k: int| 0 <= k < rest.len() && rest[k] == sidebar_row(s, i, width);
        assert(all[k] == rest[k]);
    }
}

/// Every conversation has a row in the sidebar: a channel under CHANNELS, which
/// come first, and any other under DIRECT.
pub proof fn every_conversation_has_a_row(s: Screen, width: u16, i: int)
    requires
        0 <= i < s.convs.len(),
    ensures
        sidebar_of(s, width).contains(sidebar_row(s, i, width)),
        s.convs[i].kind == ConvKind::Channel ==> sidebar_of(s, width)[0][0].text == " CHANNELS"@
            && sidebar_rows(s, true, s.convs.len() as int, width).contains(
            sidebar_row(s, i, width),
        ),
        s.convs[i].kind != ConvKind::Channel ==> sidebar_rows(
            s,
            false,
            s.convs.len() as int,
            width,
        ).contains(sidebar_row(s, i, width)),
{
    let n = s.convs.len() as int;
    let row = sidebar_row(s, i, width);
    let up = sidebar_rows(s, true, n, width);
    let down = sidebar_rows(s, false, n, width);
    let none = Seq::<Seq<Run>>::empty();
    let top = section(none, " CHANNELS"@, up, s.theme);
    let all = sidebar_of(s, width);
    if s.convs[i].kind == ConvKind::Channel {
        lemma_sidebar_rows(s, true, n, width, i);
        let k = choose|k: int| 0 <= k < up.len() && up[k] == row;
        sections_stand_below_each_other(none, " CHANNELS"@, up, s.theme);
        assert(top.skip(top.len() - up.len())[k] == row);
        let at = top.len() - up.len() + k;
        assert(top[at] == row);
        sections_stand_below_each_other(top, " DIRECT"@, down, s.theme);
        assert(all.take(top.len() as int)[at] == row);
        assert(all[at] == row);
        assert(all.take(top.len() as int)[0] == top[0]);
    } else {
        lemma_sidebar_rows(s, false, n, width, i);
        let k = choose|k: int| 0 <= k < down.len() && down[k] == row;
        sections_stand_below_each_other(top, " DIRECT"@, down, s.theme);
        assert(all.skip(all.len() - down.len())[k] == row);
        assert(all[all.len() - down.len() + k] == row);
    }
}

/// A section stands below what is above it, with its title over its rows and a
/// blank line between it and the one before; one without rows is left out.
pub proof fn sections_stand_below_each_other(
    above: Seq<Seq<Run>>,
    title: Seq<char>,
    rows: Seq<Seq<Run>>,
    theme: Theme,
)
    ensures
        ({
            let all = section(above, title, rows, theme);
            &&& rows.len() == 0 ==> all == above
            &&& rows.len() > 0 ==> {
                &&& all.take(above.len() as int) == above
                &&& all.skip(all.len() - rows.len()) == rows
                &&& all[all.len() - rows.len() - 1].len() == 1
                &&& all[all.len() - rows.len() - 1][0].text == title
                &&& above.len() == 0 ==> all.len() == 1 + rows.len()
                &&& above.len() > 0 ==> all.len() == above.len() + 2 + rows.len()
                    && all[above.len() as int].len() == 0
            }
        }),
{
    let all = section(above, title, rows, theme);
    if rows.len() > 0 {
        assert(all.take(above.len() as int) =~= above);
        assert(all.skip(all.len() - rows.len()) =~= rows);
    }
}

/// The header names the conversation that is shown, and gives its topic if it
/// has one.
pub proof fn the_header_names_the_conversation(s: Screen)
    ensures
        s.active < s.convs.len() ==> {
            let conv = s.convs[s.active as int];
            let h = header_of(s);
            &&& h[1].text == label_in(s.labels, conv.id)
            &&& conv.topic@.len() == 0 ==> h.len() == 2
            &&& conv.topic@.len() > 0 ==> h.len() == 3 && h[2].text == "  \u{b7}  "@ + conv.topic@
        },
        s.active >= s.convs.len() ==> header_of(s)[1].text == "no conversations"@,
{
}

/// The input line shows what is being typed: the command behind a colon, or the
/// message; where nothing is, in Normal mode, how to begin.
pub proof fn the_input_line_shows_what_is_typed(s: Screen)
    ensures
        input_of(s).len() == 3,
        s.mode == Mode::Command ==> input_of(s)[1].text == ":"@ && input_of(s)[2].text == s.command,
        s.mode == Mode::Insert ==> input_of(s)[2].text == s.input,
        s.mode == Mode::Normal && s.input.len() > 0 ==> input_of(s)[2].text == s.input,
        s.mode == Mode::Normal && s.input.len() == 0 ==> input_of(s)[2].text
            == "press i to write"@,
{
}

/// The caret stands behind as much of what is typed as is before it; there is
/// none in Normal mode, nor while something is on top.
pub proof fn the_caret_stands_where_typing_lands(s: Screen)
    requires
        s.cursor <= s.input.len() < 0xff00,
        s.command.len() < 0xff00,
    ensures
        caret_of(s) is None <==> s.overlay is Some || s.mode == Mode::Normal,
        s.overlay is None && s.mode == Mode::Insert ==> caret_of(s) == Some(
            input_of(s)[0].text.len() + input_of(s)[1].text.len() + s.cursor as int,
        ),
        s.overlay is None && s.mode == Mode::Command ==> caret_of(s) == Some(
            input_of(s)[0].text.len() + input_of(s)[1].text.len() + s.command.len() as int,
        ),
{
    reveal_strlit(" ");
    reveal_strlit(":");
    reveal_strlit("\u{203a} ");
}

/// The bar names the mode, in its colour, and a refusal while it flashes.
pub proof fn the_bar_names_the_mode(s: Screen, now: Millis)
    ensures
        is_flashing(s, now) ==> mode_label(s, now) == ("ERROR"@, s.theme.palette.mode_error),
        !is_flashing(s, now) && s.mode == Mode::Normal ==> mode_label(s, now) == (
            "NORMAL"@,
            s.theme.palette.mode_normal,
        ),
        !is_flashing(s, now) && s.mode == Mode::Insert ==> mode_label(s, now) == (
            "INSERT"@,
            s.theme.palette.mode_insert,
        ),
        !is_flashing(s, now) && s.mode == Mode::Command ==> mode_label(s, now) == (
            "COMMAND"@,
            s.theme.palette.mode_command,
        ),
{
}

/// Those who are here are counted one by one.
pub proof fn whoever_is_here_is_counted(s: Screen, n: int)
    requires
        0 <= n <= s.members.len(),
    ensures
        online_count(s, n) <= n,
        n > 0 && is_here(s.users, s.members[n - 1]) ==> online_count(s, n) == online_count(
            s,
            n - 1,
        ) + 1,
        n > 0 && !is_here(s.users, s.members[n - 1]) ==> online_count(s, n) == online_count(
            s,
            n - 1,
        ),
        online_count(s, n) == 0 <==> forall|i: int|
            0 <= i < n ==> !is_here(s.users, #[trigger] s.members[i]),
    decreases n,
{
    if n > 0 {
        whoever_is_here_is_counted(s, n - 1);
        if forall|i: int| 0 <= i < n ==> !is_here(s.users, #[trigger] s.members[i]) {
            assert(!is_here(s.users, s.members[n - 1]));
        }
    }
}

/// The bar tells the conversation and how many are here, and behind it what
/// there is to say, or else how far back the view is.
pub proof fn the_bar_tells_where_and_how_many(s: Screen)
    ensures
        s.active < s.convs.len() ==> place_text(s) == label_in(
            s.labels,
            s.convs[s.active as int].id,
        ) + "  \u{b7}  "@ + decimal_nat(online_count(s, s.members.len() as int)) + " online"@,
        s.status is Some ==> aside_text(s) == "  \u{b7}  "@ + s.status->Some_0,
        s.active >= s.convs.len() ==> place_text(s) == "  \u{b7}  "@ + decimal_nat(
            online_count(s, s.members.len() as int),
        ) + " online"@,
        s.status is None && s.scroll == 0 ==> aside_text(s).len() == 0,
        s.status is None && s.scroll == 1 ==> aside_text(s) == "  \u{b7}  scrolled "@ + decimal_nat(1)
            + " line"@,
        s.status is None && s.scroll > 1 ==> aside_text(s) == "  \u{b7}  scrolled "@ + decimal_nat(
            s.scroll as nat,
        ) + " lines"@,
{
}

/// The bar holds, from left to right, the mode, the conversation and what there
/// is to say, in its own style, with the mode in bold.
pub proof fn the_bar_holds_its_parts_in_order(
    label: Seq<char>,
    place: Seq<char>,
    aside: Seq<char>,
    width: nat,
    style: Style,
)
    ensures
        ({
            let r = bar_runs(label, place, aside, width, style);
            &&& r[0].text == label && r[2].text == place && r[3].text == aside
            &&& r[0].style.bold == Switch::On && r[2].style == style && r[3].style == style
            &&& r[1].text.len() >= 1
            &&& forall|i: int| 0 <= i < r[1].text.len() ==> #[trigger] r[1].text[i] == ' '
        }),
{
}

/// The bar begins with the mode, in bold, tells the conversation behind it, and
/// last what there is to say, on the color of the mode all the way.
pub proof fn the_bar_shows_the_screen(s: Screen, width: u16, now: Millis)
    ensures
        ({
            let r = status_of(s, width, now);
            let (label, color) = mode_label(s, now);
            &&& r.len() == 5
            &&& r[0].text == label && r[2].text == place_text(s) && r[3].text == aside_text(s)
            &&& r[0].style.bold == Switch::On
            &&& forall|i: int|
                0 <= i < 5 ==> (#[trigger] r[i]).style.bg == Some(s.theme.shows(color))
            &&& forall|i: int|
                0 <= i < 5 ==> (#[trigger] r[i]).style.fg == Some(s.theme.shows(0x1b1d23))
        }),
{
}

} // verus!
