//! The conversation: time and author in fixed columns, a vertical rule, then
//! the wrapped body.
use vstd::prelude::*;

use crate::config::GROUP_GAP_MILLIS;
use crate::model::{Message, Millis};
use crate::text::{cat3, chars_of, repeat, repeated};
use crate::ui::app::{color_in, name_in, App, Screen};
use crate::ui::markdown::{render, rendered};
use crate::ui::render::clock::{
    can_show, clock, clock_text, day_label, in_calendar, label_day, local_time, shown, LocalTime,
};
use crate::ui::render::panes::{left_over, run};
use crate::ui::render::{pad, padded, TIME_WIDTH};
use crate::ui::style::{fg, plain, with, Line, Modifier, Run, Span, Style};
use crate::ui::theme::Theme;

verus! {

// ---------------------------------------------------------------------------
// columns
// ---------------------------------------------------------------------------

/// The longest name among the authors of the first `n` messages.
pub open spec fn longest_name(s: Screen, n: int) -> nat
    decreases n,
{
    if n <= 0 {
        0
    } else {
        let rest = longest_name(s, n - 1);
        let name = name_in(s.users, s.messages[n - 1].author).len();
        if name > rest {
            name
        } else {
            rest
        }
    }
}

/// The width of the column of names.
pub open spec fn name_column(s: Screen) -> nat {
    let longest = longest_name(s, s.messages.len() as int);
    if longest < 6 {
        6
    } else if longest > 14 {
        14
    } else {
        longest
    }
}

/// The width of the column of bodies, on `width` columns in all.
pub open spec fn text_column(s: Screen, width: nat) -> nat {
    let rest = left_over(width as int, TIME_WIDTH + 2 + name_column(s) + 3);
    if rest < 16 {
        16
    } else {
        rest
    }
}

// ---------------------------------------------------------------------------
// rows
// ---------------------------------------------------------------------------

pub open spec fn rule_style(theme: Theme) -> Style {
    fg(theme.shows(theme.palette.border))
}

pub open spec fn dim_style(theme: Theme) -> Style {
    fg(theme.shows(theme.palette.dim))
}

/// A label between two rules, across the whole width.
pub open spec fn separator_runs(label: Seq<char>, width: nat, theme: Theme) -> Seq<Run> {
    let side = left_over(width as int, label.len() as int + 4) / 2;
    seq![
        run(repeated('\u{2500}', side), rule_style(theme)),
        run("  "@ + label + "  "@, dim_style(theme)),
        run(repeated('\u{2500}', side), rule_style(theme)),
    ]
}

/// Whether message `i` is the first of its day.
pub open spec fn opens_day(times: Seq<LocalTime>, i: int) -> bool {
    i == 0 || times[i - 1].day != times[i].day
}

/// Whether message `i` shares the header of the one before it: the same author,
/// until the gap grows or the day turns over.
pub open spec fn joins(s: Screen, times: Seq<LocalTime>, i: int) -> bool {
    !opens_day(times, i) && s.messages[i - 1].author == s.messages[i].author
        && s.messages[i].created_at - s.messages[i - 1].created_at <= GROUP_GAP_MILLIS
}

/// What stands before the rule on line `k` of message `i`.
pub open spec fn row_head(s: Screen, times: Seq<LocalTime>, i: int, k: int) -> Seq<Run> {
    let column = name_column(s);
    let author = s.messages[i].author;
    if k == 0 && !joins(s, times, i) {
        seq![
            run(clock_text(times[i].minute), dim_style(s.theme)),
            run("  "@, plain()),
            run(
                padded(name_in(s.users, author), column),
                with(fg(color_in(s.users, s.theme, author)), Modifier::Bold),
            ),
        ]
    } else {
        seq![run(repeated(' ', (TIME_WIDTH + 2 + column) as nat), plain())]
    }
}

/// Line `k` of message `i`, whose wrapped body is `body`.
pub open spec fn message_row(
    s: Screen,
    times: Seq<LocalTime>,
    i: int,
    body: Seq<Seq<Run>>,
    k: int,
) -> Seq<Run> {
    let line = row_head(s, times, i, k) + seq![run(" \u{2502} "@, rule_style(s.theme))] + body[k];
    if k == 0 && s.messages[i].edited_at is Some {
        line.push(run("  (edited)"@, dim_style(s.theme)))
    } else {
        line
    }
}

/// Message `i`, as lines.
pub open spec fn message_rows(s: Screen, times: Seq<LocalTime>, i: int, width: nat) -> Seq<
    Seq<Run>,
> {
    let body = rendered(s.messages[i].body@, text_column(s, width) as int, s.theme);
    Seq::new(body.len(), |k: int| message_row(s, times, i, body, k))
}

/// The first `n` messages, as lines, with a separator before each day.
pub open spec fn transcript(
    s: Screen,
    times: Seq<LocalTime>,
    today: i32,
    width: nat,
    n: int,
) -> Seq<Seq<Run>>
    decreases n,
{
    if n <= 0 {
        seq![]
    } else {
        let above = transcript(s, times, today, width, n - 1);
        let opened = if opens_day(times, n - 1) {
            above.push(separator_runs(day_label(times[n - 1].day, today), width, s.theme))
        } else {
            above
        };
        opened + message_rows(s, times, n - 1, width)
    }
}

/// The whole conversation, as lines; a hint where there is none.
pub open spec fn conversation(
    s: Screen,
    times: Seq<LocalTime>,
    today: i32,
    width: nat,
) -> Seq<Seq<Run>> {
    let lines = transcript(s, times, today, width, s.messages.len() as int);
    if lines.len() == 0 {
        seq![
            seq![
                run("  nothing here yet -- press i and say something"@, dim_style(s.theme)),
            ],
        ]
    } else {
        lines
    }
}

// ---------------------------------------------------------------------------
// drawing
// ---------------------------------------------------------------------------

fn name_width(app: &App) -> (r: usize)
    ensures
        r == name_column(app@),
        6 <= r <= 14,
{
    let mut longest: usize = 0;
    let mut i: usize = 0;
    while i < app.messages.len()
        invariant
            i <= app.messages.len(),
            longest == longest_name(app@, i as int),
        decreases app.messages.len() - i,
    {
        let name = app.user_name(app.messages[i].author);
        let count = chars_of(name.as_str()).len();
        if count > longest {
            longest = count;
        }
        i += 1;
    }
    if longest < 6 {
        6
    } else if longest > 14 {
        14
    } else {
        longest
    }
}

/// A label between two rules, across the whole width.
pub fn separator(label: &str, width: usize, theme: &Theme) -> (r: Line)
    ensures
        r.deep_view() == separator_runs(label@, width as nat, *theme),
{
    let count = chars_of(label).len();
    let side: usize = width.saturating_sub(count).saturating_sub(4) / 2;
    let rule = Style::new().fg(theme.border(false));
    let mut spans: Vec<Span> = Vec::new();
    spans.push(Span::styled(repeat('\u{2500}', side), rule));
    spans.push(Span::styled(cat3("  ", label, "  "), Style::new().fg(theme.dim())));
    spans.push(Span::styled(repeat('\u{2500}', side), rule));
    assert(spans.deep_view() =~= separator_runs(label@, width as nat, *theme));
    Line { spans }
}

fn day_separator(day: i32, today: i32, width: usize, theme: &Theme) -> (r: Line)
    requires
        in_calendar(day as int),
        in_calendar(today as int),
    ensures
        r.deep_view() == separator_runs(day_label(day, today), width as nat, *theme),
{
    let label = label_day(day, today);
    separator(label.as_str(), width, theme)
}

fn head(app: &App, times: &Vec<LocalTime>, i: usize, k: usize, grouped: bool, column: usize) -> (r:
    Vec<Span>)
    requires
        i < app.messages.len(),
        times.len() == app.messages.len(),
        times[i as int].valid(),
        grouped == joins(app@, times@, i as int),
        column == name_column(app@),
        column <= 14,
    ensures
        r.deep_view() == row_head(app@, times@, i as int, k as int),
{
    let theme = &app.theme;
    let author = app.messages[i].author;
    let mut spans: Vec<Span> = Vec::new();
    if k == 0 && !grouped {
        spans.push(Span::styled(clock(times[i].minute), Style::new().fg(theme.dim())));
        spans.push(Span::raw("  ".to_owned()));
        let name = app.user_name(author);
        spans.push(
            Span::styled(
                pad(name.as_str(), column),
                Style::new().fg(app.user_color(author)).add_modifier(Modifier::Bold),
            ),
        );
    } else {
        spans.push(Span::raw(repeat(' ', TIME_WIDTH + 2 + column)));
    }
    assert(spans.deep_view() =~= row_head(app@, times@, i as int, k as int));
    spans
}

fn message(
    app: &App,
    times: &Vec<LocalTime>,
    i: usize,
    grouped: bool,
    column: usize,
    text_width: usize,
    Ghost(width): Ghost<nat>,
) -> (r: Vec<Line>)
    requires
        i < app.messages.len(),
        times.len() == app.messages.len(),
        times[i as int].valid(),
        grouped == joins(app@, times@, i as int),
        column == name_column(app@),
        column <= 14,
        text_width == text_column(app@, width),
    ensures
        r.deep_view() == message_rows(app@, times@, i as int, width),
{
    let theme = &app.theme;
    let body = render(app.messages[i].body.as_str(), text_width, theme);
    let ghost wrapped = body.deep_view();
    let edited = app.messages[i].edited_at.is_some();
    let mut out: Vec<Line> = Vec::new();
    for line in it: body
        invariant
            it.seq() == body@,
            wrapped == body.deep_view(),
            i < app.messages.len(),
            times.len() == app.messages.len(),
            times[i as int].valid(),
            grouped == joins(app@, times@, i as int),
            column == name_column(app@),
            column <= 14,
            edited == app.messages[i as int].edited_at is Some,
            *theme == app.theme,
            out.len() == it.index(),
            out.len() <= body.len(),
            out.deep_view() == Seq::new(
                out@.len(),
                |k: int| message_row(app@, times@, i as int, wrapped, k),
            ),
    {
        let k = out.len();
        let ghost before = out.deep_view();
        let ghost text = line.deep_view();
        assert(text == wrapped[k as int]);
        let mut spans = head(app, times, i, k, grouped, column);
        let ghost lead = spans.deep_view();
        spans.push(Span::styled(" \u{2502} ".to_owned(), Style::new().fg(theme.border(false))));
        assert(spans.deep_view() =~= lead + seq![run(" \u{2502} "@, rule_style(*theme))]);
        let ghost ruled = spans.deep_view();
        let ghost left = spans@;
        let mut rest = line.spans;
        let ghost right = rest@;
        spans.append(&mut rest);
        assert(spans@ =~= left + right);
        assert(spans.deep_view() =~= ruled + text);
        let ghost joined = spans.deep_view();
        if k == 0 && edited {
            spans.push(Span::styled("  (edited)".to_owned(), Style::new().fg(theme.dim())));
            assert(spans.deep_view() =~= joined.push(run("  (edited)"@, dim_style(*theme))));
        }
        let done = Line { spans };
        assert(done.deep_view() == message_row(app@, times@, i as int, wrapped, k as int));
        out.push(done);
        assert(out.deep_view() =~= before.push(done.deep_view()));
    }
    out
}

/// What the clock showed when each message was written, where `offsets` says
/// how far ahead of UTC it was.
pub open spec fn times_of(messages: Seq<Message>, offsets: Seq<i32>) -> Seq<LocalTime> {
    Seq::new(messages.len(), |i: int| shown(messages[i].created_at, offsets[i]))
}

/// The column layout: time and author in fixed columns, a vertical rule, then
/// the wrapped body. Consecutive messages from one author share a header until
/// the gap grows or the day turns over.
///
/// `offsets` says how many seconds the clock was ahead of UTC when each message
/// was written, and `now_offset` how many it is at `now`.
pub fn build_messages(
    app: &App,
    offsets: &Vec<i32>,
    now: Millis,
    now_offset: i32,
    width: usize,
) -> (r: Vec<Line>)
    requires
        offsets.len() == app.messages.len(),
        forall|i: int|
            0 <= i < offsets.len() ==> can_show(app.messages[i].created_at, #[trigger] offsets[i]),
        can_show(now, now_offset),
    ensures
        r.deep_view() == conversation(
            app@,
            times_of(app.messages@, offsets@),
            shown(now, now_offset).day,
            width as nat,
        ),
{
    let mut times: Vec<LocalTime> = Vec::new();
    let mut i: usize = 0;
    while i < app.messages.len()
        invariant
            i <= app.messages.len(),
            offsets.len() == app.messages.len(),
            forall|j: int|
                0 <= j < offsets.len() ==> can_show(
                    app.messages[j].created_at,
                    #[trigger] offsets[j],
                ),
            times.len() == i,
            forall|j: int|
                0 <= j < i ==> (#[trigger] times[j]).valid() && times[j] == shown(
                    app.messages[j].created_at,
                    offsets[j],
                ),
        decreases app.messages.len() - i,
    {
        assert(can_show(app.messages[i as int].created_at, offsets[i as int]));
        times.push(local_time(app.messages[i].created_at, offsets[i]));
        i += 1;
    }
    assert(times@ =~= times_of(app.messages@, offsets@));
    let today = local_time(now, now_offset).day;
    lay_out(app, &times, today, width)
}

fn lay_out(app: &App, times: &Vec<LocalTime>, today: i32, width: usize) -> (r: Vec<Line>)
    requires
        times.len() == app.messages.len(),
        forall|i: int| 0 <= i < times.len() ==> (#[trigger] times[i]).valid(),
        in_calendar(today as int),
    ensures
        r.deep_view() == conversation(app@, times@, today, width as nat),
{
    let theme = &app.theme;
    let column = name_width(app);
    let rest: usize = width.saturating_sub(TIME_WIDTH + 2 + column + 3);
    let text_width: usize = if rest < 16 {
        16
    } else {
        rest
    };
    let mut lines: Vec<Line> = Vec::new();
    assert(lines.deep_view() =~= seq![]);
    let mut i: usize = 0;
    while i < app.messages.len()
        invariant
            i <= app.messages.len(),
            times.len() == app.messages.len(),
            forall|j: int| 0 <= j < times.len() ==> (#[trigger] times[j]).valid(),
            in_calendar(today as int),
            *theme == app.theme,
            column == name_column(app@),
            column <= 14,
            text_width == text_column(app@, width as nat),
            lines.deep_view() == transcript(app@, times@, today, width as nat, i as int),
        decreases app.messages.len() - i,
    {
        let ghost above = lines.deep_view();
        let new_day = i == 0 || times[i - 1].day != times[i].day;
        if new_day {
            assert(times[i as int].valid());
            let line = day_separator(times[i].day, today, width, theme);
            lines.push(line);
            assert(lines.deep_view() =~= above.push(line.deep_view()));
        }
        let grouped = !new_day && app.messages[i - 1].author == app.messages[i].author
            && app.messages[i].created_at as i128 - app.messages[i - 1].created_at as i128
            <= GROUP_GAP_MILLIS as i128;
        let ghost opened = lines.deep_view();
        let mut rows = message(app, times, i, grouped, column, text_width, Ghost(width as nat));
        let ghost added = rows.deep_view();
        let ghost left = lines@;
        let ghost right = rows@;
        lines.append(&mut rows);
        assert(lines@ =~= left + right);
        assert(lines.deep_view() =~= opened + added);
        i += 1;
    }
    if lines.len() == 0 {
        let hint = Line::of(
            Span::styled(
                "  nothing here yet -- press i and say something".to_owned(),
                Style::new().fg(theme.dim()),
            ),
        );
        lines.push(hint);
        assert(lines.deep_view() =~= seq![hint.deep_view()]);
    }
    lines
}

// ---------------------------------------------------------------------------
// the part that is in view
// ---------------------------------------------------------------------------

/// How far back a view of `height` lines can be scrolled.
pub open spec fn clamped_scroll(scroll: usize, total: nat, height: nat) -> nat {
    if scroll <= left_over(total as int, height as int) {
        scroll as nat
    } else {
        left_over(total as int, height as int)
    }
}

/// The lines in view. A short conversation sits on the input box, not under the
/// header.
pub open spec fn in_view(lines: Seq<Seq<Run>>, scroll: nat, height: nat) -> Seq<Seq<Run>> {
    if lines.len() < height {
        Seq::new((height - lines.len()) as nat, |i: int| seq![]) + lines
    } else {
        lines.subrange(lines.len() - height - scroll, lines.len() - scroll)
    }
}

fn slide(lines: Vec<Line>, start: usize, count: usize) -> (r: Vec<Line>)
    requires
        start + count <= lines.len(),
    ensures
        r.deep_view() == lines.deep_view().subrange(start as int, start + count),
{
    let ghost all = lines.deep_view();
    let mut out: Vec<Line> = Vec::new();
    let mut i: usize = 0;
    for line in it: lines
        invariant
            it.seq() == lines@,
            all == lines.deep_view(),
            i == it.index(),
            i <= lines.len(),
            start + count <= lines.len(),
            out.deep_view() == all.subrange(
                start as int,
                if i < start {
                    start as int
                } else if i < start + count {
                    i as int
                } else {
                    start + count
                },
            ),
    {
        if start <= i && i - start < count {
            let ghost before = out.deep_view();
            let ghost text = line.deep_view();
            assert(text == all[i as int]);
            out.push(line);
            assert(out.deep_view() =~= before.push(text));
        }
        i += 1;
    }
    out
}

/// Scroll the conversation into view, on `height` lines. Key handling is told
/// how much there is, and the scrolling is kept within it.
pub fn window(app: &mut App, lines: Vec<Line>, height: u16) -> (r: Vec<Line>)
    ensures
        ({
            let total = lines.deep_view().len();
            let scroll = clamped_scroll(old(app)@.scroll, total, height as nat);
            &&& final(app)@ == (Screen {
                scroll: scroll as usize,
                total_lines: total as usize,
                view_height: height as usize,
                ..old(app)@
            })
            &&& r.deep_view() == in_view(lines.deep_view(), scroll, height as nat)
        }),
{
    let height = height as usize;
    let total = lines.len();
    let ghost all = lines.deep_view();
    app.total_lines = total;
    app.view_height = height;
    let most: usize = total.saturating_sub(height);
    if app.scroll > most {
        app.scroll = most;
    }
    if total >= height {
        return slide(lines, total - height - app.scroll, height);
    }
    let mut out: Vec<Line> = Vec::new();
    assert(out.deep_view() =~= seq![]);
    while out.len() < height - total
        invariant
            total < height,
            out.len() <= height - total,
            out.deep_view() == Seq::new(out@.len(), |i: int| Seq::<Run>::empty()),
        decreases height - total - out.len(),
    {
        let ghost before = out.deep_view();
        let line = Line::blank();
        out.push(line);
        assert(out.deep_view() =~= before.push(line.deep_view()));
    }
    let ghost top = out.deep_view();
    let ghost left = out@;
    let mut rest = lines;
    let ghost right = rest@;
    out.append(&mut rest);
    proof {
        assert(out@ =~= left + right);
        assert(out.deep_view() =~= top + all);
    }
    out
}

/// The view is always full, whatever is scrolled to.
pub proof fn the_view_is_full(lines: Seq<Seq<Run>>, scroll: usize, height: nat)
    ensures
        in_view(lines, clamped_scroll(scroll, lines.len(), height), height).len() == height,
{
}

/// Unscrolled, the view ends with the last line; scrolled back as far as can
/// be, it starts with the first.
pub proof fn the_view_reaches_both_ends(lines: Seq<Seq<Run>>, height: nat)
    requires
        0 < height <= lines.len(),
        lines.len() <= usize::MAX,
    ensures
        in_view(lines, clamped_scroll(0, lines.len(), height), height).last() == lines.last(),
        in_view(lines, clamped_scroll(usize::MAX, lines.len(), height), height)[0] == lines[0],
{
}

// ---------------------------------------------------------------------------
// what stands where
// ---------------------------------------------------------------------------

/// The column of names has room for every author's name, but for one of more
/// than fourteen characters, and is never narrower than six.
pub proof fn names_fit_their_column(s: Screen, i: int)
    requires
        0 <= i < s.messages.len(),
    ensures
        6 <= name_column(s) <= 14,
        name_in(s.users, s.messages[i].author).len() <= 14 ==> name_in(
            s.users,
            s.messages[i].author,
        ).len() <= name_column(s),
        6 < name_column(s) ==> exists|j: int|
            0 <= j < s.messages.len() && name_in(s.users, (#[trigger] s.messages[j]).author).len()
                >= name_column(s),
{
    lemma_longest(s, s.messages.len() as int, i);
    lemma_longest_is_someones(s, s.messages.len() as int);
}

proof fn lemma_longest_is_someones(s: Screen, n: int)
    requires
        0 <= n <= s.messages.len(),
    ensures
        longest_name(s, n) > 0 ==> exists|j: int|
            0 <= j < n && name_in(s.users, (#[trigger] s.messages[j]).author).len()
                == longest_name(s, n),
    decreases n,
{
    if n > 0 {
        lemma_longest_is_someones(s, n - 1);
        assert(s.messages[n - 1] == s.messages[n - 1]);
    }
}

proof fn lemma_longest(s: Screen, n: int, i: int)
    requires
        0 <= i < n <= s.messages.len(),
    ensures
        name_in(s.users, s.messages[i].author).len() <= longest_name(s, n),
    decreases n,
{
    if i < n - 1 {
        lemma_longest(s, n - 1, i);
    }
}

/// The columns fill the width: what time, name and rule leave is the body's,
/// but never less than sixteen columns.
pub proof fn the_body_gets_what_is_left(s: Screen, width: nat)
    ensures
        text_column(s, width) >= 16,
        TIME_WIDTH + 2 + name_column(s) + 3 + 16 <= width ==> TIME_WIDTH + 2 + name_column(s) + 3
            + text_column(s, width) == width,
{
}

/// A message shares the header of the one before it exactly if that is by the
/// same author, of the same day, and no more than five minutes older.
pub proof fn messages_are_grouped(s: Screen, times: Seq<LocalTime>, i: int)
    requires
        0 <= i < s.messages.len(),
        times.len() == s.messages.len(),
    ensures
        joins(s, times, i) <==> i > 0 && s.messages[i - 1].author == s.messages[i].author
            && times[i - 1].day == times[i].day && s.messages[i].created_at - s.messages[i
            - 1].created_at <= 5 * 60 * 1000,
{
}

/// A message that does not share a header begins with the time and the name of
/// its author, in their colour; one that does, and every line but the first,
/// begins with blanks as wide.
pub proof fn headers_tell_who_and_when(s: Screen, times: Seq<LocalTime>, i: int, k: int)
    requires
        0 <= i < s.messages.len(),
        times.len() == s.messages.len(),
        k >= 0,
    ensures
        k == 0 && !joins(s, times, i) ==> {
            let h = row_head(s, times, i, k);
            let name = name_in(s.users, s.messages[i].author);
            &&& h.len() == 3
            &&& h[0].text == clock_text(times[i].minute)
            &&& h[2].text == padded(name, name_column(s))
            &&& h[2].style.fg == Some(color_in(s.users, s.theme, s.messages[i].author))
        },
        k > 0 || joins(s, times, i) ==> {
            let h = row_head(s, times, i, k);
            &&& h.len() == 1
            &&& h[0].text == repeated(' ', (TIME_WIDTH + 2 + name_column(s)) as nat)
        },
{
}

/// Every line of a message holds a line of its body behind the rule; only one
/// that was edited says so, once.
pub proof fn every_line_of_a_message_is_drawn(
    s: Screen,
    times: Seq<LocalTime>,
    i: int,
    width: nat,
    k: int,
)
    requires
        0 <= i < s.messages.len(),
        0 <= k < rendered(s.messages[i].body@, text_column(s, width) as int, s.theme).len(),
    ensures
        ({
            let body = rendered(s.messages[i].body@, text_column(s, width) as int, s.theme);
            let rows = message_rows(s, times, i, width);
            let head = row_head(s, times, i, k);
            let line = head + seq![
                Run { text: " \u{2502} "@, style: fg(s.theme.shows(s.theme.palette.border)) },
            ] + body[k];
            &&& rows.len() == body.len()
            &&& k > 0 || s.messages[i].edited_at is None ==> rows[k] == line
            &&& k == 0 && s.messages[i].edited_at is Some ==> rows[k].drop_last() == line
                && rows[k].last().text == "  (edited)"@
        }),
{
    let body = rendered(s.messages[i].body@, text_column(s, width) as int, s.theme);
    let line = row_head(s, times, i, k) + seq![run(" \u{2502} "@, rule_style(s.theme))] + body[k];
    assert(line.push(run("  (edited)"@, dim_style(s.theme))).drop_last() =~= line);
}

/// Messages stand one below the other in their order: each adds its lines below
/// those before it, with a separator above them exactly if it is the first of
/// its day.
pub proof fn days_are_separated(
    s: Screen,
    times: Seq<LocalTime>,
    today: i32,
    width: nat,
    i: int,
)
    requires
        0 <= i < s.messages.len(),
        times.len() == s.messages.len(),
    ensures
        ({
            let above = transcript(s, times, today, width, i);
            let all = transcript(s, times, today, width, i + 1);
            let rows = message_rows(s, times, i, width);
            let first = i == 0 || times[i - 1].day != times[i].day;
            &&& all.take(above.len() as int) == above
            &&& all.skip(all.len() - rows.len()) == rows
            &&& first ==> all.len() == above.len() + 1 + rows.len() && all[above.len() as int]
                == separator_runs(day_label(times[i].day, today), width, s.theme)
            &&& !first ==> all.len() == above.len() + rows.len()
        }),
{
    let above = transcript(s, times, today, width, i);
    let all = transcript(s, times, today, width, i + 1);
    let rows = message_rows(s, times, i, width);
    assert(all.take(above.len() as int) =~= above);
    assert(all.skip(all.len() - rows.len()) =~= rows);
}

/// A separator holds its label in the middle, between two rules of the same
/// length, and fits the width where the label does.
pub proof fn separators_are_centered(label: Seq<char>, width: nat, theme: Theme)
    ensures
        ({
            let r = separator_runs(label, width, theme);
            &&& r.len() == 3
            &&& r[0] == r[2]
            &&& r[1].text == "  "@ + label + "  "@
            &&& forall|i: int| 0 <= i < r[0].text.len() ==> #[trigger] r[0].text[i] == '\u{2500}'
            &&& label.len() + 4 <= width ==> width - 1 <= r[0].text.len() + label.len() + 4
                + r[2].text.len() <= width
        }),
{
}

/// A hint stands where nobody has said anything, and only there.
pub proof fn an_empty_conversation_says_so(
    s: Screen,
    times: Seq<LocalTime>,
    today: i32,
    width: nat,
)
    requires
        times.len() == s.messages.len(),
    ensures
        s.messages.len() == 0 ==> conversation(s, times, today, width).len() == 1 && conversation(
            s,
            times,
            today,
            width,
        )[0][0].text == "  nothing here yet -- press i and say something"@,
        s.messages.len() > 0 ==> conversation(s, times, today, width) == transcript(
            s,
            times,
            today,
            width,
            s.messages.len() as int,
        ),
{
    if s.messages.len() > 0 {
        lemma_transcript_grows(s, times, today, width, s.messages.len() as int);
    }
}

proof fn lemma_transcript_grows(
    s: Screen,
    times: Seq<LocalTime>,
    today: i32,
    width: nat,
    n: int,
)
    requires
        0 < n,
    ensures
        transcript(s, times, today, width, n).len() > 0,
    decreases n,
{
    if n > 1 {
        lemma_transcript_grows(s, times, today, width, n - 1);
    } else {
        assert(opens_day(times, 0));
    }
}

/// Scrolling back by one line moves the view up by one line; a conversation
/// that is shorter than the view sits at the bottom of it, below blank lines.
pub proof fn scrolling_moves_line_by_line(lines: Seq<Seq<Run>>, scroll: nat, height: nat, i: int)
    requires
        height > 0,
    ensures
        lines.len() >= height && scroll + 1 <= lines.len() - height && 0 <= i < height - 1
            ==> in_view(lines, scroll + 1, height)[i + 1] == in_view(lines, scroll, height)[i],
        lines.len() < height && 0 <= i < lines.len() ==> in_view(lines, scroll, height)[height
            - lines.len() + i] == lines[i],
        lines.len() < height && 0 <= i < height - lines.len() ==> in_view(
            lines,
            scroll,
            height,
        )[i].len() == 0,
{
}

/// The times are those that the clock showed when each message was written.
pub proof fn times_are_those_of_the_messages(messages: Seq<Message>, offsets: Seq<i32>, i: int)
    requires
        0 <= i < messages.len(),
    ensures
        times_of(messages, offsets).len() == messages.len(),
        times_of(messages, offsets)[i] == shown(messages[i].created_at, offsets[i]),
{
}

} // verus!
