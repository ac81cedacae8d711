//! What is drawn on top of the panes: the switcher, a profile, the roles and
//! the help.
use vstd::prelude::*;

use crate::model::{Role, User};
use crate::number::{decimal_int, decimal_signed};
use crate::text::{cat, chars_of};
use crate::ui::app::{label_in, App, Screen};
use crate::ui::markdown::{render, rendered};
use crate::ui::render::clock::{
    can_show, date_text, full_date, local_time, moment, moment_text, shown, FULL_DATE,
};
use crate::ui::render::messages::dim_style;
use crate::ui::render::panes::{heading, run};
use crate::ui::render::{pad, padded};
use crate::ui::style::{fg, with, Color, Line, Modifier, Run, Span, Style, Switch};
use crate::ui::switcher::{Switcher, SwitcherData};
use crate::ui::theme::Theme;

verus! {

pub open spec fn text_style(theme: Theme) -> Style {
    fg(theme.shows(theme.palette.fg))
}

pub open spec fn accent_style(theme: Theme) -> Style {
    fg(theme.shows(theme.palette.accent))
}

fn put(lines: &mut Vec<Line>, line: Line)
    ensures
        final(lines).deep_view() == old(lines).deep_view().push(line.deep_view()),
{
    let ghost before = lines.deep_view();
    lines.push(line);
    assert(lines.deep_view() =~= before.push(line.deep_view()));
}

fn put_all(lines: &mut Vec<Line>, more: Vec<Line>)
    ensures
        final(lines).deep_view() == old(lines).deep_view() + more.deep_view(),
{
    let ghost before = lines.deep_view();
    let ghost added = more.deep_view();
    let ghost left = lines@;
    let ghost right = more@;
    let mut rest = more;
    lines.append(&mut rest);
    proof {
        assert(lines@ =~= left + right);
        assert(lines.deep_view() =~= before + added);
    }
}

/// A line of one piece.
fn plain_line(text: &str, style: Style) -> (r: Line)
    ensures
        r.deep_view() == seq![run(text@, style)],
{
    let r = Line::of(Span::styled(text.to_owned(), style));
    assert(r.deep_view() =~= seq![run(text@, style)]);
    r
}

/// A line of two pieces.
fn pair(a: String, first: Style, b: String, second: Style) -> (r: Line)
    ensures
        r.deep_view() == seq![run(a@, first), run(b@, second)],
{
    let ghost (left, right) = (a@, b@);
    let mut spans: Vec<Span> = Vec::new();
    spans.push(Span::styled(a, first));
    spans.push(Span::styled(b, second));
    assert(spans.deep_view() =~= seq![run(left, first), run(right, second)]);
    Line { spans }
}

// ---------------------------------------------------------------------------
// switcher
// ---------------------------------------------------------------------------

pub fn switcher_query(state: &Switcher, theme: &Theme) -> (r: Line)
    ensures
        r.deep_view() == seq![
            run("/"@, accent_style(*theme)),
            run(state@.query, text_style(*theme)),
        ],
{
    pair(
        "/".to_owned(),
        Style::new().fg(theme.accent()),
        state.query.clone(),
        Style::new().fg(theme.fg()),
    )
}

/// How an entry looks.
pub open spec fn entry_style(theme: Theme, selected: bool) -> Style {
    if selected {
        Style { bg: Some(theme.shows(theme.palette.selection)), ..text_style(theme) }
    } else {
        text_style(theme)
    }
}

/// How a character looks that the query landed on.
pub open spec fn hit_style(theme: Theme, selected: bool) -> Style {
    with(
        with(
            Style { fg: Some(theme.shows(theme.palette.accent)), ..entry_style(theme, selected) },
            Modifier::Bold,
        ),
        Modifier::Underlined,
    )
}

/// The characters of a label, those at `positions` highlighted.
pub open spec fn label_runs(
    label: Seq<char>,
    positions: Seq<usize>,
    theme: Theme,
    selected: bool,
) -> Seq<Run> {
    Seq::new(
        label.len(),
        |i: int|
            run(
                seq![label[i]],
                if positions.contains(i as usize) {
                    hit_style(theme, selected)
                } else {
                    entry_style(theme, selected)
                },
            ),
    )
}

pub open spec fn entry_runs(s: Screen, state: SwitcherData, row: int) -> Seq<Run> {
    let entry = state.matches[row];
    let selected = row == state.selected;
    let label = label_in(s.labels, s.convs[entry.index as int].id);
    seq![
        run(
            if selected {
                " > "@
            } else {
                "   "@
            },
            entry_style(s.theme, selected),
        ),
    ] + label_runs(label, entry.positions, s.theme, selected)
}

pub open spec fn switcher_of(s: Screen, state: SwitcherData) -> Seq<Seq<Run>> {
    if state.matches.len() == 0 {
        seq![seq![run("   no match"@, dim_style(s.theme))]]
    } else {
        Seq::new(state.matches.len(), |row: int| entry_runs(s, state, row))
    }
}

fn has_position(positions: &Vec<usize>, i: usize) -> (r: bool)
    ensures
        r == positions@.contains(i),
{
    let mut k: usize = 0;
    while k < positions.len()
        invariant
            k <= positions.len(),
            forall|j: int| 0 <= j < k ==> positions@[j] != i,
        decreases positions.len() - k,
    {
        if positions[k] == i {
            assert(positions@[k as int] == i);
            return true;
        }
        k += 1;
    }
    false
}

fn entry(app: &App, state: &Switcher, row: usize) -> (r: Line)
    requires
        row < state.matches.len(),
        state@.matches[row as int].index < app.convs.len(),
    ensures
        r.deep_view() == entry_runs(app@, state@, row as int),
{
    let theme = &app.theme;
    let selected = row == state.selected;
    let positions = &state.matches[row].positions;
    let base = if selected {
        Style::new().fg(theme.fg()).bg(theme.selection())
    } else {
        Style::new().fg(theme.fg())
    };
    let hit = base.fg(theme.accent()).add_modifier(Modifier::Bold).add_modifier(
        Modifier::Underlined,
    );
    assert(base == entry_style(*theme, selected));
    assert(hit == hit_style(*theme, selected));
    let name = app.label(app.convs[state.matches[row].index].id);
    let label = chars_of(name.as_str());
    let mark = if selected {
        " > "
    } else {
        "   "
    };
    let mut spans: Vec<Span> = Vec::new();
    spans.push(Span::styled(mark.to_owned(), base));
    let ghost front = seq![run(mark@, base)];
    assert(spans.deep_view() =~= front);
    let mut i: usize = 0;
    while i < label.len()
        invariant
            i <= label.len(),
            label@ == name@,
            base == entry_style(*theme, selected),
            hit == hit_style(*theme, selected),
            spans.deep_view() == front + label_runs(
                name@,
                positions@,
                *theme,
                selected,
            ).take(i as int),
        decreases label.len() - i,
    {
        let ghost before = spans.deep_view();
        let style = if has_position(positions, i) {
            hit
        } else {
            base
        };
        let mut letter = String::new();
        letter.push(label[i]);
        assert(letter@ =~= seq![name@[i as int]]);
        let span = Span::styled(letter, style);
        spans.push(span);
        proof {
            let all = label_runs(name@, positions@, *theme, selected);
            assert(spans.deep_view() =~= before.push(span.deep_view()));
            assert(span.deep_view() == all[i as int]);
            assert(all.take(i + 1) =~= all.take(i as int).push(all[i as int]));
            assert(front + all.take(i + 1) =~= (front + all.take(i as int)).push(all[i as int]));
        }
        i += 1;
    }
    proof {
        let all = label_runs(name@, positions@, *theme, selected);
        assert(all.take(i as int) =~= all);
    }
    Line { spans }
}

/// The entries of the switcher.
pub fn switcher_list(app: &App, state: &Switcher) -> (r: Vec<Line>)
    requires
        forall|i: int|
            0 <= i < state@.matches.len() ==> (#[trigger] state@.matches[i]).index
                < app.convs.len(),
    ensures
        r.deep_view() == switcher_of(app@, state@),
{
    let mut lines: Vec<Line> = Vec::new();
    assert(lines.deep_view() =~= seq![]);
    let mut row: usize = 0;
    while row < state.matches.len()
        invariant
            row <= state.matches.len(),
            forall|i: int|
                0 <= i < state@.matches.len() ==> (#[trigger] state@.matches[i]).index
                    < app.convs.len(),
            lines.deep_view() == Seq::new(row as nat, |k: int| entry_runs(app@, state@, k)),
        decreases state.matches.len() - row,
    {
        let line = entry(app, state, row);
        put(&mut lines, line);
        assert(lines.deep_view() =~= Seq::new(
            (row + 1) as nat,
            |k: int| entry_runs(app@, state@, k),
        ));
        row += 1;
    }
    if lines.len() == 0 {
        put(&mut lines, plain_line("   no match", Style::new().fg(app.theme.dim())));
        assert(lines.deep_view() =~= switcher_of(app@, state@));
    }
    lines
}

// ---------------------------------------------------------------------------
// profile
// ---------------------------------------------------------------------------

pub open spec fn name_color(user: User, theme: Theme) -> Color {
    if user.roles@.len() > 0 {
        theme.shows(user.roles@[0].color)
    } else {
        theme.shows(theme.palette.fg)
    }
}

/// The names of someone's roles, each in its own colour.
pub open spec fn role_runs(roles: Seq<Role>, theme: Theme) -> Seq<Run> {
    roles.map_values(|r: Role| run(r.name@ + " "@, fg(theme.shows(r.color))))
}

pub open spec fn profile_top(user: User, theme: Theme) -> Seq<Seq<Run>> {
    let named = seq![
        seq![run(user.name@, with(fg(name_color(user, theme)), Modifier::Bold))],
        seq![],
    ];
    if user.roles@.len() > 0 {
        named + seq![role_runs(user.roles@, theme), seq![]]
    } else {
        named
    }
}

pub open spec fn profile_bio(user: User, width: nat, theme: Theme) -> Seq<Seq<Run>> {
    if user.bio@.len() == 0 {
        seq![seq![run("no bio yet"@, dim_style(theme))]]
    } else {
        rendered(user.bio@, width as int, theme)
    }
}

/// A profile, with the day someone joined and when they were last seen written
/// out.
pub open spec fn profile_of(
    user: User,
    joined: Seq<char>,
    seen: Seq<char>,
    width: nat,
    theme: Theme,
) -> Seq<Seq<Run>> {
    profile_top(user, theme) + profile_bio(user, width, theme) + seq![
        seq![],
        seq![run("joined   "@, dim_style(theme)), run(joined, text_style(theme))],
        seq![
            run("status   "@, dim_style(theme)),
            if user.online {
                run("\u{25cf} online"@, fg(theme.shows(theme.palette.ok)))
            } else {
                run("\u{25cb} last seen "@ + seen, dim_style(theme))
            },
        ],
    ]
}

fn role_names(roles: &Vec<Role>, theme: &Theme) -> (r: Line)
    ensures
        r.deep_view() == role_runs(roles@, *theme),
{
    let mut spans: Vec<Span> = Vec::new();
    assert(spans.deep_view() =~= seq![]);
    let mut i: usize = 0;
    while i < roles.len()
        invariant
            i <= roles.len(),
            spans.deep_view() == role_runs(roles@.take(i as int), *theme),
        decreases roles.len() - i,
    {
        let ghost before = spans.deep_view();
        let span = Span::styled(
            cat(roles[i].name.as_str(), " "),
            Style::new().fg(theme.color(roles[i].color)),
        );
        spans.push(span);
        proof {
            assert(spans.deep_view() =~= before.push(span.deep_view()));
            assert(roles@.take(i + 1) == roles@.take(i as int).push(roles@[i as int]));
            assert(spans.deep_view() =~= role_runs(roles@.take(i + 1), *theme));
        }
        i += 1;
    }
    assert(roles@.take(i as int) == roles@);
    Line { spans }
}

/// A profile, with the day someone joined and when they were last seen written
/// out.
pub fn profile_lines(user: &User, joined: &str, seen: &str, width: usize, theme: &Theme) -> (r: Vec<
    Line,
>)
    ensures
        r.deep_view() == profile_of(*user, joined@, seen@, width as nat, *theme),
{
    let color = if user.roles.len() > 0 {
        theme.color(user.roles[0].color)
    } else {
        theme.fg()
    };
    let field = Style::new().fg(theme.dim());
    let mut lines: Vec<Line> = Vec::new();
    assert(lines.deep_view() =~= seq![]);
    put(
        &mut lines,
        plain_line(user.name.as_str(), Style::new().fg(color).add_modifier(Modifier::Bold)),
    );
    put(&mut lines, Line::blank());
    if user.roles.len() > 0 {
        put(&mut lines, role_names(&user.roles, theme));
        put(&mut lines, Line::blank());
    }
    assert(lines.deep_view() =~= profile_top(*user, *theme));
    let bio = if user.bio.as_str().is_empty() {
        let mut none: Vec<Line> = Vec::new();
        assert(none.deep_view() =~= seq![]);
        put(&mut none, plain_line("no bio yet", field));
        assert(none.deep_view() =~= profile_bio(*user, width as nat, *theme));
        none
    } else {
        render(user.bio.as_str(), width, theme)
    };
    put_all(&mut lines, bio);
    put(&mut lines, Line::blank());
    put(
        &mut lines,
        pair(
            "joined   ".to_owned(),
            field,
            joined.to_owned(),
            Style::new().fg(theme.fg()),
        ),
    );
    let status = if user.online {
        pair(
            "status   ".to_owned(),
            field,
            "\u{25cf} online".to_owned(),
            Style::new().fg(theme.color(theme.palette.ok)),
        )
    } else {
        pair("status   ".to_owned(), field, cat("\u{25cb} last seen ", seen), field)
    };
    put(&mut lines, status);
    assert(lines.deep_view() =~= profile_of(*user, joined@, seen@, width as nat, *theme));
    lines
}

/// Someone's profile, on `width` columns. The offsets say how many seconds the
/// clock was ahead of UTC when they joined and when they were last seen.
pub fn profile(
    user: &User,
    joined_offset: i32,
    seen_offset: i32,
    width: usize,
    theme: &Theme,
) -> (r: Vec<Line>)
    requires
        can_show(user.joined_at, joined_offset),
        can_show(user.last_seen, seen_offset),
    ensures
        r.deep_view() == profile_of(
            *user,
            date_text(shown(user.joined_at, joined_offset).day, FULL_DATE@),
            moment_text(shown(user.last_seen, seen_offset)),
            width as nat,
            *theme,
        ),
{
    let joined = full_date(local_time(user.joined_at, joined_offset).day);
    let seen = moment(local_time(user.last_seen, seen_offset));
    profile_lines(user, joined.as_str(), seen.as_str(), width, theme)
}

// ---------------------------------------------------------------------------
// roles
// ---------------------------------------------------------------------------

/// A role: its name in its colour, its priority, and what else there is to it.
pub open spec fn role_line(role: Role, theme: Theme) -> Seq<Run> {
    let hoisted = if role.hoisted {
        "  hoisted"@
    } else {
        seq![]
    };
    let admin = if role.admin {
        "  admin"@
    } else {
        seq![]
    };
    seq![
        run(role.name@, with(fg(theme.shows(role.color)), Modifier::Bold)),
        run(
            "  priority "@ + decimal_int(role.priority as int) + hoisted + admin,
            dim_style(theme),
        ),
    ]
}

pub open spec fn roles_of(roles: Seq<Role>, theme: Theme) -> Seq<Seq<Run>> {
    if roles.len() == 0 {
        seq![seq![run("no roles yet"@, dim_style(theme))]]
    } else {
        roles.map_values(|r: Role| role_line(r, theme))
    }
}

fn role_row(role: &Role, theme: &Theme) -> (r: Line)
    ensures
        r.deep_view() == role_line(*role, *theme),
{
    let priority = decimal_signed(role.priority);
    let mut text = cat("  priority ", priority.as_str());
    if role.hoisted {
        text.append("  hoisted");
    }
    if role.admin {
        text.append("  admin");
    }
    assert(text@ =~= role_line(*role, *theme)[1].text);
    pair(
        role.name.clone(),
        Style::new().fg(theme.color(role.color)).add_modifier(Modifier::Bold),
        text,
        Style::new().fg(theme.dim()),
    )
}

/// The roles there are.
pub fn role_list(roles: &Vec<Role>, theme: &Theme) -> (r: Vec<Line>)
    ensures
        r.deep_view() == roles_of(roles@, *theme),
{
    let mut lines: Vec<Line> = Vec::new();
    assert(lines.deep_view() =~= seq![]);
    let mut i: usize = 0;
    while i < roles.len()
        invariant
            i <= roles.len(),
            lines.deep_view() == roles@.take(i as int).map_values(
                |r: Role| role_line(r, *theme),
            ),
        decreases roles.len() - i,
    {
        let line = role_row(&roles[i], theme);
        put(&mut lines, line);
        proof {
            assert(roles@.take(i + 1) == roles@.take(i as int).push(roles@[i as int]));
            assert(lines.deep_view() =~= roles@.take(i + 1).map_values(
                |r: Role| role_line(r, *theme),
            ));
        }
        i += 1;
    }
    assert(roles@.take(i as int) == roles@);
    if roles.len() == 0 {
        put(&mut lines, plain_line("no roles yet", Style::new().fg(theme.dim())));
        assert(lines.deep_view() =~= roles_of(roles@, *theme));
    }
    lines
}

// ---------------------------------------------------------------------------
// help
// ---------------------------------------------------------------------------

pub open spec fn help_head(title: Seq<char>, theme: Theme) -> Seq<Run> {
    seq![run(title, heading(theme))]
}

pub open spec fn help_row(key: Seq<char>, text: Seq<char>, theme: Theme) -> Seq<Run> {
    seq![
        run("  "@ + padded(key, 10), with(accent_style(theme), Modifier::Bold)),
        run(text, text_style(theme)),
    ]
}

pub open spec fn help_keys(t: Theme) -> Seq<Seq<Run>> {
    seq![
        help_head("NORMAL"@, t),
        help_row("i / a"@, "insert mode (write a message)"@, t),
        help_row(":"@, "command mode"@, t),
        help_row("j / k"@, "scroll messages"@, t),
        help_row("gg / G"@, "top / bottom"@, t),
        help_row("/"@, "jump to a channel, group or DM"@, t),
        help_row("esc"@, "back to the bottom"@, t),
        seq![],
        help_head("INSERT"@, t),
        help_row("enter"@, "send, and back to normal"@, t),
        help_row("esc"@, "normal mode"@, t),
        help_row("ctrl-w"@, "delete the last word"@, t),
        seq![],
    ]
}

pub open spec fn help_commands(t: Theme) -> Seq<Seq<Run>> {
    seq![
        help_head("COMMANDS"@, t),
        help_row(":help"@, ":q  :reload  :theme <name>"@, t),
        help_row(":info"@, ":nick <name>  :bio <text>"@, t),
        help_row(":dm"@, ":group <name> <user...>  :join #chan"@, t),
        help_row(":topic"@, ":roles"@, t),
    ]
}

/// The commands that only an admin can give.
pub open spec fn help_admin(t: Theme) -> Seq<Seq<Run>> {
    seq![
        help_row(":mkchan"@, ":rmchan  :motd <text>  :invite <name> <key>"@, t),
        help_row(":mkrole"@, ":rmrole  :grant <user> <role>  :revoke"@, t),
    ]
}

/// What the keys do. Admin commands only appear for admins.
pub open spec fn help_of(admin: bool, theme: Theme) -> Seq<Seq<Run>> {
    if admin {
        help_keys(theme) + help_commands(theme) + help_admin(theme)
    } else {
        help_keys(theme) + help_commands(theme)
    }
}

fn put_head(lines: &mut Vec<Line>, title: &str, theme: &Theme)
    ensures
        final(lines).deep_view() == old(lines).deep_view().push(help_head(title@, *theme)),
{
    put(
        lines,
        plain_line(title, Style::new().fg(theme.dim()).add_modifier(Modifier::Bold)),
    );
}

fn put_row(lines: &mut Vec<Line>, key: &str, text: &str, theme: &Theme)
    ensures
        final(lines).deep_view() == old(lines).deep_view().push(help_row(key@, text@, *theme)),
{
    let column = pad(key, 10);
    put(
        lines,
        pair(
            cat("  ", column.as_str()),
            Style::new().fg(theme.accent()).add_modifier(Modifier::Bold),
            text.to_owned(),
            Style::new().fg(theme.fg()),
        ),
    );
}

/// What the keys do. Admin commands only appear for admins.
pub fn help(admin: bool, theme: &Theme) -> (r: Vec<Line>)
    ensures
        r.deep_view() == help_of(admin, *theme),
{
    let mut lines: Vec<Line> = Vec::new();
    assert(lines.deep_view() =~= seq![]);
    put_head(&mut lines, "NORMAL", theme);
    put_row(&mut lines, "i / a", "insert mode (write a message)", theme);
    put_row(&mut lines, ":", "command mode", theme);
    put_row(&mut lines, "j / k", "scroll messages", theme);
    put_row(&mut lines, "gg / G", "top / bottom", theme);
    put_row(&mut lines, "/", "jump to a channel, group or DM", theme);
    put_row(&mut lines, "esc", "back to the bottom", theme);
    put(&mut lines, Line::blank());
    put_head(&mut lines, "INSERT", theme);
    put_row(&mut lines, "enter", "send, and back to normal", theme);
    put_row(&mut lines, "esc", "normal mode", theme);
    put_row(&mut lines, "ctrl-w", "delete the last word", theme);
    put(&mut lines, Line::blank());
    assert(lines.deep_view() =~= help_keys(*theme));
    put_head(&mut lines, "COMMANDS", theme);
    put_row(&mut lines, ":help", ":q  :reload  :theme <name>", theme);
    put_row(&mut lines, ":info", ":nick <name>  :bio <text>", theme);
    put_row(&mut lines, ":dm", ":group <name> <user...>  :join #chan", theme);
    put_row(&mut lines, ":topic", ":roles", theme);
    assert(lines.deep_view() =~= help_keys(*theme) + help_commands(*theme));
    if admin {
        put_row(&mut lines, ":mkchan", ":rmchan  :motd <text>  :invite <name> <key>", theme);
        put_row(&mut lines, ":mkrole", ":rmrole  :grant <user> <role>  :revoke", theme);
        assert(lines.deep_view() =~= help_of(true, *theme));
    }
    lines
}

// ---------------------------------------------------------------------------
// what stands where
// ---------------------------------------------------------------------------

/// The switcher has a row for every match, with the label of its conversation;
/// the one that is selected is marked, and no other one; without a match it
/// says so.
pub proof fn the_switcher_shows_every_match(s: Screen, state: SwitcherData, row: int)
    requires
        0 <= row < state.matches.len(),
    ensures
        ({
            let r = switcher_of(s, state);
            let label = label_in(s.labels, s.convs[state.matches[row].index as int].id);
            &&& r.len() == state.matches.len()
            &&& r[row].len() == label.len() + 1
            &&& row == state.selected ==> r[row][0].text == " > "@ && r[row][0].style.bg == Some(
                s.theme.shows(s.theme.palette.selection),
            )
            &&& row != state.selected ==> r[row][0].text == "   "@ && r[row][0].style.bg is None
            &&& forall|i: int|
                0 <= i < label.len() ==> (#[trigger] r[row][i + 1]).text == seq![label[i]]
        }),
        state.matches.len() > 0,
{
    let label = label_in(s.labels, s.convs[state.matches[row].index as int].id);
    let r = switcher_of(s, state);
    assert forall|i: int| 0 <= i < label.len() implies (#[trigger] r[row][i + 1]).text == seq![
        label[i],
    ] by {
        assert(r[row][i + 1] == label_runs(
            label,
            state.matches[row].positions,
            s.theme,
            row == state.selected,
        )[i]);
    }
}

/// Without a match the switcher says so.
pub proof fn the_switcher_says_when_nothing_matches(s: Screen, state: SwitcherData)
    requires
        state.matches.len() == 0,
    ensures
        switcher_of(s, state).len() == 1,
        switcher_of(s, state)[0][0].text == "   no match"@,
{
}

/// Exactly the characters that the query landed on are highlighted.
pub proof fn hits_are_highlighted(
    label: Seq<char>,
    positions: Seq<usize>,
    theme: Theme,
    selected: bool,
    i: int,
)
    requires
        0 <= i < label.len() <= usize::MAX,
    ensures
        ({
            let r = label_runs(label, positions, theme, selected)[i];
            &&& r.text == seq![label[i]]
            &&& r.style.underlined == Switch::On <==> positions.contains(i as usize)
            &&& r.style.bold == Switch::On <==> positions.contains(i as usize)
            &&& positions.contains(i as usize) ==> r.style.fg == Some(
                theme.shows(theme.palette.accent),
            )
        }),
{
}

/// A profile begins with the name, in the colour of the first role, and lists
/// every role in its own colour.
pub proof fn a_profile_begins_with_the_name(
    user: User,
    joined: Seq<char>,
    seen: Seq<char>,
    width: nat,
    theme: Theme,
    i: int,
)
    ensures
        ({
            let p = profile_of(user, joined, seen, width, theme);
            &&& p[0].len() == 1 && p[0][0].text == user.name@
            &&& user.roles@.len() > 0 ==> p[0][0].style.fg == Some(
                theme.shows(user.roles@[0].color),
            )
            &&& user.roles@.len() == 0 ==> p[0][0].style.fg == Some(theme.shows(theme.palette.fg))
            &&& 0 <= i < user.roles@.len() ==> p[2].len() == user.roles@.len() && p[2][i].text
                == user.roles@[i].name@ + " "@ && p[2][i].style.fg == Some(
                theme.shows(user.roles@[i].color),
            )
        }),
{
}

/// A profile ends with the day someone joined, and whether they are here or
/// when they were last seen; before that stands their bio, or that there is
/// none.
pub proof fn a_profile_ends_with_the_status(
    user: User,
    joined: Seq<char>,
    seen: Seq<char>,
    width: nat,
    theme: Theme,
)
    ensures
        ({
            let p = profile_of(user, joined, seen, width, theme);
            let n = p.len() as int;
            let top = profile_top(user, theme).len() as int;
            &&& n >= 3
            &&& p[n - 2][1].text == joined
            &&& user.online ==> p[n - 1][1].text == "\u{25cf} online"@
            &&& !user.online ==> p[n - 1][1].text == "\u{25cb} last seen "@ + seen
            &&& user.bio@.len() == 0 ==> n == top + 4 && p[top][0].text == "no bio yet"@
            &&& user.bio@.len() > 0 ==> p.subrange(top, n - 3) == rendered(
                user.bio@,
                width as int,
                theme,
            )
        }),
{
    let p = profile_of(user, joined, seen, width, theme);
    let top = profile_top(user, theme);
    let bio = profile_bio(user, width, theme);
    assert(p.subrange(top.len() as int, p.len() - 3) =~= bio);
    if user.bio@.len() == 0 {
        assert(p[top.len() as int] == bio[0]);
    }
}

/// Every role has a line, with its name in its colour and its priority, and
/// says whether it is hoisted and whether it makes an administrator.
pub proof fn every_role_has_a_line(roles: Seq<Role>, theme: Theme, i: int)
    requires
        0 <= i < roles.len(),
    ensures
        ({
            let r = roles_of(roles, theme);
            let rest = "  priority "@ + decimal_int(roles[i].priority as int);
            &&& r.len() == roles.len()
            &&& r[i][0].text == roles[i].name@
            &&& r[i][0].style.fg == Some(theme.shows(roles[i].color))
            &&& !roles[i].hoisted && !roles[i].admin ==> r[i][1].text == rest
            &&& roles[i].hoisted && !roles[i].admin ==> r[i][1].text == rest + "  hoisted"@
            &&& !roles[i].hoisted && roles[i].admin ==> r[i][1].text == rest + "  admin"@
            &&& roles[i].hoisted && roles[i].admin ==> r[i][1].text == rest + "  hoisted"@
                + "  admin"@
        }),
{
    let rest = "  priority "@ + decimal_int(roles[i].priority as int);
    assert(rest + Seq::<char>::empty() =~= rest);
    assert(rest + "  hoisted"@ + Seq::<char>::empty() =~= rest + "  hoisted"@);
}

/// Administrators see all that everyone sees of the help, and their own
/// commands below it.
pub proof fn only_administrators_see_their_commands(theme: Theme)
    ensures
        help_of(true, theme).len() > help_of(false, theme).len(),
        help_of(true, theme).take(help_of(false, theme).len() as int) == help_of(false, theme),
        help_of(true, theme)[help_of(false, theme).len() as int][0].text == "  "@ + padded(
            ":mkchan"@,
            10,
        ),
{
    assert(help_of(true, theme).take(help_of(false, theme).len() as int) =~= help_of(
        false,
        theme,
    ));
}

/// Help stands in two columns: the key, in bold, fills ten cells behind the
/// margin, and what it does stands behind that.
pub proof fn help_stands_in_two_columns(key: Seq<char>, text: Seq<char>, theme: Theme)
    requires
        key.len() <= 10,
    ensures
        ({
            let r = help_row(key, text, theme);
            &&& r.len() == 2 && r[1].text == text
            &&& r[0].text.len() == 12
            &&& r[0].text.subrange(2, 2 + key.len() as int) == key
            &&& forall|i: int|
                0 <= i < 2 || 2 + key.len() <= i < 12 ==> #[trigger] r[0].text[i] == ' '
            &&& r[0].style.bold == Switch::On
            &&& r[1].style == fg(theme.shows(theme.palette.fg))
        }),
{
    reveal_strlit("  ");
    let r = help_row(key, text, theme);
    assert(r[0].text.subrange(2, 2 + key.len() as int) =~= key);
}

} // verus!
