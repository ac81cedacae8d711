use newbbs::config::{DEFAULT_ART, DEFAULT_MOTD};
use newbbs::model::{ConvKind, Conversation, Message, Role, User, Uuid};
use newbbs::ui::app::{App, Mode, Overlay};
use newbbs::ui::render::clock::EPOCH_DAY;
use newbbs::ui::render::members::{members, push_section};
use newbbs::ui::render::messages::{build_messages, separator, window};
use newbbs::ui::render::overlays::{
    help, profile, profile_lines, role_list, switcher_list, switcher_query,
};
use newbbs::ui::render::panes::{bar, caret_column, header, input, sidebar, status};
use newbbs::ui::render::splash::{move_in, setting_text, splash};
use newbbs::ui::render::{
    centered, pad, panes, switcher_panes, truncate, Rect, MEMBERS_WIDTH, SIDEBAR_WIDTH,
};
use newbbs::ui::style::{Line, Span, Style, Switch};
use newbbs::ui::switcher::Switcher;
use newbbs::ui::theme::{Depth, Theme};

const DAY: i32 = 738_000;

fn role(id: i64, name: &str, priority: i64) -> Role {
    Role { id, name: name.to_string(), color: 0x102030, priority, hoisted: true, admin: false }
}

fn user(id: i64, name: &str, online: bool, roles: Vec<Role>) -> User {
    User {
        id,
        name: name.to_string(),
        bio: String::new(),
        joined_at: 0,
        last_seen: 0,
        online,
        roles,
    }
}

fn conv(id: i64, kind: ConvKind, name: &str) -> Conversation {
    Conversation { id, kind, name: name.to_string(), topic: String::new(), created_at: 0 }
}

fn session() -> App {
    let mut app = App::new(1, Theme::new(Depth::Truecolor));
    let convs = vec![
        conv(10, ConvKind::Channel, "general"),
        conv(12, ConvKind::Group, "crew"),
        conv(13, ConvKind::Channel, "random"),
    ];
    let users = vec![user(1, "admin", true, vec![]), user(2, "bob", false, vec![])];
    app.refresh(convs, users, &vec![]);
    app.show(vec![], vec![1, 2]);
    app
}

fn text(line: &Line) -> String {
    line.spans.iter().map(|s| s.content.as_str()).collect()
}

fn texts(lines: &Vec<Line>) -> Vec<String> {
    lines.iter().map(text).collect()
}

#[test]
fn texts_of_a_fixed_width() {
    assert_eq!(pad("ab", 4), "ab  ");
    assert_eq!(pad("abcdef", 4), "abcd");
    assert_eq!(truncate("abcd", 4), "abcd");
    assert_eq!(truncate("abcde", 4), "abc\u{2026}");
    assert_eq!(truncate("abcde", 0), "\u{2026}");
}

#[test]
fn the_screen_is_divided() {
    let area = Rect { x: 0, y: 0, width: 100, height: 30 };
    let p = panes(area);
    assert_eq!(p.status, Rect { x: 0, y: 29, width: 100, height: 1 });
    assert_eq!(p.sidebar, Rect { x: 0, y: 0, width: SIDEBAR_WIDTH, height: 29 });
    assert_eq!(p.members, Rect { x: 82, y: 0, width: MEMBERS_WIDTH, height: 29 });
    assert_eq!(p.header, Rect { x: 22, y: 0, width: 60, height: 1 });
    assert_eq!(p.messages, Rect { x: 22, y: 1, width: 60, height: 26 });
    assert_eq!(p.input, Rect { x: 22, y: 27, width: 60, height: 2 });
    let (query, list) = switcher_panes(Rect { x: 2, y: 3, width: 10, height: 8 });
    assert_eq!(query, Rect { x: 2, y: 3, width: 10, height: 2 });
    assert_eq!(list, Rect { x: 2, y: 5, width: 10, height: 6 });
}

/// Whatever the size of the screen, everything stays on it; and where there is
/// room, everything gets what it needs.
#[test]
fn panes_stay_on_the_screen() {
    let inside = |part: Rect, area: Rect| {
        part.x >= area.x
            && part.y >= area.y
            && part.x + part.width <= area.x + area.width
            && part.y + part.height <= area.y + area.height
    };
    for width in (0..=70).chain([100, 300]) {
        for height in (0..=8).chain([50]) {
            let area = Rect { x: 3, y: 2, width, height };
            let p = panes(area);
            for part in [p.sidebar, p.header, p.messages, p.input, p.members, p.status] {
                assert!(inside(part, area), "{part:?} in {area:?}");
            }
            // Nothing changes places, however small the screen.
            assert!(p.sidebar.x + p.sidebar.width <= p.header.x, "{p:?}");
            assert!(p.header.x + p.header.width <= p.members.x, "{p:?}");
            assert!(p.header.y + p.header.height <= p.messages.y, "{p:?}");
            assert!(p.messages.y + p.messages.height <= p.input.y, "{p:?}");
            assert!(p.sidebar.y + p.sidebar.height <= p.status.y, "{p:?}");
            assert!(p.input.y + p.input.height <= p.status.y, "{p:?}");
            assert_eq!((p.status.x, p.status.width), (area.x, width));
            assert_eq!((p.messages.x, p.messages.width), (p.header.x, p.header.width));
            assert_eq!((p.members.y, p.members.height), (p.sidebar.y, p.sidebar.height));
            let (query, list) = switcher_panes(area);
            assert!(query.y + query.height <= list.y);
            assert_eq!((query.x, query.width, list.x, list.width), (3, width, 3, width));
            if width >= 64 && height >= 5 {
                assert_eq!(p.sidebar, Rect { x: 3, y: 2, width: 22, height: height - 1 });
                assert_eq!(p.header, Rect { x: 25, y: 2, width: width - 40, height: 1 });
                let middle = Rect { x: 25, y: 3, width: width - 40, height: height - 4 };
                assert_eq!(p.messages, middle);
                assert_eq!(p.input.y, 2 + height - 3);
                assert_eq!(p.members.x, 3 + width - 18);
                assert_eq!(p.status, Rect { x: 3, y: 2 + height - 1, width, height: 1 });
            }
        }
    }
}

/// An overlay never leaves the screen.
#[test]
fn overlays_are_centred() {
    let area = Rect { x: 0, y: 0, width: 80, height: 24 };
    assert_eq!(centered(area, 54, 16), Rect { x: 13, y: 4, width: 54, height: 16 });
    let small = Rect { x: 5, y: 5, width: 20, height: 1 };
    assert_eq!(centered(small, 54, 16), Rect { x: 6, y: 5, width: 18, height: 0 });
}

#[test]
fn the_sidebar_has_two_sections() {
    let app = session();
    let lines = sidebar(&app, 12);
    let crew = app.label(12);
    assert_eq!(
        texts(&lines),
        vec![
            " CHANNELS".to_string(),
            " #general   ".to_string(),
            " #random    ".to_string(),
            String::new(),
            " DIRECT".to_string(),
            pad(&format!(" {crew}"), 12),
        ]
    );
    assert_eq!(lines[1].spans[1].style.bg, Some(app.theme.selection()));
    assert_eq!(lines[2].spans[1].style.bg, None);
    assert_eq!(text(&sidebar(&app, 6)[1]), " #ge\u{2026} ");
}

#[test]
fn the_header_names_the_conversation() {
    let mut app = session();
    assert_eq!(text(&header(&app)), " #general");
    app.convs[0].topic = "news".to_string();
    assert_eq!(text(&header(&app)), " #general  \u{b7}  news");
    app.refresh(vec![], vec![], &vec![]);
    assert_eq!(text(&header(&app)), " no conversations");
}

#[test]
fn the_input_line_and_its_caret() {
    let mut app = session();
    assert_eq!(text(&input(&app)), " \u{203a} press i to write");
    assert_eq!(caret_column(&app, 40), None);
    app.mode = Mode::Insert;
    app.input = "hello".to_string();
    app.cursor = 2;
    assert_eq!(text(&input(&app)), " \u{203a} hello");
    assert_eq!(caret_column(&app, 40), Some(5));
    assert_eq!(caret_column(&app, 4), Some(3));
    assert_eq!(caret_column(&app, 0), Some(0));
    app.mode = Mode::Command;
    app.command = "q".to_string();
    assert_eq!(text(&input(&app)), " :q");
    assert_eq!(caret_column(&app, 40), Some(3));
    app.overlay = Some(Overlay::Help);
    assert_eq!(caret_column(&app, 40), None);
}

/// A refused command paints the bar red until the flash lapses, without
/// disturbing anything else on it.
#[test]
fn a_refused_command_flashes_the_bar_red() {
    let mut app = session();
    let now = 5000;
    let shown = |app: &App, now| {
        let line = status(app, 90, now);
        (line.spans[0].style.bg.unwrap(), text(&line))
    };

    let (calm, label) = shown(&app, now);
    assert_eq!(calm, app.theme.bar_color(app.theme.palette.mode_normal));
    assert!(label.starts_with("NORMAL"), "got {label:?}");
    let place = label.find('#').unwrap();

    app.set_error("unknown command :nonsense -- try :help".to_string(), now);
    assert!(app.flashing(now));
    let (angry, label) = shown(&app, now);
    assert_eq!(angry, app.theme.bar_color(app.theme.palette.mode_error));
    assert!(
        label.starts_with("ERROR"),
        "a red bar should not still claim to be in normal mode, got {label:?}"
    );
    assert_eq!(label.find('#').unwrap(), place);

    // Once the flash lapses the bar goes back on its own, with no keypress.
    app.flash_until = Some(now - 1000);
    assert!(!app.flashing(now));
    let (settled, label) = shown(&app, now);
    assert_eq!(settled, calm);
    assert!(label.starts_with("NORMAL"), "got {label:?}");
}

/// The mode name is flush left, and the conversation is centred on the bar
/// rather than on what is left of it -- so COMMAND being a letter longer than
/// NORMAL does not shove the conversation sideways.
#[test]
fn the_conversation_does_not_move_when_the_mode_changes() {
    let mut app = session();
    let mut centres = Vec::new();
    for (mode, label) in
        [(Mode::Normal, "NORMAL"), (Mode::Insert, "INSERT"), (Mode::Command, "COMMAND")]
    {
        app.mode = mode;
        let row = text(&status(&app, 90, 0));
        assert!(
            row.starts_with(label),
            "{label} should sit in the first column, got {row:?}"
        );
        centres.push(row.find('#').expect("the conversation name"));
    }
    assert_eq!(centres[0], centres[1], "the conversation moved between NORMAL and INSERT");
    assert_eq!(centres[0], centres[2], "the conversation moved between NORMAL and COMMAND");
}

#[test]
fn the_bar_fills_its_width() {
    let mut app = session();
    assert_eq!(
        text(&status(&app, 50, 0)),
        pad(&format!("{}#general  \u{b7}  1 online", pad("NORMAL", 14)), 50)
    );
    app.scroll = 1;
    assert!(text(&status(&app, 90, 0)).contains("1 online  \u{b7}  scrolled 1 line "));
    app.scroll = 2;
    assert!(text(&status(&app, 90, 0)).contains("  \u{b7}  scrolled 2 lines "));
    app.set_status("saved".to_string());
    let row = text(&status(&app, 90, 0));
    assert!(row.contains("1 online  \u{b7}  saved "));
    assert_eq!(row.chars().count(), 90);
    // Too narrow for it all: nothing overlaps.
    assert_eq!(text(&bar("NORMAL", "#x", "", 4, Style::new())), "NORMAL #x");
}

fn message(author: i64, at: i64, body: &str) -> Message {
    Message {
        id: Uuid { bits: at as u128 },
        conv: 10,
        author,
        body: body.to_string(),
        created_at: at,
        edited_at: None,
    }
}

/// Consecutive messages from one author share a header until the gap grows or
/// the day turns over.
#[test]
fn messages_are_grouped() {
    let mut app = session();
    let minute = 60_000;
    // Ten o'clock yesterday, in UTC.
    let ten = (DAY - 1 - EPOCH_DAY) as i64 * 86_400_000 + 600 * minute;
    app.messages = vec![
        message(1, ten, "one"),
        message(1, ten + 5 * minute, "two"),
        message(1, ten + 11 * minute, "three"),
        message(2, ten + 12 * minute, "four"),
        message(2, ten + 13 * minute, "five"),
    ];
    app.messages[0].edited_at = Some(1);
    // The clock is put forward to midnight before the last one.
    let offsets = vec![0, 0, 0, 0, (13 * 60 + 47) * 60];
    let lines = texts(&build_messages(&app, &offsets, ten, 15 * 3600, 60));
    let rule = "\u{2500}".repeat(23);
    assert_eq!(
        lines,
        vec![
            format!("{rule}  yesterday  {rule}"),
            "10:00  admin  \u{2502} one  (edited)".to_string(),
            format!("{} \u{2502} two", " ".repeat(13)),
            "10:11  admin  \u{2502} three".to_string(),
            "10:12  bob    \u{2502} four".to_string(),
            format!("{0}  today  {0}", "\u{2500}".repeat(25)),
            "00:00  bob    \u{2502} five".to_string(),
        ]
    );
}

#[test]
fn long_messages_are_wrapped_beside_the_rule() {
    let mut app = session();
    app.messages = vec![message(2, 0, "0123456789 0123456789")];
    let lines = texts(&build_messages(&app, &vec![3600], 0, 0, 30));
    // Bodies get at least sixteen columns.
    assert_eq!(lines[1], "01:00  bob    \u{2502} 0123456789 ");
    assert_eq!(lines[2], format!("{} \u{2502} 0123456789", " ".repeat(13)));
}

#[test]
fn an_empty_conversation_gives_a_hint() {
    let app = session();
    assert_eq!(
        texts(&build_messages(&app, &vec![], 0, 0, 60)),
        vec!["  nothing here yet -- press i and say something"]
    );
}

#[test]
fn a_separator_spans_the_width() {
    let theme = Theme::new(Depth::Truecolor);
    assert_eq!(text(&separator("today", 13, &theme)), "\u{2500}\u{2500}  today  \u{2500}\u{2500}");
    assert_eq!(text(&separator("today", 3, &theme)), "  today  ");
}

fn numbered(n: usize) -> Vec<Line> {
    (0..n).map(|i| Line::of(Span::raw(i.to_string()))).collect()
}

/// The view is full whatever is scrolled to, and scrolling stays within what
/// there is.
#[test]
fn the_view_is_clamped() {
    let mut app = session();
    assert_eq!(texts(&window(&mut app, numbered(10), 3)), vec!["7", "8", "9"]);
    assert_eq!((app.total_lines, app.view_height, app.scroll), (10, 3, 0));
    app.scroll = 2;
    assert_eq!(texts(&window(&mut app, numbered(10), 3)), vec!["5", "6", "7"]);
    app.scroll = usize::MAX;
    assert_eq!(texts(&window(&mut app, numbered(10), 3)), vec!["0", "1", "2"]);
    assert_eq!(app.scroll, 7);
    // A short conversation sits on the input box.
    assert_eq!(texts(&window(&mut app, numbered(1), 3)), vec!["", "", "0"]);
    assert_eq!(app.scroll, 0);
}

#[test]
fn every_member_is_listed_once() {
    let mut app = session();
    let (low, high) = (role(1, "ops", 1), role(2, "staff", 9));
    let users = vec![
        user(1, "admin", true, vec![high.clone(), low.clone()]),
        user(2, "bob", true, vec![low.clone()]),
        user(3, "carol", true, vec![]),
        user(4, "dave", false, vec![high]),
        user(5, "averyveryverylongname", false, vec![]),
    ];
    app.users = users.into_iter().map(|u| (u.id, u)).collect();
    app.members = vec![2, 1, 3, 4, 5, 6];
    assert_eq!(
        texts(&members(&app)),
        vec![
            " STAFF \u{2014} 1",
            " \u{25cf} admin",
            "",
            " OPS \u{2014} 1",
            " \u{25cf} bob",
            "",
            " ONLINE \u{2014} 1",
            " \u{25cf} carol",
            "",
            " OFFLINE \u{2014} 3",
            " \u{25cb} dave",
            " \u{25cb} averyveryvery\u{2026}",
            " \u{25cb} user6",
        ]
    );
}

#[test]
fn the_switcher_highlights_what_matched() {
    let mut app = session();
    let mut state = Switcher::new(&app.convs, &app.labels);
    state.query = "gnl".to_string();
    state.refilter(&app.convs, &app.labels);
    assert_eq!(text(&switcher_query(&state, &app.theme)), "/gnl");
    let lines = switcher_list(&app, &state);
    assert_eq!(texts(&lines), vec![" > #general"]);
    let bold: Vec<bool> =
        lines[0].spans[1..].iter().map(|s| s.style.bold == Switch::On).collect();
    assert_eq!(bold, vec![false, true, false, true, false, false, false, true]);
    state.query = "zzz".to_string();
    state.refilter(&app.convs, &app.labels);
    assert_eq!(texts(&switcher_list(&app, &state)), vec!["   no match"]);
    app.theme.set("mono");
}

#[test]
fn profiles() {
    let theme = Theme::new(Depth::Truecolor);
    let mut bob = user(2, "bob", false, vec![role(1, "ops", 1), role(2, "staff", 0)]);
    assert_eq!(
        texts(&profile_lines(&bob, "1 May 2020", "2 May 10:00", 40, &theme)),
        vec![
            "bob",
            "",
            "ops staff ",
            "",
            "no bio yet",
            "",
            "joined   1 May 2020",
            "status   \u{25cb} last seen 2 May 10:00",
        ]
    );
    bob.online = true;
    bob.roles.clear();
    bob.bio = "hello".to_string();
    bob.joined_at = 0;
    bob.last_seen = 61 * 60_000;
    assert_eq!(
        texts(&profile(&bob, 0, 0, 40, &theme)),
        vec!["bob", "", "hello", "", "joined   1 January 1970", "status   \u{25cf} online"]
    );
    bob.online = false;
    assert_eq!(
        texts(&profile(&bob, 0, 0, 40, &theme))[5],
        "status   \u{25cb} last seen 1 Jan 01:01"
    );
    // Each time is shown with its own offset.
    let lines = texts(&profile(&bob, -1, 7200, 40, &theme));
    assert_eq!(lines[4], "joined   31 December 1969");
    assert_eq!(lines[5], "status   \u{25cb} last seen 1 Jan 03:01");
}

#[test]
fn roles_are_listed() {
    let theme = Theme::new(Depth::Truecolor);
    let mut sysop = role(1, "sysop", 100);
    sysop.admin = true;
    let mut fan = role(2, "fan", -3);
    fan.hoisted = false;
    assert_eq!(
        texts(&role_list(&vec![sysop, fan], &theme)),
        vec!["sysop  priority 100  hoisted  admin", "fan  priority -3"]
    );
    assert_eq!(texts(&role_list(&vec![], &theme)), vec!["no roles yet"]);
}

#[test]
fn admin_commands_only_appear_for_admins() {
    let theme = Theme::new(Depth::Truecolor);
    let everyone = texts(&help(false, &theme));
    let admins = texts(&help(true, &theme));
    assert_eq!(everyone[1], "  i / a     insert mode (write a message)");
    assert!(everyone.iter().all(|l| !l.contains(":mkrole")));
    assert_eq!(admins[..everyone.len()], everyone[..]);
    assert_eq!(admins.len(), everyone.len() + 2);
}

#[test]
fn settings_fall_back_to_the_built_in() {
    assert_eq!(setting_text(None, "x"), "x");
    assert_eq!(setting_text(Some("héllo".as_bytes().to_vec()), "x"), "héllo");
    assert_eq!(setting_text(Some(vec![0xff]), "x"), "x");
}

#[test]
fn the_splash_is_centred() {
    let theme = Theme::new(Depth::Truecolor);
    let lines = splash("##\n####", "hi", 10, 8, &theme);
    assert_eq!(texts(&lines), vec!["", "", "   ##", "   ####", "", "    hi"]);
    assert_eq!(lines[2].spans[1].style.fg, Some(theme.accent()));
    // Art wider than the terminal is dropped.
    assert_eq!(texts(&splash("###########", "hi", 10, 3, &theme)), vec!["", "    hi"]);
    let built_in = splash(DEFAULT_ART, DEFAULT_MOTD, 80, 24, &theme);
    assert!(text(built_in.last().unwrap()).ends_with("powered by newbbs"));
}

#[test]
fn sections_are_set_apart() {
    let app = session();
    let mut lines = vec![];
    push_section(&app, &mut lines, "NOBODY", &vec![]);
    assert!(lines.is_empty());
    push_section(&app, &mut lines, "A", &vec![1]);
    push_section(&app, &mut lines, "B", &vec![2]);
    assert_eq!(
        texts(&lines),
        vec![" A \u{2014} 1", " \u{25cf} admin", "", " B \u{2014} 1", " \u{25cb} bob"]
    );
}

#[test]
fn lines_are_moved_to_the_middle() {
    let line = |s: &str| Line::of(Span::raw(s.to_string()));
    assert_eq!(text(&move_in(line("abc"), 3, 8)), "  abc");
    assert_eq!(text(&move_in(line("abc"), 9, 8)), "abc");
}
