use newbbs::bus::{Delivery, Payload};
use newbbs::key::{KeyCode, KeyEvent};
use newbbs::model::{ConvKind, Conversation, Event, EventKind, Message, Role, Signal, Tag, User, Uuid};
use newbbs::ui::app::{unlabelled, App, Mode, Overlay, Reaction, Roster};
use newbbs::ui::keys::{follow, handle, Action, Follow};
use newbbs::ui::theme::{Depth, Theme};

const ME: i64 = 1;

fn user(id: i64, name: &str) -> User {
    User {
        id,
        name: name.to_string(),
        bio: String::new(),
        joined_at: 0,
        last_seen: 0,
        online: false,
        roles: vec![],
    }
}

fn conv(id: i64, kind: ConvKind, name: &str) -> Conversation {
    Conversation { id, kind, name: name.to_string(), topic: String::new(), created_at: 0 }
}

fn message(n: u128, body: &str) -> Message {
    Message {
        id: Uuid { bits: n },
        conv: 10,
        author: 2,
        body: body.to_string(),
        created_at: n as i64,
        edited_at: None,
    }
}

/// A session of mine, with a channel, a DM with bob and a group.
fn session() -> App {
    let mut app = App::new(ME, Theme::new(Depth::Truecolor));
    let convs = vec![
        conv(10, ConvKind::Channel, "general"),
        conv(11, ConvKind::Dm, ""),
        conv(12, ConvKind::Group, "crew"),
    ];
    let rosters = vec![Roster { conv: 11, members: vec![ME, 2] }];
    let users = vec![user(ME, "me"), user(2, "bob"), user(3, "carol")];
    app.refresh(convs, users, &rosters);
    app.show(vec![message(1, "old"), message(2, "new")], vec![ME, 2]);
    app
}

fn press(app: &mut App, code: KeyCode) -> Action {
    handle(app, KeyEvent::plain(code), 1000)
}

fn type_text(app: &mut App, text: &str) {
    for c in text.chars() {
        press(app, KeyCode::Char(c));
    }
}

#[test]
fn conversations_are_labelled() {
    let app = session();
    assert_eq!(app.label(10), "#general");
    assert!(app.label(11).contains("bob") && !app.label(11).contains("me"));
    assert!(app.label(12).contains("crew"));
    assert_eq!(app.label(99), "?");
    assert_eq!(unlabelled(&app.convs), vec![11]);
    let mut convs = app.convs.clone();
    convs.extend(app.convs.clone());
    assert_eq!(unlabelled(&convs), vec![11, 11]);
}

#[test]
fn people_are_named_and_coloured() {
    let mut app = session();
    assert_eq!(app.user_name(2), "bob");
    assert_eq!(app.user_name(9), "user9");
    assert_eq!(app.user_color(9), app.theme.fg());
    app.users.get_mut(&2).unwrap().roles = vec![Role {
        id: 1,
        name: "op".to_string(),
        color: 0x112233,
        priority: 1,
        hoisted: false,
        admin: true,
    }];
    assert_eq!(app.user_color(2), app.theme.color(0x112233));
    assert!(!app.is_admin());
    app.me = 2;
    assert!(app.is_admin());
}

#[test]
fn a_session_watches_what_it_shows() {
    let app = session();
    let tags = app.tags();
    assert!(tags.contains(&Tag::Conv(10)) && tags.contains(&Tag::Presence));
    assert!(!tags.contains(&Tag::Conv(11)));
}

#[test]
fn a_flash_lapses() {
    let mut app = session();
    app.set_error("no".to_string(), 5000);
    assert_eq!(app.status.as_deref(), Some("no"));
    assert!(app.flashing(5000) && app.flashing(5999) && !app.flashing(6000));
    app.set_status("fine".to_string());
    assert!(!app.flashing(5000));
}

#[test]
fn writing_a_message() {
    let mut app = session();
    press(&mut app, KeyCode::Char('i'));
    assert_eq!(app.mode, Mode::Insert);
    type_text(&mut app, "hi!");
    press(&mut app, KeyCode::Left);
    press(&mut app, KeyCode::Backspace);
    assert_eq!((app.input.as_str(), app.cursor), ("h!", 1));
    match press(&mut app, KeyCode::Enter) {
        Action::Commit(kind) => assert_eq!(
            kind,
            EventKind::MessageSent { conv: 10, author: ME, body: "h!".to_string() }
        ),
        other => panic!("{other:?}"),
    }
    assert_eq!((app.mode, app.input.as_str(), app.cursor), (Mode::Normal, "", 0));
}

#[test]
fn backspace_undoes_typing() {
    let mut app = session();
    press(&mut app, KeyCode::Char('i'));
    type_text(&mut app, "aé");
    let before = (app.input.clone(), app.cursor);
    press(&mut app, KeyCode::Char('日'));
    press(&mut app, KeyCode::Backspace);
    assert_eq!((app.input.clone(), app.cursor), before);
}

#[test]
fn deleting_a_word() {
    let mut app = session();
    press(&mut app, KeyCode::Char('i'));
    type_text(&mut app, "two words");
    handle(&mut app, KeyEvent::control('w'), 0);
    assert_eq!(app.input, "two ");
}

/// The caret never leaves the text.
#[test]
fn the_caret_stays_in_the_input() {
    let mut app = session();
    press(&mut app, KeyCode::Char('i'));
    type_text(&mut app, "ab");
    for _ in 0..5 {
        press(&mut app, KeyCode::Right);
    }
    assert_eq!(app.cursor, 2);
    for _ in 0..5 {
        press(&mut app, KeyCode::Left);
    }
    assert_eq!(app.cursor, 0);
    press(&mut app, KeyCode::Backspace);
    assert_eq!((app.input.as_str(), app.cursor), ("ab", 0));
    press(&mut app, KeyCode::End);
    press(&mut app, KeyCode::Delete);
    assert_eq!((app.input.as_str(), app.cursor), ("ab", 2));
    press(&mut app, KeyCode::Home);
    assert_eq!(app.cursor, 0);
}

#[test]
fn giving_a_command() {
    let mut app = session();
    press(&mut app, KeyCode::Char(':'));
    type_text(&mut app, "help");
    match press(&mut app, KeyCode::Enter) {
        Action::Run(text) => assert_eq!(text, "help"),
        other => panic!("{other:?}"),
    }
    assert_eq!(app.mode, Mode::Normal);
}

#[test]
fn a_session_can_always_be_left() {
    for mode in [Mode::Normal, Mode::Insert, Mode::Command] {
        let mut app = session();
        app.mode = mode;
        app.overlay = Some(Overlay::Help);
        handle(&mut app, KeyEvent::control('c'), 0);
        assert!(app.quit);
    }
}

#[test]
fn scrolling_asks_for_older_history() {
    let mut app = session();
    app.total_lines = 100;
    app.view_height = 20;
    assert!(matches!(press(&mut app, KeyCode::Char('k')), Action::Nothing));
    assert_eq!(app.scroll, 1);
    press(&mut app, KeyCode::Char('j'));
    assert_eq!(app.scroll, 0);
    press(&mut app, KeyCode::PageUp);
    assert_eq!(app.scroll, 19);
    app.scroll = 75;
    match press(&mut app, KeyCode::PageUp) {
        Action::Older(how) => follow(&mut app, how),
        other => panic!("{other:?}"),
    }
    assert_eq!(app.scroll, 94);
    press(&mut app, KeyCode::Char('G'));
    assert_eq!(app.scroll, 0);
    press(&mut app, KeyCode::Char('g'));
    assert!(matches!(press(&mut app, KeyCode::Char('g')), Action::Older(Follow::Top)));
    assert_eq!(app.older(), Some((10, Uuid { bits: 1 })));
    app.prepend(vec![message(0, "older")]);
    assert_eq!(app.messages.len(), 3);
    assert_eq!(app.messages[0].body, "older");
}

#[test]
fn jumping_with_the_switcher() {
    let mut app = session();
    press(&mut app, KeyCode::Char('/'));
    assert!(matches!(app.overlay, Some(Overlay::Switcher(_))));
    type_text(&mut app, "crew");
    match press(&mut app, KeyCode::Enter) {
        Action::Select(index) => assert_eq!(index, 2),
        other => panic!("{other:?}"),
    }
    assert!(app.overlay.is_none());
    assert!(app.select(2));
    assert_eq!(app.active_conv().unwrap().id, 12);
    assert!(!app.select(7));
}

fn arrived(n: u128, conv: i64, body: &str) -> Event {
    Event {
        id: Uuid { bits: n },
        at: n as i64,
        actor: Some(2),
        kind: EventKind::MessageSent { conv, author: 2, body: body.to_string() },
    }
}

#[test]
fn deliveries_are_absorbed() {
    let mut app = session();
    let inline = Delivery::Inline(Payload::Event(arrived(3, 10, "hello")));
    assert!(matches!(app.on_delivery(inline, 50), Reaction::Done));
    assert_eq!(app.messages.last().unwrap().body, "hello");
    // Elsewhere.
    let inline = Delivery::Inline(Payload::Event(arrived(4, 12, "psst")));
    app.on_delivery(inline, 50);
    assert_eq!(app.messages.len(), 3);
    match app.on_delivery(Delivery::Id(Uuid { bits: 9 }), 50) {
        Reaction::Fetch(id) => assert_eq!(id, Uuid { bits: 9 }),
        other => panic!("{other:?}"),
    }
    assert!(matches!(app.on_delivery(Delivery::Resync { missed: 4 }, 50), Reaction::Reload));
    let here = Delivery::Inline(Payload::Signal(Signal::Presence { user: 2, online: true }));
    app.on_delivery(here, 50);
    assert!(app.is_here(2));
    let gone = Delivery::Inline(Payload::Signal(Signal::Presence { user: 2, online: false }));
    app.on_delivery(gone, 60);
    assert!(!app.is_here(2));
    assert_eq!(app.user(2).unwrap().last_seen, 60);
}

/// The view never holds more than its window.
#[test]
fn the_window_is_kept() {
    let mut app = session();
    for n in 3..600 {
        app.apply_event(arrived(n, 10, "x"));
    }
    assert_eq!(app.messages.len(), 500);
    assert_eq!(app.messages.last().unwrap().id, Uuid { bits: 599 });
}

#[test]
fn what_is_shown_follows_the_list() {
    let mut app = session();
    assert!(app.select(2));
    app.refresh(vec![conv(10, ConvKind::Channel, "general")], vec![], &vec![]);
    assert_eq!(app.active, 0);
    // People who are known stay known.
    assert_eq!(app.user_name(3), "carol");
    app.refresh(vec![], vec![], &vec![]);
    assert!(app.active_conv().is_none());
    app.show_nothing();
    assert!(app.messages.is_empty() && app.members.is_empty());
    assert_eq!(app.older(), None);
}
