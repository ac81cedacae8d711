use newbbs::model::{ConvKind, Conversation, EventKind, Role, User};
use newbbs::ui::app::{App, Overlay, Roster};
use newbbs::ui::command::{
    bio, dm, found, group, help, info, list_roles, mkchan, nick, parse, rmchan, theme, topic,
    Direct, Order,
};
use newbbs::ui::theme::{Depth, Theme};

fn user(id: i64, name: &str, admin: bool) -> User {
    let sysop = Role {
        id: 1,
        name: "sysop".to_string(),
        color: 0,
        priority: 100,
        hoisted: true,
        admin: true,
    };
    User {
        id,
        name: name.to_string(),
        bio: String::new(),
        joined_at: 0,
        last_seen: 0,
        online: false,
        roles: if admin { vec![sysop] } else { vec![] },
    }
}

fn conv(id: i64, kind: ConvKind, name: &str) -> Conversation {
    Conversation { id, kind, name: name.to_string(), topic: String::new(), created_at: 0 }
}

fn session(admin: bool) -> App {
    let mut app = App::new(1, Theme::new(Depth::Truecolor));
    let convs = vec![conv(10, ConvKind::Channel, "general"), conv(11, ConvKind::Dm, "")];
    app.refresh(convs, vec![user(1, "me", admin), user(2, "bob", false)], &vec![]);
    app
}

fn ordered(text: &str) -> String {
    format!("{:?}", parse(&session(true), text))
}

#[test]
fn commands_are_understood() {
    let cases = vec![
        ("", "Nothing"),
        ("q", "Quit"),
        ("quit", "Quit"),
        ("help", "Help"),
        ("h", "Help"),
        ("reload", "Reload"),
        ("theme", "ThemeShow"),
        ("theme light", "ThemeSet(\"light\")"),
        ("info", "Info(\"me\")"),
        ("info @bob", "Info(\"bob\")"),
        ("nick max", "Nick(\"max\")"),
        ("bio  I am  me", "Bio(\"I am  me\")"),
        ("topic news here", "Topic { conv: 10, topic: \"news here\" }"),
        ("join #general", "Join(0)"),
        ("dm @bob", "Dm(\"bob\")"),
        ("group crew bob carol", "Group { name: \"crew\", users: [\"bob\", \"carol\"] }"),
        ("invite al ssh-ed25519 AAAA", "Invite { name: \"al\", key: \"ssh-ed25519 AAAA\" }"),
        ("mkchan #new", "Mkchan(\"new\")"),
        ("rmchan new", "Rmchan(\"new\")"),
        ("roles", "Roles"),
        (
            "mkrole op #00ff00 7 hoist",
            "Mkrole { name: \"op\", color: \"#00ff00\", priority: 7, hoisted: true }",
        ),
        ("rmrole op", "Rmrole(\"op\")"),
        ("motd hello there", "Motd(\"hello there\")"),
    ];
    for (text, want) in cases {
        assert_eq!(ordered(text), want, "{text}");
    }
    assert!(matches!(
        parse(&session(true), "grant bob op"),
        Order::Grant { granting: true, .. }
    ));
    assert!(matches!(
        parse(&session(true), "revoke bob op"),
        Order::Grant { granting: false, .. }
    ));
}

fn refusal(app: &App, text: &str) -> String {
    match parse(app, text) {
        Order::Refuse(why) => why,
        other => panic!("{other:?}"),
    }
}

#[test]
fn commands_that_are_refused() {
    let app = session(true);
    assert_eq!(refusal(&app, "nonsense"), "unknown command :nonsense -- try :help");
    assert_eq!(refusal(&app, "nick"), "usage: :nick <name>");
    assert_eq!(refusal(&app, "join"), "usage: :join #channel");
    assert_eq!(refusal(&app, "join #x"), "no channel called #x");
    assert_eq!(refusal(&app, "dm"), "usage: :dm <user>");
    assert_eq!(refusal(&app, "group crew"), "usage: :group <name> <user> [user...]");
    assert_eq!(refusal(&app, "mkchan"), "usage: :mkchan <name>");
    assert_eq!(refusal(&app, "invite al"), "usage: :invite <name> <ssh public key>");
    let mut nowhere = session(true);
    nowhere.convs.clear();
    nowhere.labels.clear();
    assert_eq!(refusal(&nowhere, "topic x"), "no conversation selected");
}

#[test]
fn admin_commands_need_an_admin() {
    let app = session(false);
    for text in [
        "invite al key x", "mkchan x", "rmchan x", "mkrole a #00ff00", "rmrole a", "grant a b",
        "revoke a b", "motd x",
    ] {
        assert!(matches!(parse(&app, text), Order::Refuse(_)), "{text}");
    }
    assert!(matches!(parse(&app, "roles"), Order::Roles));
}

#[test]
fn themes_and_overlays() {
    let mut app = session(false);
    theme(&mut app, None, 0);
    assert_eq!(
        app.status.as_deref(),
        Some("theme is dark -- available: dark, light, mono")
    );
    theme(&mut app, Some(&"light".to_string()), 0);
    assert_eq!(app.status.as_deref(), Some("theme set to light"));
    theme(&mut app, Some(&"pink".to_string()), 0);
    assert_eq!(app.status.as_deref(), Some("no theme called pink"));
    assert!(app.flashing(0));
    help(&mut app);
    assert!(matches!(app.overlay, Some(Overlay::Help)));
    list_roles(&mut app, vec![]);
    assert!(matches!(app.overlay, Some(Overlay::Roles(_))));
    info(&mut app, "bob", Some(user(2, "bob", false)), 0);
    assert!(matches!(app.overlay, Some(Overlay::Profile(_))));
    app.overlay = None;
    info(&mut app, "eve", None, 0);
    assert!(app.overlay.is_none());
    assert_eq!(app.status.as_deref(), Some("no user called eve"));
}

#[test]
fn rulings() {
    let ruling = nick(1, "max", false).unwrap();
    assert_eq!(ruling.kind, EventKind::UserRenamed { user: 1, name: "max".to_string() });
    assert_eq!(ruling.notice, "you are now max");
    assert_eq!(nick(1, "max", true).unwrap_err(), "max is taken");
    assert_eq!(bio(1, "x").kind, EventKind::BioSet { user: 1, bio: "x".to_string() });
    assert_eq!(topic(10, "x").kind, EventKind::TopicSet { conv: 10, topic: "x".to_string() });
    let ruling = mkchan(5, "new", false).unwrap();
    assert_eq!(
        ruling.kind,
        EventKind::ConvCreated { conv: 5, kind: ConvKind::Channel, name: "new".to_string() }
    );
    assert_eq!(mkchan(5, "new", true).unwrap_err(), "#new already exists");
    assert_eq!(rmchan("new", Some(5)).unwrap().kind, EventKind::ConvRemoved { conv: 5 });
    assert_eq!(rmchan("new", None).unwrap_err(), "no channel called #new");
}

#[test]
fn a_dm_is_used_again() {
    let app = session(false);
    let rosters = vec![Roster { conv: 11, members: vec![1, 2] }];
    assert!(matches!(dm(&app, "bob", Some(2), &rosters), Ok(Direct::Open(1))));
    assert!(matches!(dm(&app, "carol", Some(3), &rosters), Ok(Direct::Start(3))));
    assert_eq!(dm(&app, "me", Some(1), &rosters).unwrap_err(), "you cannot DM yourself");
    assert_eq!(dm(&app, "eve", None, &rosters).unwrap_err(), "no user called eve");
}

#[test]
fn a_group_holds_everyone_once() {
    let names: Vec<String> = ["bob", "me", "bob"].map(String::from).to_vec();
    assert_eq!(group(1, &names, &vec![Some(2), Some(1), Some(2)]), Ok(vec![1, 2]));
    assert_eq!(
        group(1, &names, &vec![Some(2), None, None]),
        Err("no user called me".to_string())
    );
    let events = found(9, ConvKind::Group, "crew", &vec![1, 2]);
    assert_eq!(
        events,
        vec![
            EventKind::ConvCreated { conv: 9, kind: ConvKind::Group, name: "crew".to_string() },
            EventKind::MemberJoined { conv: 9, user: 1 },
            EventKind::MemberJoined { conv: 9, user: 2 },
        ]
    );
}
