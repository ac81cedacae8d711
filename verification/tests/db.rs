use newbbs::db::projection::apply_projection;
use newbbs::db::query::{conv_kind_code, conv_kind_from_code, encode_tag};
use newbbs::db::tables::{Account, Grant, Post, Statement, StoreError};
use newbbs::db::uuid::{uuid_at, uuid_from_row, uuid_to_row};
use newbbs::db::{Counter, Db};
use newbbs::model::{ConvKind, Event, EventKind, Message, Tag, Uuid};

const DAY: i64 = 24 * 60 * 60 * 1000;

fn user(user: i64, name: &str) -> EventKind {
    EventKind::UserCreated { user, name: name.to_string(), pubkey: format!("key of {name}") }
}

fn channel(conv: i64, name: &str) -> EventKind {
    EventKind::ConvCreated { conv, kind: ConvKind::Channel, name: name.to_string() }
}

fn role(role: i64, name: &str, priority: i64) -> EventKind {
    EventKind::RoleCreated {
        role,
        name: name.to_string(),
        color: 0xff0000,
        priority,
        hoisted: true,
        admin: false,
    }
}

fn said(conv: i64, author: i64, body: &str) -> EventKind {
    EventKind::MessageSent { conv, author, body: body.to_string() }
}

/// Two people in one channel.
fn board() -> Db {
    let mut db = Db::new();
    let kinds = vec![
        user(1, "alice"),
        user(2, "bob"),
        channel(1, "general"),
        EventKind::MemberJoined { conv: 1, user: 1 },
        EventKind::MemberJoined { conv: 1, user: 2 },
    ];
    for (i, kind) in kinds.into_iter().enumerate() {
        db.commit_at(None, kind, 1000 + i as i64).unwrap();
    }
    db
}

#[test]
fn a_new_store_is_empty() {
    let db = Db::new();
    assert!(db.is_empty());
    assert!(db.users().is_empty());
    assert!(db.all_events(10).is_empty());
    assert!(!board().is_empty());
}

#[test]
fn commits_stamp_and_apply() {
    let mut db = board();
    let event = db.commit_at(Some(1), said(1, 1, "hi"), 5000).unwrap();
    assert_eq!(event.at, 5000);
    assert_eq!(event.actor, Some(1));
    assert_eq!(event.id.bits >> 80, 5000);
    assert_eq!(db.event(event.id).unwrap().kind, said(1, 1, "hi"));
    assert!(db.event(Uuid { bits: 0 }).is_none());
    let messages = db.messages(1, None, 10);
    assert_eq!(messages.len(), 1);
    assert_eq!(
        messages[0],
        Message {
            id: event.id,
            conv: 1,
            author: 1,
            body: "hi".to_string(),
            created_at: 5000,
            edited_at: None,
        }
    );
    let now = db.commit(Some(1), said(1, 1, "now")).unwrap();
    assert!(now.at > 946_684_800_000);
    assert_eq!(now.id.bits >> 80, now.at as u128);
}

/// An event either happens as a whole or leaves no trace.
#[test]
fn refused_events_change_nothing() {
    let mut db = board();
    db.commit_at(None, role(1, "op", 5), 2000).unwrap();
    let cases = vec![
        (user(1, "carol"), StoreError::UserExists),
        (user(3, "alice"), StoreError::NameTaken),
        (EventKind::UserRenamed { user: 2, name: "alice".to_string() }, StoreError::NameTaken),
        (role(1, "other", 0), StoreError::RoleExists),
        (channel(1, "other"), StoreError::ConvExists),
        (EventKind::RoleGranted { user: 9, role: 1 }, StoreError::MissingReference),
        (EventKind::MemberJoined { conv: 9, user: 1 }, StoreError::MissingReference),
        (said(9, 1, "x"), StoreError::MissingReference),
        (said(1, 9, "x"), StoreError::MissingReference),
    ];
    for (kind, why) in cases {
        let count = db.log.len();
        let shown = format!("{kind:?}");
        assert_eq!(db.commit_at(None, kind, 3000).unwrap_err(), why, "{shown}");
        assert_eq!(db.log.len(), count);
        assert_eq!(db.users().len(), 2);
        assert_eq!(db.messages(1, None, 10).len(), 0);
    }
    let first = db.log[0].clone();
    assert_eq!(db.append(first).unwrap_err(), StoreError::EventExists);
}

#[test]
fn refusals_have_words() {
    let all = [
        (StoreError::EventExists, "UNIQUE constraint failed: events.id"),
        (StoreError::UserExists, "UNIQUE constraint failed: users.id"),
        (StoreError::NameTaken, "UNIQUE constraint failed: users.name"),
        (StoreError::RoleExists, "UNIQUE constraint failed: roles.id"),
        (StoreError::ConvExists, "UNIQUE constraint failed: convs.id"),
        (StoreError::MessageExists, "UNIQUE constraint failed: messages.id"),
        (StoreError::MissingReference, "FOREIGN KEY constraint failed"),
        (StoreError::CounterExhausted, "no ids left"),
    ];
    for (error, words) in all {
        assert_eq!(error.message(), words);
    }
}

#[test]
fn a_message_id_is_used_once() {
    let mut db = board();
    let mut event = db.commit_at(Some(1), said(1, 1, "hi"), 5000).unwrap();
    db.log.pop();
    event.at = 6000;
    assert_eq!(db.append(event).unwrap_err(), StoreError::MessageExists);
}

#[test]
fn statements_of_each_event() {
    let event = |kind| Event { id: Uuid { bits: 77 }, at: 5, actor: None, kind };
    assert_eq!(
        apply_projection(&event(user(1, "alice"))),
        vec![Statement::InsertUser(Account {
            id: 1,
            name: "alice".to_string(),
            bio: String::new(),
            pubkey: "key of alice".to_string(),
            joined_at: 5,
            last_seen: 5,
        })]
    );
    assert_eq!(
        apply_projection(&event(EventKind::RoleGranted { user: 1, role: 2 })),
        vec![Statement::InsertGrant(Grant { user: 1, role: 2 })]
    );
    assert_eq!(
        apply_projection(&event(EventKind::RoleRemoved { role: 2 })),
        vec![Statement::DeleteGrantsOf { role: 2 }, Statement::DeleteRole { role: 2 }]
    );
    assert_eq!(
        apply_projection(&event(EventKind::ConvRemoved { conv: 3 })),
        vec![
            Statement::DeleteMembersOf { conv: 3 },
            Statement::DeleteMessagesOf { conv: 3 },
            Statement::DeleteConv { conv: 3 },
        ]
    );
    assert_eq!(
        apply_projection(&event(said(3, 1, "hi"))),
        vec![Statement::InsertMessage(Post {
            message: Message {
                id: Uuid { bits: 77 },
                conv: 3,
                author: 1,
                body: "hi".to_string(),
                created_at: 5,
                edited_at: None,
            },
            deleted: false,
        })]
    );
    assert_eq!(
        apply_projection(&event(EventKind::MessageDeleted { message: Uuid { bits: 7 } })),
        vec![Statement::BlankMessage { message: Uuid { bits: 7 } }]
    );
}

#[test]
fn messages_page_backwards() {
    let mut db = board();
    for i in 0..5 {
        db.commit_at(Some(1), said(1, 1, &format!("m{i}")), 5000 + i).unwrap();
    }
    let bodies = |messages: Vec<Message>| {
        messages.into_iter().map(|m| m.body).collect::<Vec<_>>()
    };
    assert_eq!(bodies(db.messages(1, None, 2)), vec!["m3", "m4"]);
    let oldest = db.messages(1, None, 2)[0].id;
    assert_eq!(bodies(db.messages(1, Some(oldest), 2)), vec!["m1", "m2"]);
    assert_eq!(bodies(db.messages(1, Some(oldest), 10)), vec!["m0", "m1", "m2"]);
    assert!(db.messages(2, None, 10).is_empty());
}

#[test]
fn edits_and_deletions() {
    let mut db = board();
    let sent = db.commit_at(Some(1), said(1, 1, "typo"), 5000).unwrap();
    let fixed = EventKind::MessageEdited { message: sent.id, body: "fixed".to_string() };
    db.commit_at(Some(1), fixed, 6000).unwrap();
    let message = &db.messages(1, None, 10)[0];
    assert_eq!(message.body, "fixed");
    assert_eq!(message.edited_at, Some(6000));
    db.commit_at(Some(1), EventKind::MessageDeleted { message: sent.id }, 7000).unwrap();
    assert!(db.messages(1, None, 10).is_empty());
    assert!(db.tables.posts[0].deleted);
    assert_eq!(db.tables.posts[0].message.body, "");
}

#[test]
fn users_are_found_and_sorted() {
    let mut db = board();
    db.commit_at(None, user(3, "Zed"), 2000).unwrap();
    let names: Vec<String> = db.users().into_iter().map(|u| u.name).collect();
    assert_eq!(names, vec!["Zed", "alice", "bob"]);
    assert_eq!(db.user_by_name("ALICE").unwrap().id, 1);
    assert!(db.user_by_name("nobody").is_none());
    assert_eq!(db.user(2).unwrap().name, "bob");
    assert!(db.user(9).is_none());
    let renamed = EventKind::UserRenamed { user: 2, name: "robert".to_string() };
    db.commit_at(None, renamed, 3000).unwrap();
    let bio = EventKind::BioSet { user: 2, bio: "hello".to_string() };
    db.commit_at(None, bio, 3001).unwrap();
    let robert = db.user(2).unwrap();
    assert_eq!((robert.name.as_str(), robert.bio.as_str()), ("robert", "hello"));
    assert_eq!((robert.joined_at, robert.last_seen, robert.online), (1001, 1001, false));
    db.touch_last_seen(2, 9000);
    assert_eq!(db.user(2).unwrap().last_seen, 9000);
    assert_eq!(db.user_keys()[0], (1, "key of alice".to_string()));
}

/// Removing a role takes it from everyone who holds it.
#[test]
fn roles_come_and_go() {
    let mut db = board();
    db.commit_at(None, role(1, "low", 1), 2000).unwrap();
    db.commit_at(None, role(2, "high", 9), 2001).unwrap();
    for r in [1, 2] {
        db.commit_at(None, EventKind::RoleGranted { user: 1, role: r }, 2010 + r).unwrap();
    }
    let names = |roles: Vec<newbbs::model::Role>| {
        roles.into_iter().map(|r| r.name).collect::<Vec<_>>()
    };
    assert_eq!(names(db.roles()), vec!["high", "low"]);
    assert_eq!(names(db.roles_of(1)), vec!["high", "low"]);
    assert_eq!(names(db.user(1).unwrap().roles), vec!["high", "low"]);
    db.commit_at(None, EventKind::RoleRevoked { user: 1, role: 1 }, 2020).unwrap();
    assert_eq!(names(db.roles_of(1)), vec!["high"]);
    db.commit_at(None, EventKind::RoleRemoved { role: 2 }, 2030).unwrap();
    assert!(db.roles_of(1).is_empty());
    assert_eq!(names(db.roles()), vec!["low"]);
}

#[test]
fn conversations_and_members() {
    let mut db = board();
    let dm = EventKind::ConvCreated { conv: 2, kind: ConvKind::Dm, name: String::new() };
    db.commit_at(None, dm, 2000).unwrap();
    db.commit_at(None, EventKind::MemberJoined { conv: 2, user: 2 }, 2001).unwrap();
    let ids = |db: &Db, user| db.conversations(user).into_iter().map(|c| c.id).collect::<Vec<_>>();
    assert_eq!(ids(&db, 1), vec![1]);
    assert_eq!(ids(&db, 2), vec![1, 2]);
    assert_eq!(db.conversation_by_name("general").unwrap().id, 1);
    assert!(db.conversation_by_name("nowhere").is_none());
    assert_eq!(db.conversation(2).unwrap().kind, ConvKind::Dm);
    // Everyone is in a channel; only those who joined are in the rest.
    assert_eq!(db.members(1), vec![1, 2]);
    assert_eq!(db.members(2), vec![2]);
    db.commit_at(None, EventKind::MemberJoined { conv: 2, user: 1 }, 2002).unwrap();
    // Joining twice changes nothing.
    db.commit_at(None, EventKind::MemberJoined { conv: 2, user: 1 }, 2003).unwrap();
    assert_eq!(db.members(2), vec![1, 2]);
    db.commit_at(None, EventKind::MemberLeft { conv: 2, user: 2 }, 2003).unwrap();
    assert_eq!(db.members(2), vec![1]);
    let topic = EventKind::TopicSet { conv: 1, topic: "news".to_string() };
    db.commit_at(None, topic, 2004).unwrap();
    assert_eq!(db.conversation(1).unwrap().topic, "news");
    db.commit_at(None, EventKind::ConvRemoved { conv: 1 }, 2005).unwrap();
    assert!(db.conversation(1).is_none());
    assert!(db.members(1).is_empty());
}

/// The tables are what the log makes of them.
#[test]
fn replaying_the_log_rebuilds_the_tables() {
    let mut db = board();
    db.commit_at(None, role(1, "op", 5), 2000).unwrap();
    db.commit_at(None, EventKind::RoleGranted { user: 1, role: 1 }, 2001).unwrap();
    let sent = db.commit_at(Some(1), said(1, 1, "hi"), 5000).unwrap();
    db.commit_at(Some(1), EventKind::MessageDeleted { message: sent.id }, 6000).unwrap();
    let mut again = Db::new();
    for event in &db.log {
        again.append(event.clone()).unwrap();
    }
    assert_eq!(format!("{:?}", again.tables), format!("{:?}", db.tables));
}

#[test]
fn a_session_is_replayed_what_it_missed() {
    let now = 30 * DAY;
    let mut db = Db::new();
    db.commit_at(None, user(1, "alice"), 1).unwrap();
    db.commit_at(None, channel(1, "general"), 2).unwrap();
    db.commit_at(None, channel(2, "other"), 3).unwrap();
    // Too old, elsewhere, before, and after.
    db.commit_at(None, said(1, 1, "ancient"), now - 8 * DAY).unwrap();
    db.commit_at(None, said(2, 1, "elsewhere"), now - 10).unwrap();
    let seen = db.commit_at(None, said(1, 1, "seen"), now - 9).unwrap();
    let new = db.commit_at(None, said(1, 1, "new"), now - 8).unwrap();
    let tags = vec![Tag::Conv(1)];
    let (events, truncated) = db.replay(&tags, Some(seen.id), now);
    let new_id = new.id;
    assert_eq!(events, vec![new]);
    assert!(!truncated);
    assert_eq!(db.replay(&tags, None, now).0.len(), 2);
    for i in 0..500 {
        db.commit_at(None, said(1, 1, "more"), now + i).unwrap();
    }
    // The newest are kept, still oldest first.
    let (events, truncated) = db.replay(&tags, None, now);
    assert_eq!(events.len(), 500);
    assert_eq!(events[..], db.log[db.log.len() - 500..]);
    assert_eq!((events[0].at, events[499].at), (now, now + 499));
    assert!(truncated);
    // What just fits is not cut.
    let (events, truncated) = db.replay(&tags, Some(new_id), now);
    assert_eq!((events.len(), truncated), (500, false));
}

#[test]
fn the_log_is_dumped_from_its_beginning() {
    let db = board();
    assert_eq!(db.all_events(2), vec![db.log[0].clone(), db.log[1].clone()]);
    assert_eq!(db.all_events(10).len(), 5);
}

#[test]
fn counters_count() {
    let mut db = Db::new();
    assert_eq!(db.allocate("conv"), Ok(1));
    assert_eq!(db.allocate("conv"), Ok(2));
    assert_eq!(db.allocate("user"), Ok(1));
    db.counters.push(Counter { name: "last".to_string(), value: i64::MAX });
    assert_eq!(db.allocate("last"), Err(StoreError::CounterExhausted));
}

#[test]
fn settings_are_kept_and_cleared() {
    let mut db = Db::new();
    assert_eq!(db.setting("motd"), None);
    db.set_setting("motd", vec![1, 2]);
    db.set_setting("art", vec![3]);
    db.set_setting("motd", vec![4]);
    assert_eq!(db.setting("motd"), Some(vec![4]));
    db.clear_setting("motd");
    assert_eq!(db.setting("motd"), None);
    assert_eq!(db.setting("art"), Some(vec![3]));
}

#[test]
fn ids_sort_by_time() {
    let ids: Vec<Uuid> = [0, 1, 1_700_000_000_000, 1_700_000_000_001].map(uuid_at).to_vec();
    for pair in ids.windows(2) {
        assert!(pair[0].bits < pair[1].bits);
    }
    // Version seven, and the variant of RFC 9562.
    assert_eq!((ids[2].bits >> 76) & 0xf, 7);
    assert_eq!((ids[2].bits >> 62) & 3, 2);
    assert_ne!(uuid_at(5), uuid_at(5));
}

#[test]
fn ids_fit_a_row() {
    let id = Uuid { bits: 0x0102_0304_0506_0708_090a_0b0c_0d0e_0f10 };
    assert_eq!(uuid_to_row(id), (1..=16).collect::<Vec<u8>>());
    assert_eq!(uuid_from_row(&uuid_to_row(id)), Ok(id));
    assert_eq!(
        uuid_from_row(&vec![0; 3]),
        Err("uuid column was 3 bytes, expected 16".to_string())
    );
}

#[test]
fn tags_are_stored_apart() {
    let tags = [Tag::Conv(5), Tag::User(5), Tag::Presence, Tag::Roles, Tag::Directory];
    for (i, a) in tags.iter().enumerate() {
        for (j, b) in tags.iter().enumerate() {
            assert_eq!(encode_tag(*a) == encode_tag(*b), i == j);
        }
    }
    assert_eq!(encode_tag(Tag::Roles), (3, None));
    assert_eq!(encode_tag(Tag::Conv(5)).1, Some(5));
}

#[test]
fn kinds_of_conversation_have_codes() {
    for (code, kind) in [ConvKind::Channel, ConvKind::Dm, ConvKind::Group].into_iter().enumerate() {
        assert_eq!(conv_kind_code(kind), code as i64);
        assert_eq!(conv_kind_from_code(conv_kind_code(kind)), kind);
    }
    assert_eq!(conv_kind_from_code(7), ConvKind::Channel);
}
