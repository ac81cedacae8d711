use newbbs::db::bootstrap::bootstrap;
use newbbs::db::migrations::plan;
use newbbs::db::seed::seed_demo;
use newbbs::db::tables::StoreError;
use newbbs::db::{Counter, Db};
use newbbs::model::ConvKind;

const NOW: i64 = 1_700_000_000_000;

/// A fresh board: one channel, one role that grants power, and an admin
/// without a key.
#[test]
fn a_fresh_board() {
    let mut db = Db::new();
    let admin = bootstrap(&mut db, NOW).unwrap();
    let users = db.users();
    assert_eq!(users.len(), 1);
    assert_eq!((users[0].id, users[0].name.as_str()), (admin, "admin"));
    assert!(db.user_keys().is_empty());
    let roles = db.roles();
    assert_eq!(roles.len(), 1);
    assert_eq!((roles[0].name.as_str(), roles[0].admin), ("sysop", true));
    assert_eq!(db.roles_of(admin), roles);
    assert_eq!(db.conversation_by_name("general").unwrap().kind, ConvKind::Channel);
    assert_eq!(db.log[0].at, NOW + 1);
    for pair in db.log.windows(2) {
        assert!(pair[0].id.bits < pair[1].id.bits);
    }
}

#[test]
fn a_board_without_ids_left() {
    let mut db = Db::new();
    db.counters.push(Counter { name: "user".to_string(), value: i64::MAX });
    assert_eq!(bootstrap(&mut db, NOW), Err(StoreError::CounterExhausted));
    assert!(db.is_empty());
}

#[test]
fn a_board_that_is_taken() {
    let mut db = Db::new();
    bootstrap(&mut db, NOW).unwrap();
    // The name of the admin is taken already.
    assert_eq!(bootstrap(&mut db, NOW + 10), Err(StoreError::NameTaken));
    assert_eq!(db.users().len(), 1);
}

#[test]
fn a_demo_board() {
    let mut db = Db::new();
    let admin = seed_demo(&mut db, NOW).unwrap();
    let names: Vec<String> = db.users().into_iter().map(|u| u.name).collect();
    assert_eq!(names, vec!["admin", "alice", "bob", "carol", "dave"]);
    assert_eq!(db.roles().len(), 3);
    assert!(db.user(admin).unwrap().roles[0].admin);
    let channels: Vec<String> = db
        .conversations(admin)
        .into_iter()
        .filter(|c| c.kind == ConvKind::Channel)
        .map(|c| c.name)
        .collect();
    assert_eq!(channels, vec!["dev", "general", "random"]);
    let general = db.conversation_by_name("general").unwrap().id;
    let messages = db.messages(general, None, 100);
    assert!(messages.len() > 3);
    // There is a day boundary in view.
    assert!(messages.last().unwrap().created_at - messages[0].created_at > 12 * 3_600_000);
    assert!(messages.iter().all(|m| m.created_at <= NOW));
}

#[test]
fn which_migrations_are_due() {
    assert_eq!(plan(0, 2), Ok(vec![1, 2]));
    assert_eq!(plan(1, 2), Ok(vec![2]));
    assert_eq!(plan(2, 2), Ok(vec![]));
    assert_eq!(
        plan(3, 2),
        Err(
            "database is at schema version 3, but this build only knows 2 -- it was written by \
             a newer newbbs"
                .to_string()
        )
    );
}
