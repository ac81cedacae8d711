use newbbs::db::bootstrap::bootstrap;
use newbbs::db::Db;
use newbbs::model::{EventKind, User};
use newbbs::ssh::{
    authenticate, consider, farewell, host_key_plan, identify, invite, not_invited, open_shell,
    owner, Ending, HostKeyPlan, KeyFacts, PtySize, Sessions, Shell, StoredKey, Verdict, LEAVE_SCREEN,
};

const ONE: &str =
    "ssh-ed25519 AAAAC3NzaC1lZDI1NTE5AAAAIAABAgMEBQYHCAkKCwwNDg8QERITFBUWFxgZGhscHR4f";
const ONE_PRINT: &str = "SHA256:ZkAslGjFiUHdGf/WUL8rQvkib4PTvQatUV0OUQSncCA";
const TWO: &str =
    "ssh-ed25519 AAAAC3NzaC1lZDI1NTE5AAAAICAhIiMkJSYnKCkqKywtLi8wMTIzNDU2Nzg5Ojs8PT4/";

fn user(id: i64, name: &str) -> User {
    User {
        id,
        name: name.to_string(),
        bio: String::new(),
        joined_at: 0,
        last_seen: 0,
        online: false,
        roles: vec![],
    }
}

#[test]
fn a_key_identifies_its_account() {
    let keys = vec![
        (1, "not a key".to_string()),
        (2, TWO.to_string()),
        (3, format!("{ONE} carol@home")),
    ];
    // The comment is no part of the key.
    assert_eq!(identify(&keys, ONE), Some(3));
    assert_eq!(identify(&keys, &format!("{TWO} elsewhere")), Some(2));
    assert_eq!(identify(&keys[..2].to_vec(), ONE), None);
    assert_eq!(identify(&keys, "not a key"), None);
}

#[test]
fn the_first_holder_of_a_key_owns_it() {
    let stored = vec![
        StoredKey { user: 1, data: None },
        StoredKey { user: 2, data: Some(vec![1, 2]) },
        StoredKey { user: 3, data: Some(vec![1, 2]) },
    ];
    assert_eq!(owner(&stored, &vec![1, 2]), Some(2));
    assert_eq!(owner(&stored, &vec![1]), None);
}

#[test]
fn an_invitation_is_bound_to_a_key() {
    let users = vec![user(1, "admin"), user(2, "bob")];
    let keys = vec![(2, TWO.to_string())];
    let invitation = invite(&users, &keys, " alice ", &format!("  {ONE} alice@home\n")).unwrap();
    assert_eq!(invitation.name, "alice");
    assert_eq!(invitation.fingerprint, ONE_PRINT);
    assert_eq!(invitation.pubkey, format!("{ONE} alice@home"));
    // The account is known by its key from then on.
    let stored = vec![(3, invitation.pubkey.clone())];
    assert_eq!(identify(&stored, ONE), Some(3));
    assert_eq!(
        invitation.accepted(3),
        EventKind::UserCreated {
            user: 3,
            name: "alice".to_string(),
            pubkey: format!("{ONE} alice@home"),
        }
    );
}

#[test]
fn invitations_that_are_refused() {
    let users = vec![user(1, "admin"), user(2, "bob")];
    let keys = vec![(2, TWO.to_string())];
    let refused = |name: &str, key: &str| invite(&users, &keys, name, key).unwrap_err();
    assert_eq!(refused(" ", ONE), "a name cannot be empty or contain spaces");
    assert_eq!(refused("a b", ONE), "a name cannot be empty or contain spaces");
    assert_eq!(refused("alice", "nonsense"), "that does not look like an ssh public key");
    assert_eq!(refused("BOB", ONE), "there is already an account called BOB");
    assert_eq!(refused("alice", TWO), "that key already belongs to bob");
    let facts = KeyFacts { fingerprint: "x".to_string(), holder: None, canonical: None };
    assert_eq!(consider(&users, "alice", Some(facts)).unwrap_err(), "re-encoding the key");
}

/// A second connection displaces the first.
#[test]
fn one_session_per_person() {
    let mut sessions = Sessions::new();
    let (first, displaced) = sessions.claim(7);
    assert_eq!(displaced, None);
    let (second, displaced) = sessions.claim(7);
    assert_eq!(displaced, Some(first));
    // The displaced one leaves, and the new one stays.
    sessions.release(7, first);
    let (third, displaced) = sessions.claim(7);
    assert_eq!(displaced, Some(second));
    sessions.release(7, third);
    assert_eq!(sessions.claim(7).1, None);
    assert_eq!(sessions.claim(8).1, None);
}

#[test]
fn a_terminal_is_never_empty() {
    let mut size = PtySize::new(0, 24);
    assert_eq!(size.get(), (1, 24));
    size.set(80, 0);
    assert_eq!(size.get(), (80, 1));
}

#[test]
fn who_gets_in() {
    assert!(matches!(authenticate("root", Some(1), String::new()), Verdict::Reject));
    assert!(matches!(authenticate("newbbs", Some(1), String::new()), Verdict::Known(1)));
    match authenticate("newbbs", None, ONE_PRINT.to_string()) {
        Verdict::Stranger(print) => assert_eq!(print, ONE_PRINT),
        other => panic!("{other:?}"),
    }
    assert!(matches!(open_shell(false, Some(1), ""), Shell::Close));
    assert!(matches!(open_shell(true, Some(1), ""), Shell::Start(1)));
    match open_shell(true, None, ONE_PRINT) {
        Shell::TurnAway(text) => {
            assert_eq!(text, not_invited(ONE_PRINT));
            assert!(text.contains(ONE_PRINT) && text.contains("invite only"));
        }
        other => panic!("{other:?}"),
    }
}

#[test]
fn how_sessions_end() {
    assert_eq!(farewell(&Ending::Left), LEAVE_SCREEN);
    assert_eq!(
        farewell(&Ending::Told("bye".to_string())),
        format!("{LEAVE_SCREEN}bye\r\n")
    );
    assert_eq!(
        farewell(&Ending::Failed),
        format!("{LEAVE_SCREEN}newbbs hit an error and had to close the session\r\n")
    );
}

/// An admin adds your key, you connect, you are you.
#[test]
fn an_invited_key_opens_its_account() {
    let mut db = Db::new();
    let admin = bootstrap(&mut db, 1_700_000_000_000).unwrap();
    // The admin account has no key, so no key leads to it.
    assert!(db.user_keys().is_empty());
    assert_eq!(identify(&db.user_keys(), ONE), None);
    let invitation = invite(&db.users(), &db.user_keys(), "alice", ONE).unwrap();
    let alice = db.allocate("user").unwrap();
    assert_ne!(alice, admin);
    db.commit_at(Some(admin), invitation.accepted(alice), 1_700_000_001_000).unwrap();
    assert_eq!(identify(&db.user_keys(), ONE), Some(alice));
    assert_eq!(identify(&db.user_keys(), TWO), None);
    // Whatever happens to the account, its key stays.
    let renamed = EventKind::UserRenamed { user: alice, name: "al".to_string() };
    db.commit_at(Some(alice), renamed, 1_700_000_002_000).unwrap();
    assert_eq!(identify(&db.user_keys(), ONE), Some(alice));
}

/// Nothing that happens to the admin account, or to anyone else, gives it a
/// key.
#[test]
fn an_account_without_a_key_stays_out_of_reach() {
    let mut db = Db::new();
    let admin = bootstrap(&mut db, 1_700_000_000_000).unwrap();
    let invitation = invite(&db.users(), &db.user_keys(), "alice", ONE).unwrap();
    let alice = db.allocate("user").unwrap();
    db.commit_at(Some(admin), invitation.accepted(alice), 1_700_000_001_000).unwrap();
    let renamed = EventKind::UserRenamed { user: admin, name: "root".to_string() };
    db.commit_at(Some(admin), renamed, 1_700_000_002_000).unwrap();
    // An account that exists cannot be created anew with a key.
    let another = invite(&db.users(), &db.user_keys(), "bob", TWO).unwrap();
    assert!(db.commit_at(Some(admin), another.accepted(admin), 1_700_000_003_000).is_err());
    let listed: Vec<i64> = db.user_keys().into_iter().map(|k| k.0).collect();
    assert_eq!(listed, vec![alice]);
    assert_eq!(identify(&db.user_keys(), TWO), None);
    assert_eq!(identify(&db.user_keys(), ONE), Some(alice));
}

/// A key is made only where none is kept.
#[test]
fn the_host_key_is_stable() {
    assert!(matches!(host_key_plan(None), HostKeyPlan::Generate));
    match host_key_plan(Some("k\u{e9}y".as_bytes().to_vec())) {
        HostKeyPlan::Use(text) => assert_eq!(text, "k\u{e9}y"),
        other => panic!("{other:?}"),
    }
    assert!(matches!(host_key_plan(Some(vec![0xff])), HostKeyPlan::Unreadable));
}
