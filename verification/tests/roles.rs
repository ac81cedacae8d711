use newbbs::model::{EventKind, Role, User};
use newbbs::roles::{check, create, find, grant, parse_color, remove, sought};

fn role(id: i64, name: &str, admin: bool) -> Role {
    Role { id, name: name.to_string(), color: 0x61afef, priority: id, hoisted: false, admin }
}

fn user(id: i64, name: &str, roles: Vec<Role>) -> User {
    User {
        id,
        name: name.to_string(),
        bio: String::new(),
        joined_at: 0,
        last_seen: 0,
        online: false,
        roles,
    }
}

#[test]
fn colours_must_be_six_digits() {
    assert_eq!(parse_color("#61afef").unwrap(), 0x61afef);
    assert_eq!(parse_color("61afef").unwrap(), 0x61afef);
    // The shorthand would otherwise silently become near-black.
    assert!(parse_color("#abc").is_err());
    assert!(parse_color("#1234567").is_err());
    assert!(parse_color("#zzzzzz").is_err());
    assert!(parse_color("").is_err());
}

#[test]
fn a_colour_has_one_hash_at_most() {
    assert_eq!(parse_color("#00FFaa").unwrap(), 0x00ffaa);
    assert!(parse_color("##61afef").is_err());
    assert!(parse_color("#").is_err());
    assert!(parse_color("#61afe").is_err());
    assert!(parse_color("61afe#").is_err());
    assert!(create(&vec![], 1, "op", "##61afef", 0, false).is_err());
}

#[test]
fn a_role_is_found_by_its_exact_name() {
    let roles = vec![role(1, "sysop", true), role(2, "op", false)];
    assert_eq!(find(&roles, "op").unwrap().id, 2);
    assert_eq!(find(&roles, "OP").unwrap_err(), "no role called OP");
}

#[test]
fn a_leading_at_is_not_part_of_a_name() {
    assert_eq!(sought("@alice"), "alice");
    assert_eq!(sought("alice"), "alice");
}

#[test]
fn granting_and_revoking() {
    let roles = vec![role(7, "op", false)];
    let bob = user(3, "bob", vec![]);
    let granted = grant(Some(bob.clone()), "bob", &roles, "op", true).unwrap();
    assert_eq!(granted.kind, EventKind::RoleGranted { user: 3, role: 7 });
    assert_eq!(granted.notice, "granted op for bob");
    let revoked = grant(Some(bob.clone()), "bob", &roles, "op", false).unwrap();
    assert_eq!(revoked.kind, EventKind::RoleRevoked { user: 3, role: 7 });
    assert_eq!(revoked.notice, "revoked op for bob");
    assert_eq!(grant(None, "eve", &roles, "op", true).unwrap_err(), "no user called eve");
    assert_eq!(grant(Some(bob), "bob", &roles, "god", true).unwrap_err(), "no role called god");
}

#[test]
fn removing_a_role_says_how_many_lose_it() {
    let op = role(7, "op", false);
    let roles = vec![op.clone()];
    let mut users = vec![user(1, "a", vec![])];
    assert_eq!(remove(&roles, &users, "op").unwrap().notice, "removed role op");
    users.push(user(2, "b", vec![op.clone()]));
    assert_eq!(
        remove(&roles, &users, "op").unwrap().notice,
        "removed role op, revoked from 1 person"
    );
    users.push(user(3, "c", vec![op]));
    let ruling = remove(&roles, &users, "op").unwrap();
    assert_eq!(ruling.notice, "removed role op, revoked from 2 people");
    assert_eq!(ruling.kind, EventKind::RoleRemoved { role: 7 });
    assert_eq!(remove(&roles, &users, "x").unwrap_err(), "no role called x");
}

#[test]
fn a_created_role_is_never_admin() {
    let roles = vec![role(1, "sysop", true)];
    let ruling = create(&roles, 9, "regular", "#00ff00", 5, true).unwrap();
    assert_eq!(
        ruling.kind,
        EventKind::RoleCreated {
            role: 9,
            name: "regular".to_string(),
            color: 0x00ff00,
            priority: 5,
            hoisted: true,
            admin: false,
        }
    );
    assert_eq!(ruling.notice, "created role regular");
    assert_eq!(
        create(&roles, 9, "two words", "#00ff00", 0, false).unwrap_err(),
        "a role name cannot be empty or contain spaces"
    );
    assert_eq!(
        check(&roles, "", "#00ff00").unwrap_err(),
        "a role name cannot be empty or contain spaces"
    );
    assert_eq!(
        check(&roles, "sysop", "#00ff00").unwrap_err(),
        "there is already a role called sysop"
    );
    assert_eq!(
        check(&roles, "new", "green").unwrap_err(),
        "colour must be six hex digits, like #61afef"
    );
    assert_eq!(check(&roles, "new", "00ff00"), Ok(0x00ff00));
}
