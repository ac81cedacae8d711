//! Role operations shared by the BBS commands and the CLI, so both behave
//! identically and only differ in who is allowed to reach them.
//!
//! Each takes what has been read from the board, and gives the event to commit
//! with what to tell whoever asked, or why not.
use vstd::prelude::*;

use crate::model::{EventKind, KindData, Role, RoleId, User};
use crate::number::{decimal, decimal_nat};
use crate::seqs::{find as find_row, first, lemma_first_found};
use crate::text::{
    cat, cat3, cat4, chars_of, contains_space, has_space, occurs, occurs_at, same, strip_leading,
    stripped,
};

verus! {

pub open spec fn role_called(name: Seq<char>) -> spec_fn(Role) -> bool {
    |r: Role| r.name@ == name
}

/// Look a role up by exact name.
pub fn find(roles: &Vec<Role>, name: &str) -> (r: Result<Role, String>)
    ensures
        match first(roles@, role_called(name@)) {
            Some(role) => r == Ok::<Role, String>(role),
            None => r is Err && r->Err_0@ == "no role called "@ + name@,
        },
{
    let found = find_row(
        roles,
        |x: &Role| -> (b: bool)
            ensures
                b == (x.name@ == name@)
            { same(x.name.as_str(), name) },
        Ghost(role_called(name@)),
    );
    match found {
        Some(role) => Ok(role),
        None => Err(cat("no role called ", name)),
    }
}

/// The name that someone is looked up by: a leading `@` is how people write
/// it, not part of it.
pub fn sought(user: &str) -> (r: String)
    ensures
        r@ == stripped(user@, '@'),
{
    strip_leading(user, '@')
}

/// What a role operation does and says.
#[derive(Debug)]
pub struct Ruling {
    pub kind: EventKind,
    pub notice: String,
}

/// Why nobody by this name gets a role, or why not this role.
pub open spec fn grant_refusal(
    found: Option<User>,
    user: Seq<char>,
    roles: Seq<Role>,
    role: Seq<char>,
) -> Option<Seq<char>> {
    if found is None {
        Some("no user called "@ + user)
    } else if first(roles, role_called(role)) is None {
        Some("no role called "@ + role)
    } else {
        None
    }
}

/// Grant or revoke, where `found` is who was found under the name `user`.
pub fn grant(
    found: Option<User>,
    user: &str,
    roles: &Vec<Role>,
    role: &str,
    granting: bool,
) -> (r: Result<Ruling, String>)
    ensures
        match grant_refusal(found, user@, roles@, role@) {
            Some(why) => r is Err && r->Err_0@ == why,
            None => {
                let who = found->Some_0;
                let what = first(roles@, role_called(role@))->Some_0;
                &&& r is Ok
                &&& r->Ok_0.kind == if granting {
                    EventKind::RoleGranted { user: who.id, role: what.id }
                } else {
                    EventKind::RoleRevoked { user: who.id, role: what.id }
                }
                &&& r->Ok_0.notice@ == (if granting {
                    "granted "@
                } else {
                    "revoked "@
                }) + what.name@ + " for "@ + who.name@
            },
        },
        r matches Ok(ruling) ==> found is Some && (if granting {
            ruling.kind is RoleGranted
        } else {
            ruling.kind is RoleRevoked
        }),
{
    let who = match found {
        Some(who) => who,
        None => {
            return Err(cat("no user called ", user));
        },
    };
    let what = match find(roles, role) {
        Ok(what) => what,
        Err(why) => {
            return Err(why);
        },
    };
    let kind = if granting {
        EventKind::RoleGranted { user: who.id, role: what.id }
    } else {
        EventKind::RoleRevoked { user: who.id, role: what.id }
    };
    let verb = if granting {
        "granted "
    } else {
        "revoked "
    };
    let notice = cat4(verb, what.name.as_str(), " for ", who.name.as_str());
    Ok(Ruling { kind, notice })
}

/// Whether a user holds the role.
pub open spec fn holds(user: User, role: RoleId) -> bool {
    exists|i: int| 0 <= i < user.roles@.len() && (#[trigger] user.roles@[i]).id == role
}

fn is_holder(user: &User, role: RoleId) -> (r: bool)
    ensures
        r == holds(*user, role),
{
    let mut i: usize = 0;
    while i < user.roles.len()
        invariant
            i <= user.roles.len(),
            forall|j: int| 0 <= j < i ==> (#[trigger] user.roles@[j]).id != role,
        decreases user.roles.len() - i,
    {
        if user.roles[i].id == role {
            return true;
        }
        i += 1;
    }
    false
}

/// How many of the first `n` users hold the role.
pub open spec fn holders(users: Seq<User>, role: RoleId, n: int) -> nat
    decreases n,
{
    if n <= 0 {
        0
    } else {
        holders(users, role, n - 1) + if holds(users[n - 1], role) {
            1nat
        } else {
            0nat
        }
    }
}

fn count_holders(users: &Vec<User>, role: RoleId) -> (r: usize)
    ensures
        r == holders(users@, role, users@.len() as int),
{
    let mut count: usize = 0;
    let mut i: usize = 0;
    while i < users.len()
        invariant
            i <= users.len(),
            count <= i,
            count == holders(users@, role, i as int),
        decreases users.len() - i,
    {
        if is_holder(&users[i], role) {
            count += 1;
        }
        i += 1;
    }
    count
}

/// What is said of a removal, by how many held the role.
pub open spec fn removal_notice(name: Seq<char>, count: nat) -> Seq<char> {
    if count == 0 {
        "removed role "@ + name
    } else if count == 1 {
        "removed role "@ + name + ", revoked from 1 person"@
    } else {
        "removed role "@ + name + ", revoked from "@ + decimal_nat(count) + " people"@
    }
}

/// Remove a role. Holders lose it in the same transaction, so a name can
/// never be coloured by a role that no longer exists.
pub fn remove(roles: &Vec<Role>, users: &Vec<User>, name: &str) -> (r: Result<Ruling, String>)
    ensures
        match first(roles@, role_called(name@)) {
            Some(role) => {
                &&& r is Ok
                &&& r->Ok_0.kind == (EventKind::RoleRemoved { role: role.id })
                &&& r->Ok_0.notice@ == removal_notice(
                    name@,
                    holders(users@, role.id, users@.len() as int),
                )
            },
            None => r is Err && r->Err_0@ == "no role called "@ + name@,
        },
        r matches Ok(ruling) ==> ruling.kind is RoleRemoved,
{
    let role = match find(roles, name) {
        Ok(role) => role,
        Err(why) => {
            return Err(why);
        },
    };
    let count = count_holders(users, role.id);
    let notice = if count == 0 {
        cat("removed role ", name)
    } else if count == 1 {
        cat3("removed role ", name, ", revoked from 1 person")
    } else {
        let number = decimal(count as u64);
        let front = cat4("removed role ", name, ", revoked from ", number.as_str());
        cat(front.as_str(), " people")
    };
    Ok(Ruling { kind: EventKind::RoleRemoved { role: role.id }, notice })
}

/// Why a role cannot be created.
pub open spec fn create_refusal(roles: Seq<Role>, name: Seq<char>, color: Seq<char>) -> Option<
    Seq<char>,
> {
    if name.len() == 0 || has_space(name) {
        Some("a role name cannot be empty or contain spaces"@)
    } else if first(roles, role_called(name)) is Some {
        Some("there is already a role called "@ + name)
    } else if color_value(color) is None {
        Some("colour must be six hex digits, like #61afef"@)
    } else {
        None
    }
}

/// Check whether a role of this name and colour can be created. If it can, the
/// colour is returned.
pub fn check(roles: &Vec<Role>, name: &str, color_text: &str) -> (r: Result<u32, String>)
    ensures
        match create_refusal(roles@, name@, color_text@) {
            Some(why) => r is Err && r->Err_0@ == why,
            None => r is Ok && color_value(color_text@) == Some(r->Ok_0 as nat),
        },
{
    if name.is_empty() || contains_space(name) {
        return Err("a role name cannot be empty or contain spaces".to_owned());
    }
    if let Ok(_) = find(roles, name) {
        return Err(cat("there is already a role called ", name));
    }
    parse_color(color_text)
}

/// Create a cosmetic role with an id that was reserved for it. Never admin --
/// the only admin role is the one bootstrapped with the board.
pub fn create(
    roles: &Vec<Role>,
    id: RoleId,
    name: &str,
    color_text: &str,
    priority: i64,
    hoisted: bool,
) -> (r: Result<Ruling, String>)
    ensures
        match create_refusal(roles@, name@, color_text@) {
            Some(why) => r is Err && r->Err_0@ == why,
            None => {
                &&& r is Ok
                &&& r->Ok_0.kind.deep_view() == (KindData::RoleCreated {
                    role: id,
                    name: name@,
                    color: color_value(color_text@)->Some_0 as u32,
                    priority,
                    hoisted,
                    admin: false,
                })
                &&& r->Ok_0.notice@ == "created role "@ + name@
            },
        },
        r matches Ok(ruling) ==> ruling.kind is RoleCreated && !ruling.kind->RoleCreated_admin,
{
    let color = match check(roles, name, color_text) {
        Ok(color) => color,
        Err(why) => {
            return Err(why);
        },
    };
    let kind = EventKind::RoleCreated {
        role: id,
        name: name.to_owned(),
        color,
        priority,
        hoisted,
        admin: false,
    };
    Ok(Ruling { kind, notice: cat("created role ", name) })
}

// ---------------------------------------------------------------------------
// colours
// ---------------------------------------------------------------------------

/// What a hex digit stands for.
pub open spec fn hex_value(c: char) -> Option<nat> {
    if '0' <= c && c <= '9' {
        Some((c as u32 - '0' as u32) as nat)
    } else if 'a' <= c && c <= 'f' {
        Some((c as u32 - 'a' as u32 + 10) as nat)
    } else if 'A' <= c && c <= 'F' {
        Some((c as u32 - 'A' as u32 + 10) as nat)
    } else {
        None
    }
}

/// The number that hex digits spell, if that is what they all are.
pub open spec fn hex_number(s: Seq<char>) -> Option<nat>
    decreases s.len(),
{
    if s.len() == 0 {
        Some(0)
    } else {
        match (hex_number(s.drop_last()), hex_value(s.last())) {
            (Some(n), Some(d)) => Some(n * 16 + d),
            _ => None,
        }
    }
}

/// A text without the one `#` it may start with.
pub open spec fn color_digits(text: Seq<char>) -> Seq<char> {
    if text.len() > 0 && text[0] == '#' {
        text.drop_first()
    } else {
        text
    }
}

/// The colour that a text stands for: exactly six hex digits, with an optional
/// leading `#`.
pub open spec fn color_value(text: Seq<char>) -> Option<nat> {
    let digits = color_digits(text);
    if digits.len() == 6 {
        hex_number(digits)
    } else {
        None
    }
}

fn hex_digit(c: char) -> (r: Option<u32>)
    ensures
        match r {
            Some(d) => hex_value(c) == Some(d as nat) && d < 16,
            None => hex_value(c) is None,
        },
{
    let code: u32 = c as u32;
    if c >= '0' && c <= '9' {
        Some(code - 48)
    } else if c >= 'a' && c <= 'f' {
        Some(code - 97 + 10)
    } else if c >= 'A' && c <= 'F' {
        Some(code - 65 + 10)
    } else {
        None
    }
}

proof fn lemma_hex_number_stops(s: Seq<char>, i: int)
    requires
        0 <= i < s.len(),
        hex_value(s[i]) is None,
    ensures
        hex_number(s) is None,
    decreases s.len(),
{
    if i < s.len() - 1 {
        lemma_hex_number_stops(s.drop_last(), i);
    }
}

/// Exactly six hex digits, with an optional leading `#`.
///
/// Without the length check `#abc` parses as 0x000abc -- near-black, nothing
/// like the `#aabbcc` the author meant.
pub fn parse_color(text: &str) -> (r: Result<u32, String>)
    ensures
        match color_value(text@) {
            Some(n) => r is Ok && r->Ok_0 == n && n <= 0xff_ffff,
            None => r is Err && r->Err_0@ == "colour must be six hex digits, like #61afef"@,
        },
{
    let mut digits = chars_of(text);
    if digits.len() > 0 && digits[0] == '#' {
        let _ = digits.remove(0);
        assert(digits@ == text@.drop_first());
    }
    if digits.len() != 6 {
        return Err("colour must be six hex digits, like #61afef".to_owned());
    }
    let mut value: u32 = 0;
    let mut room: u32 = 1;
    let mut i: usize = 0;
    while i < 6
        invariant
            i <= 6,
            digits.len() == 6,
            digits@ == color_digits(text@),
            hex_number(digits@.take(i as int)) == Some(value as nat),
            value < room,
            i == 0 ==> room == 1,
            i == 1 ==> room == 16,
            i == 2 ==> room == 256,
            i == 3 ==> room == 4096,
            i == 4 ==> room == 65536,
            i == 5 ==> room == 1048576,
            i == 6 ==> room == 16777216,
        decreases 6 - i,
    {
        proof {
            assert(digits@.take(i + 1).drop_last() == digits@.take(i as int));
            assert(digits@.take(i + 1).last() == digits@[i as int]);
        }
        match hex_digit(digits[i]) {
            Some(d) => {
                value = value * 16 + d;
                room = room * 16;
            },
            None => {
                proof {
                    lemma_hex_number_stops(digits@, i as int);
                }
                return Err("colour must be six hex digits, like #61afef".to_owned());
            },
        }
        i += 1;
    }
    assert(digits@.take(6) == digits@);
    Ok(value)
}

// ---------------------------------------------------------------------------
// what role operations come to
// ---------------------------------------------------------------------------

/// Whether a character is the hex digit for `v`, in either case.
pub open spec fn spells_digit(c: char, v: nat) -> bool {
    ||| '0' <= c && c <= '9' && v == c as u32 - 48
    ||| 'a' <= c && c <= 'f' && v == c as u32 - 87
    ||| 'A' <= c && c <= 'F' && v == c as u32 - 55
}

/// Six hex digits, in either case and with or without a `#` in front, are a
/// colour: two for red, two for green and two for blue.
pub proof fn six_digits_are_a_color(s: Seq<char>, v: Seq<nat>)
    requires
        s.len() == 6,
        v.len() == 6,
        forall|i: int| 0 <= i < 6 ==> spells_digit(#[trigger] s[i], v[i]),
    ensures
        color_value(s) == Some(
            (v[0] * 16 + v[1]) * 65536 + (v[2] * 16 + v[3]) * 256 + (v[4] * 16 + v[5]),
        ),
        color_value(seq!['#'] + s) == color_value(s),
        color_value(seq!['#', '#'] + s) is None,
{
    assert(spells_digit(s[0], v[0]) && spells_digit(s[1], v[1]) && spells_digit(s[2], v[2])
        && spells_digit(s[3], v[3]) && spells_digit(s[4], v[4]) && spells_digit(s[5], v[5]));
    let t0 = Seq::<char>::empty();
    let t1 = t0.push(s[0]);
    let t2 = t1.push(s[1]);
    let t3 = t2.push(s[2]);
    let t4 = t3.push(s[3]);
    let t5 = t4.push(s[4]);
    let t6 = t5.push(s[5]);
    assert(t6 =~= s);
    assert(t1.drop_last() =~= t0 && t2.drop_last() =~= t1 && t3.drop_last() =~= t2);
    assert(t4.drop_last() =~= t3 && t5.drop_last() =~= t4 && t6.drop_last() =~= t5);
    assert(hex_number(t0) == Some(0nat));
    assert(hex_number(t1) == Some(v[0]));
    assert(hex_number(t2) == Some(v[0] * 16 + v[1]));
    assert(hex_number(t3) is Some && hex_number(t4) is Some && hex_number(t5) is Some);
    assert((seq!['#'] + s).drop_first() =~= s);
    assert((seq!['#', '#'] + s).drop_first() =~= seq!['#'] + s);
}

/// Anything but six hex digits is no colour.
pub proof fn anything_else_is_no_color(s: Seq<char>, i: int)
    requires
        s.len() > 0 ==> s[0] != '#',
    ensures
        s.len() != 6 ==> color_value(s) is None && color_value(seq!['#'] + s) is None,
        0 <= i < s.len() && (forall|v: nat| !#[trigger] spells_digit(s[i], v)) ==> color_value(s)
            is None && color_value(seq!['#'] + s) is None,
{
    assert((seq!['#'] + s).drop_first() =~= s);
    if 0 <= i < s.len() && (forall|v: nat| !#[trigger] spells_digit(s[i], v)) {
        let c = s[i];
        if hex_value(c) is Some {
            assert(spells_digit(c, hex_value(c)->Some_0));
        }
        lemma_hex_number_stops(s, i);
    }
}

/// A role is looked up by its exact name.
pub proof fn roles_are_found_by_name(roles: Seq<Role>, name: Seq<char>)
    ensures
        match first(roles, role_called(name)) {
            Some(role) => roles.contains(role) && role.name@ == name,
            None => forall|role: Role| #[trigger] roles.contains(role) ==> role.name@ != name,
        },
{
    lemma_first_found(roles, role_called(name));
}

/// A role is granted or revoked only if there is such a user and such a role,
/// and whoever is refused is told which of the two there is not.
pub proof fn a_grant_needs_a_user_and_a_role(
    found: Option<User>,
    user: Seq<char>,
    roles: Seq<Role>,
    role: Seq<char>,
)
    ensures
        grant_refusal(found, user, roles, role) is None <==> found is Some && exists|r: Role|
            #[trigger]
            roles.contains(r) && r.name@ == role,
        found is None ==> grant_refusal(found, user, roles, role) == Some("no user called "@ + user),
        found is Some && grant_refusal(found, user, roles, role) is Some ==> grant_refusal(
            found,
            user,
            roles,
            role,
        ) == Some("no role called "@ + role),
{
    lemma_first_found(roles, role_called(role));
}

/// A role is created only under a name that is not empty, has no blanks in it
/// and is not taken, and in a colour that can be read.
pub proof fn a_new_role_needs_a_name_and_a_color(
    roles: Seq<Role>,
    name: Seq<char>,
    color: Seq<char>,
)
    ensures
        create_refusal(roles, name, color) is None <==> {
            &&& name.len() > 0
            &&& !has_space(name)
            &&& forall|r: Role| #[trigger] roles.contains(r) ==> r.name@ != name
            &&& color_value(color) is Some
        },
        (exists|r: Role| #[trigger] roles.contains(r) && r.name@ == name) && name.len() > 0
            && !has_space(name) ==> create_refusal(roles, name, color) == Some(
            "there is already a role called "@ + name,
        ),
        name.len() == 0 || has_space(name) ==> create_refusal(roles, name, color) == Some(
            "a role name cannot be empty or contain spaces"@,
        ),
{
    lemma_first_found(roles, role_called(name));
}

/// Holding a role is having it among one's roles; the holders are counted one
/// by one, and nobody holds it exactly if the count is zero.
pub proof fn holders_are_counted(users: Seq<User>, role: RoleId, n: int)
    requires
        0 <= n <= users.len(),
    ensures
        holders(users, role, n) <= n,
        holders(users, role, n) == 0 <==> forall|i: int|
            0 <= i < n ==> !holds(#[trigger] users[i], role),
        holders(users, role, n) == n <==> forall|i: int|
            0 <= i < n ==> holds(#[trigger] users[i], role),
        n > 0 && holds(users[n - 1], role) ==> holders(users, role, n) == holders(
            users,
            role,
            n - 1,
        ) + 1,
        n > 0 && !holds(users[n - 1], role) ==> holders(users, role, n) == holders(
            users,
            role,
            n - 1,
        ),
        n > 0 ==> (holds(users[n - 1], role) <==> exists|r: Role| #[trigger]
            users[n - 1].roles@.contains(r) && r.id == role),
    decreases n,
{
    if n > 0 {
        holders_are_counted(users, role, n - 1);
        let u = users[n - 1];
        if holds(u, role) {
            let i = choose|i: int|
                0 <= i < u.roles@.len() && (#[trigger] u.roles@[i]).id == role;
            assert(u.roles@.contains(u.roles@[i]));
        }
        if exists|r: Role| #[trigger] u.roles@.contains(r) && r.id == role {
            let r = choose|r: Role| #[trigger] u.roles@.contains(r) && r.id == role;
            let i = choose|i: int| 0 <= i < u.roles@.len() && u.roles@[i] == r;
            assert(u.roles@[i].id == role);
        }
        if forall|i: int| 0 <= i < n ==> !holds(#[trigger] users[i], role) {
            assert(!holds(users[n - 1], role));
        }
        if forall|i: int| 0 <= i < n ==> holds(#[trigger] users[i], role) {
            assert(holds(users[n - 1], role));
        }
    }
}

/// A removal is told with the name of the role and with how many lost it.
pub proof fn a_removal_says_who_lost_the_role(name: Seq<char>, count: nat)
    ensures
        occurs_at(removal_notice(name, count), "removed role "@ + name, 0),
        count == 0 ==> removal_notice(name, count) == "removed role "@ + name,
        count > 1 ==> occurs(removal_notice(name, count), decimal_nat(count) + " people"@),
        count == 1 ==> occurs(removal_notice(name, count), "1 person"@),
{
    let front = "removed role "@ + name;
    let all = removal_notice(name, count);
    assert(all.subrange(0, front.len() as int) =~= front);
    if count > 1 {
        let tail = decimal_nat(count) + " people"@;
        let at = all.len() - tail.len();
        assert(all =~= front + ", revoked from "@ + tail);
        assert(all.subrange(at, at + tail.len()) =~= tail);
        assert(occurs_at(all, tail, at));
    }
    if count == 1 {
        reveal_strlit(", revoked from 1 person");
        reveal_strlit("1 person");
        let at = all.len() - 8;
        assert(all.subrange(at, at + 8) =~= "1 person"@);
        assert(occurs_at(all, "1 person"@, at));
    }
}

} // verus!
