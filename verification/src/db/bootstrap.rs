//! What a brand new database gets: the bare minimum for the board to be
//! usable, and nothing else.
//!
//! No demo users, no sample conversation. Just the pieces that cannot be
//! created from inside the BBS without already existing -- an admin role, an
//! account holding it, and somewhere to talk.
use vstd::prelude::*;

use crate::db::projection::{
    after, an_event_leaves_other_tables_alone, creating_adds_one_row, effect,
};
use crate::db::script::{
    blank, fits, folded, follows, makes_role, makes_user, perform, playable, refuses, Step,
    StepData,
};
use crate::db::tables::{Grant, StoreError};
use crate::db::{count_of, stamped_event, Db};
use crate::model::{ConvId, ConvKind, EventKind, KindData, Millis, RoleId, UserId};

verus! {

/// The account the `console` subcommand attaches as. It has no ssh key and
/// never gets one, so it can only ever be used from the machine running the
/// server -- if admin is online, someone is sitting at the box.
pub const ADMIN_NAME: &'static str = "admin";

/// What happens on a brand new board. Each event gets its own millisecond so
/// the log reads in the order it was written rather than however the uuids
/// happened to fall.
pub open spec fn opening(sysop: RoleId, admin: UserId, general: ConvId, base: Millis) -> Seq<
    StepData,
> {
    seq![
        StepData {
            actor: None,
            kind: KindData::RoleCreated {
                role: sysop,
                name: "sysop"@,
                color: 0xe06c75,
                priority: 100,
                hoisted: true,
                admin: true,
            },
            at: (base + 1) as Millis,
        },
        StepData {
            actor: None,
            kind: KindData::UserCreated { user: admin, name: ADMIN_NAME@, pubkey: seq![] },
            at: (base + 2) as Millis,
        },
        StepData {
            actor: None,
            kind: KindData::RoleGranted { user: admin, role: sysop },
            at: (base + 3) as Millis,
        },
        StepData {
            actor: None,
            kind: KindData::ConvCreated {
                conv: general,
                kind: ConvKind::Channel,
                name: "general"@,
            },
            at: (base + 4) as Millis,
        },
    ]
}

proof fn lemma_opening_is_playable(sysop: RoleId, admin: UserId, general: ConvId, base: Millis)
    requires
        0 <= base <= i64::MAX - 4,
    ensures
        playable(opening(sysop, admin, general, base)),
{
    let s = opening(sysop, admin, general, base);
    assert(s[0].kind is RoleCreated && s[1].kind is UserCreated && s[2].kind is RoleGranted
        && s[3].kind is ConvCreated);
    assert(makes_user(s, 2, admin)) by {
        assert(s[1].kind->UserCreated_user == admin);
    }
    assert(makes_role(s, 2, sysop)) by {
        assert(s[0].kind->RoleCreated_role == sysop);
    }
    assert forall|n: int| 0 <= n < s.len() implies #[trigger] fits(s, n) by {
        assert(n == 0 || n == 1 || n == 2 || n == 3);
    }
}

/// Whether one of the counters has no id left to give.
pub open spec fn exhausted(db: Db) -> bool {
    ||| count_of(db.counters@, "role"@) == i64::MAX
    ||| count_of(db.counters@, "user"@) == i64::MAX
    ||| count_of(db.counters@, "conv"@) == i64::MAX
}

/// The opening, with the next ids that the counters give.
pub open spec fn opening_of(db: Db, base: Millis) -> Seq<StepData> {
    opening(
        (count_of(db.counters@, "role"@) + 1) as RoleId,
        (count_of(db.counters@, "user"@) + 1) as UserId,
        (count_of(db.counters@, "conv"@) + 1) as ConvId,
        base,
    )
}

/// What setting up a store comes to: the opening happened as a whole, or it
/// was cut short by a counter or at the first event that was refused.
pub open spec fn opened(before: Db, base: Millis, r: Result<UserId, StoreError>, now: Db) -> bool {
    match r {
        Ok(admin) => {
            &&& !exhausted(before)
            &&& admin == count_of(before.counters@, "user"@) + 1
            &&& follows(before, now, opening_of(before, base))
            &&& count_of(now.counters@, "role"@) == count_of(before.counters@, "role"@) + 1
            &&& count_of(now.counters@, "user"@) == count_of(before.counters@, "user"@) + 1
            &&& count_of(now.counters@, "conv"@) == count_of(before.counters@, "conv"@) + 1
        },
        Err(e) => if exhausted(before) {
            e == StoreError::CounterExhausted && follows(before, now, seq![])
        } else {
            exists|n: int|
                {
                    &&& 0 <= n < opening_of(before, base).len()
                    &&& #[trigger] follows(before, now, opening_of(before, base).take(n))
                    &&& refuses(now, opening_of(before, base)[n], e)
                }
        },
    }
}

/// Set up an empty store, as of the time `base`. Returns the id of the admin
/// account.
pub fn bootstrap(db: &mut Db, base: Millis) -> (r: Result<UserId, StoreError>)
    requires
        base <= i64::MAX - 4,
    ensures
        final(db).settings@ == old(db).settings@,
        opened(*old(db), base, r, *final(db)),
        old(db).sound() ==> final(db).sound(),
        blank(*old(db)) && base >= 0 && !exhausted(*old(db)) ==> r is Ok,
{
    proof {
        reveal_strlit("role");
        reveal_strlit("user");
        reveal_strlit("conv");
        assert("role"@[0] != "user"@[0] && "role"@[0] != "conv"@[0] && "user"@[0] != "conv"@[0]);
        assert(db.log.deep_view().skip(db.log.deep_view().len() as int) =~= seq![]);
    }
    let ghost start = *db;
    let sysop = match db.allocate("role") {
        Ok(id) => id,
        Err(e) => {
            return Err(e);
        },
    };
    let admin = match db.allocate("user") {
        Ok(id) => id,
        Err(e) => {
            return Err(e);
        },
    };
    let general = match db.allocate("conv") {
        Ok(id) => id,
        Err(e) => {
            return Err(e);
        },
    };
    let mut script: Vec<Step> = Vec::new();
    script.push(
        Step {
            actor: None,
            kind: EventKind::RoleCreated {
                role: sysop,
                name: "sysop".to_owned(),
                color: 0xe06c75,
                priority: 100,
                hoisted: true,
                admin: true,
            },
            at: base + 1,
        },
    );
    script.push(
        Step {
            actor: None,
            kind: EventKind::UserCreated {
                user: admin,
                name: ADMIN_NAME.to_owned(),
                // Deliberately keyless: `user_keys` skips empty keys, so no
                // ssh connection can ever authenticate as this account.
                pubkey: String::new(),
            },
            at: base + 2,
        },
    );
    script.push(
        Step {
            actor: None,
            kind: EventKind::RoleGranted { user: admin, role: sysop },
            at: base + 3,
        },
    );
    script.push(
        Step {
            actor: None,
            kind: EventKind::ConvCreated {
                conv: general,
                kind: ConvKind::Channel,
                name: "general".to_owned(),
            },
            at: base + 4,
        },
    );
    let ghost s = opening_of(start, base);
    assert(s == opening(sysop, admin, general, base));
    assert(script.deep_view() =~= s);
    proof {
        if base >= 0 {
            lemma_opening_is_playable(sysop, admin, general, base);
        }
    }
    let ghost mid = *db;
    match perform(db, script) {
        Ok(_) => {
            assert(follows(start, *db, s));
            assert(count_of(db.counters@, "role"@) == sysop);
            assert(count_of(db.counters@, "user"@) == admin);
            assert(count_of(db.counters@, "conv"@) == general);
            assert(opened(start, base, Ok(admin), *db));
            Ok(admin)
        },
        Err(e) => {
            proof {
                let n = choose|n: int|
                    {
                        &&& 0 <= n < s.len()
                        &&& #[trigger] follows(mid, *db, s.take(n))
                        &&& refuses(*db, s[n], e)
                    };
                assert(follows(start, *db, s.take(n)));
                assert(opened(start, base, Err(e), *db));
            }
            Err(e)
        },
    }
}

/// A board that was just set up has one account, the admin's, which has no key;
/// one role, which makes its holder an administrator, and which the admin
/// holds; and one conversation, a channel that everyone sees. Nobody has said
/// anything yet.
pub proof fn a_new_board_has_an_admin_and_a_channel(
    before: Db,
    base: Millis,
    admin: UserId,
    now: Db,
)
    requires
        blank(before),
        base <= i64::MAX - 4,
        opened(before, base, Ok(admin), now),
    ensures
        ({
            let b = now.tables@;
            &&& b.users.len() == 1 && b.users[0].id == admin && b.users[0].name == "admin"@
                && b.users[0].pubkey.len() == 0
            &&& b.roles.len() == 1 && b.roles[0].admin && b.roles[0].hoisted
            &&& b.grants == seq![Grant { user: admin, role: b.roles[0].id }]
            &&& b.convs.len() == 1 && b.convs[0].kind == ConvKind::Channel && b.convs[0].name
                == "general"@
            &&& b.members.len() == 0 && b.posts.len() == 0
            &&& now.log@.len() == 4
        }),
{
    let s = opening_of(before, base);
    let log = now.log.deep_view();
    assert(before.log.deep_view().len() == 0);
    assert(log.skip(0) =~= log);
    let (e0, e1, e2, e3) = (log[0], log[1], log[2], log[3]);
    assert(stamped_event(log[0], s[0].actor, s[0].kind, s[0].at));
    assert(stamped_event(log[1], s[1].actor, s[1].kind, s[1].at));
    assert(stamped_event(log[2], s[2].actor, s[2].kind, s[2].at));
    assert(stamped_event(log[3], s[3].actor, s[3].kind, s[3].at));
    reveal_with_fuel(folded, 5);
    let b0 = before.tables@;
    let b1 = effect(b0, e0)->Ok_0;
    creating_adds_one_row(b0, e0);
    an_event_leaves_other_tables_alone(b0, e0);
    let b2 = effect(b1, e1)->Ok_0;
    creating_adds_one_row(b1, e1);
    an_event_leaves_other_tables_alone(b1, e1);
    let b3 = effect(b2, e2)->Ok_0;
    reveal_with_fuel(after, 2);
    an_event_leaves_other_tables_alone(b2, e2);
    let b4 = effect(b3, e3)->Ok_0;
    creating_adds_one_row(b3, e3);
    an_event_leaves_other_tables_alone(b3, e3);
    assert(b4 == now.tables@);
}

} // verus!
