//! Events written down in advance, and committing them one after the other.
use vstd::prelude::*;

use crate::db::projection::{after, appended, distinct_ids, effect, logged};
use crate::db::tables::{
    empty_board, has_conv, has_post, has_role, has_user, name_taken, retitling,
    rewriting_bio, AccountData, Board, StoreError,
};
use crate::db::uuid::{carried_millis, carries};
use crate::db::{committed, stamped_event, Db};
use crate::model::{
    ConvData, ConvId, Event, EventData, EventKind, KindData, Millis, RoleId, UserId, Uuid,
};

verus! {

/// Something that is going to happen.
#[derive(Debug)]
pub struct Step {
    pub actor: Option<UserId>,
    pub kind: EventKind,
    pub at: Millis,
}

#[verifier::ext_equal]
pub ghost struct StepData {
    pub actor: Option<UserId>,
    pub kind: KindData,
    pub at: Millis,
}

impl DeepView for Step {
    type V = StepData;

    open spec fn deep_view(&self) -> StepData {
        StepData { actor: self.actor, kind: self.kind.deep_view(), at: self.at }
    }
}

/// The board after the first `n` of some events.
pub open spec fn folded(b: Board, events: Seq<EventData>, n: int) -> Result<Board, StoreError>
    decreases n,
{
    if n <= 0 {
        Ok(b)
    } else {
        match folded(b, events, n - 1) {
            Ok(m) => effect(m, events[n - 1]),
            Err(e) => Err(e),
        }
    }
}

/// Whether the steps of a script, and nothing else, happened between two
/// states of a store.
pub open spec fn follows(before: Db, now: Db, script: Seq<StepData>) -> bool {
    let old_log = before.log.deep_view();
    let log = now.log.deep_view();
    &&& log.len() == old_log.len() + script.len()
    &&& forall|i: int| 0 <= i < old_log.len() ==> #[trigger] log[i] == old_log[i]
    &&& forall|i: int|
        0 <= i < script.len() ==> stamped_event(
            log[old_log.len() + i],
            (#[trigger] script[i]).actor,
            script[i].kind,
            script[i].at,
        )
    &&& folded(before.tables@, log.skip(old_log.len() as int), script.len() as int) == Ok::<
        Board,
        StoreError,
    >(now.tables@)
}

proof fn lemma_folded_prefix(b: Board, events: Seq<EventData>, e: EventData, n: int)
    requires
        n <= events.len(),
    ensures
        folded(b, events.push(e), n) == folded(b, events, n),
    decreases n,
{
    if n > 0 {
        lemma_folded_prefix(b, events, e, n - 1);
        assert(events.push(e)[n - 1] == events[n - 1]);
    }
}

proof fn lemma_one_more(
    before: Db,
    mid: Db,
    now: Db,
    script: Seq<StepData>,
    i: int,
    r: Result<Event, StoreError>,
)
    requires
        0 <= i < script.len(),
        follows(before, mid, script.take(i)),
        r is Ok,
        committed(mid, script[i].actor, script[i].kind, script[i].at, r, now),
    ensures
        follows(before, now, script.take(i + 1)),
{
    let e = r->Ok_0.deep_view();
    let k = before.log.deep_view().len() as int;
    let mid_log = mid.log.deep_view();
    let log = now.log.deep_view();
    assert(log =~= mid_log.push(e));
    assert(log.skip(k) =~= mid_log.skip(k).push(e));
    lemma_folded_prefix(before.tables@, mid_log.skip(k), e, i);
    assert(log.skip(k)[i] == e);
    assert forall|j: int| 0 <= j < i + 1 implies stamped_event(
        log[k + j],
        (#[trigger] script.take(i + 1)[j]).actor,
        script.take(i + 1)[j].kind,
        script.take(i + 1)[j].at,
    ) by {
        if j < i {
            assert(script.take(i + 1)[j] == script.take(i)[j]);
            assert(log[k + j] == mid_log[k + j]);
        } else {
            assert(log[k + i] == e);
        }
    }
    assert forall|j: int| 0 <= j < k implies #[trigger] log[j] == before.log.deep_view()[j] by {
        assert(log[j] == mid_log[j]);
    }
}

/// Whether the store refuses step `n`, once those before it have happened, for
/// some id that the step may be given.
pub open spec fn refuses(db: Db, step: StepData, e: StoreError) -> bool {
    exists|event: EventData|
        {
            &&& #[trigger] stamped_event(event, step.actor, step.kind, step.at)
            &&& appended(db.tables@, db.log.deep_view(), event) == Err::<Board, StoreError>(e)
        }
}

/// Commit the steps in order, up to the first that is refused.
pub fn perform(db: &mut Db, script: Vec<Step>) -> (r: Result<(), StoreError>)
    ensures
        match r {
            Ok(_) => follows(*old(db), *final(db), script.deep_view()),
            Err(e) => exists|n: int|
                {
                    &&& 0 <= n < script.deep_view().len()
                    &&& #[trigger] follows(*old(db), *final(db), script.deep_view().take(n))
                    &&& refuses(*final(db), script.deep_view()[n], e)
                },
        },
        final(db).keeps_counts_of(*old(db)),
        old(db).sound() ==> final(db).sound(),
        blank(*old(db)) && playable(script.deep_view()) ==> r is Ok,
{
    let ghost all = script.deep_view();
    let ghost start = *db;
    let ghost sure = blank(start) && playable(all);
    assert(db.log.deep_view().skip(db.log.deep_view().len() as int)
        =~= Seq::<EventData>::empty());
    proof {
        if sure {
            lemma_nothing_made(*db, all);
        }
    }
    for step in it: script
        invariant
            it.seq() == script@,
            all == script.deep_view(),
            start == *old(db),
            follows(start, *db, all.take(it.index() as int)),
            db.keeps_counts_of(start),
            start.sound() ==> db.sound(),
            sure == (blank(start) && playable(all)),
            sure ==> made(*db, all, it.index() as int),
    {
        let ghost i = it.index() as int;
        let ghost mid = *db;
        assert(all[i] == step.deep_view());
        match db.commit_at(step.actor, step.kind, step.at) {
            Ok(event) => {
                proof {
                    let r = Ok::<Event, StoreError>(event);
                    assert(committed(mid, all[i].actor, all[i].kind, all[i].at, r, *db));
                    lemma_one_more(start, mid, *db, all, i, r);
                    if sure {
                        lemma_made_one_more(mid, *db, all, i, event);
                    }
                }
            },
            Err(e) => {
                proof {
                    let event = choose|event: EventData|
                        {
                            &&& #[trigger] stamped_event(
                                event,
                                all[i].actor,
                                all[i].kind,
                                all[i].at,
                            )
                            &&& appended(mid.tables@, mid.log.deep_view(), event) == Err::<
                                Board,
                                StoreError,
                            >(e)
                        };
                    assert(db.log.deep_view() =~= mid.log.deep_view());
                    if sure {
                        lemma_accepted(mid, all, i, event);
                    }
                    assert(refuses(*db, all[i], e)) by {
                        assert(stamped_event(event, all[i].actor, all[i].kind, all[i].at));
                    }
                    assert(follows(start, *db, all.take(i)));
                }
                return Err(e);
            },
        }
    }
    assert(all.take(all.len() as int) == all);
    Ok(())
}

// ---------------------------------------------------------------------------
// scripts that cannot be refused
// ---------------------------------------------------------------------------

/// A store in which nothing has happened.
pub open spec fn blank(db: Db) -> bool {
    db.tables@ == empty_board() && db.log@.len() == 0
}

/// Whether one of the first `n` steps creates this role.
pub open spec fn makes_role(script: Seq<StepData>, n: int, id: RoleId) -> bool {
    exists|j: int|
        0 <= j < n && ((#[trigger] script[j]).kind matches KindData::RoleCreated { role, .. }
            && role == id)
}

pub open spec fn makes_user(script: Seq<StepData>, n: int, id: UserId) -> bool {
    exists|j: int|
        0 <= j < n && ((#[trigger] script[j]).kind matches KindData::UserCreated { user, .. }
            && user == id)
}

pub open spec fn makes_name(script: Seq<StepData>, n: int, called: Seq<char>) -> bool {
    exists|j: int|
        0 <= j < n && ((#[trigger] script[j]).kind matches KindData::UserCreated { name, .. }
            && name == called)
}

pub open spec fn makes_conv(script: Seq<StepData>, n: int, id: ConvId) -> bool {
    exists|j: int|
        0 <= j < n && ((#[trigger] script[j]).kind matches KindData::ConvCreated { conv, .. }
            && conv == id)
}

/// Whether step `n` has what it needs from those before it.
pub open spec fn fits(script: Seq<StepData>, n: int) -> bool {
    match script[n].kind {
        KindData::RoleCreated { role, .. } => !makes_role(script, n, role),
        KindData::UserCreated { user, name, .. } => !makes_user(script, n, user) && !makes_name(
            script,
            n,
            name,
        ),
        KindData::BioSet { .. } => true,
        KindData::RoleGranted { user, role } => makes_user(script, n, user) && makes_role(
            script,
            n,
            role,
        ),
        KindData::ConvCreated { conv, .. } => !makes_conv(script, n, conv),
        KindData::TopicSet { .. } => true,
        KindData::MemberJoined { conv, user } => makes_conv(script, n, conv) && makes_user(
            script,
            n,
            user,
        ),
        KindData::MessageSent { conv, author, .. } => makes_conv(script, n, conv) && makes_user(
            script,
            n,
            author,
        ),
        _ => false,
    }
}

/// Two times that no id can carry both of.
pub open spec fn apart(a: Millis, b: Millis) -> bool {
    a >= 0 && b >= 0 && a != b && a - b < 0x1_0000_0000_0000 && b - a < 0x1_0000_0000_0000
}

/// A script that no blank store refuses: every step has what it needs, and no
/// two happen in the same millisecond.
pub open spec fn playable(script: Seq<StepData>) -> bool {
    &&& forall|n: int| 0 <= n < script.len() ==> #[trigger] fits(script, n)
    &&& forall|i: int, j: int|
        0 <= i < j < script.len() ==> apart((#[trigger] script[i]).at, (#[trigger] script[j]).at)
}

spec fn has_name(users: Seq<AccountData>, name: Seq<char>) -> bool {
    exists|i: int| 0 <= i < users.len() && (#[trigger] users[i]).name == name
}

/// What is there after the first `n` steps.
spec fn made(db: Db, script: Seq<StepData>, n: int) -> bool {
    let b = db.tables@;
    let log = db.log.deep_view();
    &&& distinct_ids(b, log)
    &&& log.len() == n
    &&& forall|i: int|
        0 <= i < n ==> stamped_event(
            #[trigger] log[i],
            script[i].actor,
            script[i].kind,
            script[i].at,
        )
    &&& forall|id: RoleId| #[trigger] has_role(b.roles, id) == makes_role(script, n, id)
    &&& forall|id: UserId| #[trigger] has_user(b.users, id) == makes_user(script, n, id)
    &&& forall|name: Seq<char>| #[trigger] has_name(b.users, name) == makes_name(script, n, name)
    &&& forall|id: ConvId| #[trigger] has_conv(b.convs, id) == makes_conv(script, n, id)
}

proof fn lemma_nothing_made(db: Db, script: Seq<StepData>)
    requires
        blank(db),
    ensures
        made(db, script, 0),
{
}

proof fn lemma_ids_differ(a: Uuid, b: Uuid, x: Millis, y: Millis)
    requires
        carries(a.bits, carried_millis(x)),
        carries(b.bits, carried_millis(y)),
        apart(x, y),
    ensures
        a != b,
{
    let m = 0x1_0000_0000_0000int;
    if x % 0x1_0000_0000_0000 == y % 0x1_0000_0000_0000 {
        assert(false) by (nonlinear_arith)
            requires
                x >= 0,
                y >= 0,
                x != y,
                x - y < m,
                y - x < m,
                m == 0x1_0000_0000_0000int,
                x as int % m == y as int % m,
        {
        }
    }
}

proof fn lemma_accepted(db: Db, script: Seq<StepData>, n: int, e: EventData)
    requires
        playable(script),
        0 <= n < script.len(),
        made(db, script, n),
        stamped_event(e, script[n].actor, script[n].kind, script[n].at),
    ensures
        appended(db.tables@, db.log.deep_view(), e) is Ok,
{
    let b = db.tables@;
    let log = db.log.deep_view();
    assert(fits(script, n));
    if logged(log, e.id) {
        let i = choose|i: int| 0 <= i < log.len() && (#[trigger] log[i]).id == e.id;
        assert(stamped_event(log[i], script[i].actor, script[i].kind, script[i].at));
        assert(apart(script[i].at, script[n].at));
        lemma_ids_differ(log[i].id, e.id, script[i].at, script[n].at);
    }
    reveal_with_fuel(after, 2);
    match e.kind {
        KindData::RoleCreated { role, .. } => {
            assert(!has_role(b.roles, role));
        },
        KindData::UserCreated { user, name, .. } => {
            assert(!has_user(b.users, user));
            assert(!has_name(b.users, name));
            assert(!name_taken(b.users, user, name));
        },
        KindData::RoleGranted { user, role } => {
            assert(has_user(b.users, user) && has_role(b.roles, role));
        },
        KindData::ConvCreated { conv, .. } => {
            assert(!has_conv(b.convs, conv));
        },
        KindData::MemberJoined { conv, user } => {
            assert(has_user(b.users, user) && has_conv(b.convs, conv));
        },
        KindData::MessageSent { conv, author, .. } => {
            assert(has_user(b.users, author) && has_conv(b.convs, conv));
            assert(!has_post(b.posts, e.id)) by {
                assert forall|i: int| 0 <= i < b.posts.len() implies (
                #[trigger] b.posts[i]).message.id != e.id by {
                    assert(logged(log, b.posts[i].message.id));
                }
            }
        },
        _ => {},
    }
}

proof fn lemma_makes_one_more(script: Seq<StepData>, n: int)
    requires
        0 <= n < script.len(),
    ensures
        forall|id: RoleId| #[trigger]
            makes_role(script, n + 1, id) == (makes_role(script, n, id)
                || (script[n].kind matches KindData::RoleCreated { role, .. } && role == id)),
        forall|id: UserId| #[trigger]
            makes_user(script, n + 1, id) == (makes_user(script, n, id)
                || (script[n].kind matches KindData::UserCreated { user, .. } && user == id)),
        forall|called: Seq<char>| #[trigger]
            makes_name(script, n + 1, called) == (makes_name(script, n, called)
                || (script[n].kind matches KindData::UserCreated { name, .. } && name == called)),
        forall|id: ConvId| #[trigger]
            makes_conv(script, n + 1, id) == (makes_conv(script, n, id)
                || (script[n].kind matches KindData::ConvCreated { conv, .. } && conv == id)),
{
}

proof fn lemma_users_mapped(users: Seq<AccountData>, f: spec_fn(AccountData) -> AccountData)
    requires
        forall|a: AccountData| (#[trigger] f(a)).id == a.id && f(a).name == a.name,
    ensures
        forall|id: UserId| #[trigger] has_user(users.map_values(f), id) == has_user(users, id),
        forall|name: Seq<char>| #[trigger]
            has_name(users.map_values(f), name) == has_name(users, name),
{
    let u = users.map_values(f);
    assert forall|id: UserId| #[trigger] has_user(u, id) == has_user(users, id) by {
        if has_user(users, id) {
            let i = choose|i: int| 0 <= i < users.len() && (#[trigger] users[i]).id == id;
            assert(u[i].id == id);
        }
        if has_user(u, id) {
            let i = choose|i: int| 0 <= i < u.len() && (#[trigger] u[i]).id == id;
            assert(users[i].id == id);
        }
    }
    assert forall|name: Seq<char>| #[trigger] has_name(u, name) == has_name(users, name) by {
        if has_name(users, name) {
            let i = choose|i: int| 0 <= i < users.len() && (#[trigger] users[i]).name == name;
            assert(u[i].name == name);
        }
        if has_name(u, name) {
            let i = choose|i: int| 0 <= i < u.len() && (#[trigger] u[i]).name == name;
            assert(users[i].name == name);
        }
    }
}

proof fn lemma_convs_mapped(convs: Seq<ConvData>, f: spec_fn(ConvData) -> ConvData)
    requires
        forall|c: ConvData| (#[trigger] f(c)).id == c.id,
    ensures
        forall|id: ConvId| #[trigger] has_conv(convs.map_values(f), id) == has_conv(convs, id),
{
    let u = convs.map_values(f);
    assert forall|id: ConvId| #[trigger] has_conv(u, id) == has_conv(convs, id) by {
        if has_conv(convs, id) {
            let i = choose|i: int| 0 <= i < convs.len() && (#[trigger] convs[i]).id == id;
            assert(u[i].id == id);
        }
        if has_conv(u, id) {
            let i = choose|i: int| 0 <= i < u.len() && (#[trigger] u[i]).id == id;
            assert(convs[i].id == id);
        }
    }
}

proof fn lemma_made_one_more(mid: Db, now: Db, script: Seq<StepData>, n: int, event: Event)
    requires
        playable(script),
        0 <= n < script.len(),
        made(mid, script, n),
        committed(
            mid,
            script[n].actor,
            script[n].kind,
            script[n].at,
            Ok::<Event, StoreError>(event),
            now,
        ),
    ensures
        made(now, script, n + 1),
{
    let b = mid.tables@;
    let c = now.tables@;
    let e = event.deep_view();
    let log = mid.log.deep_view();
    assert(now.log.deep_view() =~= log.push(e));
    crate::db::projection::appending_keeps_ids_distinct(b, log, e);
    assert(fits(script, n));
    lemma_makes_one_more(script, n);
    assert forall|i: int| 0 <= i < n + 1 implies stamped_event(
        #[trigger] now.log.deep_view()[i],
        script[i].actor,
        script[i].kind,
        script[i].at,
    ) by {
        if i < n {
            assert(now.log.deep_view()[i] == log[i]);
        }
    }
    reveal_with_fuel(after, 2);
    assert(effect(b, e) == Ok::<Board, StoreError>(c));
    match e.kind {
        KindData::RoleCreated { role, .. } => {
            assert(c.roles == b.roles.push(c.roles.last()));
            assert(c.roles[b.roles.len() as int].id == role);
            assert forall|id: RoleId| #[trigger] has_role(c.roles, id) == (has_role(b.roles, id)
                || id == role) by {
                if has_role(b.roles, id) {
                    let i = choose|i: int|
                        0 <= i < b.roles.len() && (#[trigger] b.roles[i]).id == id;
                    assert(c.roles[i].id == id);
                }
                if has_role(c.roles, id) && id != role {
                    let i = choose|i: int|
                        0 <= i < c.roles.len() && (#[trigger] c.roles[i]).id == id;
                    assert(b.roles[i].id == id);
                }
            }
        },
        KindData::UserCreated { user, name, .. } => {
            assert(c.users == b.users.push(c.users.last()));
            assert(c.users[b.users.len() as int].id == user);
            assert forall|id: UserId| #[trigger] has_user(c.users, id) == (has_user(b.users, id)
                || id == user) by {
                if has_user(b.users, id) {
                    let i = choose|i: int|
                        0 <= i < b.users.len() && (#[trigger] b.users[i]).id == id;
                    assert(c.users[i].id == id);
                }
                if has_user(c.users, id) && id != user {
                    let i = choose|i: int|
                        0 <= i < c.users.len() && (#[trigger] c.users[i]).id == id;
                    assert(b.users[i].id == id);
                }
            }
            assert forall|x: Seq<char>| #[trigger] has_name(c.users, x) == (has_name(b.users, x)
                || x == name) by {
                if has_name(b.users, x) {
                    let i = choose|i: int|
                        0 <= i < b.users.len() && (#[trigger] b.users[i]).name == x;
                    assert(c.users[i].name == x);
                }
                if has_name(c.users, x) && x != name {
                    let i = choose|i: int|
                        0 <= i < c.users.len() && (#[trigger] c.users[i]).name == x;
                    assert(b.users[i].name == x);
                }
            }
        },
        KindData::BioSet { user, bio } => {
            lemma_users_mapped(b.users, rewriting_bio(user, bio));
        },
        KindData::ConvCreated { conv, .. } => {
            assert(c.convs == b.convs.push(c.convs.last()));
            assert(c.convs[b.convs.len() as int].id == conv);
            assert forall|id: ConvId| #[trigger] has_conv(c.convs, id) == (has_conv(b.convs, id)
                || id == conv) by {
                if has_conv(b.convs, id) {
                    let i = choose|i: int|
                        0 <= i < b.convs.len() && (#[trigger] b.convs[i]).id == id;
                    assert(c.convs[i].id == id);
                }
                if has_conv(c.convs, id) && id != conv {
                    let i = choose|i: int|
                        0 <= i < c.convs.len() && (#[trigger] c.convs[i]).id == id;
                    assert(b.convs[i].id == id);
                }
            }
        },
        KindData::TopicSet { conv, topic } => {
            lemma_convs_mapped(b.convs, retitling(conv, topic));
        },
        _ => {},
    }
}

/// What is performed is in the log, step by step, behind what was there before.
pub proof fn what_is_performed_is_in_the_log(before: Db, now: Db, script: Seq<StepData>, i: int)
    requires
        follows(before, now, script),
    ensures
        now.log@.len() == before.log@.len() + script.len(),
        0 <= i < before.log@.len() ==> now.log@[i].deep_view() == before.log@[i].deep_view(),
        0 <= i < script.len() ==> {
            let e = now.log@[before.log@.len() + i].deep_view();
            e.actor == script[i].actor && e.kind == script[i].kind && e.at == script[i].at
        },
{
    let old_log = before.log.deep_view();
    let log = now.log.deep_view();
    if 0 <= i < script.len() {
        assert(stamped_event(log[old_log.len() + i], script[i].actor, script[i].kind, script[i].at));
    }
    if 0 <= i < old_log.len() {
        assert(log[i] == old_log[i]);
    }
}

/// Performing a script of one step changes the board as its event does.
pub proof fn one_step_is_one_event(before: Db, now: Db, step: StepData)
    requires
        follows(before, now, seq![step]),
    ensures
        effect(before.tables@, now.log@.last().deep_view()) == Ok::<Board, StoreError>(now.tables@),
        now.log@.last().deep_view().kind == step.kind,
{
    let k = before.log.deep_view().len() as int;
    let log = now.log.deep_view();
    assert(stamped_event(log[k + 0], seq![step][0].actor, seq![step][0].kind, seq![step][0].at));
    assert(log.skip(k)[0] == log[k]);
    reveal_with_fuel(folded, 2);
}

/// Two scripts performed one after the other come to one script.
pub proof fn scripts_follow_each_other(
    before: Db,
    mid: Db,
    now: Db,
    a: Seq<StepData>,
    b: Seq<StepData>,
)
    requires
        follows(before, mid, a),
        follows(mid, now, b),
    ensures
        follows(before, now, a + b),
{
    let k = before.log.deep_view().len() as int;
    let old_log = before.log.deep_view();
    let mid_log = mid.log.deep_view();
    let log = now.log.deep_view();
    assert forall|i: int| 0 <= i < old_log.len() implies #[trigger] log[i] == old_log[i] by {
        assert(log[i] == mid_log[i]);
    }
    assert forall|i: int| 0 <= i < (a + b).len() implies stamped_event(
        log[k + i],
        (#[trigger] (a + b)[i]).actor,
        (a + b)[i].kind,
        (a + b)[i].at,
    ) by {
        if i < a.len() {
            assert((a + b)[i] == a[i]);
            assert(log[k + i] == mid_log[k + i]);
        } else {
            let j = i - a.len();
            assert((a + b)[i] == b[j]);
            assert(log[mid_log.len() + j] == log[k + i]);
        }
    }
    let all = log.skip(k);
    lemma_folded_same(before.tables@, mid_log.skip(k), all, a.len() as int);
    lemma_folded_on(before.tables@, mid.tables@, all, a.len() as int, log.skip(
        mid_log.len() as int,
    ), b.len() as int);
}

proof fn lemma_folded_same(b: Board, s: Seq<EventData>, t: Seq<EventData>, n: int)
    requires
        forall|i: int| 0 <= i < n ==> #[trigger] s[i] == t[i],
    ensures
        folded(b, s, n) == folded(b, t, n),
    decreases n,
{
    if n > 0 {
        lemma_folded_same(b, s, t, n - 1);
        assert(s[n - 1] == t[n - 1]);
    }
}

proof fn lemma_folded_on(
    b: Board,
    m: Board,
    s: Seq<EventData>,
    k: int,
    rest: Seq<EventData>,
    n: int,
)
    requires
        k >= 0,
        n >= 0,
        folded(b, s, k) == Ok::<Board, StoreError>(m),
        forall|i: int| 0 <= i < n ==> #[trigger] rest[i] == s[k + i],
    ensures
        folded(b, s, k + n) == folded(m, rest, n),
    decreases n,
{
    if n > 0 {
        lemma_folded_on(b, m, s, k, rest, n - 1);
        assert(rest[n - 1] == s[k + n - 1]);
    }
}

} // verus!
