//! The event bus: the single funnel every read and write passes through.
//!
//! One owner holds the [`Db`] and the subscriber registry. Sessions never
//! touch the store; they send a [`Request`] and get a [`Response`]. Because
//! the owner handles one message at a time, writes are serialised by
//! construction and no lock is needed anywhere else.
//!
//! Writes are appended to the log and then broadcast to every session
//! subscribed to any of the event's tags. Reads are answered directly, and are
//! themselves published as an ephemeral [`Signal::Read`] so subscribers can
//! observe access without the log filling up with non-mutations.
//!
//! What a subscriber receives is a [`Delivery`]:
//!
//! * [`Delivery::Inline`] -- the encoded payload was smaller than the 16 bytes
//!   a uuid would have cost, so the whole thing rode along. Signals are always
//!   inline: they are never logged, so there would be nothing to resolve.
//! * [`Delivery::Id`] -- just the event's uuid; resolve it by asking for the
//!   event or by re-reading the affected projection.
//! * [`Delivery::Resync`] -- the session's queue overflowed and events were
//!   dropped. Re-read state; the bus never blocks on a slow session.
use tokio::sync::mpsc::error::TrySendError;
use tokio::sync::mpsc::Sender;
use vstd::prelude::*;

use crate::config::INLINE_MAX_BYTES;
use crate::db::projection::{a_write_is_visible, after, appended, visible};
use crate::db::query::{
    a_page_holds_the_newest_messages, a_replay_leaves_no_gap_unreported, conv_called, conv_is,
    event_is, has_key, id_of, key_of, members_are_who_is_there, message_of, newest, oldest,
    only_members_see_a_private_conversation, only_real_keys_are_listed, open_to, post_in, profiled,
    the_log_is_listed_from_the_start, user_called, user_is,
};
use crate::db::tables::{has_conv, touched, Account, Member, PostData, StoreError};
use crate::db::uuid::{carried_millis, carries, uuid_at};
use crate::db::{count_of, value_of, Db};
use crate::model::{
    any_shared, share_tag, signal_tags, tags_of, ConvData, ConvId, ConvKind, Conversation, Event,
    EventKind, Message, MessageData, MessageId, Millis, Role, Signal, Tag, User, UserId, Uuid,
};
use crate::order::{ordered, ordered_contains, ordered_is_sorted_permutation};
use crate::seqs::{
    distinct, find, first, lemma_filter_all, lemma_filter_contains, lemma_filter_distinct,
    lemma_filter_step, lemma_first, lemma_first_found, lemma_push_distinct, select,
};
use crate::text::same_nocase;

verus! {

pub type SubId = u64;

#[derive(Debug)]
pub enum Delivery {
    Inline(Payload),
    Id(Uuid),
    Resync { missed: usize },
}

#[derive(Debug)]
pub enum Payload {
    Event(Event),
    Signal(Signal),
}

impl Clone for Payload {
    fn clone(&self) -> (r: Self)
        ensures
            r == *self,
    {
        match self {
            Payload::Event(event) => Payload::Event(event.clone()),
            Payload::Signal(signal) => Payload::Signal(*signal),
        }
    }
}

impl Clone for Delivery {
    fn clone(&self) -> (r: Self)
        ensures
            r == *self,
    {
        match self {
            Delivery::Inline(payload) => Delivery::Inline(payload.clone()),
            Delivery::Id(id) => Delivery::Id(*id),
            Delivery::Resync { missed } => Delivery::Resync { missed: *missed },
        }
    }
}

// ---------------------------------------------------------------------------
// queues
// ---------------------------------------------------------------------------

#[verifier::external_type_specification]
#[verifier::external_body]
#[verifier::reject_recursive_types(T)]
pub struct ExSender<T>(tokio::sync::mpsc::Sender<T>);

/// Everything that was put into a session's queue through this end of it, in
/// order.
pub uninterp spec fn accepted(tx: Sender<Delivery>) -> Seq<Delivery>;

/// Everything that was tried to put into a session's queue through this end of
/// it, in order, and what became of each attempt.
pub uninterp spec fn tried(tx: Sender<Delivery>) -> Seq<(Delivery, Outcome)>;

/// What became of an attempt to put something into a queue.
#[derive(Debug, Clone, Copy, PartialEq, Eq, Structural)]
pub enum Outcome {
    Sent,
    Full,
    Closed,
}

/// [`tokio::sync::mpsc::Sender::try_send`]: put a delivery at the end of the
/// queue, if there is room and someone to receive it; otherwise the queue
/// stays as it is. Either way it was tried once, with the outcome that is
/// returned. Whether there is room is up to the receiving session, so nothing
/// is claimed of which outcome it is.
#[verifier::external_body]
fn try_send(tx: &mut Sender<Delivery>, delivery: Delivery) -> (r: Outcome)
    ensures
        tried(*final(tx)) == tried(*old(tx)).push((delivery, r)),
        r == Outcome::Sent ==> accepted(*final(tx)) == accepted(*old(tx)).push(delivery),
        r != Outcome::Sent ==> accepted(*final(tx)) == accepted(*old(tx)),
{
    match tx.try_send(delivery) {
        Ok(()) => Outcome::Sent,
        Err(TrySendError::Full(_)) => Outcome::Full,
        Err(TrySendError::Closed(_)) => Outcome::Closed,
    }
}

// ---------------------------------------------------------------------------
// subscribers
// ---------------------------------------------------------------------------

pub struct Subscriber {
    pub id: SubId,
    pub tags: Vec<Tag>,
    pub tx: Sender<Delivery>,
    /// Events dropped since the last resync marker this session accepted.
    pub missed: usize,
}

/// How a session stands with its queue.
#[derive(Debug, Clone, Copy, PartialEq, Eq, Structural)]
pub struct Standing {
    pub missed: usize,
    pub alive: bool,
}

/// How a session that had missed `missed` stands after an attempt to send it
/// something.
pub open spec fn settled(missed: usize, outcome: Outcome) -> Standing {
    match outcome {
        Outcome::Sent => Standing { missed: 0, alive: true },
        Outcome::Full => Standing {
            missed: if missed < usize::MAX {
                (missed + 1) as usize
            } else {
                missed
            },
            alive: true,
        },
        Outcome::Closed => Standing { missed, alive: false },
    }
}

pub fn settle(missed: usize, outcome: Outcome) -> (r: Standing)
    ensures
        r == settled(missed, outcome),
{
    match outcome {
        Outcome::Sent => Standing { missed: 0, alive: true },
        Outcome::Full => Standing { missed: missed.saturating_add(1), alive: true },
        Outcome::Closed => Standing { missed, alive: false },
    }
}

/// What becomes of a session when something is published: how it is then, and
/// whether it is still there.
pub ghost struct Step {
    pub now: Subscriber,
    pub alive: bool,
}

/// Whether this is what becomes of a session that is offered a delivery, when
/// the attempts come out as `marker` and `outcome`. One that fell behind is
/// offered a resync marker first, and nothing else unless it takes that.
pub open spec fn offered(
    s: Subscriber,
    delivery: Delivery,
    marker: Outcome,
    outcome: Outcome,
    step: Step,
) -> bool {
    let behind = s.missed > 0;
    let reached = behind ==> marker == Outcome::Sent;
    let notice = Delivery::Resync { missed: s.missed };
    let first = if behind {
        settled(s.missed, marker)
    } else {
        Standing { missed: 0, alive: true }
    };
    let last = if reached {
        settled(first.missed, outcome)
    } else {
        first
    };
    let noticed = if behind {
        tried(s.tx).push((notice, marker))
    } else {
        tried(s.tx)
    };
    let attempts = if reached {
        noticed.push((delivery, outcome))
    } else {
        noticed
    };
    let marked = if behind && reached {
        accepted(s.tx).push(notice)
    } else {
        accepted(s.tx)
    };
    let queue = if reached && outcome == Outcome::Sent {
        marked.push(delivery)
    } else {
        marked
    };
    &&& step.now.id == s.id
    &&& step.now.tags == s.tags
    &&& step.now.missed == last.missed
    &&& step.alive == last.alive
    &&& tried(step.now.tx) == attempts
    &&& accepted(step.now.tx) == queue
}

/// Whether this is what becomes of a session when something is published.
pub open spec fn stepped(s: Subscriber, tags: Seq<Tag>, delivery: Delivery, step: Step) -> bool {
    if share_tag(tags, s.tags@) {
        exists|marker: Outcome, outcome: Outcome| #[trigger]
            offered(s, delivery, marker, outcome, step)
    } else {
        step == (Step { now: s, alive: true })
    }
}

/// Those that are still there.
pub open spec fn survivors(steps: Seq<Step>) -> Seq<Subscriber>
    decreases steps.len(),
{
    if steps.len() == 0 {
        seq![]
    } else if steps.last().alive {
        survivors(steps.drop_last()).push(steps.last().now)
    } else {
        survivors(steps.drop_last())
    }
}

/// Whether each session took its step.
pub open spec fn all_stepped(
    before: Seq<Subscriber>,
    tags: Seq<Tag>,
    delivery: Delivery,
    steps: Seq<Step>,
) -> bool {
    &&& steps.len() == before.len()
    &&& forall|i: int|
        0 <= i < before.len() ==> stepped(before[i], tags, delivery, #[trigger] steps[i])
}

/// Whether `now` are the sessions after a delivery was published to those that
/// subscribe to one of `tags`.
pub open spec fn fanned(
    before: Seq<Subscriber>,
    tags: Seq<Tag>,
    delivery: Delivery,
    now: Seq<Subscriber>,
) -> bool {
    exists|steps: Seq<Step>|
        {
            &&& #[trigger] all_stepped(before, tags, delivery, steps)
            &&& now == survivors(steps)
        }
}

/// A session that fell behind gets told to resync before it is sent anything
/// else, so it never applies deltas to stale state.
pub proof fn a_resync_comes_first(s: Subscriber, tags: Seq<Tag>, delivery: Delivery, step: Step)
    requires
        stepped(s, tags, delivery, step),
        s.missed > 0,
        accepted(step.now.tx) != accepted(s.tx),
    ensures
        accepted(step.now.tx).len() > accepted(s.tx).len(),
        accepted(step.now.tx)[accepted(s.tx).len() as int] == (Delivery::Resync {
            missed: s.missed,
        }),
{
}

/// What is not tagged for a session does not reach it.
pub proof fn untagged_deliveries_do_not_arrive(
    s: Subscriber,
    tags: Seq<Tag>,
    delivery: Delivery,
    step: Step,
)
    requires
        stepped(s, tags, delivery, step),
        !share_tag(tags, s.tags@),
    ensures
        step == (Step { now: s, alive: true }),
{
}

/// A session that a delivery was tagged for has either got it, or is owed a
/// resync, or is gone.
pub proof fn nothing_is_dropped_unnoticed(
    s: Subscriber,
    tags: Seq<Tag>,
    delivery: Delivery,
    step: Step,
)
    requires
        stepped(s, tags, delivery, step),
        share_tag(tags, s.tags@),
    ensures
        step.alive ==> step.now.missed > 0 || (accepted(step.now.tx).len() > 0 && accepted(
            step.now.tx,
        ).last() == delivery),
{
}

/// What is tagged for a session that keeps up is tried once, and the session
/// gets it, falls behind or is gone as that attempt comes out.
pub proof fn a_session_that_keeps_up_is_tried_once(
    s: Subscriber,
    tags: Seq<Tag>,
    delivery: Delivery,
    step: Step,
)
    requires
        stepped(s, tags, delivery, step),
        share_tag(tags, s.tags@),
        s.missed == 0,
    ensures
        tried(step.now.tx).len() == tried(s.tx).len() + 1,
        tried(step.now.tx).drop_last() == tried(s.tx),
        tried(step.now.tx).last().0 == delivery,
        step.alive <==> tried(step.now.tx).last().1 != Outcome::Closed,
        step.now.missed > 0 <==> tried(step.now.tx).last().1 == Outcome::Full,
{
    assert(tried(step.now.tx).drop_last() =~= tried(s.tx));
}

/// What a session already has in its queue stays there.
pub proof fn queues_only_grow(s: Subscriber, tags: Seq<Tag>, delivery: Delivery, step: Step)
    requires
        stepped(s, tags, delivery, step),
    ensures
        accepted(s.tx).len() <= accepted(step.now.tx).len() <= accepted(s.tx).len() + 2,
        accepted(step.now.tx).take(accepted(s.tx).len() as int) == accepted(s.tx),
{
    let k = accepted(s.tx).len() as int;
    assert(accepted(s.tx).take(k) == accepted(s.tx));
}

/// Offer a delivery to one session, and say whether it is still there.
fn offer(sub: Subscriber, delivery: &Delivery) -> (r: (Subscriber, bool))
    ensures
        exists|marker: Outcome, outcome: Outcome| #[trigger]
            offered(sub, *delivery, marker, outcome, (Step { now: r.0, alive: r.1 })),
{
    let mut sub = sub;
    let ghost start = sub;
    let ghost mut marker = Outcome::Sent;
    if sub.missed > 0 {
        let notice = Delivery::Resync { missed: sub.missed };
        let outcome = try_send(&mut sub.tx, notice);
        proof {
            marker = outcome;
        }
        let standing = settle(sub.missed, outcome);
        sub.missed = standing.missed;
        if outcome != Outcome::Sent {
            let r = (sub, standing.alive);
            proof {
                let step = Step { now: r.0, alive: r.1 };
                assert(offered(start, *delivery, outcome, Outcome::Sent, step));
            }
            return r;
        }
    }
    let outcome = try_send(&mut sub.tx, delivery.clone());
    let standing = settle(sub.missed, outcome);
    sub.missed = standing.missed;
    let r = (sub, standing.alive);
    proof {
        let step = Step { now: r.0, alive: r.1 };
        assert(offered(start, *delivery, marker, outcome, step));
    }
    r
}

/// Put a delivery into the queue of every session that subscribes to one of
/// `tags`. Sessions that are gone are forgotten.
fn fan_out(subs: Vec<Subscriber>, tags: &Vec<Tag>, delivery: Delivery) -> (r: Vec<Subscriber>)
    ensures
        fanned(subs@, tags@, delivery, r@),
{
    let ghost all = subs@;
    let ghost mut steps: Seq<Step> = seq![];
    let mut kept: Vec<Subscriber> = Vec::new();
    for sub in it: subs
        invariant
            it.seq() == all,
            steps.len() == it.index(),
            forall|i: int|
                0 <= i < it.index() ==> stepped(all[i], tags@, delivery, #[trigger] steps[i]),
            kept@ == survivors(steps),
    {
        let ghost i = it.index() as int;
        assert(all[i] == sub);
        let ghost taken = steps;
        let (now, alive) = if any_shared(tags, &sub.tags) {
            offer(sub, &delivery)
        } else {
            (sub, true)
        };
        proof {
            let step = Step { now, alive };
            steps = taken.push(step);
            assert(steps.drop_last() == taken);
            assert(stepped(all[i], tags@, delivery, step));
        }
        if alive {
            kept.push(now);
        }
    }
    assert(all_stepped(all, tags@, delivery, steps));
    kept
}

// ---------------------------------------------------------------------------
// requests
// ---------------------------------------------------------------------------

#[derive(Debug)]
pub enum Request {
    Commit { actor: Option<UserId>, kind: EventKind },
    Notify(Signal),
    Alloc(String),
    Event(Uuid),
    Replay { tags: Vec<Tag>, since: Option<Uuid> },
    Conversations { user: UserId },
    Conversation(ConvId),
    ConversationByName(String),
    Messages {
        conv: ConvId,
        before: Option<MessageId>,
        limit: usize,
        reader: Option<UserId>,
    },
    Members(ConvId),
    Users,
    User(UserId),
    UserByName(String),
    Roles,
    TouchLastSeen(UserId),
    LogDump(usize),
    UserKeys,
    Setting(String),
    SetSetting { key: String, value: Vec<u8> },
    ClearSetting(String),
}

#[derive(Debug)]
pub enum Response {
    Unit,
    Id(i64),
    Event(Event),
    MaybeEvent(Option<Event>),
    Events(Vec<Event>),
    Replay { events: Vec<Event>, truncated: bool },
    Conversations(Vec<Conversation>),
    MaybeConversation(Option<Conversation>),
    Messages(Vec<Message>),
    Members(Vec<UserId>),
    Users(Vec<User>),
    MaybeUser(Option<User>),
    Roles(Vec<Role>),
    UserKeys(Vec<(UserId, String)>),
    Setting(Option<Vec<u8>>),
}

/// What is fixed about an event before it is committed: its id, its time, and
/// how many bytes its kind takes when it is written down.
#[derive(Debug, Clone, Copy, PartialEq, Eq)]
pub struct Stamp {
    pub id: Uuid,
    pub at: Millis,
    pub encoded_len: usize,
}

impl Stamp {
    /// The stamp of an event that happens at `at`: its id carries that time.
    pub fn new(at: Millis, encoded_len: usize) -> (r: Stamp)
        ensures
            r.at == at,
            r.encoded_len == encoded_len,
            carries(r.id.bits, carried_millis(at)),
    {
        Stamp { id: uuid_at(at), at, encoded_len }
    }
}

/// A subscription that stands for someone being here.
#[derive(Debug, Clone, Copy, PartialEq, Eq, Structural)]
pub struct Visit {
    pub sub: SubId,
    pub user: UserId,
}

pub struct BusState {
    pub subs: Vec<Subscriber>,
    pub online: Vec<Visit>,
    pub next_id: SubId,
}

pub open spec fn is_online(online: Seq<Visit>, user: UserId) -> bool {
    exists|i: int| 0 <= i < online.len() && (#[trigger] online[i]).user == user
}

fn anyone(online: &Vec<Visit>, user: UserId) -> (r: bool)
    ensures
        r == is_online(online@, user),
{
    let mut i: usize = 0;
    while i < online.len()
        invariant
            i <= online.len(),
            forall|j: int| 0 <= j < i ==> (#[trigger] online[j]).user != user,
        decreases online.len() - i,
    {
        if online[i].user == user {
            return true;
        }
        i += 1;
    }
    false
}

/// How a logged event travels: whole if its encoded payload undercuts a uuid,
/// otherwise as the uuid, for the session to resolve.
pub open spec fn shaped(event: Event, encoded_len: usize) -> Delivery {
    if encoded_len < INLINE_MAX_BYTES {
        Delivery::Inline(Payload::Event(event))
    } else {
        Delivery::Id(event.id)
    }
}

/// Whether `resp` is what a read of this store answers to `req`, where `online`
/// are those who are here and `at` is the time.
pub open spec fn answers(
    online: Seq<Visit>,
    db: Db,
    req: Request,
    at: Millis,
    resp: Response,
) -> bool {
    match req {
        Request::Event(id) => resp == Response::MaybeEvent(first(db.log@, event_is(id))),
        Request::Replay { tags, since } => {
            let all = db.backlog(tags@, since, at);
            &&& resp matches Response::Replay { events, truncated }
            &&& events@ == newest(all, crate::config::REPLAY_EVENT_CAP as int)
            &&& truncated == (all.len() > crate::config::REPLAY_EVENT_CAP)
        },
        Request::Conversations { user } => {
            &&& resp matches Response::Conversations(convs)
            &&& convs@ == ordered(db.tables.convs@.filter(open_to(db.tables.members@, user)))
        },
        Request::Conversation(conv) => resp == Response::MaybeConversation(
            first(db.tables.convs@, conv_is(conv)),
        ),
        Request::ConversationByName(name) => resp == Response::MaybeConversation(
            first(db.tables.convs@, conv_called(name@)),
        ),
        Request::Messages { conv, before, limit, .. } => {
            &&& resp matches Response::Messages(page)
            &&& page@ == newest(
                ordered(db.tables.posts@.filter(post_in(conv, before))),
                limit as int,
            ).map_values(message_of())
        },
        Request::Members(conv) => {
            &&& resp matches Response::Members(ids)
            &&& ids@ == db.present(conv).map_values(id_of())
        },
        Request::Users => {
            let rows = ordered(db.tables.users@);
            &&& resp matches Response::Users(users)
            &&& users.len() == rows.len()
            &&& forall|i: int|
                0 <= i < rows.len() ==> profiled(
                    rows[i],
                    db.held_roles(rows[i].id),
                    is_online(online, rows[i].id),
                    #[trigger] users[i],
                )
        },
        Request::User(id) => {
            &&& resp matches Response::MaybeUser(user)
            &&& seen(online, db, first(db.tables.users@, user_is(id)), user)
        },
        Request::UserByName(name) => {
            &&& resp matches Response::MaybeUser(user)
            &&& seen(online, db, first(db.tables.users@, user_called(name@)), user)
        },
        Request::Roles => {
            &&& resp matches Response::Roles(roles)
            &&& roles@ == ordered(db.tables.roles@)
        },
        Request::LogDump(limit) => {
            &&& resp matches Response::Events(events)
            &&& events@ == oldest(ordered(db.log@), limit as int)
        },
        Request::UserKeys => {
            &&& resp matches Response::UserKeys(keys)
            &&& keys@ == ordered(db.tables.users@.filter(has_key()).map_values(key_of()))
        },
        Request::Setting(key) => {
            &&& resp matches Response::Setting(value)
            &&& match value {
                Some(v) => value_of(db.settings@, key@) == Some(v@),
                None => value_of(db.settings@, key@) is None,
            }
        },
        _ => resp is Unit,
    }
}

/// Whether `user` is who a row of the user table shows, online if they are.
pub open spec fn seen(
    online: Seq<Visit>,
    db: Db,
    row: Option<Account>,
    user: Option<User>,
) -> bool {
    match row {
        Some(a) => user is Some && profiled(
            a,
            db.held_roles(a.id),
            is_online(online, a.id),
            user->Some_0,
        ),
        None => user is None,
    }
}

impl BusState {
    /// Nothing was published, and nobody came or went.
    pub open spec fn unmoved(self, before: BusState) -> bool {
        &&& self.subs@ == before.subs@
        &&& self.online@ == before.online@
        &&& self.next_id == before.next_id
    }

    /// A delivery was published, and nobody came or went.
    pub open spec fn published(
        self,
        before: BusState,
        tags: Seq<Tag>,
        delivery: Delivery,
    ) -> bool {
        &&& fanned(before.subs@, tags, delivery, self.subs@)
        &&& self.online@ == before.online@
        &&& self.next_id == before.next_id
    }

    pub open spec fn signalled(self, before: BusState, signal: Signal) -> bool {
        self.published(
            before,
            signal_tags(signal),
            Delivery::Inline(Payload::Signal(signal)),
        )
    }

    pub fn new() -> (r: BusState)
        ensures
            r.subs@.len() == 0,
            r.online@.len() == 0,
            r.next_id == 0,
    {
        BusState { subs: Vec::new(), online: Vec::new(), next_id: 0 }
    }

    fn publish(&mut self, tags: &Vec<Tag>, delivery: Delivery)
        ensures
            final(self).published(*old(self), tags@, delivery),
    {
        let mut subs: Vec<Subscriber> = Vec::new();
        std::mem::swap(&mut subs, &mut self.subs);
        self.subs = fan_out(subs, tags, delivery);
    }

    /// A logged event: inline it if the encoded payload undercuts a uuid,
    /// otherwise send the uuid and let the session resolve it.
    pub fn publish_event(&mut self, event: &Event, encoded_len: usize)
        ensures
            final(self).published(
                *old(self),
                tags_of(event.kind.deep_view()),
                shaped(*event, encoded_len),
            ),
    {
        let delivery = if encoded_len < INLINE_MAX_BYTES {
            Delivery::Inline(Payload::Event(event.clone()))
        } else {
            Delivery::Id(event.id)
        };
        self.publish(&event.tags(), delivery);
    }

    /// Signals are never logged, so there is nothing to fetch by uuid: they
    /// always travel whole.
    pub fn publish_signal(&mut self, signal: Signal)
        ensures
            final(self).signalled(*old(self), signal),
    {
        self.publish(&signal.tags(), Delivery::Inline(Payload::Signal(signal)));
    }

    fn mark(&self, user: Option<User>) -> (r: Option<User>)
        ensures
            match user {
                Some(u) => r is Some && r->Some_0 == (User {
                    online: is_online(self.online@, u.id),
                    ..u
                }),
                None => r is None,
            },
    {
        match user {
            Some(u) => {
                let online = anyone(&self.online, u.id);
                Some(User { online, ..u })
            },
            None => None,
        }
    }

    fn mark_all(&self, users: Vec<User>) -> (r: Vec<User>)
        ensures
            r.len() == users.len(),
            forall|i: int|
                0 <= i < r.len() ==> (#[trigger] r[i]) == (User {
                    online: is_online(self.online@, users[i].id),
                    ..users[i]
                }),
    {
        let mut out: Vec<User> = Vec::new();
        for u in it: users
            invariant
                it.seq() == users@,
                out.len() == it.index(),
                forall|i: int|
                    0 <= i < it.index() ==> (#[trigger] out[i]) == (User {
                        online: is_online(self.online@, users[i].id),
                        ..users[i]
                    }),
        {
            let online = anyone(&self.online, u.id);
            out.push(User { online, ..u });
        }
        out
    }

    /// Answer one request. An event that is committed gets the id and the time
    /// of the stamp.
    pub fn serve(&mut self, db: &mut Db, req: Request, stamp: Stamp) -> (r: Result<
        Response,
        StoreError,
    >)
        ensures
            served(*old(self), *old(db), req, stamp, r, *final(self), *final(db)),
            old(db).sound() ==> final(db).sound(),
    {
        match req {
            Request::Commit { actor, kind } => {
                let event = Event { id: stamp.id, at: stamp.at, actor, kind };
                match db.append(event.clone()) {
                    Ok(()) => {
                        self.publish_event(&event, stamp.encoded_len);
                        Ok(Response::Event(event))
                    },
                    Err(e) => Err(e),
                }
            },
            Request::Notify(signal) => {
                self.publish_signal(signal);
                Ok(Response::Unit)
            },
            Request::Alloc(counter) => match db.allocate(counter.as_str()) {
                Ok(id) => Ok(Response::Id(id)),
                Err(e) => Err(e),
            },
            Request::Event(id) => Ok(Response::MaybeEvent(db.event(id))),
            Request::Replay { tags, since } => {
                let (events, truncated) = db.replay(&tags, since, stamp.at);
                Ok(Response::Replay { events, truncated })
            },
            Request::Conversations { user } => {
                self.publish_signal(Signal::Read { user, conv: None });
                Ok(Response::Conversations(db.conversations(user)))
            },
            Request::Conversation(conv) => Ok(
                Response::MaybeConversation(db.conversation(conv)),
            ),
            Request::ConversationByName(name) => Ok(
                Response::MaybeConversation(db.conversation_by_name(name.as_str())),
            ),
            Request::Messages { conv, before, limit, reader } => {
                if let Some(user) = reader {
                    self.publish_signal(Signal::Read { user, conv: Some(conv) });
                }
                Ok(Response::Messages(db.messages(conv, before, limit)))
            },
            Request::Members(conv) => Ok(Response::Members(db.members(conv))),
            Request::Users => Ok(Response::Users(self.mark_all(db.users()))),
            Request::User(id) => Ok(Response::MaybeUser(self.mark(db.user(id)))),
            Request::UserByName(name) => Ok(
                Response::MaybeUser(self.mark(db.user_by_name(name.as_str()))),
            ),
            Request::Roles => Ok(Response::Roles(db.roles())),
            Request::TouchLastSeen(user) => {
                db.touch_last_seen(user, stamp.at);
                Ok(Response::Unit)
            },
            Request::LogDump(limit) => Ok(Response::Events(db.all_events(limit))),
            Request::UserKeys => Ok(Response::UserKeys(db.user_keys())),
            Request::Setting(key) => Ok(Response::Setting(db.setting(key.as_str()))),
            Request::SetSetting { key, value } => {
                db.set_setting(key.as_str(), value);
                Ok(Response::Unit)
            },
            Request::ClearSetting(key) => {
                db.clear_setting(key.as_str());
                Ok(Response::Unit)
            },
        }
    }
}

/// What serving a request comes to: what is answered, what becomes of the
/// store, and what is published.
pub open spec fn served(
    before: BusState,
    db: Db,
    req: Request,
    stamp: Stamp,
    r: Result<Response, StoreError>,
    now: BusState,
    db_now: Db,
) -> bool {
    match req {
        Request::Commit { actor, kind } => {
            let event = Event { id: stamp.id, at: stamp.at, actor, kind };
            &&& db_now.keeps_counts_of(db)
            &&& match appended(db.tables@, db.log.deep_view(), event.deep_view()) {
                Ok(b) => {
                    &&& r == Ok::<Response, StoreError>(Response::Event(event))
                    &&& db_now.tables@ == b
                    &&& db_now.log@ == db.log@.push(event)
                    &&& now.published(
                        before,
                        tags_of(kind.deep_view()),
                        shaped(event, stamp.encoded_len),
                    )
                },
                Err(e) => {
                    &&& r == Err::<Response, StoreError>(e)
                    &&& db_now.tables@ == db.tables@
                    &&& db_now.log@ == db.log@
                    &&& now.unmoved(before)
                },
            }
        },
        Request::Notify(signal) => {
            &&& r == Ok::<Response, StoreError>(Response::Unit)
            &&& db_now == db
            &&& now.signalled(before, signal)
        },
        Request::Alloc(counter) => {
            &&& now.unmoved(before)
            &&& db_now.tables == db.tables
            &&& db_now.log == db.log
            &&& db_now.settings == db.settings
            &&& if count_of(db.counters@, counter@) < i64::MAX {
                let id = (count_of(db.counters@, counter@) + 1) as i64;
                &&& r == Ok::<Response, StoreError>(Response::Id(id))
                &&& count_of(db_now.counters@, counter@) == id
                &&& forall|other: Seq<char>|
                    other != counter@ ==> #[trigger] count_of(db_now.counters@, other) == count_of(
                        db.counters@,
                        other,
                    )
            } else {
                &&& r == Err::<Response, StoreError>(StoreError::CounterExhausted)
                &&& db_now.counters == db.counters
            }
        },
        Request::TouchLastSeen(user) => {
            &&& r == Ok::<Response, StoreError>(Response::Unit)
            &&& now.unmoved(before)
            &&& db_now.keeps_counts_of(db)
            &&& db_now.log == db.log
            &&& db_now.tables@ == touched(db.tables@, user, stamp.at)
        },
        Request::SetSetting { key, value } => {
            &&& r == Ok::<Response, StoreError>(Response::Unit)
            &&& now.unmoved(before)
            &&& db_now.tables == db.tables
            &&& db_now.log == db.log
            &&& db_now.counters == db.counters
            &&& value_of(db_now.settings@, key@) == Some(value@)
            &&& forall|other: Seq<char>|
                other != key@ ==> #[trigger] value_of(db_now.settings@, other) == value_of(
                    db.settings@,
                    other,
                )
        },
        Request::ClearSetting(key) => {
            &&& r == Ok::<Response, StoreError>(Response::Unit)
            &&& now.unmoved(before)
            &&& db_now.tables == db.tables
            &&& db_now.log == db.log
            &&& db_now.counters == db.counters
            &&& value_of(db_now.settings@, key@) is None
            &&& forall|other: Seq<char>|
                other != key@ ==> #[trigger] value_of(db_now.settings@, other) == value_of(
                    db.settings@,
                    other,
                )
        },
        _ => {
            &&& r is Ok
            &&& answers(before.online@, db, req, stamp.at, r->Ok_0)
            &&& db_now == db
            &&& match req {
                Request::Conversations { user } => now.signalled(
                    before,
                    Signal::Read { user, conv: None },
                ),
                Request::Messages { conv, reader: Some(user), .. } => now.signalled(
                    before,
                    Signal::Read { user, conv: Some(conv) },
                ),
                _ => now.unmoved(before),
            }
        },
    }
}

// ---------------------------------------------------------------------------
// the owner
// ---------------------------------------------------------------------------

/// What sessions send to the owner of the bus.
pub enum BusMsg {
    Request(Request),
    /// `user` is the identity whose presence this subscription represents, if
    /// any.
    Subscribe { user: Option<UserId>, tags: Vec<Tag>, tx: Sender<Delivery> },
    /// Replace the tag set -- used when a session switches conversation.
    Retag { id: SubId, tags: Vec<Tag> },
    Unsubscribe { id: SubId },
    Shutdown,
}

#[derive(Debug, Clone, Copy, PartialEq, Eq, Structural)]
pub enum Flow {
    Continue,
    Stop,
}

/// What the sender of a message is told.
#[derive(Debug)]
pub enum Reply {
    Subscribed(SubId),
    Answer(Result<Response, StoreError>),
}

pub open spec fn presence(user: UserId, online: bool) -> Signal {
    Signal::Presence { user, online }
}

pub open spec fn other_sub(id: SubId) -> spec_fn(Subscriber) -> bool {
    |s: Subscriber| s.id != id
}

pub open spec fn visit_of(id: SubId) -> spec_fn(Visit) -> bool {
    |v: Visit| v.sub == id
}

pub open spec fn other_visit(id: SubId) -> spec_fn(Visit) -> bool {
    |v: Visit| v.sub != id
}

/// Whether the session `id` has new tags, and nothing else is different.
pub open spec fn retagged(
    before: Seq<Subscriber>,
    id: SubId,
    tags: Seq<Tag>,
    now: Seq<Subscriber>,
) -> bool {
    &&& now.len() == before.len()
    &&& forall|i: int|
        0 <= i < now.len() ==> {
            &&& (#[trigger] now[i]).id == before[i].id
            &&& now[i].tx == before[i].tx
            &&& now[i].missed == before[i].missed
            &&& now[i].tags@ == if before[i].id == id {
                tags
            } else {
                before[i].tags@
            }
        }
}

/// What handling a message comes to.
pub open spec fn handled(
    before: BusState,
    db: Db,
    msg: BusMsg,
    stamp: Stamp,
    r: (Flow, Option<Reply>),
    now: BusState,
    db_now: Db,
) -> bool {
    match msg {
        BusMsg::Shutdown => {
            &&& r == (Flow::Stop, None::<Reply>)
            &&& now.unmoved(before)
            &&& db_now == db
        },
        BusMsg::Subscribe { user, tags, tx } => {
            let id = (before.next_id + 1) as SubId;
            let subs = before.subs@.push(Subscriber { id, tags, tx, missed: 0 });
            &&& r == (Flow::Continue, Some(Reply::Subscribed(id)))
            &&& db_now == db
            &&& now.next_id == id
            &&& match user {
                None => now.subs@ == subs && now.online@ == before.online@,
                Some(u) => {
                    &&& now.online@ == before.online@.push(Visit { sub: id, user: u })
                    &&& if is_online(before.online@, u) {
                        now.subs@ == subs
                    } else {
                        fanned(
                            subs,
                            signal_tags(presence(u, true)),
                            Delivery::Inline(Payload::Signal(presence(u, true))),
                            now.subs@,
                        )
                    }
                },
            }
        },
        BusMsg::Retag { id, tags } => {
            &&& r == (Flow::Continue, None::<Reply>)
            &&& db_now == db
            &&& now.online@ == before.online@
            &&& now.next_id == before.next_id
            &&& retagged(before.subs@, id, tags@, now.subs@)
        },
        BusMsg::Unsubscribe { id } => {
            let subs = before.subs@.filter(other_sub(id));
            let online = before.online@.filter(other_visit(id));
            &&& r == (Flow::Continue, None::<Reply>)
            &&& now.next_id == before.next_id
            &&& now.online@ == online
            &&& match first(before.online@, visit_of(id)) {
                Some(v) if !is_online(online, v.user) => {
                    &&& db_now.keeps_counts_of(db)
                    &&& db_now.log == db.log
                    &&& db_now.tables@ == touched(db.tables@, v.user, stamp.at)
                    &&& fanned(
                        subs,
                        signal_tags(presence(v.user, false)),
                        Delivery::Inline(Payload::Signal(presence(v.user, false))),
                        now.subs@,
                    )
                },
                _ => now.subs@ == subs && db_now == db,
            }
        },
        BusMsg::Request(req) => {
            &&& r.0 == Flow::Continue
            &&& r.1 matches Some(Reply::Answer(answer))
            &&& served(before, db, req, stamp, answer, now, db_now)
        },
    }
}

fn retag(subs: Vec<Subscriber>, id: SubId, tags: &Vec<Tag>) -> (r: Vec<Subscriber>)
    ensures
        retagged(subs@, id, tags@, r@),
{
    let mut out: Vec<Subscriber> = Vec::new();
    for sub in it: subs
        invariant
            it.seq() == subs@,
            out.len() == it.index(),
            forall|i: int|
                0 <= i < it.index() ==> {
                    &&& (#[trigger] out[i]).id == subs[i].id
                    &&& out[i].tx == subs[i].tx
                    &&& out[i].missed == subs[i].missed
                    &&& out[i].tags@ == if subs[i].id == id {
                        tags@
                    } else {
                        subs[i].tags@
                    }
                },
    {
        if sub.id == id {
            let mut fresh: Vec<Tag> = Vec::new();
            fresh.extend_from_slice(tags.as_slice());
            assert(fresh@ =~= tags@);
            out.push(Subscriber { tags: fresh, ..sub });
        } else {
            out.push(sub);
        }
    }
    out
}

fn without(subs: Vec<Subscriber>, id: SubId) -> (r: Vec<Subscriber>)
    ensures
        r@ == subs@.filter(other_sub(id)),
{
    let ghost all = subs@;
    let mut out: Vec<Subscriber> = Vec::new();
    assert(all.take(0).filter(other_sub(id)) =~= seq![]) by {
        reveal(Seq::filter);
    }
    for sub in it: subs
        invariant
            it.seq() == all,
            out@ == all.take(it.index() as int).filter(other_sub(id)),
    {
        proof {
            lemma_filter_step(all, other_sub(id), it.index() as int);
        }
        if sub.id != id {
            out.push(sub);
        }
    }
    assert(all.take(all.len() as int) == all);
    out
}

impl BusState {
    /// Handle one message. The reply is for whoever sent it.
    pub fn handle(&mut self, db: &mut Db, msg: BusMsg, stamp: Stamp) -> (r: (Flow, Option<Reply>))
        requires
            msg is Subscribe ==> old(self).next_id < u64::MAX,
        ensures
            handled(*old(self), *old(db), msg, stamp, r, *final(self), *final(db)),
            old(db).sound() ==> final(db).sound(),
    {
        match msg {
            BusMsg::Shutdown => (Flow::Stop, None),
            BusMsg::Subscribe { user, tags, tx } => {
                self.next_id += 1;
                let id = self.next_id;
                self.subs.push(Subscriber { id, tags, tx, missed: 0 });
                if let Some(user) = user {
                    let already = anyone(&self.online, user);
                    self.online.push(Visit { sub: id, user });
                    if !already {
                        self.publish_signal(Signal::Presence { user, online: true });
                    }
                }
                (Flow::Continue, Some(Reply::Subscribed(id)))
            },
            BusMsg::Retag { id, tags } => {
                let mut subs: Vec<Subscriber> = Vec::new();
                std::mem::swap(&mut subs, &mut self.subs);
                self.subs = retag(subs, id, &tags);
                (Flow::Continue, None)
            },
            BusMsg::Unsubscribe { id } => {
                let mut subs: Vec<Subscriber> = Vec::new();
                std::mem::swap(&mut subs, &mut self.subs);
                self.subs = without(subs, id);
                let left = find(
                    &self.online,
                    |v: &Visit| -> (b: bool)
                        ensures
                            b == (v.sub == id)
                        { v.sub == id },
                    Ghost(visit_of(id)),
                );
                self.online =
                select(
                    &self.online,
                    |v: &Visit| -> (b: bool)
                        ensures
                            b == (v.sub != id)
                        { v.sub != id },
                    Ghost(other_visit(id)),
                );
                if let Some(visit) = left {
                    if !anyone(&self.online, visit.user) {
                        db.touch_last_seen(visit.user, stamp.at);
                        self.publish_signal(
                            Signal::Presence { user: visit.user, online: false },
                        );
                    }
                }
                (Flow::Continue, None)
            },
            BusMsg::Request(req) => {
                let answer = self.serve(db, req, stamp);
                (Flow::Continue, Some(Reply::Answer(answer)))
            },
        }
    }
}

/// What always holds of the registry: no two visits or sessions share an id,
/// and no id was given out that was not counted.
pub open spec fn registered(state: BusState) -> bool {
    &&& distinct(state.subs@, sub_id())
    &&& distinct(state.online@, visit_id())
    &&& forall|i: int|
        0 <= i < state.subs@.len() ==> (#[trigger] state.subs@[i]).id <= state.next_id
    &&& forall|i: int|
        0 <= i < state.online@.len() ==> (#[trigger] state.online@[i]).sub <= state.next_id
}

pub open spec fn sub_id() -> spec_fn(Subscriber) -> SubId {
    |s: Subscriber| s.id
}

pub open spec fn visit_id() -> spec_fn(Visit) -> SubId {
    |v: Visit| v.sub
}

proof fn lemma_fanned_ids(
    before: Seq<Subscriber>,
    tags: Seq<Tag>,
    delivery: Delivery,
    steps: Seq<Step>,
    top: SubId,
)
    requires
        all_stepped(before, tags, delivery, steps),
        distinct(before, sub_id()),
        forall|i: int| 0 <= i < before.len() ==> (#[trigger] before[i]).id <= top,
    ensures
        distinct(survivors(steps), sub_id()),
        forall|i: int|
            0 <= i < survivors(steps).len() ==> (#[trigger] survivors(steps)[i]).id <= top,
        forall|i: int|
            0 <= i < survivors(steps).len() ==> exists|j: int|
                0 <= j < before.len() && (#[trigger] before[j]).id == (
                #[trigger] survivors(steps)[i]).id,
    decreases before.len(),
{
    if before.len() > 0 {
        let b = before.drop_last();
        let st = steps.drop_last();
        assert(all_stepped(b, tags, delivery, st)) by {
            assert forall|i: int| 0 <= i < b.len() implies stepped(
                b[i],
                tags,
                delivery,
                #[trigger] st[i],
            ) by {
                assert(steps[i] == st[i]);
            }
        }
        assert(distinct(b, sub_id())) by {
            assert forall|i: int, j: int| 0 <= i < j < b.len() implies sub_id()(#[trigger] b[i])
                != sub_id()(#[trigger] b[j]) by {
                assert(sub_id()(before[i]) != sub_id()(before[j]));
            }
        }
        lemma_fanned_ids(b, tags, delivery, st, top);
        let kept = survivors(st);
        let k = before.len() - 1;
        assert(stepped(before[k], tags, delivery, steps[k]));
        assert forall|i: int| 0 <= i < kept.len() implies exists|j: int|
            0 <= j < before.len() && (#[trigger] before[j]).id == (#[trigger] kept[i]).id by {
            let j = choose|j: int| 0 <= j < b.len() && (#[trigger] b[j]).id == kept[i].id;
            assert(before[j].id == kept[i].id);
        }
        if steps.last().alive {
            let s = steps.last().now;
            assert(s.id == before[k].id);
            assert forall|i: int| 0 <= i < kept.len() implies sub_id()(#[trigger] kept[i])
                != sub_id()(s) by {
                let j = choose|j: int| 0 <= j < b.len() && (#[trigger] b[j]).id == kept[i].id;
                assert(sub_id()(before[j]) != sub_id()(before[k]));
            }
            lemma_push_distinct(kept, s, sub_id());
        }
    }
}

proof fn lemma_fanned_registered(
    before: Seq<Subscriber>,
    tags: Seq<Tag>,
    delivery: Delivery,
    now: Seq<Subscriber>,
    top: SubId,
)
    requires
        fanned(before, tags, delivery, now),
        distinct(before, sub_id()),
        forall|i: int| 0 <= i < before.len() ==> (#[trigger] before[i]).id <= top,
    ensures
        distinct(now, sub_id()),
        forall|i: int| 0 <= i < now.len() ==> (#[trigger] now[i]).id <= top,
{
    let steps = choose|steps: Seq<Step>|
        {
            &&& #[trigger] all_stepped(before, tags, delivery, steps)
            &&& now == survivors(steps)
        };
    lemma_fanned_ids(before, tags, delivery, steps, top);
}

/// No message mixes up the registry.
pub proof fn messages_keep_the_registry(
    before: BusState,
    db: Db,
    msg: BusMsg,
    stamp: Stamp,
    r: (Flow, Option<Reply>),
    now: BusState,
    db_now: Db,
)
    requires
        registered(before),
        msg is Subscribe ==> before.next_id < u64::MAX,
        handled(before, db, msg, stamp, r, now, db_now),
    ensures
        registered(now),
{
    let top = now.next_id;
    match msg {
        BusMsg::Shutdown => {},
        BusMsg::Subscribe { user, tags, tx } => {
            let sub = Subscriber { id: top, tags, tx, missed: 0 };
            let subs = before.subs@.push(sub);
            lemma_push_distinct(before.subs@, sub, sub_id());
            if let Some(u) = user {
                lemma_push_distinct(before.online@, Visit { sub: top, user: u }, visit_id());
                if !is_online(before.online@, u) {
                    lemma_fanned_registered(
                        subs,
                        signal_tags(presence(u, true)),
                        Delivery::Inline(Payload::Signal(presence(u, true))),
                        now.subs@,
                        top,
                    );
                }
            }
        },
        BusMsg::Retag { id, tags } => {
            assert forall|i: int, j: int| 0 <= i < j < now.subs@.len() implies sub_id()(
                #[trigger] now.subs@[i],
            ) != sub_id()(#[trigger] now.subs@[j]) by {
                assert(sub_id()(before.subs@[i]) != sub_id()(before.subs@[j]));
            }
        },
        BusMsg::Unsubscribe { id } => {
            let subs = before.subs@.filter(other_sub(id));
            let online = before.online@.filter(other_visit(id));
            lemma_filter_distinct(before.subs@, other_sub(id), sub_id());
            lemma_filter_distinct(before.online@, other_visit(id), visit_id());
            lemma_filter_contains(before.subs@, other_sub(id));
            lemma_filter_contains(before.online@, other_visit(id));
            assert forall|i: int| 0 <= i < subs.len() implies (#[trigger] subs[i]).id <= top by {
                assert(subs.contains(subs[i]));
            }
            assert forall|i: int| 0 <= i < online.len() implies (#[trigger] online[i]).sub
                <= top by {
                assert(online.contains(online[i]));
            }
            if let Some(v) = first(before.online@, visit_of(id)) {
                if !is_online(online, v.user) {
                    lemma_fanned_registered(
                        subs,
                        signal_tags(presence(v.user, false)),
                        Delivery::Inline(Payload::Signal(presence(v.user, false))),
                        now.subs@,
                        top,
                    );
                }
            }
        },
        BusMsg::Request(req) => {
            match req {
                Request::Commit { actor, kind } => {
                    let event = Event { id: stamp.id, at: stamp.at, actor, kind };
                    if appended(db.tables@, db.log.deep_view(), event.deep_view()) is Ok {
                        lemma_fanned_registered(
                            before.subs@,
                            tags_of(kind.deep_view()),
                            shaped(event, stamp.encoded_len),
                            now.subs@,
                            top,
                        );
                    }
                },
                Request::Notify(signal) => {
                    lemma_signalled_registered(before, now, signal);
                },
                Request::Conversations { user } => {
                    lemma_signalled_registered(before, now, Signal::Read { user, conv: None });
                },
                Request::Messages { conv, reader: Some(user), .. } => {
                    lemma_signalled_registered(
                        before,
                        now,
                        Signal::Read { user, conv: Some(conv) },
                    );
                },
                _ => {},
            }
        },
    }
}

proof fn lemma_signalled_registered(before: BusState, now: BusState, signal: Signal)
    requires
        registered(before),
        now.signalled(before, signal),
    ensures
        registered(now),
{
    lemma_fanned_registered(
        before.subs@,
        signal_tags(signal),
        Delivery::Inline(Payload::Signal(signal)),
        now.subs@,
        now.next_id,
    );
}

/// Someone whose subscription ends is no longer here, unless another one of
/// theirs is still open; subscribing brings them back.
pub proof fn presence_follows_subscriptions(
    before: BusState,
    db: Db,
    msg: BusMsg,
    stamp: Stamp,
    r: (Flow, Option<Reply>),
    now: BusState,
    db_now: Db,
    user: UserId,
)
    requires
        handled(before, db, msg, stamp, r, now, db_now),
    ensures
        msg matches BusMsg::Subscribe { user: Some(u), .. } ==> is_online(now.online@, u),
        msg matches BusMsg::Unsubscribe { id } ==> (is_online(now.online@, user) <==> exists|i: int|
            0 <= i < before.online@.len() && (#[trigger] before.online@[i]).user == user
                && before.online@[i].sub != id),
        !(msg is Subscribe) && !(msg is Unsubscribe) ==> now.online@ == before.online@,
{
    match msg {
        BusMsg::Subscribe { user: Some(u), .. } => {
            assert(now.online@[before.online@.len() as int].user == u);
        },
        BusMsg::Unsubscribe { id } => {
            let online = before.online@.filter(other_visit(id));
            lemma_filter_contains(before.online@, other_visit(id));
            if is_online(online, user) {
                let i = choose|i: int|
                    0 <= i < online.len() && (#[trigger] online[i]).user == user;
                assert(online.contains(online[i]));
                let j = choose|j: int|
                    0 <= j < before.online@.len() && before.online@[j] == online[i];
                assert(before.online@[j].user == user && before.online@[j].sub != id);
            }
            if exists|i: int|
                0 <= i < before.online@.len() && (#[trigger] before.online@[i]).user == user
                    && before.online@[i].sub != id {
                let i = choose|i: int|
                    0 <= i < before.online@.len() && (#[trigger] before.online@[i]).user == user
                        && before.online@[i].sub != id;
                assert(before.online@.contains(before.online@[i]));
                assert(online.contains(before.online@[i]));
                let j = choose|j: int| 0 <= j < online.len() && online[j] == before.online@[i];
                assert(online[j].user == user);
            }
        },
        _ => {},
    }
}

pub open spec fn visited_by(user: UserId) -> spec_fn(Visit) -> bool {
    |v: Visit| v.user == user
}

/// How many subscriptions stand for someone being here.
pub open spec fn visits(online: Seq<Visit>, user: UserId) -> nat {
    online.filter(visited_by(user)).len()
}

proof fn lemma_visits(online: Seq<Visit>, user: UserId)
    ensures
        is_online(online, user) <==> visits(online, user) > 0,
{
    let theirs = online.filter(visited_by(user));
    lemma_filter_contains(online, visited_by(user));
    if visits(online, user) > 0 {
        assert(theirs.contains(theirs[0]));
        let j = choose|j: int| 0 <= j < online.len() && online[j] == theirs[0];
        assert(online[j].user == user);
    }
    if is_online(online, user) {
        let i = choose|i: int| 0 <= i < online.len() && (#[trigger] online[i]).user == user;
        assert(online.contains(online[i]));
        assert(theirs.contains(online[i]));
    }
}

/// Taking out the one visit that has this id takes one from its user.
proof fn lemma_visits_without(online: Seq<Visit>, k: int, user: UserId)
    requires
        distinct(online, visit_id()),
        0 <= k < online.len(),
    ensures
        visits(online.filter(other_visit(online[k].sub)), user) == visits(online, user) - (
        if online[k].user == user {
            1int
        } else {
            0int
        }),
    decreases online.len(),
{
    let id = online[k].sub;
    let rest = online.drop_last();
    let last = online.last();
    let n = online.len() - 1;
    reveal(Seq::filter);
    assert(distinct(rest, visit_id())) by {
        assert forall|i: int, j: int| 0 <= i < j < rest.len() implies visit_id()(
            #[trigger] rest[i],
        ) != visit_id()(#[trigger] rest[j]) by {
            assert(visit_id()(online[i]) != visit_id()(online[j]));
        }
    }
    let kept = rest.filter(other_visit(id));
    if k < n {
        assert(visit_id()(online[k]) != visit_id()(online[n]));
        lemma_visits_without(rest, k, user);
        assert(online.filter(other_visit(id)) == kept.push(last));
        assert(kept.push(last).drop_last() == kept);
    } else {
        assert forall|i: int| 0 <= i < rest.len() implies other_visit(id)(#[trigger] rest[i]) by {
            assert(visit_id()(online[i]) != visit_id()(online[n]));
        }
        lemma_filter_all(rest, other_visit(id));
        assert(online.filter(other_visit(id)) == rest);
    }
}

/// That someone is here is published with their first subscription, to that
/// subscription too, and with no other one. A subscription gets an id that no
/// earlier one had.
pub proof fn arrivals_are_published_once(
    before: BusState,
    db: Db,
    user: UserId,
    tags: Vec<Tag>,
    tx: Sender<Delivery>,
    stamp: Stamp,
    r: (Flow, Option<Reply>),
    now: BusState,
    db_now: Db,
)
    requires
        registered(before),
        before.next_id < u64::MAX,
        handled(
            before,
            db,
            (BusMsg::Subscribe { user: Some(user), tags, tx }),
            stamp,
            r,
            now,
            db_now,
        ),
    ensures
        r.0 == Flow::Continue,
        r.1 == Some(Reply::Subscribed(now.next_id)),
        now.next_id > before.next_id,
        visits(now.online@, user) == visits(before.online@, user) + 1,
        ({
            let subs = before.subs@.push(Subscriber { id: now.next_id, tags, tx, missed: 0 });
            if visits(before.online@, user) == 0 {
                fanned(
                    subs,
                    signal_tags(presence(user, true)),
                    Delivery::Inline(Payload::Signal(presence(user, true))),
                    now.subs@,
                )
            } else {
                now.subs@ == subs
            }
        }),
        forall|i: int|
            0 <= i < before.subs@.len() ==> (#[trigger] before.subs@[i]).id != now.next_id,
        forall|i: int|
            0 <= i < before.online@.len() ==> (#[trigger] before.online@[i]).sub != now.next_id,
{
    let visit = Visit { sub: now.next_id, user };
    lemma_visits(before.online@, user);
    reveal(Seq::filter);
    assert(before.online@.push(visit).drop_last() == before.online@);
}

/// That someone has left is published, and noted as when they were last seen,
/// with the end of their last subscription, and with no other one.
pub proof fn departures_are_published_once(
    before: BusState,
    db: Db,
    visit: Visit,
    stamp: Stamp,
    r: (Flow, Option<Reply>),
    now: BusState,
    db_now: Db,
)
    requires
        registered(before),
        before.online@.contains(visit),
        handled(before, db, (BusMsg::Unsubscribe { id: visit.sub }), stamp, r, now, db_now),
    ensures
        r == (Flow::Continue, None::<Reply>),
        now.next_id == before.next_id,
        visits(now.online@, visit.user) == visits(before.online@, visit.user) - 1,
        ({
            let subs = before.subs@.filter(other_sub(visit.sub));
            if visits(before.online@, visit.user) == 1 {
                &&& db_now.tables@ == touched(db.tables@, visit.user, stamp.at)
                &&& fanned(
                    subs,
                    signal_tags(presence(visit.user, false)),
                    Delivery::Inline(Payload::Signal(presence(visit.user, false))),
                    now.subs@,
                )
            } else {
                db_now == db && now.subs@ == subs
            }
        }),
{
    let k = choose|k: int| 0 <= k < before.online@.len() && before.online@[k] == visit;
    let found = visit_of(visit.sub);
    lemma_visits_without(before.online@, k, visit.user);
    lemma_visits(now.online@, visit.user);
    assert forall|j: int| 0 <= j < k implies !found(#[trigger] before.online@[j]) by {
        assert(visit_id()(before.online@[j]) != visit_id()(before.online@[k]));
    }
    lemma_first(before.online@, found, k);
}

/// The count that ids come from never goes back, so that none is given out
/// twice.
pub proof fn ids_are_never_reused(
    before: BusState,
    db: Db,
    msg: BusMsg,
    stamp: Stamp,
    r: (Flow, Option<Reply>),
    now: BusState,
    db_now: Db,
)
    requires
        msg is Subscribe ==> before.next_id < u64::MAX,
        handled(before, db, msg, stamp, r, now, db_now),
    ensures
        now.next_id >= before.next_id,
        r.1 matches Some(Reply::Subscribed(id)) ==> before.next_id < id && id == now.next_id,
{
}

// ---------------------------------------------------------------------------
// reading what was written
// ---------------------------------------------------------------------------

/// A write is visible to the next read.
pub proof fn a_commit_is_visible(
    before: BusState,
    db: Db,
    actor: Option<UserId>,
    kind: EventKind,
    stamp: Stamp,
    r: Result<Response, StoreError>,
    now: BusState,
    db_now: Db,
)
    requires
        served(before, db, Request::Commit { actor, kind }, stamp, r, now, db_now),
        r is Ok,
    ensures
        ({
            let event = Event { id: stamp.id, at: stamp.at, actor, kind };
            visible(db_now.tables@, event.deep_view())
        }),
{
    let event = Event { id: stamp.id, at: stamp.at, actor, kind };
    a_write_is_visible(db.tables@, event.deep_view());
}

/// What travels as a uuid can be resolved: asking for it gives the event.
pub proof fn a_committed_event_can_be_resolved(
    before: BusState,
    db: Db,
    actor: Option<UserId>,
    kind: EventKind,
    stamp: Stamp,
    r: Result<Response, StoreError>,
    now: BusState,
    db_now: Db,
)
    requires
        served(before, db, Request::Commit { actor, kind }, stamp, r, now, db_now),
        r is Ok,
    ensures
        first(db_now.log@, event_is(stamp.id)) == Some(
            Event { id: stamp.id, at: stamp.at, actor, kind },
        ),
{
    let event = Event { id: stamp.id, at: stamp.at, actor, kind };
    let k = db.log@.len() as int;
    assert forall|j: int| 0 <= j < k implies !event_is(stamp.id)(#[trigger] db_now.log@[j]) by {
        assert(db.log.deep_view()[j] == db.log@[j].deep_view());
    }
    assert(db_now.log@[k] == event);
    lemma_first(db_now.log@, event_is(stamp.id), k);
}

/// A conversation that was just created is the one that is found by its id, and
/// by its name too, if nothing was called that before.
pub proof fn a_created_conversation_is_found(
    before: BusState,
    db: Db,
    actor: Option<UserId>,
    kind: EventKind,
    stamp: Stamp,
    r: Result<Response, StoreError>,
    now: BusState,
    db_now: Db,
)
    requires
        served(before, db, Request::Commit { actor, kind }, stamp, r, now, db_now),
        r is Ok,
        kind is ConvCreated,
    ensures
        ({
            let created = ConvData {
                id: kind->ConvCreated_conv,
                kind: kind->ConvCreated_kind,
                name: kind->ConvCreated_name@,
                topic: seq![],
                created_at: stamp.at,
            };
            let by_id = first(db_now.tables.convs@, conv_is(created.id));
            let by_name = first(db_now.tables.convs@, conv_called(created.name));
            &&& by_id is Some && by_id->Some_0.deep_view() == created
            &&& by_name is Some
            &&& first(db.tables.convs@, conv_called(created.name)) is None
                ==> by_name->Some_0.deep_view() == created
        }),
{
    let event = Event { id: stamp.id, at: stamp.at, actor, kind };
    a_write_is_visible(db.tables@, event.deep_view());
    let data = ConvData {
        id: kind->ConvCreated_conv,
        kind: kind->ConvCreated_kind,
        name: kind->ConvCreated_name@,
        topic: seq![],
        created_at: stamp.at,
    };
    let (old, convs) = (db.tables.convs, db_now.tables.convs);
    let k = old@.len() as int;
    reveal_with_fuel(after, 2);
    assert(!has_conv(db.tables@.convs, data.id));
    assert(convs.deep_view() =~= old.deep_view().push(data));
    assert(convs@[k].deep_view() == convs.deep_view()[k]);
    assert forall|j: int| 0 <= j < k implies convs@[j].deep_view() == (
    #[trigger] old@[j]).deep_view() by {
        assert(convs.deep_view()[j] == old.deep_view()[j]);
    }
    assert forall|j: int| 0 <= j < k implies !conv_is(data.id)(#[trigger] convs@[j]) by {
        assert(convs@[j].deep_view() == old@[j].deep_view());
        assert(old.deep_view()[j].id == old@[j].id);
    }
    lemma_first(convs@, conv_is(data.id), k);
    assert(same_nocase(data.name, data.name));
    assert(convs@.contains(convs@[k]));
    lemma_first_found(convs@, conv_called(data.name));
    lemma_first_found(old@, conv_called(data.name));
    if first(old@, conv_called(data.name)) is None {
        assert forall|j: int| 0 <= j < k implies !conv_called(data.name)(#[trigger] convs@[j]) by {
            assert(convs@[j].deep_view() == old@[j].deep_view());
            assert(old@.contains(old@[j]));
        }
        lemma_first(convs@, conv_called(data.name), k);
    }
}

/// A message that was just sent is there to be read in its conversation.
pub proof fn a_sent_message_is_read_back(
    before: BusState,
    db: Db,
    actor: Option<UserId>,
    kind: EventKind,
    stamp: Stamp,
    r: Result<Response, StoreError>,
    now: BusState,
    db_now: Db,
)
    requires
        served(before, db, Request::Commit { actor, kind }, stamp, r, now, db_now),
        r is Ok,
        kind is MessageSent,
    ensures
        ({
            let page = ordered(
                db_now.tables.posts@.filter(post_in(kind->MessageSent_conv, None)),
            ).map_values(message_of());
            exists|i: int|
                0 <= i < page.len() && (#[trigger] page[i]).deep_view() == (MessageData {
                    id: stamp.id,
                    conv: kind->MessageSent_conv,
                    author: kind->MessageSent_author,
                    body: kind->MessageSent_body@,
                    created_at: stamp.at,
                    edited_at: None,
                })
        }),
{
    let event = Event { id: stamp.id, at: stamp.at, actor, kind };
    a_write_is_visible(db.tables@, event.deep_view());
    let data = PostData {
        message: MessageData {
            id: stamp.id,
            conv: kind->MessageSent_conv,
            author: kind->MessageSent_author,
            body: kind->MessageSent_body@,
            created_at: stamp.at,
            edited_at: None,
        },
        deleted: false,
    };
    let posts = db_now.tables.posts;
    assert(posts.deep_view().contains(data));
    let i = choose|i: int| 0 <= i < posts.deep_view().len() && posts.deep_view()[i] == data;
    let post = posts@[i];
    assert(post.deep_view() == data);
    assert(posts@.contains(post));
    let keep = post_in(kind->MessageSent_conv, None);
    lemma_filter_contains(posts@, keep);
    let kept = posts@.filter(keep);
    assert(kept.contains(post));
    ordered_contains(kept, post);
    let all = ordered(kept);
    let j = choose|j: int| 0 <= j < all.len() && all[j] == post;
    let page = all.map_values(message_of());
    assert(page[j] == post.message);
}

// ---------------------------------------------------------------------------
// who is served what
// ---------------------------------------------------------------------------

/// A payload of fewer than 16 bytes, which is less than a uuid takes, travels
/// whole; any other event travels as its own id.
pub proof fn small_events_travel_whole(event: Event, encoded_len: usize)
    ensures
        encoded_len < 16 ==> shaped(event, encoded_len) == Delivery::Inline(Payload::Event(event)),
        encoded_len >= 16 ==> shaped(event, encoded_len) == Delivery::Id(event.id),
{
}

/// A session that takes a delivery is owed nothing; one whose queue is full is
/// owed one more; only one that is gone is given up.
pub proof fn a_full_queue_is_one_more_missed(missed: usize)
    ensures
        settled(missed, Outcome::Sent) == (Standing { missed: 0, alive: true }),
        missed < usize::MAX ==> settled(missed, Outcome::Full).missed == missed + 1,
        settled(missed, Outcome::Full).missed >= missed,
        settled(missed, Outcome::Full).missed > 0,
        settled(missed, Outcome::Full).alive,
        !settled(missed, Outcome::Closed).alive,
{
}

/// A session that fell behind is first told how much it missed. Unless it
/// takes that, nothing else is tried, and it is owed one more; once it takes
/// both, it is owed nothing.
pub proof fn a_session_that_fell_behind_catches_up(
    s: Subscriber,
    tags: Seq<Tag>,
    delivery: Delivery,
    step: Step,
)
    requires
        stepped(s, tags, delivery, step),
        share_tag(tags, s.tags@),
        0 < s.missed < usize::MAX,
    ensures
        step.now.id == s.id && step.now.tags == s.tags,
        ({
            let k = tried(s.tx).len() as int;
            let attempts = tried(step.now.tx);
            &&& attempts.len() > k
            &&& attempts[k].0 == (Delivery::Resync { missed: s.missed })
            &&& attempts[k].1 == Outcome::Full ==> {
                &&& attempts.len() == k + 1
                &&& step.now.missed == s.missed + 1
                &&& step.alive
                &&& accepted(step.now.tx) == accepted(s.tx)
            }
            &&& attempts[k].1 == Outcome::Closed ==> {
                &&& attempts.len() == k + 1
                &&& !step.alive
            }
            &&& attempts[k].1 == Outcome::Sent ==> {
                &&& attempts.len() == k + 2
                &&& attempts[k + 1].0 == delivery
                &&& attempts[k + 1].1 == Outcome::Sent ==> step.now.missed == 0 && step.alive
                    && accepted(step.now.tx) == accepted(s.tx).push(
                    Delivery::Resync { missed: s.missed },
                ).push(delivery)
                &&& attempts[k + 1].1 == Outcome::Full ==> step.now.missed == 1 && step.alive
                &&& attempts[k + 1].1 == Outcome::Closed ==> !step.alive
            }
        }),
{
}

proof fn lemma_survivors(steps: Seq<Step>, i: int)
    requires
        0 <= i < steps.len(),
    ensures
        steps[i].alive ==> survivors(steps).contains(steps[i].now),
        survivors(steps).len() <= steps.len(),
    decreases steps.len(),
{
    let rest = steps.drop_last();
    let kept = survivors(rest);
    lemma_survivors_len(rest);
    if i < rest.len() {
        lemma_survivors(rest, i);
        assert(rest[i] == steps[i]);
        if kept.contains(steps[i].now) && steps.last().alive {
            let k = choose|k: int| 0 <= k < kept.len() && kept[k] == steps[i].now;
            assert(kept.push(steps.last().now)[k] == steps[i].now);
        }
    } else if steps.last().alive {
        assert(kept.push(steps.last().now)[kept.len() as int] == steps[i].now);
    }
}

proof fn lemma_survivors_len(steps: Seq<Step>)
    ensures
        survivors(steps).len() <= steps.len(),
    decreases steps.len(),
{
    if steps.len() > 0 {
        lemma_survivors_len(steps.drop_last());
    }
}

/// Publishing touches nobody it is not meant for, and loses nobody who is
/// there: whoever it is meant for is kept, with the same id and the same tags,
/// unless their session turned out to be gone.
pub proof fn publishing_loses_nobody(
    before: Seq<Subscriber>,
    tags: Seq<Tag>,
    delivery: Delivery,
    now: Seq<Subscriber>,
    i: int,
)
    requires
        fanned(before, tags, delivery, now),
        0 <= i < before.len(),
    ensures
        now.len() <= before.len(),
        !share_tag(tags, before[i].tags@) ==> now.contains(before[i]),
        share_tag(tags, before[i].tags@) ==> exists|step: Step| #[trigger]
            stepped(before[i], tags, delivery, step) && step.now.id == before[i].id && step.now.tags
                == before[i].tags && (step.alive ==> now.contains(step.now)) && (!step.alive
                ==> tried(step.now.tx).len() > 0 && tried(step.now.tx).last().1
                == Outcome::Closed),
{
    let steps = choose|steps: Seq<Step>|
        {
            &&& #[trigger] all_stepped(before, tags, delivery, steps)
            &&& now == survivors(steps)
        };
    lemma_survivors(steps, i);
    lemma_survivors_len(steps);
    let step = steps[i];
    assert(stepped(before[i], tags, delivery, step));
}

/// A session that changes its tags is served by the new ones from then on, and
/// no other session is affected.
pub proof fn new_tags_replace_the_old(
    before: BusState,
    db: Db,
    id: SubId,
    tags: Vec<Tag>,
    stamp: Stamp,
    r: (Flow, Option<Reply>),
    now: BusState,
    db_now: Db,
    i: int,
)
    requires
        handled(before, db, (BusMsg::Retag { id, tags }), stamp, r, now, db_now),
        0 <= i < before.subs@.len(),
    ensures
        now.subs@.len() == before.subs@.len(),
        before.subs@[i].id == id ==> now.subs@[i].tags@ == tags@,
        before.subs@[i].id != id ==> now.subs@[i].tags@ == before.subs@[i].tags@,
        now.subs@[i].id == before.subs@[i].id && now.subs@[i].tx == before.subs@[i].tx
            && now.subs@[i].missed == before.subs@[i].missed,
        db_now == db,
        r.0 == Flow::Continue,
{
    assert(now.subs@[i].id == before.subs@[i].id);
}

/// A session that unsubscribes is served no more, and every other one stays.
pub proof fn unsubscribing_ends_the_session(
    before: BusState,
    db: Db,
    id: SubId,
    stamp: Stamp,
    r: (Flow, Option<Reply>),
    now: BusState,
    db_now: Db,
)
    requires
        registered(before),
        handled(before, db, (BusMsg::Unsubscribe { id }), stamp, r, now, db_now),
    ensures
        forall|i: int| 0 <= i < now.subs@.len() ==> (#[trigger] now.subs@[i]).id != id,
        forall|i: int| 0 <= i < now.online@.len() ==> (#[trigger] now.online@[i]).sub != id,
        r.0 == Flow::Continue && r.1 is None,
{
    let subs = before.subs@.filter(other_sub(id));
    let online = before.online@.filter(other_visit(id));
    lemma_filter_contains(before.subs@, other_sub(id));
    lemma_filter_contains(before.online@, other_visit(id));
    assert forall|i: int| 0 <= i < subs.len() implies (#[trigger] subs[i]).id != id by {
        assert(subs.contains(subs[i]));
    }
    assert forall|i: int| 0 <= i < online.len() implies (#[trigger] online[i]).sub != id by {
        assert(online.contains(online[i]));
    }
    match first(before.online@, visit_of(id)) {
        Some(v) if !is_online(online, v.user) => {
            lemma_filter_distinct(before.subs@, other_sub(id), sub_id());
            assert forall|i: int| 0 <= i < subs.len() implies (#[trigger] subs[i]).id
                <= before.next_id by {
                assert(subs.contains(subs[i]));
                let j = choose|j: int|
                    0 <= j < before.subs@.len() && before.subs@[j] == subs[i];
                assert(before.subs@[j].id <= before.next_id);
            }
            let tags = signal_tags(presence(v.user, false));
            let delivery = Delivery::Inline(Payload::Signal(presence(v.user, false)));
            let steps = choose|steps: Seq<Step>|
                {
                    &&& #[trigger] all_stepped(subs, tags, delivery, steps)
                    &&& now.subs@ == survivors(steps)
                };
            lemma_fanned_ids(subs, tags, delivery, steps, before.next_id);
        },
        _ => {},
    }
}

/// That someone comes or goes is told with their name and which of the two it
/// is.
pub proof fn presence_is_told_as_it_is(user: UserId, online: bool)
    ensures
        presence(user, online) == (Signal::Presence { user, online }),
{
}

/// Someone is here exactly if one of the visits is theirs, and a visit of
/// theirs makes them so.
pub proof fn a_visit_makes_someone_be_here(online: Seq<Visit>, visit: Visit, user: UserId)
    ensures
        is_online(online.push(visit), user) <==> is_online(online, user) || visit.user == user,
        !is_online(Seq::<Visit>::empty(), user),
{
    let all = online.push(visit);
    if is_online(all, user) {
        let i = choose|i: int| 0 <= i < all.len() && (#[trigger] all[i]).user == user;
        if i < online.len() {
            assert(online[i].user == user);
        }
    }
    if is_online(online, user) {
        let i = choose|i: int| 0 <= i < online.len() && (#[trigger] online[i]).user == user;
        assert(all[i].user == user);
    }
    if visit.user == user {
        assert(all[online.len() as int].user == user);
    }
}

/// A commit that is accepted is logged once, answered with the event, and
/// published under its tags; one that is refused changes nothing and reaches
/// nobody.
pub proof fn a_refused_commit_changes_nothing(
    before: BusState,
    db: Db,
    actor: Option<UserId>,
    kind: EventKind,
    stamp: Stamp,
    r: Result<Response, StoreError>,
    now: BusState,
    db_now: Db,
)
    requires
        served(before, db, Request::Commit { actor, kind }, stamp, r, now, db_now),
    ensures
        r is Err ==> db_now.tables@ == db.tables@ && db_now.log@ == db.log@ && now.subs@
            == before.subs@ && now.online@ == before.online@ && now.next_id == before.next_id,
        r is Ok ==> {
            let event = Event { id: stamp.id, at: stamp.at, actor, kind };
            &&& r->Ok_0 == Response::Event(event)
            &&& db_now.log@ == db.log@.push(event)
            &&& now.online@ == before.online@
            &&& fanned(
                before.subs@,
                tags_of(kind.deep_view()),
                if stamp.encoded_len < 16 {
                    Delivery::Inline(Payload::Event(event))
                } else {
                    Delivery::Id(event.id)
                },
                now.subs@,
            )
        },
{
}

/// A signal is passed on to whoever subscribes to what it is about, and is
/// never stored.
pub proof fn a_signal_is_passed_on(
    before: BusState,
    db: Db,
    signal: Signal,
    stamp: Stamp,
    r: Result<Response, StoreError>,
    now: BusState,
    db_now: Db,
)
    requires
        served(before, db, Request::Notify(signal), stamp, r, now, db_now),
    ensures
        r == Ok::<Response, StoreError>(Response::Unit),
        db_now == db,
        now.online@ == before.online@,
        fanned(
            before.subs@,
            signal_tags(signal),
            Delivery::Inline(Payload::Signal(signal)),
            now.subs@,
        ),
{
}

/// Reading changes nothing in the store. That someone reads a conversation is
/// told to whoever follows it, and that they look at the list, to nobody in
/// particular.
pub proof fn reading_is_told_and_changes_nothing(
    before: BusState,
    db: Db,
    user: UserId,
    conv: ConvId,
    page: Option<MessageId>,
    limit: usize,
    stamp: Stamp,
    r: Result<Response, StoreError>,
    now: BusState,
    db_now: Db,
)
    ensures
        served(
            before,
            db,
            (Request::Messages { conv, before: page, limit, reader: Some(user) }),
            stamp,
            r,
            now,
            db_now,
        ) ==> db_now == db && r is Ok && fanned(
            before.subs@,
            seq![Tag::Conv(conv)],
            Delivery::Inline(Payload::Signal(Signal::Read { user, conv: Some(conv) })),
            now.subs@,
        ),
        served(
            before,
            db,
            (Request::Messages { conv, before: page, limit, reader: None }),
            stamp,
            r,
            now,
            db_now,
        ) ==> db_now == db && r is Ok && now.subs@ == before.subs@,
        served(before, db, (Request::Conversations { user }), stamp, r, now, db_now) ==> db_now
            == db && r is Ok && fanned(
            before.subs@,
            seq![],
            Delivery::Inline(Payload::Signal(Signal::Read { user, conv: None })),
            now.subs@,
        ),
{
}

/// A user is shown as here exactly if a visit of theirs is open.
pub proof fn users_are_shown_as_here_if_they_are(
    before: BusState,
    db: Db,
    id: UserId,
    stamp: Stamp,
    r: Result<Response, StoreError>,
    now: BusState,
    db_now: Db,
)
    requires
        served(before, db, Request::User(id), stamp, r, now, db_now),
    ensures
        r matches Ok(Response::MaybeUser(found)) && match found {
            Some(u) => u.id == id && (u.online <==> exists|i: int|
                0 <= i < before.online@.len() && (#[trigger] before.online@[i]).user == id),
            None => forall|a: Account| #[trigger] db.tables.users@.contains(a) ==> a.id != id,
        },
{
    lemma_first_found(db.tables.users@, user_is(id));
}

/// Everyone is listed, each once, and shown as here exactly if they are.
pub proof fn everyone_is_listed(
    before: BusState,
    db: Db,
    stamp: Stamp,
    r: Result<Response, StoreError>,
    now: BusState,
    db_now: Db,
    i: int,
)
    requires
        served(before, db, Request::Users, stamp, r, now, db_now),
        0 <= i < db.tables.users@.len(),
    ensures
        r matches Ok(Response::Users(users)) && users@.len() == db.tables.users@.len() && (
        exists|a: Account| #[trigger]
            db.tables.users@.contains(a) && users@[i].id == a.id && users@[i].name@ == a.name@) && (
        users@[i].online <==> exists|k: int|
            0 <= k < before.online@.len() && (#[trigger] before.online@[k]).user == users@[i].id),
{
    let rows = ordered(db.tables.users@);
    ordered_is_sorted_permutation(db.tables.users@);
    ordered_contains(db.tables.users@, rows[i]);
    assert(rows.contains(rows[i]));
    let users = r->Ok_0->Users_0;
    assert(profiled(
        rows[i],
        db.held_roles(rows[i].id),
        is_online(before.online@, rows[i].id),
        users[i],
    ));
    assert(db.tables.users@.contains(rows[i]));
}

/// Ids of one counter are never given out twice: of two that follow each other
/// the second is larger, and other counters do not move.
pub proof fn ids_of_a_counter_go_up(
    s0: BusState,
    s1: BusState,
    s2: BusState,
    a: Db,
    b: Db,
    c: Db,
    counter: String,
    x: Stamp,
    y: Stamp,
    r1: Result<Response, StoreError>,
    r2: Result<Response, StoreError>,
    other: Seq<char>,
)
    requires
        served(s0, a, Request::Alloc(counter), x, r1, s1, b),
        served(s1, b, Request::Alloc(counter), y, r2, s2, c),
    ensures
        r1 is Ok && r2 is Ok ==> r2->Ok_0 is Id && r2->Ok_0->Id_0 == r1->Ok_0->Id_0 + 1,
        r1 is Ok ==> r1->Ok_0 is Id && r1->Ok_0->Id_0 == count_of(a.counters@, counter@) + 1,
        r1 is Err <==> count_of(a.counters@, counter@) == i64::MAX,
        other != counter@ ==> count_of(b.counters@, other) == count_of(a.counters@, other),
        b.tables == a.tables && b.log == a.log && b.settings == a.settings,
{
}

/// A setting that was stored is read back as it was stored, one that was
/// cleared is not there, and other settings are as they were.
pub proof fn settings_are_read_back(
    s0: BusState,
    s1: BusState,
    s2: BusState,
    a: Db,
    b: Db,
    c: Db,
    key: String,
    value: Vec<u8>,
    other: String,
    x: Stamp,
    y: Stamp,
    r1: Result<Response, StoreError>,
    r2: Result<Response, StoreError>,
)
    ensures
        served(s0, a, (Request::SetSetting { key, value }), x, r1, s1, b) && served(
            s1,
            b,
            Request::Setting(key),
            y,
            r2,
            s2,
            c,
        ) ==> (r2 matches Ok(Response::Setting(found)) && found is Some && found->Some_0@
            == value@),
        served(s0, a, Request::ClearSetting(key), x, r1, s1, b) && served(
            s1,
            b,
            Request::Setting(key),
            y,
            r2,
            s2,
            c,
        ) ==> (r2 matches Ok(Response::Setting(found)) && found is None),
        other@ != key@ && served(s0, a, (Request::SetSetting { key, value }), x, r1, s1, b)
            ==> value_of(b.settings@, other@) == value_of(a.settings@, other@),
        other@ != key@ && served(s0, a, Request::ClearSetting(key), x, r1, s1, b) ==> value_of(
            b.settings@,
            other@,
        ) == value_of(a.settings@, other@),
{
}

/// A read is answered from the store: with the event or the conversation that
/// was asked for, with all roles, with the conversations that are open to
/// whoever asked, with the newest messages, and with who is there.
pub proof fn reads_are_answered_from_the_store(
    before: BusState,
    db: Db,
    req: Request,
    stamp: Stamp,
    r: Result<Response, StoreError>,
    now: BusState,
    db_now: Db,
)
    requires
        served(before, db, req, stamp, r, now, db_now),
        req is Event || req is Conversation || req is ConversationByName || req is UserByName || req
            is Roles || req is Messages || req is LogDump,
    ensures
        match req {
            Request::Event(id) => r matches Ok(Response::MaybeEvent(found)) && match found {
                Some(e) => db.log@.contains(e) && e.id == id,
                None => forall|e: Event| #[trigger] db.log@.contains(e) ==> e.id != id,
            },
            Request::Conversation(id) => r matches Ok(Response::MaybeConversation(found))
                && match found {
                Some(c) => db.tables.convs@.contains(c) && c.id == id,
                None => forall|c: Conversation| #[trigger]
                    db.tables.convs@.contains(c) ==> c.id != id,
            },
            Request::ConversationByName(name) => r matches Ok(Response::MaybeConversation(found))
                && match found {
                Some(c) => db.tables.convs@.contains(c) && same_nocase(c.name@, name@),
                None => forall|c: Conversation| #[trigger]
                    db.tables.convs@.contains(c) ==> !same_nocase(c.name@, name@),
            },
            Request::UserByName(name) => r matches Ok(Response::MaybeUser(found)) && match found {
                Some(u) => same_nocase(u.name@, name@) && exists|a: Account| #[trigger]
                    db.tables.users@.contains(a) && a.id == u.id && a.name@ == u.name@,
                None => forall|a: Account| #[trigger]
                    db.tables.users@.contains(a) ==> !same_nocase(a.name@, name@),
            },
            Request::Roles => r matches Ok(Response::Roles(roles)) && (forall|x: Role|
                roles@.contains(x) <==> #[trigger] db.tables.roles@.contains(x)),
            Request::Messages { conv, before: page, limit, .. } => r matches Ok(
                Response::Messages(found),
            ) && found@.len() <= limit && (forall|i: int|
                0 <= i < found@.len() ==> (#[trigger] found@[i]).conv == conv && (page is Some
                    ==> found@[i].id.bits < page->Some_0.bits)),
            Request::LogDump(limit) => r matches Ok(Response::Events(events)) && events@.len()
                <= limit && (forall|i: int|
                0 <= i < events@.len() ==> db.log@.contains(#[trigger] events@[i])),
            _ => true,
        },
        r is Ok,
        db_now == db,
{
    match req {
        Request::Event(id) => {
            lemma_first_found(db.log@, event_is(id));
        },
        Request::Conversation(id) => {
            lemma_first_found(db.tables.convs@, conv_is(id));
        },
        Request::ConversationByName(name) => {
            lemma_first_found(db.tables.convs@, conv_called(name@));
        },
        Request::UserByName(name) => {
            lemma_first_found(db.tables.users@, user_called(name@));
        },
        Request::Roles => {
            assert forall|x: Role|
                ordered(db.tables.roles@).contains(x) <==> #[trigger] db.tables.roles@.contains(
                    x,
                ) by {
                ordered_contains(db.tables.roles@, x);
            }
        },
        Request::Messages { conv, before: page, limit, .. } => {
            let rows = newest(
                ordered(db.tables.posts@.filter(post_in(conv, page))),
                limit as int,
            );
            let found = r->Ok_0->Messages_0@;
            assert forall|i: int| 0 <= i < found.len() implies (#[trigger] found[i]).conv == conv
                && (page is Some ==> found[i].id.bits < page->Some_0.bits) by {
                a_page_holds_the_newest_messages(db, conv, page, limit, rows[i]);
                assert(rows.contains(rows[i]));
            }
        },
        Request::LogDump(limit) => {
            let events = r->Ok_0->Events_0@;
            assert forall|i: int| 0 <= i < events.len() implies db.log@.contains(
                #[trigger] events[i],
            ) by {
                the_log_is_listed_from_the_start(db, limit, events[i]);
                assert(events.contains(events[i]));
            }
        },
        _ => {},
    }
}

/// What is told of conversations is told to those they are open to: the list
/// holds no private one that whoever asked is not in, and those who are said to
/// be in a private one are its members.
pub proof fn private_conversations_stay_private(
    before: BusState,
    db: Db,
    user: UserId,
    conv: Conversation,
    stamp: Stamp,
    r: Result<Response, StoreError>,
    now: BusState,
    db_now: Db,
)
    requires
        conv.kind != ConvKind::Channel,
    ensures
        served(before, db, (Request::Conversations { user }), stamp, r, now, db_now) ==> (
        r matches Ok(Response::Conversations(convs)) && (convs@.contains(conv) ==> exists|m: Member|
            #[trigger]
            db.tables.members@.contains(m) && m.conv == conv.id && m.user == user)),
        served(before, db, Request::Members(conv.id), stamp, r, now, db_now) && first(
            db.tables.convs@,
            conv_is(conv.id),
        ) == Some(conv) ==> (r matches Ok(Response::Members(ids)) && (ids@.contains(user) ==> exists|
            m: Member,
        | #[trigger]
            db.tables.members@.contains(m) && m.conv == conv.id && m.user == user)),
{
    only_members_see_a_private_conversation(db, user, conv);
    if first(db.tables.convs@, conv_is(conv.id)) == Some(conv) && served(
        before,
        db,
        Request::Members(conv.id),
        stamp,
        r,
        now,
        db_now,
    ) {
        let ids = r->Ok_0->Members_0@;
        let rows = db.present(conv.id);
        if ids.contains(user) {
            let i = choose|i: int| 0 <= i < ids.len() && ids[i] == user;
            members_are_who_is_there(db, conv, rows[i]);
            assert(rows.contains(rows[i]));
        }
    }
}

/// Everyone is told to be in a channel.
pub proof fn everyone_is_in_a_channel(
    before: BusState,
    db: Db,
    a: Account,
    conv: Conversation,
    stamp: Stamp,
    r: Result<Response, StoreError>,
    now: BusState,
    db_now: Db,
)
    requires
        conv.kind == ConvKind::Channel,
        first(db.tables.convs@, conv_is(conv.id)) == Some(conv),
        db.tables.users@.contains(a),
        served(before, db, Request::Members(conv.id), stamp, r, now, db_now),
    ensures
        r matches Ok(Response::Members(ids)) && ids@.contains(a.id),
{
    members_are_who_is_there(db, conv, a);
    let rows = db.present(conv.id);
    let i = choose|i: int| 0 <= i < rows.len() && rows[i] == a;
    let ids = r->Ok_0->Members_0@;
    assert(ids[i] == a.id);
}

/// What a session has missed is sent to it, from the oldest on, unless it is
/// too much or too old; what is left out for being too much is reported.
pub proof fn what_was_missed_is_sent(
    before: BusState,
    db: Db,
    tags: Vec<Tag>,
    since: Option<Uuid>,
    stamp: Stamp,
    r: Result<Response, StoreError>,
    now: BusState,
    db_now: Db,
    e: Event,
)
    requires
        served(before, db, (Request::Replay { tags, since }), stamp, r, now, db_now),
    ensures
        r is Ok && r->Ok_0 is Replay,
        ({
            let events = r->Ok_0->Replay_events@;
            let wanted = db.log@.contains(e) && share_tag(tags_of(e.kind.deep_view()), tags@) && e.at
                >= stamp.at - 7 * 24 * 60 * 60 * 1000 && (since is Some ==> e.id.bits
                > since->Some_0.bits);
            &&& events.contains(e) ==> wanted
            &&& wanted && !r->Ok_0->Replay_truncated ==> events.contains(e)
            &&& events.len() <= 500
            &&& r->Ok_0->Replay_truncated <==> events.len() < db.backlog(tags@, since, stamp.at).len()
        }),
{
    a_replay_leaves_no_gap_unreported(db, tags@, since, stamp.at, e);
}

/// The keys that are told are those of the accounts, each with its owner.
pub proof fn keys_are_told_with_their_owners(
    before: BusState,
    db: Db,
    stamp: Stamp,
    r: Result<Response, StoreError>,
    now: BusState,
    db_now: Db,
    user: UserId,
    key: String,
)
    requires
        served(before, db, Request::UserKeys, stamp, r, now, db_now),
    ensures
        r matches Ok(Response::UserKeys(keys)) && (keys@.contains((user, key)) <==> exists|
            a: Account,
        | #[trigger]
            db.tables.users@.contains(a) && a.id == user && a.pubkey == key && a.pubkey@.len() > 0),
{
    only_real_keys_are_listed(db, user, key);
}

/// A shutdown stops the bus and nothing else does.
pub proof fn only_a_shutdown_stops_the_bus(
    before: BusState,
    db: Db,
    msg: BusMsg,
    stamp: Stamp,
    r: (Flow, Option<Reply>),
    now: BusState,
    db_now: Db,
)
    requires
        handled(before, db, msg, stamp, r, now, db_now),
    ensures
        r.0 == Flow::Stop <==> msg is Shutdown,
        msg is Request <==> r.1 is Some && r.1->Some_0 is Answer,
{
}

} // verus!
