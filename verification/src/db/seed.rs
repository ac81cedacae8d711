//! Demo content for a fresh database: enough users, roles, channels, DMs and
//! backdated messages to exercise grouping, day separators, markdown, flair,
//! member-list sections and scrollback.
use vstd::prelude::*;

use crate::db::script::{
    apart, blank, fits, follows, makes_conv, makes_name, makes_role, makes_user, perform,
    playable, refuses, Step, StepData,
};
use crate::db::tables::StoreError;
use crate::db::{count_of, Db};
use crate::model::{ConvId, ConvKind, EventKind, KindData, Millis, RoleId, UserId};
use crate::text::cat;

verus! {

const MINUTE: Millis = 60 * 1000;

const HOUR: Millis = 60 * 60 * 1000;

/// Setup events (roles, accounts, channel creation) all happen "at once", but
/// each gets its own millisecond so the log reads in the order it was written.
pub struct Clock {
    pub base: Millis,
    pub tick: Millis,
}

impl Clock {
    /// Whether every time that the demo needs can be told.
    pub open spec fn covers_the_demo(self) -> bool {
        self.base <= i64::MAX - 96_000_000 && 0 <= self.tick <= 31
    }

    pub fn setup(&mut self) -> (r: Millis)
        requires
            old(self).tick < i64::MAX,
            i64::MIN <= old(self).base + old(self).tick + 1 <= i64::MAX,
        ensures
            final(self).base == old(self).base,
            final(self).tick == old(self).tick + 1,
            r == old(self).base + old(self).tick + 1,
    {
        self.tick += 1;
        self.base + self.tick
    }

    pub fn at(&self, minutes: Millis) -> (r: Millis)
        requires
            i64::MIN <= minutes * 60_000 <= i64::MAX,
            i64::MIN <= self.base + minutes * 60_000 <= i64::MAX,
        ensures
            r == self.base + minutes * 60_000,
    {
        self.base + minutes * MINUTE
    }
}

/// Everyone and everything in the demo.
#[derive(Debug, Clone, Copy)]
pub struct Cast {
    pub sysop: RoleId,
    pub op: RoleId,
    pub regular: RoleId,
    pub admin: UserId,
    pub alice: UserId,
    pub bob: UserId,
    pub carol: UserId,
    pub dave: UserId,
    pub general: ConvId,
    pub dev: ConvId,
    pub random: ConvId,
    pub group: ConvId,
    pub dm_alice: ConvId,
    pub dm_bob: ConvId,
}

// ---------------------------------------------------------------------------
// what happens
// ---------------------------------------------------------------------------

pub open spec fn quietly(kind: KindData, at: int) -> StepData {
    StepData { actor: None, kind, at: at as Millis }
}

pub open spec fn role_made(
    id: RoleId,
    name: Seq<char>,
    color: u32,
    priority: i64,
    hoisted: bool,
    admin: bool,
    at: int,
) -> StepData {
    quietly(KindData::RoleCreated { role: id, name, color, priority, hoisted, admin }, at)
}

/// Someone says something, some minutes after `base`.
pub open spec fn said(
    conv: ConvId,
    author: UserId,
    minutes: nat,
    body: Seq<char>,
    base: Millis,
) -> StepData {
    StepData {
        actor: Some(author),
        kind: KindData::MessageSent { conv, author, body },
        at: (base + minutes * 60_000) as Millis,
    }
}

pub open spec fn roles_made(c: Cast, base: Millis) -> Seq<StepData> {
    seq![
        role_made(c.sysop, "sysop"@, 0xe06c75, 100, true, true, base + 1),
        role_made(c.op, "op"@, 0x61afef, 50, true, false, base + 2),
        role_made(c.regular, "regular"@, 0x98c379, 10, false, false, base + 3),
    ]
}

/// Someone gets an account.
pub open spec fn account_made(id: UserId, name: Seq<char>, at: int) -> StepData {
    quietly(
        KindData::UserCreated { user: id, name, pubkey: "ssh-ed25519 AAAAC3Nza-demo-"@ + name },
        at,
    )
}

/// Someone says something about themselves.
pub open spec fn bio_set(id: UserId, bio: Seq<char>, at: int) -> StepData {
    StepData { actor: Some(id), kind: KindData::BioSet { user: id, bio }, at: at as Millis }
}

pub open spec fn role_granted(user: UserId, role: RoleId, at: int) -> StepData {
    quietly(KindData::RoleGranted { user, role }, at)
}

pub open spec fn conv_made(id: ConvId, kind: ConvKind, name: Seq<char>, at: int) -> StepData {
    quietly(KindData::ConvCreated { conv: id, kind, name }, at)
}

pub open spec fn topic_set(conv: ConvId, topic: Seq<char>, at: int) -> StepData {
    quietly(KindData::TopicSet { conv, topic }, at)
}

pub open spec fn joined(conv: ConvId, user: UserId, at: int) -> StepData {
    quietly(KindData::MemberJoined { conv, user }, at)
}

pub open spec fn people_made(c: Cast, base: Millis) -> Seq<StepData> {
    seq![
        account_made(c.admin, "admin"@, base + 4),
        bio_set(c.admin, "Runs this box. Ping me for an invite."@, base + 5),
        role_granted(c.admin, c.sysop, base + 6),
        account_made(c.alice, "alice"@, base + 7),
        bio_set(c.alice, "Rust, synths, and long walks to the fridge."@, base + 8),
        role_granted(c.alice, c.op, base + 9),
        account_made(c.bob, "bob"@, base + 10),
        bio_set(c.bob, "just here for the gossip"@, base + 11),
        role_granted(c.bob, c.regular, base + 12),
        account_made(c.carol, "carol"@, base + 13),
        role_granted(c.carol, c.regular, base + 14),
        account_made(c.dave, "dave"@, base + 15),
        bio_set(c.dave, "new here"@, base + 16),
    ]
}

pub open spec fn places_made(c: Cast, base: Millis) -> Seq<StepData> {
    seq![
        conv_made(c.general, ConvKind::Channel, "general"@, base + 17),
        topic_set(c.general, "anything goes"@, base + 18),
        conv_made(c.dev, ConvKind::Channel, "dev"@, base + 19),
        topic_set(c.dev, "newbbs development"@, base + 20),
        conv_made(c.random, ConvKind::Channel, "random"@, base + 21),
        conv_made(c.group, ConvKind::Group, "weekend-plans"@, base + 22),
        joined(c.group, c.admin, base + 23),
        joined(c.group, c.alice, base + 24),
        joined(c.group, c.bob, base + 25),
        conv_made(c.dm_alice, ConvKind::Dm, ""@, base + 26),
        joined(c.dm_alice, c.admin, base + 27),
        joined(c.dm_alice, c.alice, base + 28),
        conv_made(c.dm_bob, ConvKind::Dm, ""@, base + 29),
        joined(c.dm_bob, c.admin, base + 30),
        joined(c.dm_bob, c.bob, base + 31),
    ]
}

/// What is said in #general, over two days.
pub open spec fn general_talk(c: Cast, base: Millis) -> Seq<StepData> {
    seq![
        said(c.general, c.alice, 5, "morning all"@, base),
        said(c.general, c.alice, 6, "the board is back up after last night's reboot"@, base),
        said(c.general, c.bob, 12, "nice. did the *event log* survive?"@, base),
        said(c.general, c.alice, 14, "all of it. it's append-only, there's nothing to corrupt"@, base),
        said(c.general, c.carol, 45, "is there a keybinding cheatsheet anywhere?"@, base),
        said(c.general, c.admin, 52, "`:help` in command mode. it's the short list for now"@, base),
        said(c.general, c.dave, 90, "hi, just got my invite. what is this place"@, base),
        said(c.general, c.alice, 95, "a BBS with delusions of being discord. welcome"@, base),
        said(c.general, c.alice, 96, "read the topic, then say something in #random"@, base),
        said(c.general, c.bob, 300, "~~lunch~~ dinner?"@, base),
        said(c.general, c.carol, 25 * 60, "so did anyone actually eat"@, base),
        said(c.general, c.bob, 25 * 60 + 3, "i had cereal at 2am, it counts"@, base),
        said(c.general, c.admin, 25 * 60 + 40, "new build is live. **vim keys**: `i` to talk, `esc` to scroll, `/` to jump"@, base),
        said(c.general, c.alice, 25 * 60 + 44, "the fuzzy switcher is the good part"@, base),
    ]
}

/// What is said in #dev.
pub open spec fn dev_talk(c: Cast, base: Millis) -> Seq<StepData> {
    seq![
        said(c.dev, c.admin, 30, "starting on the event bus today"@, base),
        said(c.dev, c.admin, 31, "every read and write goes through it, so subscriptions are free"@, base),
        said(c.dev, c.alice, 60, "what happens when a session can't keep up?"@, base),
        said(c.dev, c.admin, 65, "bounded queue, and on overflow the session gets a resync marker instead of blocking everyone else"@, base),
        said(c.dev, c.alice, 70, "> bounded queue\n\nsensible. what size?"@, base),
        said(c.dev, c.admin, 72, "256 for now:\n\n```rust\npub const SESSION_QUEUE: usize = 256;\n```"@, base),
        said(c.dev, c.bob, 25 * 60 + 10, "does the 16-byte inline thing actually fire?"@, base),
        said(c.dev, c.admin, 25 * 60 + 15, "for presence and typing, yes. and for short ones. a long `MessageSent` doesn't fit, so it ships as a uuid"@, base),
    ]
}

/// What is said in #random, in the group and in private.
pub open spec fn other_talk(c: Cast, base: Millis) -> Seq<StepData> {
    seq![
        said(c.random, c.bob, 120, "this terminal renders _italics_ properly and i'm unreasonably happy about it"@, base),
        said(c.random, c.carol, 130, "wait until you see the day separator"@, base),
        said(c.random, c.dave, 25 * 60 + 100, "found the fuzzy finder. i'm never using a mouse again"@, base),
        said(c.group, c.alice, 200, "saturday still on?"@, base),
        said(c.group, c.bob, 205, "yep"@, base),
        said(c.group, c.admin, 25 * 60 + 5, "i'll bring the laptop, we can hack on the ssh layer"@, base),
        said(c.dm_alice, c.alice, 80, "can you bump my role? i want the blue name"@, base),
        said(c.dm_alice, c.admin, 85, "done. try `:info alice`"@, base),
        said(c.dm_alice, c.alice, 86, "oh that's nice"@, base),
        said(c.dm_bob, c.bob, 25 * 60 + 30, "is the ssh server done yet"@, base),
        said(c.dm_bob, c.admin, 25 * 60 + 31, "no"@, base),
    ]
}

pub open spec fn demo_setup(c: Cast, base: Millis) -> Seq<StepData> {
    roles_made(c, base) + people_made(c, base) + places_made(c, base)
}

pub open spec fn demo_talk(c: Cast, base: Millis) -> Seq<StepData> {
    general_talk(c, base) + dev_talk(c, base) + other_talk(c, base)
}

/// Everything that happens in the demo.
pub open spec fn demo(c: Cast, base: Millis) -> Seq<StepData> {
    demo_setup(c, base) + demo_talk(c, base)
}

// ---------------------------------------------------------------------------
// writing it down
// ---------------------------------------------------------------------------

/// Someone gets an account, says something about themselves if there is
/// anything to say, and is given a role if there is one to give. The first of
/// these happens at `at`, each other one a millisecond later.
spec fn arrival(
    id: UserId,
    name: Seq<char>,
    bio: Seq<char>,
    role: Option<RoleId>,
    at: int,
) -> Seq<StepData> {
    let created = seq![account_made(id, name, at)];
    let told = if bio.len() > 0 {
        created.push(bio_set(id, bio, at + 1))
    } else {
        created
    };
    match role {
        Some(role) => told.push(role_granted(id, role, at + told.len())),
        None => told,
    }
}

/// A conversation is opened, and given a topic if there is one.
spec fn place(
    id: ConvId,
    kind: ConvKind,
    name: Seq<char>,
    topic: Seq<char>,
    at: int,
) -> Seq<StepData> {
    let created = seq![conv_made(id, kind, name, at)];
    if topic.len() > 0 {
        created.push(topic_set(id, topic, at + 1))
    } else {
        created
    }
}

/// People join a conversation, one after the other.
spec fn joining(conv: ConvId, users: Seq<UserId>, at: int) -> Seq<StepData> {
    Seq::new(users.len(), |i: int| joined(conv, users[i], at + i))
}

fn role(
    script: &mut Vec<Step>,
    clock: &mut Clock,
    id: RoleId,
    name: &str,
    color: u32,
    priority: i64,
    hoisted: bool,
    admin: bool,
)
    requires
        old(clock).covers_the_demo(),
    ensures
        final(clock).base == old(clock).base,
        final(clock).tick == old(clock).tick + 1,
        final(script).deep_view() == old(script).deep_view().push(
            role_made(
                id,
                name@,
                color,
                priority,
                hoisted,
                admin,
                old(clock).base + old(clock).tick + 1,
            ),
        ),
{
    let at = clock.setup();
    script.push(
        Step {
            actor: None,
            kind: EventKind::RoleCreated {
                role: id,
                name: name.to_owned(),
                color,
                priority,
                hoisted,
                admin,
            },
            at,
        },
    );
    assert(script.deep_view() =~= old(script).deep_view().push(
        role_made(id, name@, color, priority, hoisted, admin, at as int),
    ));
}

fn user(
    script: &mut Vec<Step>,
    clock: &mut Clock,
    id: UserId,
    name: &str,
    bio: &str,
    role: Option<RoleId>,
)
    requires
        old(clock).covers_the_demo(),
    ensures
        final(clock).base == old(clock).base,
        final(clock).tick == old(clock).tick + arrival(id, name@, bio@, role, 0).len(),
        final(script).deep_view() == old(script).deep_view() + arrival(
            id,
            name@,
            bio@,
            role,
            old(clock).base + old(clock).tick + 1,
        ),
{
    let ghost before = script.deep_view();
    let ghost start = clock.base + clock.tick + 1;
    let at = clock.setup();
    script.push(
        Step {
            actor: None,
            kind: EventKind::UserCreated {
                user: id,
                name: name.to_owned(),
                pubkey: cat("ssh-ed25519 AAAAC3Nza-demo-", name),
            },
            at,
        },
    );
    if !bio.is_empty() {
        let at = clock.setup();
        script.push(
            Step {
                actor: Some(id),
                kind: EventKind::BioSet { user: id, bio: bio.to_owned() },
                at,
            },
        );
    }
    if let Some(role) = role {
        let at = clock.setup();
        script.push(
            Step { actor: None, kind: EventKind::RoleGranted { user: id, role }, at },
        );
    }
    assert(script.deep_view() =~= before + arrival(id, name@, bio@, role, start));
}

fn conv(
    script: &mut Vec<Step>,
    clock: &mut Clock,
    id: ConvId,
    kind: ConvKind,
    name: &str,
    topic: &str,
)
    requires
        old(clock).covers_the_demo(),
    ensures
        final(clock).base == old(clock).base,
        final(clock).tick == old(clock).tick + place(id, kind, name@, topic@, 0).len(),
        final(script).deep_view() == old(script).deep_view() + place(
            id,
            kind,
            name@,
            topic@,
            old(clock).base + old(clock).tick + 1,
        ),
{
    let ghost before = script.deep_view();
    let ghost start = clock.base + clock.tick + 1;
    let at = clock.setup();
    script.push(
        Step {
            actor: None,
            kind: EventKind::ConvCreated { conv: id, kind, name: name.to_owned() },
            at,
        },
    );
    if !topic.is_empty() {
        let at = clock.setup();
        script.push(
            Step {
                actor: None,
                kind: EventKind::TopicSet { conv: id, topic: topic.to_owned() },
                at,
            },
        );
    }
    assert(script.deep_view() =~= before + place(id, kind, name@, topic@, start));
}

fn join(script: &mut Vec<Step>, clock: &mut Clock, conv: ConvId, users: &Vec<UserId>)
    requires
        old(clock).covers_the_demo(),
        users.len() <= 3,
    ensures
        final(clock).base == old(clock).base,
        final(clock).tick == old(clock).tick + users.len(),
        final(script).deep_view() == old(script).deep_view() + joining(
            conv,
            users@,
            old(clock).base + old(clock).tick + 1,
        ),
{
    let ghost before = script.deep_view();
    let ghost start = clock.base + clock.tick + 1;
    let mut i: usize = 0;
    while i < users.len()
        invariant
            i <= users.len() <= 3,
            old(clock).covers_the_demo(),
            start == old(clock).base + old(clock).tick + 1,
            clock.base == old(clock).base,
            clock.tick == old(clock).tick + i,
            script.deep_view() == before + joining(conv, users@, start).take(i as int),
        decreases users.len() - i,
    {
        let at = clock.setup();
        let ghost so_far = script.deep_view();
        script.push(
            Step { actor: None, kind: EventKind::MemberJoined { conv, user: users[i] }, at },
        );
        proof {
            let all = joining(conv, users@, start);
            assert(script.deep_view() =~= so_far.push(all[i as int]));
            assert(all.take(i + 1) =~= all.take(i as int).push(all[i as int]));
            assert((before + all.take(i as int)).push(all[i as int]) =~= before + all.take(i + 1));
        }
        i += 1;
    }
    assert(joining(conv, users@, start).take(i as int) =~= joining(conv, users@, start));
}

fn say(
    script: &mut Vec<Step>,
    clock: &Clock,
    conv: ConvId,
    author: UserId,
    minutes: Millis,
    body: &str,
)
    requires
        clock.covers_the_demo(),
        0 <= minutes <= 1600,
    ensures
        final(script).deep_view() == old(script).deep_view().push(
            said(conv, author, minutes as nat, body@, clock.base),
        ),
{
    let at = clock.at(minutes);
    script.push(
        Step {
            actor: Some(author),
            kind: EventKind::MessageSent { conv, author, body: body.to_owned() },
            at,
        },
    );
    assert(script.deep_view() =~= old(script).deep_view().push(
        said(conv, author, minutes as nat, body@, clock.base),
    ));
}

fn talk_in_general(script: &mut Vec<Step>, clock: &Clock, c: Cast)
    requires
        clock.covers_the_demo(),
    ensures
        final(script).deep_view() == old(script).deep_view() + general_talk(c, clock.base),
{
    let ghost before = script.deep_view();
    say(script, clock, c.general, c.alice, 5, "morning all");
    say(script, clock, c.general, c.alice, 6, "the board is back up after last night's reboot");
    say(script, clock, c.general, c.bob, 12, "nice. did the *event log* survive?");
    say(script, clock, c.general, c.alice, 14, "all of it. it's append-only, there's nothing to corrupt");
    say(script, clock, c.general, c.carol, 45, "is there a keybinding cheatsheet anywhere?");
    say(script, clock, c.general, c.admin, 52, "`:help` in command mode. it's the short list for now");
    say(script, clock, c.general, c.dave, 90, "hi, just got my invite. what is this place");
    say(script, clock, c.general, c.alice, 95, "a BBS with delusions of being discord. welcome");
    say(script, clock, c.general, c.alice, 96, "read the topic, then say something in #random");
    say(script, clock, c.general, c.bob, 300, "~~lunch~~ dinner?");
    say(script, clock, c.general, c.carol, 25 * 60, "so did anyone actually eat");
    say(script, clock, c.general, c.bob, 25 * 60 + 3, "i had cereal at 2am, it counts");
    say(script, clock, c.general, c.admin, 25 * 60 + 40, "new build is live. **vim keys**: `i` to talk, `esc` to scroll, `/` to jump");
    say(script, clock, c.general, c.alice, 25 * 60 + 44, "the fuzzy switcher is the good part");
    assert(script.deep_view() =~= before + general_talk(c, clock.base));
}

fn talk_in_dev(script: &mut Vec<Step>, clock: &Clock, c: Cast)
    requires
        clock.covers_the_demo(),
    ensures
        final(script).deep_view() == old(script).deep_view() + dev_talk(c, clock.base),
{
    let ghost before = script.deep_view();
    say(script, clock, c.dev, c.admin, 30, "starting on the event bus today");
    say(script, clock, c.dev, c.admin, 31, "every read and write goes through it, so subscriptions are free");
    say(script, clock, c.dev, c.alice, 60, "what happens when a session can't keep up?");
    say(script, clock, c.dev, c.admin, 65, "bounded queue, and on overflow the session gets a resync marker instead of blocking everyone else");
    say(script, clock, c.dev, c.alice, 70, "> bounded queue\n\nsensible. what size?");
    say(script, clock, c.dev, c.admin, 72, "256 for now:\n\n```rust\npub const SESSION_QUEUE: usize = 256;\n```");
    say(script, clock, c.dev, c.bob, 25 * 60 + 10, "does the 16-byte inline thing actually fire?");
    say(script, clock, c.dev, c.admin, 25 * 60 + 15, "for presence and typing, yes. and for short ones. a long `MessageSent` doesn't fit, so it ships as a uuid");
    assert(script.deep_view() =~= before + dev_talk(c, clock.base));
}

fn talk_elsewhere(script: &mut Vec<Step>, clock: &Clock, c: Cast)
    requires
        clock.covers_the_demo(),
    ensures
        final(script).deep_view() == old(script).deep_view() + other_talk(c, clock.base),
{
    let ghost before = script.deep_view();
    say(script, clock, c.random, c.bob, 120, "this terminal renders _italics_ properly and i'm unreasonably happy about it");
    say(script, clock, c.random, c.carol, 130, "wait until you see the day separator");
    say(script, clock, c.random, c.dave, 25 * 60 + 100, "found the fuzzy finder. i'm never using a mouse again");
    say(script, clock, c.group, c.alice, 200, "saturday still on?");
    say(script, clock, c.group, c.bob, 205, "yep");
    say(script, clock, c.group, c.admin, 25 * 60 + 5, "i'll bring the laptop, we can hack on the ssh layer");
    say(script, clock, c.dm_alice, c.alice, 80, "can you bump my role? i want the blue name");
    say(script, clock, c.dm_alice, c.admin, 85, "done. try `:info alice`");
    say(script, clock, c.dm_alice, c.alice, 86, "oh that's nice");
    say(script, clock, c.dm_bob, c.bob, 25 * 60 + 30, "is the ssh server done yet");
    say(script, clock, c.dm_bob, c.admin, 25 * 60 + 31, "no");
    assert(script.deep_view() =~= before + other_talk(c, clock.base));
}

fn write_setup(script: &mut Vec<Step>, clock: &mut Clock, c: Cast)
    requires
        old(clock).base <= i64::MAX - 96_000_000,
        old(clock).tick == 0,
    ensures
        final(clock).base == old(clock).base,
        final(clock).tick == 31,
        final(script).deep_view() == old(script).deep_view() + demo_setup(c, old(clock).base),
{
    let ghost s0 = script.deep_view();
    let ghost base = clock.base;
    proof {
        reveal_strlit("Runs this box. Ping me for an invite.");
        reveal_strlit("Rust, synths, and long walks to the fridge.");
        reveal_strlit("just here for the gossip");
        reveal_strlit("");
        reveal_strlit("new here");
        reveal_strlit("anything goes");
        reveal_strlit("newbbs development");
    }
    role(script, clock, c.sysop, "sysop", 0xe06c75, 100, true, true);
    role(script, clock, c.op, "op", 0x61afef, 50, true, false);
    role(script, clock, c.regular, "regular", 0x98c379, 10, false, false);
    assert(script.deep_view() =~= s0 + roles_made(c, base));
    let ghost s1 = script.deep_view();

    user(
        script,
        clock,
        c.admin,
        "admin",
        "Runs this box. Ping me for an invite.",
        Some(c.sysop),
    );
    user(
        script,
        clock,
        c.alice,
        "alice",
        "Rust, synths, and long walks to the fridge.",
        Some(c.op),
    );
    user(script, clock, c.bob, "bob", "just here for the gossip", Some(c.regular));
    user(script, clock, c.carol, "carol", "", Some(c.regular));
    user(script, clock, c.dave, "dave", "new here", None);
    assert(clock.tick == 16);
    assert(script.deep_view() =~= s1 + people_made(c, base));
    let ghost s2 = script.deep_view();

    conv(script, clock, c.general, ConvKind::Channel, "general", "anything goes");
    conv(script, clock, c.dev, ConvKind::Channel, "dev", "newbbs development");
    conv(script, clock, c.random, ConvKind::Channel, "random", "");
    conv(script, clock, c.group, ConvKind::Group, "weekend-plans", "");
    let trio: Vec<UserId> = vec![c.admin, c.alice, c.bob];
    join(script, clock, c.group, &trio);
    conv(script, clock, c.dm_alice, ConvKind::Dm, "", "");
    let pair: Vec<UserId> = vec![c.admin, c.alice];
    join(script, clock, c.dm_alice, &pair);
    conv(script, clock, c.dm_bob, ConvKind::Dm, "", "");
    let other: Vec<UserId> = vec![c.admin, c.bob];
    join(script, clock, c.dm_bob, &other);
    proof {
        assert(trio@ =~= seq![c.admin, c.alice, c.bob]);
        assert(pair@ =~= seq![c.admin, c.alice]);
        assert(other@ =~= seq![c.admin, c.bob]);
        assert(script.deep_view() =~= s2 + places_made(c, base));
        assert(script.deep_view() =~= s0 + demo_setup(c, base));
    }
}

/// Write the whole demo down.
fn write_demo(base: Millis, c: Cast) -> (r: Vec<Step>)
    requires
        base <= i64::MAX - 96_000_000,
    ensures
        r.deep_view() == demo(c, base),
{
    let mut script: Vec<Step> = Vec::new();
    let mut clock = Clock { base, tick: 0 };
    assert(script.deep_view() =~= seq![]);
    write_setup(&mut script, &mut clock, c);
    talk_in_general(&mut script, &clock, c);
    talk_in_dev(&mut script, &clock, c);
    talk_elsewhere(&mut script, &clock, c);
    assert(script.deep_view() =~= demo(c, base));
    script
}

// ---------------------------------------------------------------------------
// the demo cannot be refused by a blank store
// ---------------------------------------------------------------------------

/// No two things of one sort share an id.
pub open spec fn well_cast(c: Cast) -> bool {
    &&& c.sysop < c.op < c.regular
    &&& c.admin < c.alice < c.bob < c.carol < c.dave
    &&& c.general < c.dev < c.random < c.group < c.dm_alice < c.dm_bob
}

proof fn lemma_names_differ()
    ensures
        "admin"@ != "alice"@,
        "admin"@ != "bob"@,
        "admin"@ != "carol"@,
        "admin"@ != "dave"@,
        "alice"@ != "bob"@,
        "alice"@ != "carol"@,
        "alice"@ != "dave"@,
        "bob"@ != "carol"@,
        "bob"@ != "dave"@,
        "carol"@ != "dave"@,
{
    reveal_strlit("admin");
    reveal_strlit("alice");
    reveal_strlit("bob");
    reveal_strlit("carol");
    reveal_strlit("dave");
    assert("admin"@[1] == 'd' && "alice"@[1] == 'l' && "bob"@[1] == 'o' && "carol"@[1] == 'a'
        && "dave"@[1] == 'a');
    assert("carol"@[0] == 'c' && "dave"@[0] == 'd');
}

#[verifier::rlimit(100)]
proof fn lemma_setup_fits(c: Cast, base: Millis)
    requires
        0 <= base <= i64::MAX - 96_000_000,
        well_cast(c),
    ensures
        demo_setup(c, base).len() == 31,
        forall|n: int| 0 <= n < 31 ==> #[trigger] fits(demo_setup(c, base), n),
        forall|n: int| 0 <= n < 31 ==> (#[trigger] demo_setup(c, base)[n]).at == base + n + 1,
{
    let s = demo_setup(c, base);
    let (r, p, q) = (roles_made(c, base), people_made(c, base), places_made(c, base));
    lemma_names_differ();
    assert(s[0] == r[0]);
    assert(s[1] == r[1]);
    assert(s[2] == r[2]);
    assert(s[3] == p[0]);
    assert(s[4] == p[1]);
    assert(s[5] == p[2]);
    assert(s[6] == p[3]);
    assert(s[7] == p[4]);
    assert(s[8] == p[5]);
    assert(s[9] == p[6]);
    assert(s[10] == p[7]);
    assert(s[11] == p[8]);
    assert(s[12] == p[9]);
    assert(s[13] == p[10]);
    assert(s[14] == p[11]);
    assert(s[15] == p[12]);
    assert(s[16] == q[0]);
    assert(s[17] == q[1]);
    assert(s[18] == q[2]);
    assert(s[19] == q[3]);
    assert(s[20] == q[4]);
    assert(s[21] == q[5]);
    assert(s[22] == q[6]);
    assert(s[23] == q[7]);
    assert(s[24] == q[8]);
    assert(s[25] == q[9]);
    assert(s[26] == q[10]);
    assert(s[27] == q[11]);
    assert(s[28] == q[12]);
    assert(s[29] == q[13]);
    assert(s[30] == q[14]);
}

/// Whether a step is a message from someone to somewhere in the demo where they
/// may speak.
spec fn spoken(c: Cast, step: StepData) -> bool {
    &&& step.kind is MessageSent
    &&& step.actor == Some(step.kind->MessageSent_author)
    &&& {
        let conv = step.kind->MessageSent_conv;
        let author = step.kind->MessageSent_author;
        let open = conv == c.general || conv == c.dev || conv == c.random;
        ||| author == c.admin && (open || conv == c.group || conv == c.dm_alice || conv == c.dm_bob)
        ||| author == c.alice && (open || conv == c.group || conv == c.dm_alice)
        ||| author == c.bob && (open || conv == c.group || conv == c.dm_bob)
        ||| author == c.carol && open
        ||| author == c.dave && open
    }
}

#[verifier::rlimit(100)]
proof fn lemma_talk_is_spoken(c: Cast, base: Millis)
    requires
        0 <= base <= i64::MAX - 96_000_000,
    ensures
        demo_talk(c, base).len() == 33,
        forall|k: int| 0 <= k < 33 ==> spoken(c, #[trigger] demo_talk(c, base)[k]),
        forall|k: int|
            0 <= k < 33 ==> base + 300_000 <= (#[trigger] demo_talk(c, base)[k]).at <= base
                + 96_000_000,
        forall|i: int, j: int|
            0 <= i < j < 33 ==> (#[trigger] demo_talk(c, base)[i]).at != (
            #[trigger] demo_talk(c, base)[j]).at,
{
    let s = demo_talk(c, base);
    let (g, d, o) = (general_talk(c, base), dev_talk(c, base), other_talk(c, base));
    assert(s[0] == g[0]);
    assert(s[1] == g[1]);
    assert(s[2] == g[2]);
    assert(s[3] == g[3]);
    assert(s[4] == g[4]);
    assert(s[5] == g[5]);
    assert(s[6] == g[6]);
    assert(s[7] == g[7]);
    assert(s[8] == g[8]);
    assert(s[9] == g[9]);
    assert(s[10] == g[10]);
    assert(s[11] == g[11]);
    assert(s[12] == g[12]);
    assert(s[13] == g[13]);
    assert(s[14] == d[0]);
    assert(s[15] == d[1]);
    assert(s[16] == d[2]);
    assert(s[17] == d[3]);
    assert(s[18] == d[4]);
    assert(s[19] == d[5]);
    assert(s[20] == d[6]);
    assert(s[21] == d[7]);
    assert(s[22] == o[0]);
    assert(s[23] == o[1]);
    assert(s[24] == o[2]);
    assert(s[25] == o[3]);
    assert(s[26] == o[4]);
    assert(s[27] == o[5]);
    assert(s[28] == o[6]);
    assert(s[29] == o[7]);
    assert(s[30] == o[8]);
    assert(s[31] == o[9]);
    assert(s[32] == o[10]);
}

/// The demo is one that no blank store refuses.
proof fn lemma_demo_is_playable(c: Cast, base: Millis)
    requires
        0 <= base <= i64::MAX - 96_000_000,
        well_cast(c),
    ensures
        playable(demo(c, base)),
{
    let s = demo(c, base);
    let a = demo_setup(c, base);
    let t = demo_talk(c, base);
    let (r, p, q) = (roles_made(c, base), people_made(c, base), places_made(c, base));
    lemma_setup_fits(c, base);
    lemma_talk_is_spoken(c, base);
    assert forall|n: int| 0 <= n < s.len() implies #[trigger] fits(s, n) by {
        if n < 31 {
            assert(fits(a, n));
            lemma_fits_in_longer(a, t, n);
        } else {
            assert(s[n] == t[n - 31]);
            assert(spoken(c, t[n - 31]));
            assert(a[3] == p[0] && a[6] == p[3] && a[9] == p[6] && a[12] == p[9] && a[14]
                == p[11]);
            assert(a[16] == q[0] && a[18] == q[2] && a[20] == q[4] && a[21] == q[5] && a[25]
                == q[9] && a[28] == q[12]);
            assert(s[3] == a[3] && s[6] == a[6] && s[9] == a[9] && s[12] == a[12] && s[14]
                == a[14]);
            assert(s[16] == a[16] && s[18] == a[18] && s[20] == a[20] && s[21] == a[21] && s[25]
                == a[25] && s[28] == a[28]);
        }
    }
    assert forall|i: int, j: int| 0 <= i < j < s.len() implies apart(
        (#[trigger] s[i]).at,
        (#[trigger] s[j]).at,
    ) by {
        if i < 31 {
            assert(s[i] == a[i]);
        } else {
            assert(s[i] == t[i - 31]);
        }
        if j < 31 {
            assert(s[j] == a[j]);
        } else {
            assert(s[j] == t[j - 31]);
        }
    }
}

proof fn lemma_fits_in_longer(a: Seq<StepData>, t: Seq<StepData>, n: int)
    requires
        0 <= n < a.len(),
    ensures
        fits(a + t, n) == fits(a, n),
{
    let s = a + t;
    assert forall|j: int| 0 <= j <= n implies #[trigger] s[j] == a[j] by {}
    assert forall|id: RoleId| #[trigger] makes_role(s, n, id) == makes_role(a, n, id) by {
        if makes_role(a, n, id) {
            let j = choose|j: int|
                0 <= j < n && ((#[trigger] a[j]).kind matches KindData::RoleCreated { role, .. }
                    && role == id);
            assert(s[j] == a[j]);
        }
    }
    assert forall|id: UserId| #[trigger] makes_user(s, n, id) == makes_user(a, n, id) by {
        if makes_user(a, n, id) {
            let j = choose|j: int|
                0 <= j < n && ((#[trigger] a[j]).kind matches KindData::UserCreated { user, .. }
                    && user == id);
            assert(s[j] == a[j]);
        }
    }
    assert forall|called: Seq<char>| #[trigger] makes_name(s, n, called) == makes_name(
        a,
        n,
        called,
    ) by {
        if makes_name(a, n, called) {
            let j = choose|j: int|
                0 <= j < n && ((#[trigger] a[j]).kind matches KindData::UserCreated { name, .. }
                    && name == called);
            assert(s[j] == a[j]);
        }
    }
    assert forall|id: ConvId| #[trigger] makes_conv(s, n, id) == makes_conv(a, n, id) by {
        if makes_conv(a, n, id) {
            let j = choose|j: int|
                0 <= j < n && ((#[trigger] a[j]).kind matches KindData::ConvCreated { conv, .. }
                    && conv == id);
            assert(s[j] == a[j]);
        }
    }
}

// ---------------------------------------------------------------------------
// putting it on
// ---------------------------------------------------------------------------

/// The cast, with the next ids that the counters give.
pub open spec fn cast_of(db: Db) -> Cast {
    let roles = count_of(db.counters@, "role"@);
    let users = count_of(db.counters@, "user"@);
    let convs = count_of(db.counters@, "conv"@);
    Cast {
        sysop: (roles + 1) as i64,
        op: (roles + 2) as i64,
        regular: (roles + 3) as i64,
        admin: (users + 1) as i64,
        alice: (users + 2) as i64,
        bob: (users + 3) as i64,
        carol: (users + 4) as i64,
        dave: (users + 5) as i64,
        general: (convs + 1) as i64,
        dev: (convs + 2) as i64,
        random: (convs + 3) as i64,
        group: (convs + 4) as i64,
        dm_alice: (convs + 5) as i64,
        dm_bob: (convs + 6) as i64,
    }
}

/// Whether the counters have ids left for everyone and everything.
pub open spec fn room_for_the_cast(db: Db) -> bool {
    &&& count_of(db.counters@, "role"@) <= i64::MAX - 3
    &&& count_of(db.counters@, "user"@) <= i64::MAX - 5
    &&& count_of(db.counters@, "conv"@) <= i64::MAX - 6
}

/// What putting the demo on comes to: all of it happened, or it was cut short
/// by a counter or at the first event that was refused.
pub open spec fn seeded(before: Db, base: Millis, r: Result<UserId, StoreError>, now: Db) -> bool {
    match r {
        Ok(admin) => {
            &&& room_for_the_cast(before)
            &&& admin == cast_of(before).admin
            &&& follows(before, now, demo(cast_of(before), base))
            &&& count_of(now.counters@, "role"@) == cast_of(before).regular
            &&& count_of(now.counters@, "user"@) == cast_of(before).dave
            &&& count_of(now.counters@, "conv"@) == cast_of(before).dm_bob
        },
        Err(e) => if !room_for_the_cast(before) {
            e == StoreError::CounterExhausted && follows(before, now, seq![])
        } else {
            exists|n: int|
                {
                    &&& 0 <= n < demo(cast_of(before), base).len()
                    &&& #[trigger] follows(before, now, demo(cast_of(before), base).take(n))
                    &&& refuses(now, demo(cast_of(before), base)[n], e)
                }
        },
    }
}

/// Reserve the next `count` ids.
fn reserve(db: &mut Db, counter: &str, count: usize) -> (r: Result<Vec<i64>, StoreError>)
    ensures
        final(db).tables == old(db).tables,
        final(db).log == old(db).log,
        final(db).settings == old(db).settings,
        forall|other: Seq<char>|
            other != counter@ ==> #[trigger] count_of(final(db).counters@, other) == count_of(
                old(db).counters@,
                other,
            ),
        match r {
            Ok(ids) => {
                &&& ids.len() == count
                &&& forall|i: int|
                    0 <= i < count ==> #[trigger] ids[i] == count_of(old(db).counters@, counter@)
                        + 1 + i
                &&& count_of(final(db).counters@, counter@) == count_of(
                    old(db).counters@,
                    counter@,
                ) + count
            },
            Err(e) => e == StoreError::CounterExhausted && count_of(old(db).counters@, counter@)
                + count > i64::MAX,
        },
{
    let mut ids: Vec<i64> = Vec::new();
    let mut i: usize = 0;
    while i < count
        invariant
            i <= count,
            ids.len() == i,
            db.tables == old(db).tables,
            db.log == old(db).log,
            db.settings == old(db).settings,
            forall|other: Seq<char>|
                other != counter@ ==> #[trigger] count_of(db.counters@, other) == count_of(
                    old(db).counters@,
                    other,
                ),
            forall|j: int|
                0 <= j < i ==> #[trigger] ids[j] == count_of(old(db).counters@, counter@) + 1 + j,
            count_of(db.counters@, counter@) == count_of(old(db).counters@, counter@) + i,
        decreases count - i,
    {
        match db.allocate(counter) {
            Ok(id) => {
                ids.push(id);
            },
            Err(e) => {
                return Err(e);
            },
        }
        i += 1;
    }
    Ok(ids)
}

/// Populate an empty store, as of the time `now`. Returns the id of the admin
/// account.
pub fn seed_demo(db: &mut Db, now: Millis) -> (r: Result<UserId, StoreError>)
    requires
        i64::MIN + 93_600_000 <= now <= i64::MAX - 2_400_000,
    ensures
        final(db).settings@ == old(db).settings@,
        seeded(*old(db), (now - 93_600_000) as Millis, r, *final(db)),
        old(db).sound() ==> final(db).sound(),
        blank(*old(db)) && now >= 93_600_000 && room_for_the_cast(*old(db)) ==> r is Ok,
{
    // Backdate the whole conversation so there is a day boundary in view.
    let base = now - 26 * HOUR;
    proof {
        reveal_strlit("role");
        reveal_strlit("user");
        reveal_strlit("conv");
        assert("role"@[0] != "user"@[0] && "role"@[0] != "conv"@[0] && "user"@[0] != "conv"@[0]);
        assert(db.log.deep_view().skip(db.log.deep_view().len() as int) =~= seq![]);
    }
    let ghost start = *db;
    let roles = match reserve(db, "role", 3) {
        Ok(ids) => ids,
        Err(e) => {
            return Err(e);
        },
    };
    let users = match reserve(db, "user", 5) {
        Ok(ids) => ids,
        Err(e) => {
            return Err(e);
        },
    };
    let convs = match reserve(db, "conv", 6) {
        Ok(ids) => ids,
        Err(e) => {
            return Err(e);
        },
    };
    let c = Cast {
        sysop: roles[0],
        op: roles[1],
        regular: roles[2],
        admin: users[0],
        alice: users[1],
        bob: users[2],
        carol: users[3],
        dave: users[4],
        general: convs[0],
        dev: convs[1],
        random: convs[2],
        group: convs[3],
        dm_alice: convs[4],
        dm_bob: convs[5],
    };
    assert(c == cast_of(start));
    let ghost s = demo(c, base);
    let script = write_demo(base, c);
    proof {
        if base >= 0 {
            lemma_demo_is_playable(c, base);
        }
    }
    let ghost mid = *db;
    match perform(db, script) {
        Ok(_) => {
            assert(follows(start, *db, s));
            assert(seeded(start, base, Ok(c.admin), *db));
            Ok(c.admin)
        },
        Err(e) => {
            proof {
                let n = choose|n: int|
                    {
                        &&& 0 <= n < s.len()
                        &&& #[trigger] follows(mid, *db, s.take(n))
                        &&& refuses(*db, s[n], e)
                    };
                assert(follows(start, *db, s.take(n)));
                assert(seeded(start, base, Err(e), *db));
            }
            Err(e)
        },
    }
}

/// Whoever says something in the demo says it themselves, and in a conversation
/// that they are in by then: a channel, or one that they have joined.
pub proof fn everyone_speaks_where_they_are(c: Cast, base: Millis, n: int)
    requires
        0 <= base <= i64::MAX - 96_000_000,
        well_cast(c),
        0 <= n < demo(c, base).len(),
        demo(c, base)[n].kind is MessageSent,
    ensures
        ({
            let s = demo(c, base);
            let conv = s[n].kind->MessageSent_conv;
            let author = s[n].kind->MessageSent_author;
            &&& s[n].actor == Some(author)
            &&& {
                ||| exists|j: int|
                    0 <= j < n && (#[trigger] s[j]).kind is ConvCreated
                        && s[j].kind->ConvCreated_conv == conv && s[j].kind->ConvCreated_kind
                        == ConvKind::Channel
                ||| exists|j: int|
                    0 <= j < n && (#[trigger] s[j]).kind == (KindData::MemberJoined {
                        conv,
                        user: author,
                    })
            }
        }),
{
    let s = demo(c, base);
    let a = demo_setup(c, base);
    let t = demo_talk(c, base);
    let q = places_made(c, base);
    lemma_setup_fits(c, base);
    lemma_talk_is_spoken(c, base);
    if n < 31 {
        assert(fits(a, n));
        lemma_setup_is_silent(c, base, n);
    } else {
        assert(s[n] == t[n - 31]);
        assert(spoken(c, t[n - 31]));
        assert(s[16] == q[0]);
        assert(s[18] == q[2]);
        assert(s[20] == q[4]);
        assert(s[22] == q[6]);
        assert(s[23] == q[7]);
        assert(s[24] == q[8]);
        assert(s[26] == q[10]);
        assert(s[27] == q[11]);
        assert(s[29] == q[13]);
        assert(s[30] == q[14]);
    }
}

/// Nothing is said while the demo is being set up.
proof fn lemma_setup_is_silent(c: Cast, base: Millis, n: int)
    requires
        0 <= n < 31,
    ensures
        !(demo(c, base)[n].kind is MessageSent),
{
    let s = demo(c, base);
    if n < 3 {
        assert(s[n] == roles_made(c, base)[n]);
    } else if n < 16 {
        assert(s[n] == people_made(c, base)[n - 3]);
    } else {
        assert(s[n] == places_made(c, base)[n - 16]);
    }
}

/// The demo is set up first, a millisecond for each step, and what is said
/// comes after that: from five minutes on, on two days, no two messages at the
/// same time.
pub proof fn the_demo_spans_two_days(c: Cast, base: Millis)
    requires
        0 <= base <= i64::MAX - 96_000_000,
        well_cast(c),
    ensures
        ({
            let s = demo(c, base);
            &&& s.len() == 64
            &&& forall|n: int| 0 <= n < 31 ==> (#[trigger] s[n]).at == base + n + 1
            &&& forall|n: int|
                31 <= n < 64 ==> (#[trigger] s[n]).kind is MessageSent && base + 300_000 <= s[n].at
                    <= base + 96_000_000
            &&& forall|i: int, j: int|
                0 <= i < j < 64 ==> (#[trigger] s[i]).at != (#[trigger] s[j]).at
            &&& exists|i: int, j: int|
                31 <= i < j < 64 && (#[trigger] s[j]).at - (#[trigger] s[i]).at >= 24 * 60 * 60
                    * 1000 && s[i].kind->MessageSent_conv == s[j].kind->MessageSent_conv
        }),
{
    let s = demo(c, base);
    let a = demo_setup(c, base);
    let t = demo_talk(c, base);
    lemma_setup_fits(c, base);
    lemma_talk_is_spoken(c, base);
    assert forall|n: int| 31 <= n < 64 implies (#[trigger] s[n]).kind is MessageSent && base
        + 300_000 <= s[n].at <= base + 96_000_000 by {
        assert(s[n] == t[n - 31]);
        assert(spoken(c, t[n - 31]));
    }
    assert forall|n: int| 0 <= n < 31 implies (#[trigger] s[n]).at == base + n + 1 by {
        assert(s[n] == a[n]);
    }
    assert forall|i: int, j: int| 0 <= i < j < 64 implies (#[trigger] s[i]).at != (
    #[trigger] s[j]).at by {
        if i >= 31 {
            assert(s[i] == t[i - 31] && s[j] == t[j - 31]);
        }
    }
    assert(s[31] == general_talk(c, base)[0]);
    assert(s[44] == general_talk(c, base)[13]);
}

/// The admin of the demo, and nobody else there, is given a role that makes an
/// administrator.
pub proof fn only_the_admin_runs_the_demo(c: Cast, base: Millis, i: int, j: int)
    requires
        0 <= base <= i64::MAX - 96_000_000,
        well_cast(c),
        0 <= i < demo(c, base).len(),
        0 <= j < demo(c, base).len(),
    ensures
        ({
            let s = demo(c, base);
            &&& s[i].kind is RoleCreated && s[i].kind->RoleCreated_admin && s[j].kind is RoleGranted
                && s[j].kind->RoleGranted_role == s[i].kind->RoleCreated_role
                ==> s[j].kind->RoleGranted_user == c.admin
            &&& exists|m: int, n: int|
                0 <= m < n < s.len() && (#[trigger] s[m]).kind is RoleCreated
                    && s[m].kind->RoleCreated_admin && (#[trigger] s[n]).kind == (
                KindData::RoleGranted { user: c.admin, role: s[m].kind->RoleCreated_role })
        }),
{
    let s = demo(c, base);
    lemma_talk_is_spoken(c, base);
    lemma_setup_fits(c, base);
    if i >= 31 {
        assert(s[i] == demo_talk(c, base)[i - 31]);
        assert(spoken(c, s[i]));
    } else if i >= 16 {
        assert(s[i] == places_made(c, base)[i - 16]);
    } else if i >= 3 {
        assert(s[i] == people_made(c, base)[i - 3]);
    } else {
        assert(s[i] == roles_made(c, base)[i]);
    }
    if j >= 31 {
        assert(s[j] == demo_talk(c, base)[j - 31]);
        assert(spoken(c, s[j]));
    } else if j >= 16 {
        assert(s[j] == places_made(c, base)[j - 16]);
    } else if j >= 3 {
        assert(s[j] == people_made(c, base)[j - 3]);
    } else {
        assert(s[j] == roles_made(c, base)[j]);
    }
    assert(s[0] == roles_made(c, base)[0]);
    assert(s[5] == people_made(c, base)[2]);
}

} // verus!
