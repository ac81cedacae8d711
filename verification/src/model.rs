//! Core domain types, the event vocabulary, and the tags events are routed by.
//!
//! The event log is the source of truth: every state change in the BBS is an
//! [`Event`] appended to the log, and the projection tables are derived from it.
//! [`Signal`]s are the ephemeral counterpart -- observations that are published
//! on the bus but never persisted, because they do not change state.
//!
//! Each type that holds text has a counterpart named `..Data` which contracts
//! speak of: the same values, with texts as sequences of characters.
use vstd::prelude::*;

verus! {

pub type UserId = i64;

pub type ConvId = i64;

pub type RoleId = i64;

/// Milliseconds since the unix epoch, UTC.
pub type Millis = i64;

/// A uuid, as the big-endian number that its sixteen bytes are. Ids made later
/// carry a later time in their leading bits, so they compare as their times do.
#[derive(Debug, Clone, Copy, PartialEq, Eq, Hash, Structural)]
pub struct Uuid {
    pub bits: u128,
}

/// A message is identified by the uuid of the `MessageSent` event that created
/// it, so message ids inherit UUIDv7's chronological ordering for free.
pub type MessageId = Uuid;

// ---------------------------------------------------------------------------
// entities (projections of the log)
// ---------------------------------------------------------------------------

#[derive(Debug, PartialEq, Eq)]
pub struct User {
    pub id: UserId,
    pub name: String,
    pub bio: String,
    pub joined_at: Millis,
    pub last_seen: Millis,
    pub online: bool,
    /// Sorted by descending priority; the first one supplies the name colour.
    pub roles: Vec<Role>,
}

#[verifier::ext_equal]
pub ghost struct UserData {
    pub id: UserId,
    pub name: Seq<char>,
    pub bio: Seq<char>,
    pub joined_at: Millis,
    pub last_seen: Millis,
    pub online: bool,
    pub roles: Seq<RoleData>,
}

pub open spec fn numbered(id: UserId) -> spec_fn(User) -> bool {
    |u: User| u.id == id
}

impl DeepView for User {
    type V = UserData;

    open spec fn deep_view(&self) -> UserData {
        UserData {
            id: self.id,
            name: self.name@,
            bio: self.bio@,
            joined_at: self.joined_at,
            last_seen: self.last_seen,
            online: self.online,
            roles: self.roles.deep_view(),
        }
    }
}

impl Clone for User {
    fn clone(&self) -> (r: Self)
        ensures
            r.deep_view() == self.deep_view(),
    {
        User {
            id: self.id,
            name: self.name.clone(),
            bio: self.bio.clone(),
            joined_at: self.joined_at,
            last_seen: self.last_seen,
            online: self.online,
            roles: copy_roles(&self.roles),
        }
    }
}

fn copy_roles(roles: &Vec<Role>) -> (r: Vec<Role>)
    ensures
        r@ == roles@,
{
    let mut out: Vec<Role> = Vec::new();
    let mut i: usize = 0;
    while i < roles.len()
        invariant
            i <= roles.len(),
            out@ == roles@.take(i as int),
        decreases roles.len() - i,
    {
        out.push(roles[i].clone());
        assert(out@ == roles@.take(i + 1));
        i += 1;
    }
    assert(roles@.take(i as int) == roles@);
    out
}

/// A purely cosmetic (for now) grouping that colours a name and sections the
/// member list.
#[derive(Debug, PartialEq, Eq)]
pub struct Role {
    pub id: RoleId,
    pub name: String,
    /// Packed 0xRRGGBB. Degraded to whatever the terminal supports at render.
    pub color: u32,
    /// Higher wins when a user holds several roles.
    pub priority: i64,
    /// Roles above this line get their own member-list section.
    pub hoisted: bool,
    pub admin: bool,
}

#[verifier::ext_equal]
pub ghost struct RoleData {
    pub id: RoleId,
    pub name: Seq<char>,
    pub color: u32,
    pub priority: i64,
    pub hoisted: bool,
    pub admin: bool,
}

impl DeepView for Role {
    type V = RoleData;

    open spec fn deep_view(&self) -> RoleData {
        RoleData {
            id: self.id,
            name: self.name@,
            color: self.color,
            priority: self.priority,
            hoisted: self.hoisted,
            admin: self.admin,
        }
    }
}

impl Clone for Role {
    fn clone(&self) -> (r: Self)
        ensures
            r == *self,
    {
        Role {
            id: self.id,
            name: self.name.clone(),
            color: self.color,
            priority: self.priority,
            hoisted: self.hoisted,
            admin: self.admin,
        }
    }
}

#[derive(Debug, Clone, Copy, PartialEq, Eq, Structural)]
pub enum ConvKind {
    Channel,
    Dm,
    Group,
}

/// Channels, DMs and group DMs are all conversations; only the kind and the
/// membership rules differ.
#[derive(Debug, PartialEq, Eq)]
pub struct Conversation {
    pub id: ConvId,
    pub kind: ConvKind,
    pub name: String,
    pub topic: String,
    pub created_at: Millis,
}

#[verifier::ext_equal]
pub ghost struct ConvData {
    pub id: ConvId,
    pub kind: ConvKind,
    pub name: Seq<char>,
    pub topic: Seq<char>,
    pub created_at: Millis,
}

impl DeepView for Conversation {
    type V = ConvData;

    open spec fn deep_view(&self) -> ConvData {
        ConvData {
            id: self.id,
            kind: self.kind,
            name: self.name@,
            topic: self.topic@,
            created_at: self.created_at,
        }
    }
}

impl Clone for Conversation {
    fn clone(&self) -> (r: Self)
        ensures
            r == *self,
    {
        Conversation {
            id: self.id,
            kind: self.kind,
            name: self.name.clone(),
            topic: self.topic.clone(),
            created_at: self.created_at,
        }
    }
}

#[derive(Debug, PartialEq, Eq)]
pub struct Message {
    pub id: MessageId,
    pub conv: ConvId,
    pub author: UserId,
    pub body: String,
    pub created_at: Millis,
    pub edited_at: Option<Millis>,
}

#[verifier::ext_equal]
pub ghost struct MessageData {
    pub id: MessageId,
    pub conv: ConvId,
    pub author: UserId,
    pub body: Seq<char>,
    pub created_at: Millis,
    pub edited_at: Option<Millis>,
}

impl DeepView for Message {
    type V = MessageData;

    open spec fn deep_view(&self) -> MessageData {
        MessageData {
            id: self.id,
            conv: self.conv,
            author: self.author,
            body: self.body@,
            created_at: self.created_at,
            edited_at: self.edited_at,
        }
    }
}

impl Clone for Message {
    fn clone(&self) -> (r: Self)
        ensures
            r == *self,
    {
        Message {
            id: self.id,
            conv: self.conv,
            author: self.author,
            body: self.body.clone(),
            created_at: self.created_at,
            edited_at: self.edited_at,
        }
    }
}

// ---------------------------------------------------------------------------
// routing tags
// ---------------------------------------------------------------------------

/// Every event carries a small set of tags; a session receives the event if it
/// subscribes to any one of them.
#[derive(Debug, Clone, Copy, PartialEq, Eq, Hash, Structural)]
pub enum Tag {
    /// Anything happening inside one conversation.
    Conv(ConvId),
    /// Anything about one user (profile, roles, membership).
    User(UserId),
    /// Online/offline transitions, server-wide.
    Presence,
    /// Role definitions changed.
    Roles,
    /// The conversation list itself changed.
    Directory,
}

/// Whether two sets of tags have one in common.
pub open spec fn share_tag(a: Seq<Tag>, b: Seq<Tag>) -> bool {
    exists|i: int| 0 <= i < a.len() && b.contains(#[trigger] a[i])
}

fn has_tag(tags: &Vec<Tag>, tag: Tag) -> (r: bool)
    ensures
        r == tags@.contains(tag),
{
    let mut i: usize = 0;
    while i < tags.len()
        invariant
            i <= tags.len(),
            forall|j: int| 0 <= j < i ==> tags[j] != tag,
        decreases tags.len() - i,
    {
        if tags[i] == tag {
            return true;
        }
        i += 1;
    }
    false
}

pub fn any_shared(a: &Vec<Tag>, b: &Vec<Tag>) -> (r: bool)
    ensures
        r == share_tag(a@, b@),
{
    let mut i: usize = 0;
    while i < a.len()
        invariant
            i <= a.len(),
            forall|j: int| 0 <= j < i ==> !b@.contains(#[trigger] a[j]),
        decreases a.len() - i,
    {
        if has_tag(b, a[i]) {
            assert(b@.contains(a@[i as int]));
            return true;
        }
        i += 1;
    }
    false
}

// ---------------------------------------------------------------------------
// events (persisted, source of truth)
// ---------------------------------------------------------------------------

/// A logged state change. `id` is UUIDv7, so events sort chronologically by id.
#[derive(Debug, PartialEq, Eq)]
pub struct Event {
    pub id: Uuid,
    pub at: Millis,
    pub actor: Option<UserId>,
    pub kind: EventKind,
}

#[verifier::ext_equal]
pub ghost struct EventData {
    pub id: Uuid,
    pub at: Millis,
    pub actor: Option<UserId>,
    pub kind: KindData,
}

impl DeepView for Event {
    type V = EventData;

    open spec fn deep_view(&self) -> EventData {
        EventData { id: self.id, at: self.at, actor: self.actor, kind: self.kind.deep_view() }
    }
}

impl Clone for Event {
    fn clone(&self) -> (r: Self)
        ensures
            r == *self,
    {
        Event { id: self.id, at: self.at, actor: self.actor, kind: self.kind.clone() }
    }
}

impl Event {
    pub fn tags(&self) -> (r: Vec<Tag>)
        ensures
            r@ == tags_of(self.kind.deep_view()),
    {
        self.kind.tags()
    }
}

/// The event vocabulary.
///
/// These variants are written to disk in postcard, which is not
/// self-describing: new variants may only be appended at the end, and existing
/// ones must never be reordered or removed. `schema_version` on the row is the
/// escape hatch if that ever has to change.
#[derive(Debug, PartialEq, Eq)]
pub enum EventKind {
    UserCreated { user: UserId, name: String, pubkey: String },
    UserRenamed { user: UserId, name: String },
    BioSet { user: UserId, bio: String },
    RoleCreated { role: RoleId, name: String, color: u32, priority: i64, hoisted: bool, admin: bool },
    RoleGranted { user: UserId, role: RoleId },
    RoleRevoked { user: UserId, role: RoleId },
    ConvCreated { conv: ConvId, kind: ConvKind, name: String },
    ConvRemoved { conv: ConvId },
    TopicSet { conv: ConvId, topic: String },
    MemberJoined { conv: ConvId, user: UserId },
    MemberLeft { conv: ConvId, user: UserId },
    MessageSent { conv: ConvId, author: UserId, body: String },
    MessageEdited { message: MessageId, body: String },
    MessageDeleted { message: MessageId },
    /// Removing a role also strips it from everyone holding it.
    RoleRemoved { role: RoleId },
}

/// What an [`EventKind`] says, with its texts as sequences of characters.
#[verifier::ext_equal]
pub ghost enum KindData {
    UserCreated { user: UserId, name: Seq<char>, pubkey: Seq<char> },
    UserRenamed { user: UserId, name: Seq<char> },
    BioSet { user: UserId, bio: Seq<char> },
    RoleCreated { role: RoleId, name: Seq<char>, color: u32, priority: i64, hoisted: bool, admin: bool },
    RoleGranted { user: UserId, role: RoleId },
    RoleRevoked { user: UserId, role: RoleId },
    ConvCreated { conv: ConvId, kind: ConvKind, name: Seq<char> },
    ConvRemoved { conv: ConvId },
    TopicSet { conv: ConvId, topic: Seq<char> },
    MemberJoined { conv: ConvId, user: UserId },
    MemberLeft { conv: ConvId, user: UserId },
    MessageSent { conv: ConvId, author: UserId, body: Seq<char> },
    MessageEdited { message: MessageId, body: Seq<char> },
    MessageDeleted { message: MessageId },
    RoleRemoved { role: RoleId },
}

impl DeepView for EventKind {
    type V = KindData;

    open spec fn deep_view(&self) -> KindData {
        match *self {
            EventKind::UserCreated { user, name, pubkey } => KindData::UserCreated { user, name: name@, pubkey: pubkey@ },
            EventKind::UserRenamed { user, name } => KindData::UserRenamed { user, name: name@ },
            EventKind::BioSet { user, bio } => KindData::BioSet { user, bio: bio@ },
            EventKind::RoleCreated { role, name, color, priority, hoisted, admin } => KindData::RoleCreated { role, name: name@, color, priority, hoisted, admin },
            EventKind::RoleGranted { user, role } => KindData::RoleGranted { user, role },
            EventKind::RoleRevoked { user, role } => KindData::RoleRevoked { user, role },
            EventKind::ConvCreated { conv, kind, name } => KindData::ConvCreated { conv, kind, name: name@ },
            EventKind::ConvRemoved { conv } => KindData::ConvRemoved { conv },
            EventKind::TopicSet { conv, topic } => KindData::TopicSet { conv, topic: topic@ },
            EventKind::MemberJoined { conv, user } => KindData::MemberJoined { conv, user },
            EventKind::MemberLeft { conv, user } => KindData::MemberLeft { conv, user },
            EventKind::MessageSent { conv, author, body } => KindData::MessageSent { conv, author, body: body@ },
            EventKind::MessageEdited { message, body } => KindData::MessageEdited { message, body: body@ },
            EventKind::MessageDeleted { message } => KindData::MessageDeleted { message },
            EventKind::RoleRemoved { role } => KindData::RoleRemoved { role },
        }
    }
}

impl Clone for EventKind {
    fn clone(&self) -> (r: Self)
        ensures
            r == *self,
    {
        match self {
            EventKind::UserCreated { user, name, pubkey } => EventKind::UserCreated { user: *user, name: name.clone(), pubkey: pubkey.clone() },
            EventKind::UserRenamed { user, name } => EventKind::UserRenamed { user: *user, name: name.clone() },
            EventKind::BioSet { user, bio } => EventKind::BioSet { user: *user, bio: bio.clone() },
            EventKind::RoleCreated { role, name, color, priority, hoisted, admin } => EventKind::RoleCreated { role: *role, name: name.clone(), color: *color, priority: *priority, hoisted: *hoisted, admin: *admin },
            EventKind::RoleGranted { user, role } => EventKind::RoleGranted { user: *user, role: *role },
            EventKind::RoleRevoked { user, role } => EventKind::RoleRevoked { user: *user, role: *role },
            EventKind::ConvCreated { conv, kind, name } => EventKind::ConvCreated { conv: *conv, kind: *kind, name: name.clone() },
            EventKind::ConvRemoved { conv } => EventKind::ConvRemoved { conv: *conv },
            EventKind::TopicSet { conv, topic } => EventKind::TopicSet { conv: *conv, topic: topic.clone() },
            EventKind::MemberJoined { conv, user } => EventKind::MemberJoined { conv: *conv, user: *user },
            EventKind::MemberLeft { conv, user } => EventKind::MemberLeft { conv: *conv, user: *user },
            EventKind::MessageSent { conv, author, body } => EventKind::MessageSent { conv: *conv, author: *author, body: body.clone() },
            EventKind::MessageEdited { message, body } => EventKind::MessageEdited { message: *message, body: body.clone() },
            EventKind::MessageDeleted { message } => EventKind::MessageDeleted { message: *message },
            EventKind::RoleRemoved { role } => EventKind::RoleRemoved { role: *role },
        }
    }
}


/// The tags that an event is routed by.
pub open spec fn tags_of(kind: KindData) -> Seq<Tag> {
    match kind {
        KindData::UserCreated { user, .. } => seq![Tag::User(user), Tag::Presence],
        KindData::UserRenamed { user, .. } => seq![Tag::User(user)],
        KindData::BioSet { user, .. } => seq![Tag::User(user)],
        KindData::RoleCreated { .. } => seq![Tag::Roles],
        KindData::RoleGranted { user, .. } => seq![Tag::User(user), Tag::Roles],
        KindData::RoleRevoked { user, .. } => seq![Tag::User(user), Tag::Roles],
        KindData::ConvCreated { conv, .. } => seq![Tag::Conv(conv), Tag::Directory],
        KindData::ConvRemoved { conv } => seq![Tag::Conv(conv), Tag::Directory],
        KindData::TopicSet { conv, .. } => seq![Tag::Conv(conv)],
        KindData::MemberJoined { conv, user } => seq![
            Tag::Conv(conv),
            Tag::User(user),
            Tag::Directory,
        ],
        KindData::MemberLeft { conv, user } => seq![
            Tag::Conv(conv),
            Tag::User(user),
            Tag::Directory,
        ],
        KindData::MessageSent { conv, author, .. } => seq![Tag::Conv(conv), Tag::User(author)],
        KindData::MessageEdited { .. } => seq![],
        KindData::MessageDeleted { .. } => seq![],
        KindData::RoleRemoved { .. } => seq![Tag::Roles],
    }
}

impl EventKind {
    pub fn tags(&self) -> (r: Vec<Tag>)
        ensures
            r@ == tags_of(self.deep_view()),
    {
        match self {
            EventKind::UserCreated { user, .. } => vec![Tag::User(*user), Tag::Presence],
            EventKind::UserRenamed { user, .. } => vec![Tag::User(*user)],
            EventKind::BioSet { user, .. } => vec![Tag::User(*user)],
            EventKind::RoleCreated { .. } => vec![Tag::Roles],
            EventKind::RoleGranted { user, .. } => vec![Tag::User(*user), Tag::Roles],
            EventKind::RoleRevoked { user, .. } => vec![Tag::User(*user), Tag::Roles],
            EventKind::ConvCreated { conv, .. } => vec![Tag::Conv(*conv), Tag::Directory],
            EventKind::ConvRemoved { conv } => vec![Tag::Conv(*conv), Tag::Directory],
            EventKind::TopicSet { conv, .. } => vec![Tag::Conv(*conv)],
            EventKind::MemberJoined { conv, user } => vec![
                Tag::Conv(*conv),
                Tag::User(*user),
                Tag::Directory,
            ],
            EventKind::MemberLeft { conv, user } => vec![
                Tag::Conv(*conv),
                Tag::User(*user),
                Tag::Directory,
            ],
            EventKind::MessageSent { conv, author, .. } => vec![
                Tag::Conv(*conv),
                Tag::User(*author),
            ],
            EventKind::MessageEdited { .. } => Vec::new(),
            EventKind::MessageDeleted { .. } => Vec::new(),
            EventKind::RoleRemoved { .. } => vec![Tag::Roles],
        }
    }
}

// ---------------------------------------------------------------------------
// signals (ephemeral, never logged)
// ---------------------------------------------------------------------------

/// Published on the bus but not appended to the log: nothing here changes
/// state, so replaying it would be meaningless. These payloads are tiny, which
/// is exactly when the bus ships them inline instead of by uuid.
#[derive(Debug, Clone, Copy, PartialEq, Eq)]
pub enum Signal {
    Presence { user: UserId, online: bool },
    Typing { user: UserId, conv: ConvId },
    /// A read passed through the bus. Subscribers can observe access patterns
    /// without the log filling up with non-mutations.
    Read { user: UserId, conv: Option<ConvId> },
}

/// The tags that a signal is routed by.
pub open spec fn signal_tags(signal: Signal) -> Seq<Tag> {
    match signal {
        Signal::Presence { user, .. } => seq![Tag::User(user), Tag::Presence],
        Signal::Typing { conv, .. } => seq![Tag::Conv(conv)],
        Signal::Read { conv: Some(conv), .. } => seq![Tag::Conv(conv)],
        Signal::Read { conv: None, .. } => seq![],
    }
}

impl Signal {
    pub fn tags(&self) -> (r: Vec<Tag>)
        ensures
            r@ == signal_tags(*self),
    {
        match self {
            Signal::Presence { user, .. } => vec![Tag::User(*user), Tag::Presence],
            Signal::Typing { conv, .. } => vec![Tag::Conv(*conv)],
            Signal::Read { conv, .. } => match conv {
                Some(c) => vec![Tag::Conv(*c)],
                None => Vec::new(),
            },
        }
    }
}

// ---------------------------------------------------------------------------
// time
// ---------------------------------------------------------------------------

#[verifier::external_type_specification]
#[verifier::external_body]
pub struct ExSystemTime(std::time::SystemTime);

/// [`std::time::SystemTime::now`]: what the system clock shows. Nothing is
/// claimed of it.
pub assume_specification [std::time::SystemTime::now] () -> std::time::SystemTime
;

/// How many whole milliseconds there are in a duration.
pub uninterp spec fn whole_millis(d: core::time::Duration) -> u128;

/// [`core::time::Duration::as_millis`]: a duration in whole milliseconds, which
/// depends on the duration alone.
pub assume_specification [core::time::Duration::as_millis] (d: &core::time::Duration) -> (r: u128)
    ensures
        r == whole_millis(*d),
;

/// How long after the unix epoch a time lies; nothing if it lies before it.
pub uninterp spec fn after_epoch(time: std::time::SystemTime) -> Option<core::time::Duration>;

/// [`std::time::SystemTime::duration_since`] from the unix epoch: how long ago
/// that was, or nothing if the time lies before it. It depends on the time
/// alone.
#[verifier::external_body]
fn since_epoch(time: &std::time::SystemTime) -> (r: Option<core::time::Duration>)
    ensures
        r == after_epoch(*time),
{
    time.duration_since(std::time::UNIX_EPOCH).ok()
}

/// The milliseconds from the unix epoch to a time.
pub open spec fn elapsed_at(time: std::time::SystemTime) -> Option<u128> {
    match after_epoch(time) {
        Some(d) => Some(whole_millis(d)),
        None => None,
    }
}

/// The time stamp for a number of milliseconds since the epoch: the low 64
/// bits of it, read as a signed number, and zero for a clock that stands before
/// the epoch.
pub open spec fn stamp_of(elapsed: Option<u128>) -> int {
    match elapsed {
        Some(n) => {
            let low = n as int % 0x1_0000_0000_0000_0000;
            if low < 0x8000_0000_0000_0000 {
                low
            } else {
                low - 0x1_0000_0000_0000_0000
            }
        },
        None => 0,
    }
}

/// The time stamp for what the clock shows.
pub fn stamp(elapsed: Option<u128>) -> (r: Millis)
    ensures
        r == stamp_of(elapsed),
{
    match elapsed {
        Some(n) => {
            let low: u64 = (n % 0x1_0000_0000_0000_0000) as u64;
            if low < 0x8000_0000_0000_0000 {
                low as i64
            } else {
                -1 - (u64::MAX - low) as i64
            }
        },
        None => 0,
    }
}

/// The time, as events are stamped with it: the stamp of whatever time the
/// clock shows, which nothing is claimed of.
pub fn now_millis() -> (r: Millis)
    ensures
        exists|time: std::time::SystemTime| r == stamp_of(#[trigger] elapsed_at(time)),
{
    let now = std::time::SystemTime::now();
    let elapsed = match since_epoch(&now) {
        Some(d) => Some(d.as_millis()),
        None => None,
    };
    assert(elapsed == elapsed_at(now));
    stamp(elapsed)
}

// ---------------------------------------------------------------------------
// who hears of what
// ---------------------------------------------------------------------------

/// Two sets of tags share one exactly if some tag is in both, whichever of the
/// two is asked first.
pub proof fn sharing_is_having_one_in_common(a: Seq<Tag>, b: Seq<Tag>)
    ensures
        share_tag(a, b) <==> exists|t: Tag| #[trigger] a.contains(t) && b.contains(t),
        share_tag(a, b) <==> share_tag(b, a),
        !share_tag(a, seq![]),
{
    if share_tag(a, b) {
        let i = choose|i: int| 0 <= i < a.len() && b.contains(#[trigger] a[i]);
        assert(a.contains(a[i]));
        let j = choose|j: int| 0 <= j < b.len() && b[j] == a[i];
        assert(a.contains(b[j]));
    }
    if share_tag(b, a) {
        let j = choose|j: int| 0 <= j < b.len() && a.contains(#[trigger] b[j]);
        assert(b.contains(b[j]));
        let i = choose|i: int| 0 <= i < a.len() && a[i] == b[j];
        assert(b.contains(a[i]));
    }
    if exists|t: Tag| #[trigger] a.contains(t) && b.contains(t) {
        let t = choose|t: Tag| #[trigger] a.contains(t) && b.contains(t);
        let i = choose|i: int| 0 <= i < a.len() && a[i] == t;
        assert(b.contains(a[i]));
    }
}

/// A subscription to one tag is served exactly what carries it.
pub proof fn a_subscription_hears_its_tag(tags: Seq<Tag>, t: Tag)
    ensures
        share_tag(tags, seq![t]) <==> tags.contains(t),
{
    if share_tag(tags, seq![t]) {
        let i = choose|i: int| 0 <= i < tags.len() && seq![t].contains(#[trigger] tags[i]);
        assert(tags[i] == t);
    }
    if tags.contains(t) {
        let i = choose|i: int| 0 <= i < tags.len() && tags[i] == t;
        assert(seq![t][0] == tags[i]);
        assert(seq![t].contains(tags[i]));
    }
}

/// What happens in a conversation -- its creation, its removal, its topic,
/// someone joining or leaving it, a message sent to it -- reaches whoever
/// follows that conversation, and nobody for following another one.
pub proof fn conversation_events_reach_its_followers(
    conv: ConvId,
    other: ConvId,
    user: UserId,
    kind: ConvKind,
    text: Seq<char>,
)
    ensures
        share_tag(tags_of(KindData::ConvCreated { conv, kind, name: text }), seq![Tag::Conv(other)])
            <==> other == conv,
        share_tag(tags_of(KindData::ConvRemoved { conv }), seq![Tag::Conv(other)]) <==> other
            == conv,
        share_tag(tags_of(KindData::TopicSet { conv, topic: text }), seq![Tag::Conv(other)])
            <==> other == conv,
        share_tag(tags_of(KindData::MemberJoined { conv, user }), seq![Tag::Conv(other)])
            <==> other == conv,
        share_tag(tags_of(KindData::MemberLeft { conv, user }), seq![Tag::Conv(other)]) <==> other
            == conv,
        share_tag(
            tags_of(KindData::MessageSent { conv, author: user, body: text }),
            seq![Tag::Conv(other)],
        ) <==> other == conv,
{
    lemma_heard(KindData::ConvCreated { conv, kind, name: text }, Tag::Conv(other));
    lemma_heard(KindData::ConvRemoved { conv }, Tag::Conv(other));
    lemma_heard(KindData::TopicSet { conv, topic: text }, Tag::Conv(other));
    lemma_heard(KindData::MemberJoined { conv, user }, Tag::Conv(other));
    lemma_heard(KindData::MemberLeft { conv, user }, Tag::Conv(other));
    lemma_heard(KindData::MessageSent { conv, author: user, body: text }, Tag::Conv(other));
}

/// What is about a user -- their account, their name, their bio, the roles
/// they are given or lose, the conversations they join or leave, what they
/// write -- reaches whoever follows that user, and nobody for following
/// another one.
pub proof fn events_about_a_user_reach_their_followers(
    user: UserId,
    other: UserId,
    conv: ConvId,
    role: RoleId,
    text: Seq<char>,
    key: Seq<char>,
)
    ensures
        share_tag(
            tags_of(KindData::UserCreated { user, name: text, pubkey: key }),
            seq![Tag::User(other)],
        ) <==> other == user,
        share_tag(tags_of(KindData::UserRenamed { user, name: text }), seq![Tag::User(other)])
            <==> other == user,
        share_tag(tags_of(KindData::BioSet { user, bio: text }), seq![Tag::User(other)])
            <==> other == user,
        share_tag(tags_of(KindData::RoleGranted { user, role }), seq![Tag::User(other)]) <==> other
            == user,
        share_tag(tags_of(KindData::RoleRevoked { user, role }), seq![Tag::User(other)]) <==> other
            == user,
        share_tag(tags_of(KindData::MemberJoined { conv, user }), seq![Tag::User(other)])
            <==> other == user,
        share_tag(tags_of(KindData::MemberLeft { conv, user }), seq![Tag::User(other)]) <==> other
            == user,
        share_tag(
            tags_of(KindData::MessageSent { conv, author: user, body: text }),
            seq![Tag::User(other)],
        ) <==> other == user,
{
    lemma_heard(KindData::UserCreated { user, name: text, pubkey: key }, Tag::User(other));
    lemma_heard(KindData::UserRenamed { user, name: text }, Tag::User(other));
    lemma_heard(KindData::BioSet { user, bio: text }, Tag::User(other));
    lemma_heard(KindData::RoleGranted { user, role }, Tag::User(other));
    lemma_heard(KindData::RoleRevoked { user, role }, Tag::User(other));
    lemma_heard(KindData::MemberJoined { conv, user }, Tag::User(other));
    lemma_heard(KindData::MemberLeft { conv, user }, Tag::User(other));
    lemma_heard(KindData::MessageSent { conv, author: user, body: text }, Tag::User(other));
}

/// Whoever follows the roles hears of every change to them and to who holds
/// them, and of nothing else.
pub proof fn role_events_reach_whoever_follows_roles(kind: KindData)
    ensures
        share_tag(tags_of(kind), seq![Tag::Roles]) <==> (kind is RoleCreated || kind is RoleGranted
            || kind is RoleRevoked || kind is RoleRemoved),
{
    lemma_heard(kind, Tag::Roles);
}

/// Whoever follows the directory hears of every change to which conversations
/// there are and who is in them, and of nothing else.
pub proof fn directory_events_reach_whoever_follows_it(kind: KindData)
    ensures
        share_tag(tags_of(kind), seq![Tag::Directory]) <==> (kind is ConvCreated
            || kind is ConvRemoved || kind is MemberJoined || kind is MemberLeft),
{
    lemma_heard(kind, Tag::Directory);
}

/// Of all events only a new account reaches those who follow who is there.
pub proof fn new_accounts_reach_whoever_follows_presence(kind: KindData)
    ensures
        share_tag(tags_of(kind), seq![Tag::Presence]) <==> kind is UserCreated,
{
    lemma_heard(kind, Tag::Presence);
}

/// An event that names no conversation reaches nobody for following one, and
/// one that names no user nobody for following a user.
pub proof fn events_stay_with_their_subject(kind: KindData, id: i64)
    ensures
        !(kind is ConvCreated || kind is ConvRemoved || kind is TopicSet || kind is MemberJoined
            || kind is MemberLeft || kind is MessageSent) ==> !share_tag(
            tags_of(kind),
            seq![Tag::Conv(id)],
        ),
        !(kind is UserCreated || kind is UserRenamed || kind is BioSet || kind is RoleGranted
            || kind is RoleRevoked || kind is MemberJoined || kind is MemberLeft
            || kind is MessageSent) ==> !share_tag(tags_of(kind), seq![Tag::User(id)]),
{
    lemma_heard(kind, Tag::Conv(id));
    lemma_heard(kind, Tag::User(id));
}

/// Someone coming or going is heard by whoever follows them or who is there;
/// someone typing, or reading, by whoever follows that conversation.
pub proof fn signals_reach_their_followers(
    user: UserId,
    online: bool,
    conv: ConvId,
    t: Tag,
)
    ensures
        share_tag(signal_tags(Signal::Presence { user, online }), seq![t]) <==> t == Tag::User(user)
            || t == Tag::Presence,
        share_tag(signal_tags(Signal::Typing { user, conv }), seq![t]) <==> t == Tag::Conv(conv),
        share_tag(signal_tags(Signal::Read { user, conv: Some(conv) }), seq![t]) <==> t
            == Tag::Conv(conv),
        !share_tag(signal_tags(Signal::Read { user, conv: None }), seq![t]),
{
    let a = signal_tags(Signal::Presence { user, online });
    a_subscription_hears_its_tag(a, t);
    assert(a[0] == Tag::User(user) && a[1] == Tag::Presence);
    let b = signal_tags(Signal::Typing { user, conv });
    a_subscription_hears_its_tag(b, t);
    assert(b[0] == Tag::Conv(conv));
    let c = signal_tags(Signal::Read { user, conv: Some(conv) });
    a_subscription_hears_its_tag(c, t);
    assert(c[0] == Tag::Conv(conv));
}

proof fn lemma_heard(kind: KindData, t: Tag)
    ensures
        share_tag(tags_of(kind), seq![t]) <==> {
            let s = tags_of(kind);
            ||| s.len() > 0 && s[0] == t
            ||| s.len() > 1 && s[1] == t
            ||| s.len() > 2 && s[2] == t
        },
{
    a_subscription_hears_its_tag(tags_of(kind), t);
    let s = tags_of(kind);
    assert(s.len() <= 3);
    if s.contains(t) {
        let i = choose|i: int| 0 <= i < s.len() && s[i] == t;
        assert(i == 0 || i == 1 || i == 2);
    }
    if s.len() > 0 && s[0] == t {
        assert(s.contains(t));
    }
    if s.len() > 1 && s[1] == t {
        assert(s.contains(t));
    }
    if s.len() > 2 && s[2] == t {
        assert(s.contains(t));
    }
}

/// A stamp is the number of milliseconds itself while that fits, so that later
/// times have later stamps, and zero where the clock stands before the epoch.
pub proof fn stamps_count_milliseconds(n: u128)
    ensures
        n <= i64::MAX ==> stamp_of(Some(n)) == n,
        stamp_of(None) == 0,
        i64::MIN <= stamp_of(Some(n)) <= i64::MAX,
{
}

} // verus!
