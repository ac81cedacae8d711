//! What can be read from a store.
use vstd::prelude::*;

use crate::config::{REPLAY_AGE_MILLIS, REPLAY_EVENT_CAP};
use crate::db::tables::{
    has_member, knows_grant, knows_member, Account, AccountData, Board, Grant, Member, Post,
};
use crate::db::Db;
use crate::model::{
    any_shared, share_tag, tags_of, ConvId, ConvKind, Conversation, Event, Message, MessageId,
    Millis, Role, Tag, User, UserId, Uuid,
};
use crate::order::{ordered, ordered_contains, ordered_is_sorted_permutation, sort, Ranked};
use crate::seqs::{find, first, lemma_filter_contains, lemma_first_found, select};
use crate::text::{
    eq_nocase, le, lemma_text_le_total, lemma_text_le_transitive, same_nocase, text_le,
};

verus! {

// ---------------------------------------------------------------------------
// the order that rows are read in
// ---------------------------------------------------------------------------

/// People by name.
impl Ranked for Account {
    open spec fn ranks(self, other: Self) -> bool {
        text_le(self.name@, other.name@)
    }

    proof fn ranks_total(a: Self, b: Self) {
        lemma_text_le_total(a.name@, b.name@);
    }

    proof fn ranks_transitive(a: Self, b: Self, c: Self) {
        lemma_text_le_transitive(a.name@, b.name@, c.name@);
    }

    fn before(&self, other: &Self) -> (r: bool) {
        le(self.name.as_str(), other.name.as_str())
    }
}

/// Roles by descending priority, older ones first.
impl Ranked for Role {
    open spec fn ranks(self, other: Self) -> bool {
        self.priority > other.priority || self.priority == other.priority && self.id <= other.id
    }

    proof fn ranks_total(a: Self, b: Self) {
    }

    proof fn ranks_transitive(a: Self, b: Self, c: Self) {
    }

    fn before(&self, other: &Self) -> (r: bool) {
        self.priority > other.priority || self.priority == other.priority && self.id <= other.id
    }
}

/// The number that stands for a kind of conversation in its column.
pub open spec fn kind_code(kind: ConvKind) -> i64 {
    match kind {
        ConvKind::Channel => 0,
        ConvKind::Dm => 1,
        ConvKind::Group => 2,
    }
}

pub fn conv_kind_code(kind: ConvKind) -> (r: i64)
    ensures
        r == kind_code(kind),
{
    match kind {
        ConvKind::Channel => 0,
        ConvKind::Dm => 1,
        ConvKind::Group => 2,
    }
}

/// The kind that a number stands for; any other number is a channel.
pub open spec fn kind_of_code(code: i64) -> ConvKind {
    if code == 1 {
        ConvKind::Dm
    } else if code == 2 {
        ConvKind::Group
    } else {
        ConvKind::Channel
    }
}

/// A kind is read back as it was stored.
pub proof fn kinds_are_read_back(kind: ConvKind)
    ensures
        kind_of_code(kind_code(kind)) == kind,
{
}

pub fn conv_kind_from_code(code: i64) -> (r: ConvKind)
    ensures
        r == kind_of_code(code),
{
    if code == 1 {
        ConvKind::Dm
    } else if code == 2 {
        ConvKind::Group
    } else {
        ConvKind::Channel
    }
}

/// Conversations by kind, then by name.
impl Ranked for Conversation {
    open spec fn ranks(self, other: Self) -> bool {
        kind_code(self.kind) < kind_code(other.kind) || kind_code(self.kind) == kind_code(
            other.kind,
        ) && text_le(self.name@, other.name@)
    }

    proof fn ranks_total(a: Self, b: Self) {
        lemma_text_le_total(a.name@, b.name@);
    }

    proof fn ranks_transitive(a: Self, b: Self, c: Self) {
        if text_le(a.name@, b.name@) && text_le(b.name@, c.name@) {
            lemma_text_le_transitive(a.name@, b.name@, c.name@);
        }
    }

    fn before(&self, other: &Self) -> (r: bool) {
        let a: i64 = conv_kind_code(self.kind);
        let b: i64 = conv_kind_code(other.kind);
        a < b || a == b && le(self.name.as_str(), other.name.as_str())
    }
}

/// Messages by id, which is by time.
impl Ranked for Post {
    open spec fn ranks(self, other: Self) -> bool {
        self.message.id.bits <= other.message.id.bits
    }

    proof fn ranks_total(a: Self, b: Self) {
    }

    proof fn ranks_transitive(a: Self, b: Self, c: Self) {
    }

    fn before(&self, other: &Self) -> (r: bool) {
        self.message.id.bits <= other.message.id.bits
    }
}

/// Events by id, which is by time.
impl Ranked for Event {
    open spec fn ranks(self, other: Self) -> bool {
        self.id.bits <= other.id.bits
    }

    proof fn ranks_total(a: Self, b: Self) {
    }

    proof fn ranks_transitive(a: Self, b: Self, c: Self) {
    }

    fn before(&self, other: &Self) -> (r: bool) {
        self.id.bits <= other.id.bits
    }
}

/// Keys by the id of their user.
impl Ranked for (UserId, String) {
    open spec fn ranks(self, other: Self) -> bool {
        self.0 <= other.0
    }

    proof fn ranks_total(a: Self, b: Self) {
    }

    proof fn ranks_transitive(a: Self, b: Self, c: Self) {
    }

    fn before(&self, other: &Self) -> (r: bool) {
        self.0 <= other.0
    }
}

// ---------------------------------------------------------------------------
// which rows are read
// ---------------------------------------------------------------------------

pub open spec fn user_is(id: UserId) -> spec_fn(Account) -> bool {
    |a: Account| a.id == id
}

pub open spec fn user_called(name: Seq<char>) -> spec_fn(Account) -> bool {
    |a: Account| same_nocase(a.name@, name)
}

pub open spec fn user_in(members: Seq<Member>, conv: ConvId) -> spec_fn(Account) -> bool {
    |a: Account| has_member(members, conv, a.id)
}

pub open spec fn has_key() -> spec_fn(Account) -> bool {
    |a: Account| a.pubkey@.len() > 0
}

pub open spec fn key_of() -> spec_fn(Account) -> (UserId, String) {
    |a: Account| (a.id, a.pubkey)
}

pub open spec fn id_of() -> spec_fn(Account) -> UserId {
    |a: Account| a.id
}

pub open spec fn held_by(grants: Seq<Grant>, user: UserId) -> spec_fn(Role) -> bool {
    |r: Role| grants.contains(Grant { user, role: r.id })
}

pub open spec fn conv_is(id: ConvId) -> spec_fn(Conversation) -> bool {
    |c: Conversation| c.id == id
}

pub open spec fn conv_called(name: Seq<char>) -> spec_fn(Conversation) -> bool {
    |c: Conversation| same_nocase(c.name@, name)
}

/// Channels are visible to everyone; DMs and groups only to their members.
pub open spec fn open_to(members: Seq<Member>, user: UserId) -> spec_fn(Conversation) -> bool {
    |c: Conversation| c.kind == ConvKind::Channel || has_member(members, c.id, user)
}

pub open spec fn post_in(conv: ConvId, before: Option<MessageId>) -> spec_fn(Post) -> bool {
    |p: Post|
        {
            &&& p.message.conv == conv
            &&& !p.deleted
            &&& before is Some ==> p.message.id.bits < before->Some_0.bits
        }
}

pub open spec fn message_of() -> spec_fn(Post) -> Message {
    |p: Post| p.message
}

pub open spec fn event_is(id: Uuid) -> spec_fn(Event) -> bool {
    |e: Event| e.id == id
}

pub open spec fn missed_by(tags: Seq<Tag>, since: Option<Uuid>, floor: int) -> spec_fn(
    Event,
) -> bool {
    |e: Event|
        {
            &&& share_tag(tags_of(e.kind.deep_view()), tags)
            &&& e.at >= floor
            &&& since is Some ==> e.id.bits > since->Some_0.bits
        }
}

/// Whether this key is on the list, as that user's.
pub open spec fn lists_key(keys: Seq<(UserId, String)>, user: UserId, text: Seq<char>) -> bool {
    exists|i: int| 0 <= i < keys.len() && (#[trigger] keys[i]).0 == user && keys[i].1@ == text
}

/// Whether an account has this key.
pub open spec fn holds_key(users: Seq<AccountData>, user: UserId, text: Seq<char>) -> bool {
    text.len() > 0 && exists|i: int|
        0 <= i < users.len() && (#[trigger] users[i]).id == user && users[i].pubkey == text
}

/// Whether these are the keys of all accounts.
pub open spec fn keys_on(b: Board, keys: Seq<(UserId, String)>) -> bool {
    forall|user: UserId, text: Seq<char>| #[trigger]
        lists_key(keys, user, text) <==> holds_key(b.users, user, text)
}

proof fn lemma_keys_listed(users: Seq<Account>, data: Seq<AccountData>, user: UserId, text: Seq<char>)
    requires
        data.len() == users.len(),
        forall|i: int| 0 <= i < users.len() ==> data[i] == (#[trigger] users[i]).deep_view(),
    ensures
        lists_key(ordered(users.filter(has_key()).map_values(key_of())), user, text) <==> holds_key(
            data,
            user,
            text,
        ),
{
    let kept = users.filter(has_key());
    let rows = kept.map_values(key_of());
    let keys = ordered(rows);
    lemma_filter_contains(users, has_key());
    if lists_key(keys, user, text) {
        let i = choose|i: int|
            0 <= i < keys.len() && (#[trigger] keys[i]).0 == user && keys[i].1@ == text;
        ordered_contains(rows, keys[i]);
        assert(keys.contains(keys[i]));
        let j = choose|j: int| 0 <= j < rows.len() && rows[j] == keys[i];
        assert(kept.contains(kept[j]));
        let k = choose|k: int| 0 <= k < users.len() && users[k] == kept[j];
        assert(data[k] == users[k].deep_view());
    }
    if holds_key(data, user, text) {
        let k = choose|k: int|
            0 <= k < data.len() && (#[trigger] data[k]).id == user && data[k].pubkey == text;
        assert(users.contains(users[k]));
        assert(kept.contains(users[k]));
        let j = choose|j: int| 0 <= j < kept.len() && kept[j] == users[k];
        assert(rows.contains(rows[j]));
        ordered_contains(rows, rows[j]);
        let i = choose|i: int| 0 <= i < keys.len() && keys[i] == rows[j];
        assert(keys[i].0 == user && keys[i].1@ == text);
    }
}

/// Whether `u` is the user with this row and these roles.
pub open spec fn profiled(a: Account, roles: Seq<Role>, online: bool, u: User) -> bool {
    &&& u.id == a.id
    &&& u.name == a.name
    &&& u.bio == a.bio
    &&& u.joined_at == a.joined_at
    &&& u.last_seen == a.last_seen
    &&& u.online == online
    &&& u.roles@ == roles
}

/// The last `count` items.
pub open spec fn newest<T>(s: Seq<T>, count: int) -> Seq<T> {
    if s.len() > count {
        s.skip(s.len() - count)
    } else {
        s
    }
}

/// The first `count` items.
pub open spec fn oldest<T>(s: Seq<T>, count: int) -> Seq<T> {
    if s.len() > count {
        s.take(count)
    } else {
        s
    }
}

impl Db {
    /// The roles of a user, the one that colours the name first.
    pub open spec fn held_roles(self, user: UserId) -> Seq<Role> {
        ordered(self.tables.roles@.filter(held_by(self.tables.grants@, user)))
    }

    /// Who is in a conversation, by name.
    pub open spec fn present(self, conv: ConvId) -> Seq<Account> {
        match first(self.tables.convs@, conv_is(conv)) {
            Some(c) => if c.kind == ConvKind::Channel {
                ordered(self.tables.users@)
            } else {
                ordered(self.tables.users@.filter(user_in(self.tables.members@, conv)))
            },
            None => seq![],
        }
    }

    /// What a subscriber to `tags` has missed, oldest first.
    pub open spec fn backlog(self, tags: Seq<Tag>, since: Option<Uuid>, now: Millis) -> Seq<
        Event,
    > {
        ordered(self.log@.filter(missed_by(tags, since, now - REPLAY_AGE_MILLIS)))
    }

    pub fn event(&self, id: Uuid) -> (r: Option<Event>)
        ensures
            r == first(self.log@, event_is(id)),
    {
        find(
            &self.log,
            |e: &Event| -> (b: bool)
                ensures
                    b == (e.id == id)
                { e.id == id },
            Ghost(event_is(id)),
        )
    }

    /// Events matching any of `tags` that happened after `since`, oldest first,
    /// newest-capped and age-capped as of `now`. The boolean reports whether
    /// the cap truncated the range, i.e. whether the caller is looking at a
    /// gap.
    pub fn replay(&self, tags: &Vec<Tag>, since: Option<Uuid>, now: Millis) -> (r: (
        Vec<Event>,
        bool,
    ))
        ensures
            r.0@ == newest(self.backlog(tags@, since, now), REPLAY_EVENT_CAP as int),
            r.1 == (self.backlog(tags@, since, now).len() > REPLAY_EVENT_CAP),
    {
        let ghost floor = now - REPLAY_AGE_MILLIS;
        let found = select(
            &self.log,
            |e: &Event| -> (b: bool)
                ensures
                    b == missed_by(tags@, since, floor)(*e)
                {
                    let late = match since {
                        Some(id) => e.id.bits > id.bits,
                        None => true,
                    };
                    any_shared(&e.tags(), tags) && e.at as i128 >= now as i128
                        - REPLAY_AGE_MILLIS as i128 && late
                },
            Ghost(missed_by(tags@, since, floor)),
        );
        let mut events = sort(found);
        let truncated = events.len() > REPLAY_EVENT_CAP;
        if truncated {
            let start = events.len() - REPLAY_EVENT_CAP;
            let ghost all = events@;
            events = events.split_off(start);
            assert(events@ == all.skip(start as int));
        }
        (events, truncated)
    }

    // -- projections ----------------------------------------------------------

    fn profile(&self, a: &Account) -> (r: User)
        ensures
            profiled(*a, self.held_roles(a.id), false, r),
    {
        User {
            id: a.id,
            name: a.name.clone(),
            bio: a.bio.clone(),
            joined_at: a.joined_at,
            last_seen: a.last_seen,
            online: false,
            roles: self.roles_of(a.id),
        }
    }

    pub fn user(&self, id: UserId) -> (r: Option<User>)
        ensures
            match first(self.tables.users@, user_is(id)) {
                Some(a) => r is Some && profiled(a, self.held_roles(a.id), false, r->Some_0),
                None => r is None,
            },
    {
        let found = find(
            &self.tables.users,
            |a: &Account| -> (b: bool)
                ensures
                    b == (a.id == id)
                { a.id == id },
            Ghost(user_is(id)),
        );
        match found {
            Some(a) => Some(self.profile(&a)),
            None => None,
        }
    }

    /// The user of this name, in whatever case it is written.
    pub fn user_by_name(&self, name: &str) -> (r: Option<User>)
        ensures
            match first(self.tables.users@, user_called(name@)) {
                Some(a) => r is Some && profiled(a, self.held_roles(a.id), false, r->Some_0),
                None => r is None,
            },
    {
        let found = find(
            &self.tables.users,
            |a: &Account| -> (b: bool)
                ensures
                    b == same_nocase(a.name@, name@)
                { eq_nocase(a.name.as_str(), name) },
            Ghost(user_called(name@)),
        );
        match found {
            Some(a) => Some(self.profile(&a)),
            None => None,
        }
    }

    /// Everyone, by name.
    pub fn users(&self) -> (r: Vec<User>)
        ensures
            r.len() == ordered(self.tables.users@).len(),
            forall|i: int|
                0 <= i < r.len() ==> profiled(
                    ordered(self.tables.users@)[i],
                    self.held_roles(ordered(self.tables.users@)[i].id),
                    false,
                    #[trigger] r[i],
                ),
    {
        let rows = sort(copy_rows(&self.tables.users));
        let mut out: Vec<User> = Vec::new();
        let mut i: usize = 0;
        while i < rows.len()
            invariant
                i <= rows.len(),
                rows@ == ordered(self.tables.users@),
                out.len() == i,
                forall|j: int|
                    0 <= j < i ==> profiled(
                        rows[j],
                        self.held_roles(rows[j].id),
                        false,
                        #[trigger] out[j],
                    ),
            decreases rows.len() - i,
        {
            out.push(self.profile(&rows[i]));
            i += 1;
        }
        out
    }

    pub fn roles_of(&self, user: UserId) -> (r: Vec<Role>)
        ensures
            r@ == self.held_roles(user),
    {
        let held = select(
            &self.tables.roles,
            |x: &Role| -> (b: bool)
                ensures
                    b == held_by(self.tables.grants@, user)(*x)
                {
                    assert(self.tables.grants.deep_view() =~= self.tables.grants@);
                    knows_grant(&self.tables.grants, Grant { user, role: x.id })
                },
            Ghost(held_by(self.tables.grants@, user)),
        );
        sort(held)
    }

    pub fn roles(&self) -> (r: Vec<Role>)
        ensures
            r@ == ordered(self.tables.roles@),
    {
        sort(copy_rows(&self.tables.roles))
    }

    /// The conversations that a user can see, by kind and name.
    pub fn conversations(&self, user: UserId) -> (r: Vec<Conversation>)
        ensures
            r@ == ordered(self.tables.convs@.filter(open_to(self.tables.members@, user))),
            forall|c: Conversation| #[trigger]
                r@.contains(c) && c.kind != ConvKind::Channel ==> has_member(
                    self.tables.members@,
                    c.id,
                    user,
                ),
    {
        proof {
            let keep = open_to(self.tables.members@, user);
            let all = self.tables.convs@.filter(keep);
            lemma_filter_contains(self.tables.convs@, keep);
            assert forall|c: Conversation| #[trigger]
                ordered(all).contains(c) && c.kind != ConvKind::Channel implies has_member(
                self.tables.members@,
                c.id,
                user,
            ) by {
                ordered_contains(all, c);
            }
        }
        let seen = select(
            &self.tables.convs,
            |c: &Conversation| -> (b: bool)
                ensures
                    b == open_to(self.tables.members@, user)(*c)
                {
                    assert(self.tables.members.deep_view() =~= self.tables.members@);
                    c.kind == ConvKind::Channel || knows_member(&self.tables.members, c.id, user)
                },
            Ghost(open_to(self.tables.members@, user)),
        );
        sort(seen)
    }

    pub fn conversation(&self, conv: ConvId) -> (r: Option<Conversation>)
        ensures
            r == first(self.tables.convs@, conv_is(conv)),
    {
        find(
            &self.tables.convs,
            |c: &Conversation| -> (b: bool)
                ensures
                    b == (c.id == conv)
                { c.id == conv },
            Ghost(conv_is(conv)),
        )
    }

    pub fn conversation_by_name(&self, name: &str) -> (r: Option<Conversation>)
        ensures
            r == first(self.tables.convs@, conv_called(name@)),
    {
        find(
            &self.tables.convs,
            |c: &Conversation| -> (b: bool)
                ensures
                    b == same_nocase(c.name@, name@)
                { eq_nocase(c.name.as_str(), name) },
            Ghost(conv_called(name@)),
        )
    }

    /// Everyone in a channel (all users) or the members of a DM/group.
    pub fn members(&self, conv: ConvId) -> (r: Vec<UserId>)
        ensures
            r@ == self.present(conv).map_values(id_of()),
    {
        let rows = match self.conversation(conv) {
            Some(c) => if c.kind == ConvKind::Channel {
                copy_rows(&self.tables.users)
            } else {
                select(
                    &self.tables.users,
                    |a: &Account| -> (b: bool)
                        ensures
                            b == user_in(self.tables.members@, conv)(*a)
                        {
                            assert(self.tables.members.deep_view() =~= self.tables.members@);
                            knows_member(&self.tables.members, conv, a.id)
                        },
                    Ghost(user_in(self.tables.members@, conv)),
                )
            },
            None => Vec::new(),
        };
        let rows = sort(rows);
        let mut out: Vec<UserId> = Vec::new();
        let mut i: usize = 0;
        while i < rows.len()
            invariant
                i <= rows.len(),
                out@ == rows@.take(i as int).map_values(id_of()),
            decreases rows.len() - i,
        {
            out.push(rows[i].id);
            i += 1;
            assert(out@ =~= rows@.take(i as int).map_values(id_of()));
        }
        assert(rows@.take(i as int) == rows@);
        out
    }

    /// The newest `limit` messages in a conversation, oldest first. `before`
    /// pages backwards through history.
    pub fn messages(&self, conv: ConvId, before: Option<MessageId>, limit: usize) -> (r: Vec<
        Message,
    >)
        ensures
            r@ == newest(
                ordered(self.tables.posts@.filter(post_in(conv, before))),
                limit as int,
            ).map_values(message_of()),
    {
        let found = select(
            &self.tables.posts,
            |p: &Post| -> (b: bool)
                ensures
                    b == post_in(conv, before)(*p)
                {
                    let early = match before {
                        Some(id) => p.message.id.bits < id.bits,
                        None => true,
                    };
                    p.message.conv == conv && !p.deleted && early
                },
            Ghost(post_in(conv, before)),
        );
        let rows = sort(found);
        let start: usize = if rows.len() > limit {
            rows.len() - limit
        } else {
            0
        };
        let ghost page = newest(rows@, limit as int);
        assert(rows@.skip(0) == rows@);
        let mut out: Vec<Message> = Vec::new();
        let mut i: usize = start;
        while i < rows.len()
            invariant
                start <= i <= rows.len(),
                page == rows@.skip(start as int),
                out@ == page.take(i - start).map_values(message_of()),
            decreases rows.len() - i,
        {
            assert(page[i - start] == rows[i as int]);
            out.push(rows[i].message.clone());
            i += 1;
            assert(out@ =~= page.take(i - start).map_values(message_of()));
        }
        assert(page.take(i - start) == page);
        out
    }

    /// Every account that has a key, for authenticating an ssh connection.
    /// Small servers only, which is what this is: the caller compares parsed
    /// keys rather than us indexing a fingerprint.
    pub fn user_keys(&self) -> (r: Vec<(UserId, String)>)
        ensures
            r@ == ordered(self.tables.users@.filter(has_key()).map_values(key_of())),
            keys_on(self.tables@, r@),
    {
        proof {
            let b = self.tables@;
            let all = ordered(self.tables.users@.filter(has_key()).map_values(key_of()));
            assert forall|user: UserId, text: Seq<char>| #[trigger]
                lists_key(all, user, text) <==> holds_key(b.users, user, text) by {
                lemma_keys_listed(self.tables.users@, b.users, user, text);
            }
        }
        let rows = select(
            &self.tables.users,
            |a: &Account| -> (b: bool)
                ensures
                    b == has_key()(*a)
                { !a.pubkey.as_str().is_empty() },
            Ghost(has_key()),
        );
        let mut out: Vec<(UserId, String)> = Vec::new();
        let mut i: usize = 0;
        while i < rows.len()
            invariant
                i <= rows.len(),
                out@ == rows@.take(i as int).map_values(key_of()),
            decreases rows.len() - i,
        {
            out.push((rows[i].id, rows[i].pubkey.clone()));
            i += 1;
            assert(out@ =~= rows@.take(i as int).map_values(key_of()));
        }
        assert(rows@.take(i as int) == rows@);
        sort(out)
    }

    /// Whether nobody has an account yet.
    pub fn is_empty(&self) -> (r: bool)
        ensures
            r == (self.tables.users@.len() == 0),
    {
        self.tables.users.len() == 0
    }

    /// Every logged event, oldest first -- for `newbbs log`.
    pub fn all_events(&self, limit: usize) -> (r: Vec<Event>)
        ensures
            r@ == oldest(ordered(self.log@), limit as int),
    {
        let mut events = sort(copy_rows(&self.log));
        if events.len() > limit {
            events.truncate(limit);
        }
        events
    }
}

fn copy_rows<T: Clone>(rows: &Vec<T>) -> (r: Vec<T>)
    requires
        forall|x: T, y: T| #[trigger] cloned(x, y) ==> x == y,
    ensures
        r@ == rows@,
{
    let mut out: Vec<T> = Vec::new();
    let mut i: usize = 0;
    while i < rows.len()
        invariant
            i <= rows.len(),
            forall|x: T, y: T| #[trigger] cloned(x, y) ==> x == y,
            out@ == rows@.take(i as int),
        decreases rows.len() - i,
    {
        let x = rows[i].clone();
        assert(cloned(rows@[i as int], x));
        out.push(x);
        i += 1;
        assert(out@ =~= rows@.take(i as int));
    }
    assert(rows@.take(i as int) == rows@);
    out
}

// ---------------------------------------------------------------------------
// tags in columns
// ---------------------------------------------------------------------------

/// The two columns that a tag is stored in.
pub open spec fn tag_columns(tag: Tag) -> (i64, Option<i64>) {
    match tag {
        Tag::Conv(id) => (0, Some(id)),
        Tag::User(id) => (1, Some(id)),
        Tag::Presence => (2, None),
        Tag::Roles => (3, None),
        Tag::Directory => (4, None),
    }
}

pub fn encode_tag(tag: Tag) -> (r: (i64, Option<i64>))
    ensures
        r == tag_columns(tag),
{
    match tag {
        Tag::Conv(id) => (0, Some(id)),
        Tag::User(id) => (1, Some(id)),
        Tag::Presence => (2, None),
        Tag::Roles => (3, None),
        Tag::Directory => (4, None),
    }
}

/// The first role of a user has the highest priority: it is the one that
/// colours the name.
pub proof fn the_highest_role_comes_first(db: Db, user: UserId, i: int)
    requires
        0 <= i < db.held_roles(user).len(),
    ensures
        db.held_roles(user)[0].priority >= db.held_roles(user)[i].priority,
{
    ordered_is_sorted_permutation(db.tables.roles@.filter(held_by(db.tables.grants@, user)));
    assert(db.held_roles(user)[0].ranks(db.held_roles(user)[i]));
}

/// A user has exactly the roles that were granted to them and still exist, so
/// a name is never coloured by a role that does not.
pub proof fn only_granted_roles_are_held(db: Db, user: UserId, role: Role)
    ensures
        db.held_roles(user).contains(role) <==> db.tables.roles@.contains(role)
            && db.tables.grants@.contains(Grant { user, role: role.id }),
{
    let held = db.tables.roles@.filter(held_by(db.tables.grants@, user));
    lemma_filter_contains(db.tables.roles@, held_by(db.tables.grants@, user));
    ordered_contains(held, role);
}

/// Two tags that are stored alike are the same tag.
pub proof fn tags_are_stored_apart(a: Tag, b: Tag)
    requires
        tag_columns(a) == tag_columns(b),
    ensures
        a == b,
{
}

// ---------------------------------------------------------------------------
// what comes back
// ---------------------------------------------------------------------------

/// A conversation that is not a channel is listed for its members and for
/// nobody else; a channel is listed for everyone.
pub proof fn only_members_see_a_private_conversation(db: Db, user: UserId, c: Conversation)
    ensures
        ({
            let listed = ordered(db.tables.convs@.filter(open_to(db.tables.members@, user)));
            let joined = exists|m: Member| #[trigger]
                db.tables.members@.contains(m) && m.conv == c.id && m.user == user;
            &&& listed.contains(c) ==> db.tables.convs@.contains(c)
            &&& listed.contains(c) && c.kind != ConvKind::Channel ==> joined
            &&& db.tables.convs@.contains(c) && c.kind == ConvKind::Channel ==> listed.contains(c)
            &&& db.tables.convs@.contains(c) && joined ==> listed.contains(c)
        }),
{
    let members = db.tables.members@;
    let seen = db.tables.convs@.filter(open_to(members, user));
    lemma_filter_contains(db.tables.convs@, open_to(members, user));
    ordered_contains(seen, c);
    if has_member(members, c.id, user) {
        let i = choose|i: int|
            0 <= i < members.len() && (#[trigger] members[i]).conv == c.id && members[i].user
                == user;
        assert(members.contains(members[i]));
    }
    if exists|m: Member| #[trigger] members.contains(m) && m.conv == c.id && m.user == user {
        let m = choose|m: Member| #[trigger]
            members.contains(m) && m.conv == c.id && m.user == user;
        let i = choose|i: int| 0 <= i < members.len() && members[i] == m;
        assert(members[i].conv == c.id && members[i].user == user);
    }
}

/// Conversations are listed channels first, then DMs, then groups, and by name
/// within each of these.
pub proof fn conversations_are_listed_by_kind_and_name(db: Db, user: UserId, i: int, j: int)
    requires
        0 <= i < j < ordered(db.tables.convs@.filter(open_to(db.tables.members@, user))).len(),
    ensures
        ({
            let listed = ordered(db.tables.convs@.filter(open_to(db.tables.members@, user)));
            &&& listed[i].kind == ConvKind::Dm ==> listed[j].kind != ConvKind::Channel
            &&& listed[i].kind == ConvKind::Group ==> listed[j].kind == ConvKind::Group
            &&& listed[i].kind == listed[j].kind ==> text_le(listed[i].name@, listed[j].name@)
        }),
{
    ordered_is_sorted_permutation(db.tables.convs@.filter(open_to(db.tables.members@, user)));
    let listed = ordered(db.tables.convs@.filter(open_to(db.tables.members@, user)));
    assert(listed[i].ranks(listed[j]));
}

/// Everyone is in a channel; in a DM or a group, its members are, and nobody
/// else. They are listed by name.
pub proof fn members_are_who_is_there(db: Db, conv: Conversation, a: Account)
    requires
        first(db.tables.convs@, conv_is(conv.id)) == Some(conv),
    ensures
        conv.kind == ConvKind::Channel ==> (db.present(conv.id).contains(a)
            <==> db.tables.users@.contains(a)),
        conv.kind != ConvKind::Channel ==> (db.present(conv.id).contains(a)
            <==> db.tables.users@.contains(a) && exists|m: Member| #[trigger]
            db.tables.members@.contains(m) && m.conv == conv.id && m.user == a.id),
        forall|i: int, j: int|
            0 <= i < j < db.present(conv.id).len() ==> text_le(
                (#[trigger] db.present(conv.id)[i]).name@,
                (#[trigger] db.present(conv.id)[j]).name@,
            ),
        db.present(conv.id).map_values(id_of()).len() == db.present(conv.id).len(),
        forall|i: int|
            0 <= i < db.present(conv.id).len() ==> #[trigger] db.present(conv.id).map_values(
                id_of(),
            )[i] == db.present(conv.id)[i].id,
{
    let users = db.tables.users@;
    let members = db.tables.members@;
    let inside = users.filter(user_in(members, conv.id));
    lemma_filter_contains(users, user_in(members, conv.id));
    ordered_contains(users, a);
    ordered_contains(inside, a);
    ordered_is_sorted_permutation(users);
    ordered_is_sorted_permutation(inside);
    let p = db.present(conv.id);
    assert forall|i: int, j: int| 0 <= i < j < p.len() implies text_le(
        (#[trigger] p[i]).name@,
        (#[trigger] p[j]).name@,
    ) by {
        assert(p[i].ranks(p[j]));
    }
    if has_member(members, conv.id, a.id) {
        let i = choose|i: int|
            0 <= i < members.len() && (#[trigger] members[i]).conv == conv.id && members[i].user
                == a.id;
        assert(members.contains(members[i]));
    }
    if exists|m: Member| #[trigger] members.contains(m) && m.conv == conv.id && m.user == a.id {
        let m = choose|m: Member| #[trigger]
            members.contains(m) && m.conv == conv.id && m.user == a.id;
        let i = choose|i: int| 0 <= i < members.len() && members[i] == m;
        assert(members[i].conv == conv.id && members[i].user == a.id);
    }
}

/// A page of a conversation holds messages of that conversation only, none
/// that is deleted and, paging backwards, none that is not older than where
/// the last page began. It is as long as asked for unless there are fewer, it
/// leaves out only what is older than all of it, and it goes from old to new.
pub proof fn a_page_holds_the_newest_messages(
    db: Db,
    conv: ConvId,
    before: Option<MessageId>,
    limit: usize,
    p: Post,
)
    ensures
        ({
            let rows = newest(
                ordered(db.tables.posts@.filter(post_in(conv, before))),
                limit as int,
            );
            let page = rows.map_values(message_of());
            let wanted = db.tables.posts@.contains(p) && p.message.conv == conv && !p.deleted && (
            before is Some ==> p.message.id.bits < before->Some_0.bits);
            &&& rows.contains(p) ==> wanted
            &&& page.len() <= limit
            &&& wanted && !rows.contains(p) ==> page.len() == limit && forall|i: int|
                0 <= i < page.len() ==> p.message.id.bits <= (#[trigger] page[i]).id.bits
            &&& forall|i: int, j: int|
                0 <= i < j < page.len() ==> (#[trigger] page[i]).id.bits <= (
                #[trigger] page[j]).id.bits
            &&& page.len() == rows.len()
            &&& forall|i: int| 0 <= i < page.len() ==> #[trigger] page[i] == rows[i].message
        }),
{
    let found = db.tables.posts@.filter(post_in(conv, before));
    let all = ordered(found);
    let rows = newest(all, limit as int);
    let page = rows.map_values(message_of());
    lemma_filter_contains(db.tables.posts@, post_in(conv, before));
    ordered_contains(found, p);
    ordered_is_sorted_permutation(found);
    let start = all.len() - rows.len();
    assert forall|i: int| 0 <= i < rows.len() implies #[trigger] rows[i] == all[start + i] by {}
    if rows.contains(p) {
        let i = choose|i: int| 0 <= i < rows.len() && rows[i] == p;
        assert(all[start + i] == p);
        assert(all.contains(p));
    }
    if all.contains(p) && !rows.contains(p) {
        let k = choose|k: int| 0 <= k < all.len() && all[k] == p;
        if k >= start {
            assert(rows[k - start] == p);
        }
        assert forall|i: int| 0 <= i < page.len() implies p.message.id.bits <= (
        #[trigger] page[i]).id.bits by {
            assert(all[k].ranks(all[start + i]));
        }
    }
    assert forall|i: int, j: int| 0 <= i < j < page.len() implies (#[trigger] page[i]).id.bits <= (
    #[trigger] page[j]).id.bits by {
        assert(all[start + i].ranks(all[start + j]));
    }
}

/// What is replayed matches the subscription, happened after the last event
/// seen and no longer than a week ago, and comes in the order it happened in;
/// all of it is replayed, unless that is more than 500 events, and then the
/// oldest are left out and that is reported.
pub proof fn a_replay_leaves_no_gap_unreported(
    db: Db,
    tags: Seq<Tag>,
    since: Option<Uuid>,
    now: Millis,
    e: Event,
)
    ensures
        ({
            let all = db.backlog(tags, since, now);
            let sent = newest(all, REPLAY_EVENT_CAP as int);
            let wanted = db.log@.contains(e) && share_tag(tags_of(e.kind.deep_view()), tags) && e.at
                >= now - 7 * 24 * 60 * 60 * 1000 && (since is Some ==> e.id.bits
                > since->Some_0.bits);
            &&& sent.contains(e) ==> wanted
            &&& wanted && all.len() <= 500 ==> sent.contains(e)
            &&& wanted && !sent.contains(e) ==> sent.len() == 500 && forall|i: int|
                0 <= i < sent.len() ==> e.id.bits <= (#[trigger] sent[i]).id.bits
            &&& sent.len() <= 500
            &&& all.len() > 500 <==> sent.len() < all.len()
            &&& forall|i: int, j: int|
                0 <= i < j < sent.len() ==> (#[trigger] sent[i]).id.bits <= (
                #[trigger] sent[j]).id.bits
        }),
{
    let keep = missed_by(tags, since, now - REPLAY_AGE_MILLIS);
    let found = db.log@.filter(keep);
    let all = db.backlog(tags, since, now);
    let sent = newest(all, REPLAY_EVENT_CAP as int);
    lemma_filter_contains(db.log@, keep);
    ordered_contains(found, e);
    ordered_is_sorted_permutation(found);
    let start = all.len() - sent.len();
    assert forall|i: int| 0 <= i < sent.len() implies #[trigger] sent[i] == all[start + i] by {}
    if sent.contains(e) {
        let i = choose|i: int| 0 <= i < sent.len() && sent[i] == e;
        assert(all[start + i] == e);
        assert(all.contains(e));
    }
    if all.contains(e) && !sent.contains(e) {
        let k = choose|k: int| 0 <= k < all.len() && all[k] == e;
        if k >= start {
            assert(sent[k - start] == e);
        }
        assert forall|i: int| 0 <= i < sent.len() implies e.id.bits <= (
        #[trigger] sent[i]).id.bits by {
            assert(all[k].ranks(all[start + i]));
        }
    }
    assert forall|i: int, j: int| 0 <= i < j < sent.len() implies (#[trigger] sent[i]).id.bits <= (
    #[trigger] sent[j]).id.bits by {
        assert(all[start + i].ranks(all[start + j]));
    }
}

/// The log is listed from its oldest event on, as far as asked for.
pub proof fn the_log_is_listed_from_the_start(db: Db, limit: usize, e: Event)
    ensures
        ({
            let listed = oldest(ordered(db.log@), limit as int);
            &&& listed.len() == if db.log@.len() < limit { db.log@.len() } else { limit as nat }
            &&& listed.contains(e) ==> db.log@.contains(e)
            &&& db.log@.contains(e) && !listed.contains(e) ==> forall|i: int|
                0 <= i < listed.len() ==> (#[trigger] listed[i]).id.bits <= e.id.bits
            &&& forall|i: int, j: int|
                0 <= i < j < listed.len() ==> (#[trigger] listed[i]).id.bits <= (
                #[trigger] listed[j]).id.bits
        }),
{
    let all = ordered(db.log@);
    let listed = oldest(all, limit as int);
    ordered_contains(db.log@, e);
    ordered_is_sorted_permutation(db.log@);
    if listed.contains(e) {
        let i = choose|i: int| 0 <= i < listed.len() && listed[i] == e;
        assert(all[i] == e);
    }
    if all.contains(e) && !listed.contains(e) {
        let k = choose|k: int| 0 <= k < all.len() && all[k] == e;
        if k < listed.len() {
            assert(listed[k] == e);
        }
        assert forall|i: int| 0 <= i < listed.len() implies (#[trigger] listed[i]).id.bits
            <= e.id.bits by {
            assert(all[i].ranks(all[k]));
        }
    }
    assert forall|i: int, j: int| 0 <= i < j < listed.len() implies (#[trigger] listed[i]).id.bits
        <= (#[trigger] listed[j]).id.bits by {
        assert(all[i].ranks(all[j]));
    }
}

/// Looking something up by its number gives what has that number, and nothing
/// only where nothing has it.
pub proof fn rows_are_found_by_number(db: Db, id: i64, event: Uuid)
    ensures
        match first(db.tables.users@, user_is(id)) {
            Some(a) => db.tables.users@.contains(a) && a.id == id,
            None => forall|a: Account| #[trigger] db.tables.users@.contains(a) ==> a.id != id,
        },
        match first(db.tables.convs@, conv_is(id)) {
            Some(c) => db.tables.convs@.contains(c) && c.id == id,
            None => forall|c: Conversation| #[trigger]
                db.tables.convs@.contains(c) ==> c.id != id,
        },
        match first(db.log@, event_is(event)) {
            Some(e) => db.log@.contains(e) && e.id == event,
            None => forall|e: Event| #[trigger] db.log@.contains(e) ==> e.id != event,
        },
{
    lemma_first_found(db.tables.users@, user_is(id));
    lemma_first_found(db.tables.convs@, conv_is(id));
    lemma_first_found(db.log@, event_is(event));
}

/// Looking a user or a conversation up by name gives one of that name,
/// whatever the case, and nothing only where none has it.
pub proof fn rows_are_found_by_name(db: Db, name: Seq<char>)
    ensures
        match first(db.tables.users@, user_called(name)) {
            Some(a) => db.tables.users@.contains(a) && same_nocase(a.name@, name),
            None => forall|a: Account| #[trigger]
                db.tables.users@.contains(a) ==> !same_nocase(a.name@, name),
        },
        match first(db.tables.convs@, conv_called(name)) {
            Some(c) => db.tables.convs@.contains(c) && same_nocase(c.name@, name),
            None => forall|c: Conversation| #[trigger]
                db.tables.convs@.contains(c) ==> !same_nocase(c.name@, name),
        },
{
    lemma_first_found(db.tables.users@, user_called(name));
    lemma_first_found(db.tables.convs@, conv_called(name));
}

/// A profile shows what the account holds, and the roles that were granted.
pub proof fn a_profile_shows_the_account(a: Account, roles: Seq<Role>, online: bool, u: User)
    requires
        profiled(a, roles, online, u),
    ensures
        u.id == a.id && u.name@ == a.name@ && u.bio@ == a.bio@,
        u.joined_at == a.joined_at && u.last_seen == a.last_seen,
        u.online == online && u.roles@ == roles,
{
}

/// The keys are those of the accounts that have one, each with its owner, and
/// in the order of the accounts' numbers.
pub proof fn only_real_keys_are_listed(db: Db, user: UserId, key: String)
    ensures
        ({
            let keys = ordered(db.tables.users@.filter(has_key()).map_values(key_of()));
            &&& keys.contains((user, key)) <==> exists|a: Account| #[trigger]
                db.tables.users@.contains(a) && a.id == user && a.pubkey == key && a.pubkey@.len()
                    > 0
            &&& forall|i: int, j: int|
                0 <= i < j < keys.len() ==> (#[trigger] keys[i]).0 <= (#[trigger] keys[j]).0
        }),
{
    let users = db.tables.users@;
    let kept = users.filter(has_key());
    let rows = kept.map_values(key_of());
    let keys = ordered(rows);
    lemma_filter_contains(users, has_key());
    ordered_contains(rows, (user, key));
    ordered_is_sorted_permutation(rows);
    if rows.contains((user, key)) {
        let j = choose|j: int| 0 <= j < rows.len() && rows[j] == (user, key);
        assert(kept.contains(kept[j]));
        assert(users.contains(kept[j]));
    }
    if exists|a: Account| #[trigger]
        users.contains(a) && a.id == user && a.pubkey == key && a.pubkey@.len() > 0 {
        let a = choose|a: Account| #[trigger]
            users.contains(a) && a.id == user && a.pubkey == key && a.pubkey@.len() > 0;
        assert(kept.contains(a));
        let j = choose|j: int| 0 <= j < kept.len() && kept[j] == a;
        assert(rows[j] == (user, key));
    }
    assert forall|i: int, j: int| 0 <= i < j < keys.len() implies (#[trigger] keys[i]).0 <= (
    #[trigger] keys[j]).0 by {
        assert(keys[i].ranks(keys[j]));
    }
}

/// People are listed by name, roles with the highest priority first and the
/// older ones first among equals.
pub proof fn lists_are_in_order(db: Db, i: int, j: int)
    ensures
        ({
            let people = ordered(db.tables.users@);
            let roles = ordered(db.tables.roles@);
            &&& people.len() == db.tables.users@.len()
            &&& roles.len() == db.tables.roles@.len()
            &&& 0 <= i < j < people.len() ==> text_le(people[i].name@, people[j].name@)
            &&& 0 <= i < j < roles.len() ==> roles[i].priority >= roles[j].priority
            &&& 0 <= i < j < roles.len() && roles[i].priority == roles[j].priority ==> roles[i].id
                <= roles[j].id
        }),
{
    let people = ordered(db.tables.users@);
    let roles = ordered(db.tables.roles@);
    ordered_is_sorted_permutation(db.tables.users@);
    ordered_is_sorted_permutation(db.tables.roles@);
    if 0 <= i < j < people.len() {
        assert(people[i].ranks(people[j]));
    }
    if 0 <= i < j < roles.len() {
        assert(roles[i].ranks(roles[j]));
    }
}

} // verus!
