//! How events become changes to the tables, and what always holds of tables
//! that are changed in no other way.
use vstd::prelude::*;

use crate::db::tables::{
    blanking, conv_in_use, editing, empty_board, has_conv, has_member, has_post, has_role,
    has_user, name_taken, other_conv, other_conv_member, other_conv_post, other_grant,
    other_member, other_role, other_role_grant, renaming, retitling, rewriting_bio, role_in_use,
    run, seeing, touched, Account, AccountData, Board, Grant, Member, Post, PostData, Statement, StatementData,
    StoreError,
};
use crate::model::{
    ConvData, ConvId, Conversation, Event, EventData, EventKind, KindData, Message, MessageData,
    MessageId, Millis, Role, RoleData, RoleId, UserId, Uuid,
};
use crate::seqs::{distinct, lemma_filter_contains, lemma_filter_distinct, lemma_push_distinct};

verus! {

/// The statements that fold an event into the tables.
pub open spec fn statements(e: EventData) -> Seq<StatementData> {
    match e.kind {
        KindData::UserCreated { user, name, pubkey } => seq![
            StatementData::InsertUser(
                AccountData {
                    id: user,
                    name,
                    bio: seq![],
                    pubkey,
                    joined_at: e.at,
                    last_seen: e.at,
                },
            ),
        ],
        KindData::UserRenamed { user, name } => seq![StatementData::RenameUser { user, name }],
        KindData::BioSet { user, bio } => seq![StatementData::SetBio { user, bio }],
        KindData::RoleCreated { role, name, color, priority, hoisted, admin } => seq![
            StatementData::InsertRole(
                RoleData { id: role, name, color, priority, hoisted, admin },
            ),
        ],
        KindData::RoleGranted { user, role } => seq![
            StatementData::InsertGrant(Grant { user, role }),
        ],
        KindData::RoleRevoked { user, role } => seq![
            StatementData::DeleteGrant(Grant { user, role }),
        ],
        KindData::ConvCreated { conv, kind, name } => seq![
            StatementData::InsertConv(
                ConvData { id: conv, kind, name, topic: seq![], created_at: e.at },
            ),
        ],
        KindData::ConvRemoved { conv } => seq![
            StatementData::DeleteMembersOf { conv },
            StatementData::DeleteMessagesOf { conv },
            StatementData::DeleteConv { conv },
        ],
        KindData::TopicSet { conv, topic } => seq![StatementData::SetTopic { conv, topic }],
        KindData::MemberJoined { conv, user } => seq![
            StatementData::InsertMember(Member { conv, user, joined_at: e.at }),
        ],
        KindData::MemberLeft { conv, user } => seq![StatementData::DeleteMember { conv, user }],
        KindData::MessageSent { conv, author, body } => seq![
            StatementData::InsertMessage(
                PostData {
                    message: MessageData {
                        id: e.id,
                        conv,
                        author,
                        body,
                        created_at: e.at,
                        edited_at: None,
                    },
                    deleted: false,
                },
            ),
        ],
        KindData::MessageEdited { message, body } => seq![
            StatementData::EditMessage { message, body, at: e.at },
        ],
        KindData::MessageDeleted { message } => seq![StatementData::BlankMessage { message }],
        KindData::RoleRemoved { role } => seq![
            StatementData::DeleteGrantsOf { role },
            StatementData::DeleteRole { role },
        ],
    }
}

/// Fold one event into statements on the projection tables. They run inside
/// the same transaction that appends the event.
pub fn apply_projection(event: &Event) -> (r: Vec<Statement>)
    ensures
        r.deep_view() == statements(event.deep_view()),
{
    let mut out: Vec<Statement> = Vec::new();
    match &event.kind {
        EventKind::UserCreated { user, name, pubkey } => {
            out.push(
                Statement::InsertUser(
                    Account {
                        id: *user,
                        name: name.clone(),
                        bio: String::new(),
                        pubkey: pubkey.clone(),
                        joined_at: event.at,
                        last_seen: event.at,
                    },
                ),
            );
        },
        EventKind::UserRenamed { user, name } => {
            out.push(Statement::RenameUser { user: *user, name: name.clone() });
        },
        EventKind::BioSet { user, bio } => {
            out.push(Statement::SetBio { user: *user, bio: bio.clone() });
        },
        EventKind::RoleCreated { role, name, color, priority, hoisted, admin } => {
            out.push(
                Statement::InsertRole(
                    Role {
                        id: *role,
                        name: name.clone(),
                        color: *color,
                        priority: *priority,
                        hoisted: *hoisted,
                        admin: *admin,
                    },
                ),
            );
        },
        EventKind::RoleGranted { user, role } => {
            out.push(Statement::InsertGrant(Grant { user: *user, role: *role }));
        },
        EventKind::RoleRevoked { user, role } => {
            out.push(Statement::DeleteGrant(Grant { user: *user, role: *role }));
        },
        EventKind::ConvCreated { conv, kind, name } => {
            out.push(
                Statement::InsertConv(
                    Conversation {
                        id: *conv,
                        kind: *kind,
                        name: name.clone(),
                        topic: String::new(),
                        created_at: event.at,
                    },
                ),
            );
        },
        EventKind::ConvRemoved { conv } => {
            out.push(Statement::DeleteMembersOf { conv: *conv });
            out.push(Statement::DeleteMessagesOf { conv: *conv });
            out.push(Statement::DeleteConv { conv: *conv });
        },
        EventKind::TopicSet { conv, topic } => {
            out.push(Statement::SetTopic { conv: *conv, topic: topic.clone() });
        },
        EventKind::MemberJoined { conv, user } => {
            out.push(
                Statement::InsertMember(Member { conv: *conv, user: *user, joined_at: event.at }),
            );
        },
        EventKind::MemberLeft { conv, user } => {
            out.push(Statement::DeleteMember { conv: *conv, user: *user });
        },
        EventKind::MessageSent { conv, author, body } => {
            out.push(
                Statement::InsertMessage(
                    Post {
                        message: Message {
                            id: event.id,
                            conv: *conv,
                            author: *author,
                            body: body.clone(),
                            created_at: event.at,
                            edited_at: None,
                        },
                        deleted: false,
                    },
                ),
            );
        },
        EventKind::MessageEdited { message, body } => {
            out.push(
                Statement::EditMessage { message: *message, body: body.clone(), at: event.at },
            );
        },
        EventKind::MessageDeleted { message } => {
            out.push(Statement::BlankMessage { message: *message });
        },
        EventKind::RoleRemoved { role } => {
            out.push(Statement::DeleteGrantsOf { role: *role });
            out.push(Statement::DeleteRole { role: *role });
        },
    }
    assert(out.deep_view() =~= statements(event.deep_view()));
    out
}

/// The board after the first `n` statements.
pub open spec fn after(b: Board, ss: Seq<StatementData>, n: int) -> Result<Board, StoreError>
    decreases n,
{
    if n <= 0 {
        Ok(b)
    } else {
        match after(b, ss, n - 1) {
            Ok(m) => run(m, ss[n - 1]),
            Err(e) => Err(e),
        }
    }
}

/// What an event makes of the board, or why it is refused.
pub open spec fn effect(b: Board, e: EventData) -> Result<Board, StoreError> {
    after(b, statements(e), statements(e).len() as int)
}

/// Whether the log holds an event with this id.
pub open spec fn logged(log: Seq<EventData>, id: Uuid) -> bool {
    exists|i: int| 0 <= i < log.len() && (#[trigger] log[i]).id == id
}

/// What appending an event makes of the board, or why it is refused.
pub open spec fn appended(b: Board, log: Seq<EventData>, e: EventData) -> Result<
    Board,
    StoreError,
> {
    if logged(log, e.id) {
        Err(StoreError::EventExists)
    } else {
        effect(b, e)
    }
}

/// An event is refused at its first statement or not at all, so that a refused
/// one leaves nothing half done.
pub proof fn only_the_first_statement_can_fail(b: Board, e: EventData, n: int)
    requires
        1 <= n <= statements(e).len(),
    ensures
        after(b, statements(e), n) is Ok <==> run(b, statements(e)[0]) is Ok,
        after(b, statements(e), n) is Err ==> after(b, statements(e), n) == run(
            b,
            statements(e)[0],
        ),
{
    let ss = statements(e);
    reveal_with_fuel(after, 4);
    match e.kind {
        KindData::ConvRemoved { conv } => {
            lemma_filter_contains(b.members, other_conv_member(conv));
            lemma_filter_contains(b.posts, other_conv_post(conv));
            let cleared = Board {
                members: b.members.filter(other_conv_member(conv)),
                posts: b.posts.filter(other_conv_post(conv)),
                ..b
            };
            assert(!conv_in_use(cleared, conv)) by {
                assert forall|i: int| 0 <= i < cleared.members.len() implies (
                #[trigger] cleared.members[i]).conv != conv by {
                    assert(cleared.members.contains(cleared.members[i]));
                }
                assert forall|i: int| 0 <= i < cleared.posts.len() implies (
                #[trigger] cleared.posts[i]).message.conv != conv by {
                    assert(cleared.posts.contains(cleared.posts[i]));
                }
            }
            assert(after(b, ss, 2) == Ok::<Board, StoreError>(cleared));
        },
        KindData::RoleRemoved { role } => {
            lemma_filter_contains(b.grants, other_role_grant(role));
            let cleared = b.grants.filter(other_role_grant(role));
            assert(!role_in_use(cleared, role)) by {
                assert forall|i: int| 0 <= i < cleared.len() implies (#[trigger] cleared[i]).role
                    != role by {
                    assert(cleared.contains(cleared[i]));
                }
            }
        },
        _ => {},
    }
}

// ---------------------------------------------------------------------------
// the rules of the schema
// ---------------------------------------------------------------------------

pub open spec fn account_id() -> spec_fn(AccountData) -> UserId {
    |a: AccountData| a.id
}

pub open spec fn account_name() -> spec_fn(AccountData) -> Seq<char> {
    |a: AccountData| a.name
}

pub open spec fn role_id() -> spec_fn(RoleData) -> RoleId {
    |r: RoleData| r.id
}

pub open spec fn conv_id() -> spec_fn(ConvData) -> ConvId {
    |c: ConvData| c.id
}

pub open spec fn post_id() -> spec_fn(PostData) -> MessageId {
    |p: PostData| p.message.id
}

pub open spec fn grant_key() -> spec_fn(Grant) -> Grant {
    |g: Grant| g
}

pub open spec fn member_key() -> spec_fn(Member) -> (ConvId, UserId) {
    |m: Member| (m.conv, m.user)
}

pub open spec fn event_id() -> spec_fn(EventData) -> Uuid {
    |e: EventData| e.id
}

/// Ids are unique, user names are unique, nobody holds a role or a membership
/// twice, and whatever a row refers to is there.
pub open spec fn rules(b: Board) -> bool {
    &&& distinct(b.users, account_id())
    &&& distinct(b.users, account_name())
    &&& distinct(b.roles, role_id())
    &&& distinct(b.convs, conv_id())
    &&& distinct(b.posts, post_id())
    &&& distinct(b.grants, grant_key())
    &&& distinct(b.members, member_key())
    &&& forall|i: int|
        0 <= i < b.grants.len() ==> has_user(b.users, (#[trigger] b.grants[i]).user) && has_role(
            b.roles,
            b.grants[i].role,
        )
    &&& forall|i: int|
        0 <= i < b.members.len() ==> has_user(b.users, (#[trigger] b.members[i]).user) && has_conv(
            b.convs,
            b.members[i].conv,
        )
    &&& forall|i: int|
        0 <= i < b.posts.len() ==> has_user(b.users, (#[trigger] b.posts[i]).message.author)
            && has_conv(b.convs, b.posts[i].message.conv)
}

proof fn lemma_users_changed(b: Board, f: spec_fn(AccountData) -> AccountData)
    requires
        rules(b),
        forall|a: AccountData| (#[trigger] f(a)).id == a.id,
        distinct(b.users.map_values(f), account_name()),
    ensures
        rules(Board { users: b.users.map_values(f), ..b }),
{
    let users = b.users.map_values(f);
    assert(distinct(users, account_id())) by {
        assert forall|i: int, j: int| 0 <= i < j < users.len() implies account_id()(
            #[trigger] users[i],
        ) != account_id()(#[trigger] users[j]) by {
            assert(account_id()(b.users[i]) != account_id()(b.users[j]));
        }
    }
    assert forall|id: UserId| has_user(b.users, id) implies #[trigger] has_user(users, id) by {
        let i = choose|i: int| 0 <= i < b.users.len() && (#[trigger] b.users[i]).id == id;
        assert(users[i].id == id);
    }
}

proof fn lemma_convs_changed(b: Board, f: spec_fn(ConvData) -> ConvData)
    requires
        rules(b),
        forall|c: ConvData| (#[trigger] f(c)).id == c.id,
    ensures
        rules(Board { convs: b.convs.map_values(f), ..b }),
{
    let convs = b.convs.map_values(f);
    assert(distinct(convs, conv_id())) by {
        assert forall|i: int, j: int| 0 <= i < j < convs.len() implies conv_id()(
            #[trigger] convs[i],
        ) != conv_id()(#[trigger] convs[j]) by {
            assert(conv_id()(b.convs[i]) != conv_id()(b.convs[j]));
        }
    }
    assert forall|id: ConvId| has_conv(b.convs, id) implies #[trigger] has_conv(convs, id) by {
        let i = choose|i: int| 0 <= i < b.convs.len() && (#[trigger] b.convs[i]).id == id;
        assert(convs[i].id == id);
    }
}

proof fn lemma_posts_changed(b: Board, f: spec_fn(PostData) -> PostData)
    requires
        rules(b),
        forall|p: PostData|
            (#[trigger] f(p)).message.id == p.message.id && f(p).message.conv == p.message.conv
                && f(p).message.author == p.message.author,
    ensures
        rules(Board { posts: b.posts.map_values(f), ..b }),
{
    let posts = b.posts.map_values(f);
    assert(distinct(posts, post_id())) by {
        assert forall|i: int, j: int| 0 <= i < j < posts.len() implies post_id()(
            #[trigger] posts[i],
        ) != post_id()(#[trigger] posts[j]) by {
            assert(post_id()(b.posts[i]) != post_id()(b.posts[j]));
        }
    }
    assert forall|i: int| 0 <= i < posts.len() implies has_user(
        b.users,
        (#[trigger] posts[i]).message.author,
    ) && has_conv(b.convs, posts[i].message.conv) by {
        assert(posts[i] == f(b.posts[i]));
    }
}

proof fn lemma_users_grow(b: Board, row: AccountData)
    requires
        rules(b),
        !has_user(b.users, row.id),
        !name_taken(b.users, row.id, row.name),
    ensures
        rules(Board { users: b.users.push(row), ..b }),
{
    let users = b.users.push(row);
    lemma_push_distinct(b.users, row, account_id());
    assert forall|i: int| 0 <= i < b.users.len() implies account_name()(#[trigger] b.users[i])
        != account_name()(row) by {}
    lemma_push_distinct(b.users, row, account_name());
    assert forall|id: UserId| has_user(b.users, id) implies #[trigger] has_user(users, id) by {
        let i = choose|i: int| 0 <= i < b.users.len() && (#[trigger] b.users[i]).id == id;
        assert(users[i].id == id);
    }
}

proof fn lemma_renamed_apart(b: Board, user: UserId, name: Seq<char>)
    requires
        rules(b),
        !(has_user(b.users, user) && name_taken(b.users, user, name)),
    ensures
        distinct(b.users.map_values(renaming(user, name)), account_name()),
{
    let users = b.users.map_values(renaming(user, name));
    assert forall|i: int, j: int| 0 <= i < j < users.len() implies account_name()(
        #[trigger] users[i],
    ) != account_name()(#[trigger] users[j]) by {
        assert(account_name()(b.users[i]) != account_name()(b.users[j]));
        assert(account_id()(b.users[i]) != account_id()(b.users[j]));
    }
}

/// No statement breaks the rules of the schema.
#[verifier::rlimit(40)]
pub proof fn statements_keep_the_rules(b: Board, s: StatementData)
    requires
        rules(b),
        run(b, s) is Ok,
    ensures
        rules(run(b, s)->Ok_0),
{
    let r = run(b, s)->Ok_0;
    match s {
        StatementData::InsertUser(row) => {
            lemma_users_grow(b, row);
        },
        StatementData::RenameUser { user, name } => {
            lemma_renamed_apart(b, user, name);
            lemma_users_changed(b, renaming(user, name));
        },
        StatementData::SetBio { user, bio } => {
            let f = rewriting_bio(user, bio);
            assert(distinct(b.users.map_values(f), account_name())) by {
                assert forall|i: int, j: int|
                    0 <= i < j < b.users.map_values(f).len() implies account_name()(
                    #[trigger] b.users.map_values(f)[i],
                ) != account_name()(#[trigger] b.users.map_values(f)[j]) by {
                    assert(account_name()(b.users[i]) != account_name()(b.users[j]));
                }
            }
            lemma_users_changed(b, f);
        },
        StatementData::InsertRole(row) => {
            lemma_push_distinct(b.roles, row, role_id());
            assert forall|id: RoleId| has_role(b.roles, id) implies #[trigger] has_role(
                r.roles,
                id,
            ) by {
                let i = choose|i: int| 0 <= i < b.roles.len() && (#[trigger] b.roles[i]).id == id;
                assert(r.roles[i].id == id);
            }
        },
        StatementData::InsertGrant(row) => {
            if !b.grants.contains(row) {
                lemma_push_distinct(b.grants, row, grant_key());
            }
        },
        StatementData::DeleteGrant(row) => {
            lemma_grants_left(b, other_grant(row));
        },
        StatementData::DeleteGrantsOf { role } => {
            lemma_grants_left(b, other_role_grant(role));
        },
        StatementData::DeleteRole { role } => {
            lemma_filter_distinct(b.roles, other_role(role), role_id());
            lemma_filter_contains(b.roles, other_role(role));
            assert forall|i: int| 0 <= i < r.grants.len() implies has_role(
                r.roles,
                (#[trigger] r.grants[i]).role,
            ) by {
                let id = b.grants[i].role;
                assert(has_role(b.roles, id));
                let k = choose|k: int| 0 <= k < b.roles.len() && (#[trigger] b.roles[k]).id == id;
                assert(b.roles.contains(b.roles[k]));
                assert(id != role);
                assert(r.roles.contains(b.roles[k]));
                let m = choose|m: int| 0 <= m < r.roles.len() && r.roles[m] == b.roles[k];
                assert(r.roles[m].id == id);
            }
        },
        StatementData::InsertConv(row) => {
            lemma_push_distinct(b.convs, row, conv_id());
            assert forall|id: ConvId| has_conv(b.convs, id) implies #[trigger] has_conv(
                r.convs,
                id,
            ) by {
                let i = choose|i: int| 0 <= i < b.convs.len() && (#[trigger] b.convs[i]).id == id;
                assert(r.convs[i].id == id);
            }
        },
        StatementData::DeleteMembersOf { conv } => {
            lemma_members_left(b, other_conv_member(conv));
        },
        StatementData::DeleteMessagesOf { conv } => {
            lemma_filter_distinct(b.posts, other_conv_post(conv), post_id());
            lemma_filter_contains(b.posts, other_conv_post(conv));
            assert forall|i: int| 0 <= i < r.posts.len() implies has_user(
                r.users,
                (#[trigger] r.posts[i]).message.author,
            ) && has_conv(r.convs, r.posts[i].message.conv) by {
                assert(r.posts.contains(r.posts[i]));
                let k = choose|k: int| 0 <= k < b.posts.len() && b.posts[k] == r.posts[i];
                assert(has_user(b.users, b.posts[k].message.author));
            }
        },
        StatementData::DeleteConv { conv } => {
            lemma_conv_left(b, conv);
        },
        StatementData::SetTopic { conv, topic } => {
            lemma_convs_changed(b, retitling(conv, topic));
        },
        StatementData::InsertMember(row) => {
            if !has_member(b.members, row.conv, row.user) {
                assert forall|i: int| 0 <= i < b.members.len() implies member_key()(
                    #[trigger] b.members[i],
                ) != member_key()(row) by {}
                lemma_push_distinct(b.members, row, member_key());
            }
        },
        StatementData::DeleteMember { conv, user } => {
            lemma_members_left(b, other_member(conv, user));
        },
        StatementData::InsertMessage(row) => {
            lemma_push_distinct(b.posts, row, post_id());
        },
        StatementData::EditMessage { message, body, at } => {
            lemma_posts_changed(b, editing(message, body, at));
        },
        StatementData::BlankMessage { message } => {
            lemma_posts_changed(b, blanking(message));
        },
    }
}

proof fn lemma_grants_left(b: Board, keep: spec_fn(Grant) -> bool)
    requires
        rules(b),
    ensures
        rules(Board { grants: b.grants.filter(keep), ..b }),
{
    let grants = b.grants.filter(keep);
    lemma_filter_distinct(b.grants, keep, grant_key());
    lemma_filter_contains(b.grants, keep);
    assert forall|i: int| 0 <= i < grants.len() implies has_user(
        b.users,
        (#[trigger] grants[i]).user,
    ) && has_role(b.roles, grants[i].role) by {
        assert(grants.contains(grants[i]));
        let k = choose|k: int| 0 <= k < b.grants.len() && b.grants[k] == grants[i];
        assert(has_user(b.users, b.grants[k].user));
    }
}

proof fn lemma_members_left(b: Board, keep: spec_fn(Member) -> bool)
    requires
        rules(b),
    ensures
        rules(Board { members: b.members.filter(keep), ..b }),
{
    let members = b.members.filter(keep);
    lemma_filter_distinct(b.members, keep, member_key());
    lemma_filter_contains(b.members, keep);
    assert forall|i: int| 0 <= i < members.len() implies has_user(
        b.users,
        (#[trigger] members[i]).user,
    ) && has_conv(b.convs, members[i].conv) by {
        assert(members.contains(members[i]));
        let k = choose|k: int| 0 <= k < b.members.len() && b.members[k] == members[i];
        assert(has_user(b.users, b.members[k].user));
    }
}

proof fn lemma_conv_left(b: Board, conv: ConvId)
    requires
        rules(b),
        !(has_conv(b.convs, conv) && conv_in_use(b, conv)),
    ensures
        rules(Board { convs: b.convs.filter(other_conv(conv)), ..b }),
{
    let convs = b.convs.filter(other_conv(conv));
    lemma_filter_distinct(b.convs, other_conv(conv), conv_id());
    lemma_filter_contains(b.convs, other_conv(conv));
    assert forall|id: ConvId| has_conv(b.convs, id) && id != conv implies #[trigger] has_conv(
        convs,
        id,
    ) by {
        let k = choose|k: int| 0 <= k < b.convs.len() && (#[trigger] b.convs[k]).id == id;
        assert(b.convs.contains(b.convs[k]));
        assert(convs.contains(b.convs[k]));
        let m = choose|m: int| 0 <= m < convs.len() && convs[m] == b.convs[k];
        assert(convs[m].id == id);
    }
    assert forall|i: int| 0 <= i < b.members.len() implies has_conv(
        convs,
        (#[trigger] b.members[i]).conv,
    ) by {
        assert(has_conv(b.convs, b.members[i].conv));
    }
    assert forall|i: int| 0 <= i < b.posts.len() implies has_conv(
        convs,
        (#[trigger] b.posts[i]).message.conv,
    ) by {
        assert(has_conv(b.convs, b.posts[i].message.conv));
    }
}

/// No event breaks the rules of the schema.
pub proof fn events_keep_the_rules(b: Board, e: EventData)
    requires
        rules(b),
        effect(b, e) is Ok,
    ensures
        rules(effect(b, e)->Ok_0),
{
    lemma_after_keeps_rules(b, statements(e), statements(e).len() as int);
}

proof fn lemma_after_keeps_rules(b: Board, ss: Seq<StatementData>, n: int)
    requires
        rules(b),
        after(b, ss, n) is Ok,
    ensures
        rules(after(b, ss, n)->Ok_0),
    decreases n,
{
    if n > 0 {
        lemma_after_keeps_rules(b, ss, n - 1);
        statements_keep_the_rules(after(b, ss, n - 1)->Ok_0, ss[n - 1]);
    }
}

// ---------------------------------------------------------------------------
// reading what was written
// ---------------------------------------------------------------------------

/// What a reader of the tables sees of an event that has just been applied.
pub open spec fn visible(b: Board, e: EventData) -> bool {
    match e.kind {
        KindData::UserCreated { user, name, pubkey } => b.users.contains(
            AccountData {
                id: user,
                name,
                bio: seq![],
                pubkey,
                joined_at: e.at,
                last_seen: e.at,
            },
        ),
        KindData::UserRenamed { user, name } => forall|i: int|
            0 <= i < b.users.len() && (#[trigger] b.users[i]).id == user ==> b.users[i].name
                == name,
        KindData::BioSet { user, bio } => forall|i: int|
            0 <= i < b.users.len() && (#[trigger] b.users[i]).id == user ==> b.users[i].bio == bio,
        KindData::RoleCreated { role, name, color, priority, hoisted, admin } => b.roles.contains(
            RoleData { id: role, name, color, priority, hoisted, admin },
        ),
        KindData::RoleGranted { user, role } => b.grants.contains(Grant { user, role }),
        KindData::RoleRevoked { user, role } => !b.grants.contains(Grant { user, role }),
        KindData::ConvCreated { conv, kind, name } => b.convs.contains(
            ConvData { id: conv, kind, name, topic: seq![], created_at: e.at },
        ),
        KindData::ConvRemoved { conv } => !has_conv(b.convs, conv) && !conv_in_use(b, conv),
        KindData::TopicSet { conv, topic } => forall|i: int|
            0 <= i < b.convs.len() && (#[trigger] b.convs[i]).id == conv ==> b.convs[i].topic
                == topic,
        KindData::MemberJoined { conv, user } => has_member(b.members, conv, user),
        KindData::MemberLeft { conv, user } => !has_member(b.members, conv, user),
        KindData::MessageSent { conv, author, body } => b.posts.contains(
            PostData {
                message: MessageData {
                    id: e.id,
                    conv,
                    author,
                    body,
                    created_at: e.at,
                    edited_at: None,
                },
                deleted: false,
            },
        ),
        KindData::MessageEdited { message, body } => forall|i: int|
            0 <= i < b.posts.len() && (#[trigger] b.posts[i]).message.id == message
                ==> b.posts[i].message.body == body && b.posts[i].message.edited_at == Some(e.at),
        KindData::MessageDeleted { message } => forall|i: int|
            0 <= i < b.posts.len() && (#[trigger] b.posts[i]).message.id == message
                ==> b.posts[i].deleted && b.posts[i].message.body.len() == 0,
        KindData::RoleRemoved { role } => !has_role(b.roles, role) && !role_in_use(b.grants, role),
    }
}

/// A read straight after a write sees it.
pub proof fn a_write_is_visible(b: Board, e: EventData)
    requires
        effect(b, e) is Ok,
    ensures
        visible(effect(b, e)->Ok_0, e),
{
    let r = effect(b, e)->Ok_0;
    reveal_with_fuel(after, 4);
    match e.kind {
        KindData::UserCreated { user, name, pubkey } => {
            assert(r.users[b.users.len() as int] == r.users.last());
        },
        KindData::RoleCreated { .. } => {
            assert(r.roles[b.roles.len() as int] == r.roles.last());
        },
        KindData::RoleGranted { user, role } => {
            let grant = Grant { user, role };
            if !b.grants.contains(grant) {
                assert(r.grants[b.grants.len() as int] == grant);
            }
        },
        KindData::RoleRevoked { user, role } => {
            lemma_filter_contains(b.grants, other_grant(Grant { user, role }));
        },
        KindData::ConvCreated { .. } => {
            assert(r.convs[b.convs.len() as int] == r.convs.last());
        },
        KindData::ConvRemoved { conv } => {
            lemma_filter_contains(b.members, other_conv_member(conv));
            lemma_filter_contains(b.posts, other_conv_post(conv));
            lemma_filter_contains(b.convs, other_conv(conv));
            assert forall|i: int| 0 <= i < r.members.len() implies (#[trigger] r.members[i]).conv
                != conv by {
                assert(r.members.contains(r.members[i]));
            }
            assert forall|i: int| 0 <= i < r.posts.len() implies (
            #[trigger] r.posts[i]).message.conv != conv by {
                assert(r.posts.contains(r.posts[i]));
            }
            assert forall|i: int| 0 <= i < r.convs.len() implies (#[trigger] r.convs[i]).id
                != conv by {
                assert(r.convs.contains(r.convs[i]));
            }
        },
        KindData::MemberJoined { conv, user } => {
            if !has_member(b.members, conv, user) {
                assert(r.members[b.members.len() as int] == r.members.last());
            }
        },
        KindData::MemberLeft { conv, user } => {
            lemma_filter_contains(b.members, other_member(conv, user));
            assert forall|i: int| 0 <= i < r.members.len() implies !((
            #[trigger] r.members[i]).conv == conv && r.members[i].user == user) by {
                assert(r.members.contains(r.members[i]));
            }
        },
        KindData::MessageSent { .. } => {
            assert(r.posts[b.posts.len() as int] == r.posts.last());
        },
        KindData::RoleRemoved { role } => {
            lemma_filter_contains(b.grants, other_role_grant(role));
            lemma_filter_contains(b.roles, other_role(role));
            assert forall|i: int| 0 <= i < r.grants.len() implies (#[trigger] r.grants[i]).role
                != role by {
                assert(r.grants.contains(r.grants[i]));
            }
            assert forall|i: int| 0 <= i < r.roles.len() implies (#[trigger] r.roles[i]).id
                != role by {
                assert(r.roles.contains(r.roles[i]));
            }
        },
        _ => {},
    }
}

/// Accounts are never removed, and an account keeps the key that it was created
/// with: one without a key never gets one.
pub proof fn accounts_keep_their_keys(b: Board, e: EventData, i: int)
    requires
        effect(b, e) is Ok,
        0 <= i < b.users.len(),
    ensures
        i < effect(b, e)->Ok_0.users.len(),
        effect(b, e)->Ok_0.users[i].id == b.users[i].id,
        effect(b, e)->Ok_0.users[i].pubkey == b.users[i].pubkey,
{
    reveal_with_fuel(after, 4);
}

// ---------------------------------------------------------------------------
// the log as the source of truth
// ---------------------------------------------------------------------------

/// The board that the first `n` events of a log add up to.
pub open spec fn replayed(log: Seq<EventData>, n: int) -> Board
    decreases n,
{
    if n <= 0 {
        empty_board()
    } else {
        let before = replayed(log, n - 1);
        match effect(before, log[n - 1]) {
            Ok(b) => b,
            Err(_) => before,
        }
    }
}

pub open spec fn forgetting() -> spec_fn(AccountData) -> AccountData {
    |a: AccountData| AccountData { last_seen: a.joined_at, ..a }
}

/// The board without when each user was last seen: the one thing in the tables
/// that no event records.
pub open spec fn unseen(b: Board) -> Board {
    Board { users: b.users.map_values(forgetting()), ..b }
}

proof fn lemma_unseen_users(users: Seq<AccountData>)
    ensures
        forall|id: UserId| #[trigger]
            has_user(users.map_values(forgetting()), id) == has_user(users, id),
        forall|id: UserId, name: Seq<char>| #[trigger]
            name_taken(users.map_values(forgetting()), id, name) == name_taken(users, id, name),
{
    let u = users.map_values(forgetting());
    assert forall|id: UserId| #[trigger] has_user(u, id) == has_user(users, id) by {
        if has_user(users, id) {
            let i = choose|i: int| 0 <= i < users.len() && (#[trigger] users[i]).id == id;
            assert(u[i].id == id);
        }
        if has_user(u, id) {
            let i = choose|i: int| 0 <= i < u.len() && (#[trigger] u[i]).id == id;
            assert(users[i].id == id);
        }
    }
    assert forall|id: UserId, name: Seq<char>| #[trigger]
        name_taken(u, id, name) == name_taken(users, id, name) by {
        if name_taken(users, id, name) {
            let i = choose|i: int|
                0 <= i < users.len() && (#[trigger] users[i]).id != id && users[i].name == name;
            assert(u[i].id != id && u[i].name == name);
        }
        if name_taken(u, id, name) {
            let i = choose|i: int|
                0 <= i < u.len() && (#[trigger] u[i]).id != id && u[i].name == name;
            assert(users[i].id != id && users[i].name == name);
        }
    }
}

/// Statements do not care when anyone was last seen.
proof fn lemma_run_unseen(b: Board, s: StatementData)
    requires
        s matches StatementData::InsertUser(row) ==> row.last_seen == row.joined_at,
    ensures
        match run(b, s) {
            Ok(r) => run(unseen(b), s) == Ok::<Board, StoreError>(unseen(r)),
            Err(e) => run(unseen(b), s) == Err::<Board, StoreError>(e),
        },
{
    lemma_unseen_users(b.users);
    let u = unseen(b);
    match s {
        StatementData::InsertUser(row) => {
            assert(b.users.push(row).map_values(forgetting()) == u.users.push(row));
        },
        StatementData::RenameUser { user, name } => {
            assert(b.users.map_values(renaming(user, name)).map_values(forgetting())
                == u.users.map_values(renaming(user, name)));
        },
        StatementData::SetBio { user, bio } => {
            assert(b.users.map_values(rewriting_bio(user, bio)).map_values(forgetting())
                == u.users.map_values(rewriting_bio(user, bio)));
        },
        StatementData::DeleteConv { conv } => {
            assert(conv_in_use(u, conv) == conv_in_use(b, conv));
        },
        _ => {},
    }
}

proof fn lemma_after_unseen(b: Board, e: EventData, n: int)
    requires
        n <= statements(e).len(),
    ensures
        match after(b, statements(e), n) {
            Ok(r) => after(unseen(b), statements(e), n) == Ok::<Board, StoreError>(unseen(r)),
            Err(x) => after(unseen(b), statements(e), n) == Err::<Board, StoreError>(x),
        },
    decreases n,
{
    if n > 0 {
        lemma_after_unseen(b, e, n - 1);
        if after(b, statements(e), n - 1) is Ok {
            lemma_run_unseen(after(b, statements(e), n - 1)->Ok_0, statements(e)[n - 1]);
        }
    }
}

proof fn lemma_replayed_prefix(log: Seq<EventData>, e: EventData, n: int)
    requires
        n <= log.len(),
    ensures
        replayed(log.push(e), n) == replayed(log, n),
    decreases n,
{
    if n > 0 {
        lemma_replayed_prefix(log, e, n - 1);
        assert(log.push(e)[n - 1] == log[n - 1]);
    }
}

/// The tables are what the log adds up to, except for when people were last
/// seen.
pub open spec fn derived(b: Board, log: Seq<EventData>) -> bool {
    unseen(b) == replayed(log, log.len() as int)
}

/// Appending an event to the log and applying it to the tables keeps the two
/// in step.
pub proof fn appending_keeps_the_tables_derived(b: Board, log: Seq<EventData>, e: EventData)
    requires
        derived(b, log),
        effect(b, e) is Ok,
    ensures
        derived(effect(b, e)->Ok_0, log.push(e)),
{
    lemma_after_unseen(b, e, statements(e).len() as int);
    lemma_replayed_prefix(log, e, log.len() as int);
    assert(log.push(e)[log.len() as int] == e);
}

/// No two events of the log have the same id, and every message is there
/// because of one.
pub open spec fn distinct_ids(b: Board, log: Seq<EventData>) -> bool {
    &&& distinct(log, event_id())
    &&& forall|i: int|
        0 <= i < b.posts.len() ==> logged(log, (#[trigger] b.posts[i]).message.id)
}

/// Appending an event with an id of its own keeps the ids apart.
pub proof fn appending_keeps_ids_distinct(b: Board, log: Seq<EventData>, e: EventData)
    requires
        distinct_ids(b, log),
        !logged(log, e.id),
        effect(b, e) is Ok,
    ensures
        distinct_ids(effect(b, e)->Ok_0, log.push(e)),
{
    let r = effect(b, e)->Ok_0;
    let longer = log.push(e);
    lemma_push_distinct(log, e, event_id());
    assert(longer[log.len() as int] == e);
    assert forall|id: Uuid| logged(log, id) implies #[trigger] logged(longer, id) by {
        let i = choose|i: int| 0 <= i < log.len() && (#[trigger] log[i]).id == id;
        assert(longer[i].id == id);
    }
    reveal_with_fuel(after, 4);
    match e.kind {
        KindData::ConvRemoved { conv } => {
            lemma_filter_contains(b.posts, other_conv_post(conv));
            assert forall|i: int| 0 <= i < r.posts.len() implies logged(
                longer,
                (#[trigger] r.posts[i]).message.id,
            ) by {
                assert(r.posts.contains(r.posts[i]));
                let k = choose|k: int| 0 <= k < b.posts.len() && b.posts[k] == r.posts[i];
                assert(logged(log, b.posts[k].message.id));
            }
        },
        KindData::MessageEdited { message, body } => {
            assert forall|i: int| 0 <= i < r.posts.len() implies logged(
                longer,
                (#[trigger] r.posts[i]).message.id,
            ) by {
                assert(logged(log, b.posts[i].message.id));
            }
        },
        KindData::MessageDeleted { message } => {
            assert forall|i: int| 0 <= i < r.posts.len() implies logged(
                longer,
                (#[trigger] r.posts[i]).message.id,
            ) by {
                assert(logged(log, b.posts[i].message.id));
            }
        },
        _ => {},
    }
}

/// That someone was seen changes nothing that the log decides.
pub proof fn being_seen_changes_no_rule(
    b: Board,
    log: Seq<EventData>,
    user: UserId,
    now: Millis,
)
    requires
        rules(b),
        derived(b, log),
        distinct_ids(b, log),
    ensures
        rules(touched(b, user, now)),
        derived(touched(b, user, now), log),
        distinct_ids(touched(b, user, now), log),
{
    let f = seeing(user, now);
    assert(distinct(b.users.map_values(f), account_name())) by {
        assert forall|i: int, j: int| 0 <= i < j < b.users.map_values(f).len() implies account_name()(
            #[trigger] b.users.map_values(f)[i],
        ) != account_name()(#[trigger] b.users.map_values(f)[j]) by {
            assert(account_name()(b.users[i]) != account_name()(b.users[j]));
        }
    }
    lemma_users_changed(b, f);
    assert(b.users.map_values(f).map_values(forgetting()) == b.users.map_values(forgetting()));
}

// ---------------------------------------------------------------------------
// what an event does, and what it leaves alone
// ---------------------------------------------------------------------------

/// An event changes only the tables that it is about.
pub proof fn an_event_leaves_other_tables_alone(b: Board, e: EventData)
    requires
        effect(b, e) is Ok,
    ensures
        ({
            let r = effect(b, e)->Ok_0;
            let k = e.kind;
            &&& !(k is UserCreated || k is UserRenamed || k is BioSet) ==> r.users == b.users
            &&& !(k is RoleCreated || k is RoleRemoved) ==> r.roles == b.roles
            &&& !(k is RoleGranted || k is RoleRevoked || k is RoleRemoved) ==> r.grants
                == b.grants
            &&& !(k is ConvCreated || k is ConvRemoved || k is TopicSet) ==> r.convs == b.convs
            &&& !(k is MemberJoined || k is MemberLeft || k is ConvRemoved) ==> r.members
                == b.members
            &&& !(k is MessageSent || k is MessageEdited || k is MessageDeleted || k is ConvRemoved)
                ==> r.posts == b.posts
        }),
{
    reveal_with_fuel(after, 4);
}

/// A new account, role, conversation or message comes in addition to what was
/// there, with what the event says of it, and as of the time of the event.
pub proof fn creating_adds_one_row(b: Board, e: EventData)
    requires
        effect(b, e) is Ok,
    ensures
        ({
            let r = effect(b, e)->Ok_0;
            match e.kind {
                KindData::UserCreated { user, name, pubkey } => r.users == b.users.push(
                    AccountData {
                        id: user,
                        name,
                        bio: Seq::empty(),
                        pubkey,
                        joined_at: e.at,
                        last_seen: e.at,
                    },
                ),
                KindData::RoleCreated { role, name, color, priority, hoisted, admin } => r.roles
                    == b.roles.push(RoleData { id: role, name, color, priority, hoisted, admin }),
                KindData::ConvCreated { conv, kind, name } => r.convs == b.convs.push(
                    ConvData { id: conv, kind, name, topic: Seq::empty(), created_at: e.at },
                ),
                KindData::MessageSent { conv, author, body } => r.posts == b.posts.push(
                    PostData {
                        message: MessageData {
                            id: e.id,
                            conv,
                            author,
                            body,
                            created_at: e.at,
                            edited_at: None,
                        },
                        deleted: false,
                    },
                ),
                _ => true,
            }
        }),
{
    reveal_with_fuel(after, 2);
}

/// A new name, bio or topic, an edit and a deletion change that one thing of
/// the row that they are about, and no other row.
pub proof fn changing_touches_one_row(b: Board, e: EventData, i: int)
    requires
        effect(b, e) is Ok,
    ensures
        ({
            let r = effect(b, e)->Ok_0;
            match e.kind {
                KindData::UserRenamed { user, name } => {
                    &&& r.users.len() == b.users.len()
                    &&& 0 <= i < b.users.len() ==> r.users[i] == if b.users[i].id == user {
                        AccountData { name, ..b.users[i] }
                    } else {
                        b.users[i]
                    }
                },
                KindData::BioSet { user, bio } => {
                    &&& r.users.len() == b.users.len()
                    &&& 0 <= i < b.users.len() ==> r.users[i] == if b.users[i].id == user {
                        AccountData { bio, ..b.users[i] }
                    } else {
                        b.users[i]
                    }
                },
                KindData::TopicSet { conv, topic } => {
                    &&& r.convs.len() == b.convs.len()
                    &&& 0 <= i < b.convs.len() ==> r.convs[i] == if b.convs[i].id == conv {
                        ConvData { topic, ..b.convs[i] }
                    } else {
                        b.convs[i]
                    }
                },
                KindData::MessageEdited { message, body } => {
                    &&& r.posts.len() == b.posts.len()
                    &&& 0 <= i < b.posts.len() ==> r.posts[i] == if b.posts[i].message.id
                        == message {
                        PostData {
                            message: MessageData {
                                body,
                                edited_at: Some(e.at),
                                ..b.posts[i].message
                            },
                            deleted: b.posts[i].deleted,
                        }
                    } else {
                        b.posts[i]
                    }
                },
                KindData::MessageDeleted { message } => {
                    &&& r.posts.len() == b.posts.len()
                    &&& 0 <= i < b.posts.len() ==> r.posts[i] == if b.posts[i].message.id
                        == message {
                        PostData {
                            message: MessageData { body: Seq::empty(), ..b.posts[i].message },
                            deleted: true,
                        }
                    } else {
                        b.posts[i]
                    }
                },
                _ => true,
            }
        }),
{
    reveal_with_fuel(after, 2);
}

/// Granting and revoking, joining and leaving concern the one pair that the
/// event names; every other grant and every other membership stays.
pub proof fn only_the_named_pair_changes(b: Board, e: EventData, g: Grant, m: Member)
    requires
        effect(b, e) is Ok,
    ensures
        ({
            let r = effect(b, e)->Ok_0;
            match e.kind {
                KindData::RoleGranted { user, role } => r.grants.contains(g)
                    <==> b.grants.contains(g) || g == (Grant { user, role }),
                KindData::RoleRevoked { user, role } => r.grants.contains(g)
                    <==> b.grants.contains(g) && g != (Grant { user, role }),
                KindData::MemberJoined { conv, user } => r.members.contains(m)
                    <==> b.members.contains(m) || m == (Member { conv, user, joined_at: e.at })
                    && !has_member(b.members, conv, user),
                KindData::MemberLeft { conv, user } => r.members.contains(m)
                    <==> b.members.contains(m) && (m.conv != conv || m.user != user),
                _ => true,
            }
        }),
{
    reveal_with_fuel(after, 2);
    let r = effect(b, e)->Ok_0;
    match e.kind {
        KindData::RoleGranted { user, role } => {
            if !b.grants.contains(Grant { user, role }) {
                lemma_push_contains(b.grants, Grant { user, role }, g);
            }
        },
        KindData::RoleRevoked { user, role } => {
            lemma_filter_contains(b.grants, other_grant(Grant { user, role }));
        },
        KindData::MemberJoined { conv, user } => {
            if !has_member(b.members, conv, user) {
                lemma_push_contains(b.members, Member { conv, user, joined_at: e.at }, m);
            }
        },
        KindData::MemberLeft { conv, user } => {
            lemma_filter_contains(b.members, other_member(conv, user));
        },
        _ => {},
    }
}

proof fn lemma_push_contains<T>(s: Seq<T>, x: T, y: T)
    ensures
        s.push(x).contains(y) <==> s.contains(y) || x == y,
{
    let p = s.push(x);
    assert(p[s.len() as int] == x);
    if s.contains(y) {
        let i = choose|i: int| 0 <= i < s.len() && s[i] == y;
        assert(p[i] == y);
    }
    if p.contains(y) {
        let i = choose|i: int| 0 <= i < p.len() && p[i] == y;
        if i < s.len() {
            assert(s[i] == y);
        }
    }
}

/// Removing a conversation takes its members and its messages with it, and
/// removing a role takes it from everyone who held it; what belongs to others
/// stays.
pub proof fn removing_takes_what_belongs_to_it(
    b: Board,
    e: EventData,
    c: ConvData,
    m: Member,
    p: PostData,
    x: RoleData,
    g: Grant,
)
    requires
        effect(b, e) is Ok,
    ensures
        ({
            let r = effect(b, e)->Ok_0;
            match e.kind {
                KindData::ConvRemoved { conv } => {
                    &&& r.convs.contains(c) <==> b.convs.contains(c) && c.id != conv
                    &&& r.members.contains(m) <==> b.members.contains(m) && m.conv != conv
                    &&& r.posts.contains(p) <==> b.posts.contains(p) && p.message.conv != conv
                },
                KindData::RoleRemoved { role } => {
                    &&& r.roles.contains(x) <==> b.roles.contains(x) && x.id != role
                    &&& r.grants.contains(g) <==> b.grants.contains(g) && g.role != role
                },
                _ => true,
            }
        }),
{
    reveal_with_fuel(after, 4);
    match e.kind {
        KindData::ConvRemoved { conv } => {
            lemma_filter_contains(b.convs, other_conv(conv));
            lemma_filter_contains(b.members, other_conv_member(conv));
            lemma_filter_contains(b.posts, other_conv_post(conv));
        },
        KindData::RoleRemoved { role } => {
            lemma_filter_contains(b.roles, other_role(role));
            lemma_filter_contains(b.grants, other_role_grant(role));
        },
        _ => {},
    }
}

/// An event is refused exactly if it would make two rows with one id, give a
/// name away twice, or refer to something that is not there; every other one
/// is accepted.
pub proof fn an_event_is_refused_for_a_reason(b: Board, e: EventData)
    ensures
        match e.kind {
            KindData::UserCreated { user, name, .. } => {
                &&& effect(b, e) == Err::<Board, StoreError>(StoreError::UserExists) <==> has_user(
                    b.users,
                    user,
                )
                &&& effect(b, e) == Err::<Board, StoreError>(StoreError::NameTaken) <==> !has_user(
                    b.users,
                    user,
                ) && name_taken(b.users, user, name)
                &&& effect(b, e) is Ok <==> !has_user(b.users, user) && !name_taken(
                    b.users,
                    user,
                    name,
                )
            },
            KindData::UserRenamed { user, name } => {
                &&& effect(b, e) is Ok <==> !has_user(b.users, user) || !name_taken(
                    b.users,
                    user,
                    name,
                )
                &&& effect(b, e) is Err ==> effect(b, e)->Err_0 == StoreError::NameTaken
            },
            KindData::RoleCreated { role, .. } => {
                &&& effect(b, e) is Ok <==> !has_role(b.roles, role)
                &&& effect(b, e) is Err ==> effect(b, e)->Err_0 == StoreError::RoleExists
            },
            KindData::RoleGranted { user, role } => {
                &&& effect(b, e) is Ok <==> b.grants.contains(Grant { user, role }) || has_user(
                    b.users,
                    user,
                ) && has_role(b.roles, role)
                &&& effect(b, e) is Err ==> effect(b, e)->Err_0 == StoreError::MissingReference
            },
            KindData::ConvCreated { conv, .. } => {
                &&& effect(b, e) is Ok <==> !has_conv(b.convs, conv)
                &&& effect(b, e) is Err ==> effect(b, e)->Err_0 == StoreError::ConvExists
            },
            KindData::MemberJoined { conv, user } => {
                &&& effect(b, e) is Ok <==> has_member(b.members, conv, user) || has_conv(
                    b.convs,
                    conv,
                ) && has_user(b.users, user)
                &&& effect(b, e) is Err ==> effect(b, e)->Err_0 == StoreError::MissingReference
            },
            KindData::MessageSent { conv, author, .. } => {
                &&& effect(b, e) is Ok <==> !has_post(b.posts, e.id) && has_conv(b.convs, conv)
                    && has_user(b.users, author)
                &&& effect(b, e) == Err::<Board, StoreError>(StoreError::MessageExists)
                    <==> has_post(b.posts, e.id)
            },
            _ => effect(b, e) is Ok,
        },
{
    reveal_with_fuel(after, 2);
    only_the_first_statement_can_fail(b, e, statements(e).len() as int);
}

/// An event whose id is in the log already is refused, whatever it says; any
/// other is appended if it can be applied.
pub proof fn no_event_is_appended_twice(b: Board, log: Seq<EventData>, e: EventData)
    ensures
        (exists|i: int| 0 <= i < log.len() && (#[trigger] log[i]).id == e.id) ==> appended(
            b,
            log,
            e,
        ) == Err::<Board, StoreError>(StoreError::EventExists),
        (forall|i: int| 0 <= i < log.len() ==> (#[trigger] log[i]).id != e.id) ==> appended(
            b,
            log,
            e,
        ) == effect(b, e),
{
}

} // verus!
