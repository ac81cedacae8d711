//! The projection tables, and what each kind of statement does to them.
//!
//! The tables hold what the log adds up to. Their rules are those of a
//! relational schema: ids are unique, so are user names, and a row that refers
//! to another one never outlives it. A statement that would break a rule is
//! refused and changes nothing.
use vstd::prelude::*;

use crate::model::{
    ConvData, ConvId, Conversation, Message, MessageData, MessageId, Millis, Role, RoleData,
    RoleId, UserId,
};

use crate::seqs::lemma_filter_step;

verus! {

// ---------------------------------------------------------------------------
// rows
// ---------------------------------------------------------------------------

/// A row of the user table.
#[derive(Debug, PartialEq, Eq)]
pub struct Account {
    pub id: UserId,
    pub name: String,
    pub bio: String,
    pub pubkey: String,
    pub joined_at: Millis,
    pub last_seen: Millis,
}

#[verifier::ext_equal]
pub ghost struct AccountData {
    pub id: UserId,
    pub name: Seq<char>,
    pub bio: Seq<char>,
    pub pubkey: Seq<char>,
    pub joined_at: Millis,
    pub last_seen: Millis,
}

impl DeepView for Account {
    type V = AccountData;

    open spec fn deep_view(&self) -> AccountData {
        AccountData {
            id: self.id,
            name: self.name@,
            bio: self.bio@,
            pubkey: self.pubkey@,
            joined_at: self.joined_at,
            last_seen: self.last_seen,
        }
    }
}

impl Clone for Account {
    fn clone(&self) -> (r: Self)
        ensures
            r == *self,
    {
        Account {
            id: self.id,
            name: self.name.clone(),
            bio: self.bio.clone(),
            pubkey: self.pubkey.clone(),
            joined_at: self.joined_at,
            last_seen: self.last_seen,
        }
    }
}

/// Who holds which role.
#[derive(Debug, Clone, Copy, PartialEq, Eq, Structural)]
pub struct Grant {
    pub user: UserId,
    pub role: RoleId,
}

/// Who is in which conversation.
#[derive(Debug, Clone, Copy, PartialEq, Eq, Structural)]
pub struct Member {
    pub conv: ConvId,
    pub user: UserId,
    pub joined_at: Millis,
}

/// A row of the message table: a message, and whether it was deleted.
#[derive(Debug, PartialEq, Eq)]
pub struct Post {
    pub message: Message,
    pub deleted: bool,
}

#[verifier::ext_equal]
pub ghost struct PostData {
    pub message: MessageData,
    pub deleted: bool,
}

impl DeepView for Post {
    type V = PostData;

    open spec fn deep_view(&self) -> PostData {
        PostData { message: self.message.deep_view(), deleted: self.deleted }
    }
}

impl Clone for Post {
    fn clone(&self) -> (r: Self)
        ensures
            r == *self,
    {
        Post { message: self.message.clone(), deleted: self.deleted }
    }
}

impl DeepView for Grant {
    type V = Grant;

    open spec fn deep_view(&self) -> Grant {
        *self
    }
}

impl DeepView for Member {
    type V = Member;

    open spec fn deep_view(&self) -> Member {
        *self
    }
}

// ---------------------------------------------------------------------------
// tables
// ---------------------------------------------------------------------------

#[derive(Debug)]
pub struct Tables {
    pub users: Vec<Account>,
    pub roles: Vec<Role>,
    pub grants: Vec<Grant>,
    pub convs: Vec<Conversation>,
    pub members: Vec<Member>,
    pub posts: Vec<Post>,
}

#[verifier::ext_equal]
pub ghost struct Board {
    pub users: Seq<AccountData>,
    pub roles: Seq<RoleData>,
    pub grants: Seq<Grant>,
    pub convs: Seq<ConvData>,
    pub members: Seq<Member>,
    pub posts: Seq<PostData>,
}

impl View for Tables {
    type V = Board;

    open spec fn view(&self) -> Board {
        Board {
            users: self.users.deep_view(),
            roles: self.roles.deep_view(),
            grants: self.grants.deep_view(),
            convs: self.convs.deep_view(),
            members: self.members.deep_view(),
            posts: self.posts.deep_view(),
        }
    }
}

/// A board on which nothing has happened.
pub open spec fn empty_board() -> Board {
    Board { users: seq![], roles: seq![], grants: seq![], convs: seq![], members: seq![], posts: seq![] }
}

/// Why a change to the store was refused.
#[derive(Debug, Clone, Copy, PartialEq, Eq, Structural)]
pub enum StoreError {
    /// The log holds an event with this id already.
    EventExists,
    UserExists,
    NameTaken,
    RoleExists,
    ConvExists,
    MessageExists,
    /// A row would refer to one that is not there.
    MissingReference,
    /// A counter has handed out its last id.
    CounterExhausted,
}

/// The words for a refusal.
pub open spec fn refusal_text(e: StoreError) -> Seq<char> {
    match e {
        StoreError::EventExists => "UNIQUE constraint failed: events.id"@,
        StoreError::UserExists => "UNIQUE constraint failed: users.id"@,
        StoreError::NameTaken => "UNIQUE constraint failed: users.name"@,
        StoreError::RoleExists => "UNIQUE constraint failed: roles.id"@,
        StoreError::ConvExists => "UNIQUE constraint failed: convs.id"@,
        StoreError::MessageExists => "UNIQUE constraint failed: messages.id"@,
        StoreError::MissingReference => "FOREIGN KEY constraint failed"@,
        StoreError::CounterExhausted => "no ids left"@,
    }
}

impl StoreError {
    pub fn message(&self) -> (r: String)
        ensures
            r@ == refusal_text(*self),
    {
        let text = match self {
            StoreError::EventExists => "UNIQUE constraint failed: events.id",
            StoreError::UserExists => "UNIQUE constraint failed: users.id",
            StoreError::NameTaken => "UNIQUE constraint failed: users.name",
            StoreError::RoleExists => "UNIQUE constraint failed: roles.id",
            StoreError::ConvExists => "UNIQUE constraint failed: convs.id",
            StoreError::MessageExists => "UNIQUE constraint failed: messages.id",
            StoreError::MissingReference => "FOREIGN KEY constraint failed",
            StoreError::CounterExhausted => "no ids left",
        };
        text.to_owned()
    }
}

// ---------------------------------------------------------------------------
// statements
// ---------------------------------------------------------------------------

/// One change to one table. A row to insert stands in it whole.
#[derive(Debug, PartialEq, Eq)]
pub enum Statement {
    InsertUser(Account),
    RenameUser { user: UserId, name: String },
    SetBio { user: UserId, bio: String },
    InsertRole(Role),
    InsertGrant(Grant),
    DeleteGrant(Grant),
    DeleteGrantsOf { role: RoleId },
    DeleteRole { role: RoleId },
    InsertConv(Conversation),
    DeleteMembersOf { conv: ConvId },
    DeleteMessagesOf { conv: ConvId },
    DeleteConv { conv: ConvId },
    SetTopic { conv: ConvId, topic: String },
    InsertMember(Member),
    DeleteMember { conv: ConvId, user: UserId },
    InsertMessage(Post),
    EditMessage { message: MessageId, body: String, at: Millis },
    BlankMessage { message: MessageId },
}

#[verifier::ext_equal]
pub ghost enum StatementData {
    InsertUser(AccountData),
    RenameUser { user: UserId, name: Seq<char> },
    SetBio { user: UserId, bio: Seq<char> },
    InsertRole(RoleData),
    InsertGrant(Grant),
    DeleteGrant(Grant),
    DeleteGrantsOf { role: RoleId },
    DeleteRole { role: RoleId },
    InsertConv(ConvData),
    DeleteMembersOf { conv: ConvId },
    DeleteMessagesOf { conv: ConvId },
    DeleteConv { conv: ConvId },
    SetTopic { conv: ConvId, topic: Seq<char> },
    InsertMember(Member),
    DeleteMember { conv: ConvId, user: UserId },
    InsertMessage(PostData),
    EditMessage { message: MessageId, body: Seq<char>, at: Millis },
    BlankMessage { message: MessageId },
}

impl DeepView for Statement {
    type V = StatementData;

    open spec fn deep_view(&self) -> StatementData {
        match *self {
            Statement::InsertUser(row) => StatementData::InsertUser(row.deep_view()),
            Statement::RenameUser { user, name } => StatementData::RenameUser { user, name: name@ },
            Statement::SetBio { user, bio } => StatementData::SetBio { user, bio: bio@ },
            Statement::InsertRole(row) => StatementData::InsertRole(row.deep_view()),
            Statement::InsertGrant(row) => StatementData::InsertGrant(row),
            Statement::DeleteGrant(row) => StatementData::DeleteGrant(row),
            Statement::DeleteGrantsOf { role } => StatementData::DeleteGrantsOf { role },
            Statement::DeleteRole { role } => StatementData::DeleteRole { role },
            Statement::InsertConv(row) => StatementData::InsertConv(row.deep_view()),
            Statement::DeleteMembersOf { conv } => StatementData::DeleteMembersOf { conv },
            Statement::DeleteMessagesOf { conv } => StatementData::DeleteMessagesOf { conv },
            Statement::DeleteConv { conv } => StatementData::DeleteConv { conv },
            Statement::SetTopic { conv, topic } => StatementData::SetTopic { conv, topic: topic@ },
            Statement::InsertMember(row) => StatementData::InsertMember(row),
            Statement::DeleteMember { conv, user } => StatementData::DeleteMember { conv, user },
            Statement::InsertMessage(row) => StatementData::InsertMessage(row.deep_view()),
            Statement::EditMessage { message, body, at } => StatementData::EditMessage { message, body: body@, at },
            Statement::BlankMessage { message } => StatementData::BlankMessage { message },
        }
    }
}


pub open spec fn has_user(users: Seq<AccountData>, id: UserId) -> bool {
    exists|i: int| 0 <= i < users.len() && (#[trigger] users[i]).id == id
}

pub open spec fn has_role(roles: Seq<RoleData>, id: RoleId) -> bool {
    exists|i: int| 0 <= i < roles.len() && (#[trigger] roles[i]).id == id
}

pub open spec fn has_conv(convs: Seq<ConvData>, id: ConvId) -> bool {
    exists|i: int| 0 <= i < convs.len() && (#[trigger] convs[i]).id == id
}

pub open spec fn has_post(posts: Seq<PostData>, id: MessageId) -> bool {
    exists|i: int| 0 <= i < posts.len() && (#[trigger] posts[i]).message.id == id
}

/// Whether a user other than `id` is called `name`.
pub open spec fn name_taken(users: Seq<AccountData>, id: UserId, name: Seq<char>) -> bool {
    exists|i: int|
        0 <= i < users.len() && (#[trigger] users[i]).id != id && users[i].name == name
}

pub open spec fn has_member(members: Seq<Member>, conv: ConvId, user: UserId) -> bool {
    exists|i: int|
        0 <= i < members.len() && (#[trigger] members[i]).conv == conv && members[i].user == user
}

pub open spec fn conv_in_use(b: Board, conv: ConvId) -> bool {
    ||| exists|i: int| 0 <= i < b.members.len() && (#[trigger] b.members[i]).conv == conv
    ||| exists|i: int| 0 <= i < b.posts.len() && (#[trigger] b.posts[i]).message.conv == conv
}

pub open spec fn role_in_use(grants: Seq<Grant>, role: RoleId) -> bool {
    exists|i: int| 0 <= i < grants.len() && (#[trigger] grants[i]).role == role
}

pub open spec fn renaming(user: UserId, name: Seq<char>) -> spec_fn(AccountData) -> AccountData {
    |a: AccountData|
        if a.id == user {
            AccountData { name, ..a }
        } else {
            a
        }
}

pub open spec fn rewriting_bio(user: UserId, bio: Seq<char>) -> spec_fn(AccountData) -> AccountData {
    |a: AccountData|
        if a.id == user {
            AccountData { bio, ..a }
        } else {
            a
        }
}

pub open spec fn retitling(conv: ConvId, topic: Seq<char>) -> spec_fn(ConvData) -> ConvData {
    |c: ConvData|
        if c.id == conv {
            ConvData { topic, ..c }
        } else {
            c
        }
}

pub open spec fn editing(message: MessageId, body: Seq<char>, at: Millis) -> spec_fn(
    PostData,
) -> PostData {
    |p: PostData|
        if p.message.id == message {
            PostData {
                message: MessageData { body, edited_at: Some(at), ..p.message },
                deleted: p.deleted,
            }
        } else {
            p
        }
}

pub open spec fn blanking(message: MessageId) -> spec_fn(PostData) -> PostData {
    |p: PostData|
        if p.message.id == message {
            PostData { message: MessageData { body: seq![], ..p.message }, deleted: true }
        } else {
            p
        }
}

pub open spec fn other_grant(grant: Grant) -> spec_fn(Grant) -> bool {
    |g: Grant| g != grant
}

pub open spec fn other_role_grant(role: RoleId) -> spec_fn(Grant) -> bool {
    |g: Grant| g.role != role
}

pub open spec fn other_role(role: RoleId) -> spec_fn(RoleData) -> bool {
    |r: RoleData| r.id != role
}

pub open spec fn other_conv(conv: ConvId) -> spec_fn(ConvData) -> bool {
    |c: ConvData| c.id != conv
}

pub open spec fn other_conv_member(conv: ConvId) -> spec_fn(Member) -> bool {
    |m: Member| m.conv != conv
}

pub open spec fn other_member(conv: ConvId, user: UserId) -> spec_fn(Member) -> bool {
    |m: Member| !(m.conv == conv && m.user == user)
}

pub open spec fn other_conv_post(conv: ConvId) -> spec_fn(PostData) -> bool {
    |p: PostData| p.message.conv != conv
}

pub open spec fn seeing(user: UserId, now: Millis) -> spec_fn(AccountData) -> AccountData {
    |a: AccountData|
        if a.id == user {
            AccountData { last_seen: now, ..a }
        } else {
            a
        }
}

/// The board once a user was seen at `now`.
pub open spec fn touched(b: Board, user: UserId, now: Millis) -> Board {
    Board { users: b.users.map_values(seeing(user, now)), ..b }
}

/// What a statement makes of the board, or why it is refused.
pub open spec fn run(b: Board, s: StatementData) -> Result<Board, StoreError> {
    match s {
        StatementData::InsertUser(row) => if has_user(b.users, row.id) {
            Err(StoreError::UserExists)
        } else if name_taken(b.users, row.id, row.name) {
            Err(StoreError::NameTaken)
        } else {
            Ok(Board { users: b.users.push(row), ..b })
        },
        StatementData::RenameUser { user, name } => if has_user(b.users, user) && name_taken(
            b.users,
            user,
            name,
        ) {
            Err(StoreError::NameTaken)
        } else {
            Ok(Board { users: b.users.map_values(renaming(user, name)), ..b })
        },
        StatementData::SetBio { user, bio } => Ok(
            Board { users: b.users.map_values(rewriting_bio(user, bio)), ..b },
        ),
        StatementData::InsertRole(row) => if has_role(b.roles, row.id) {
            Err(StoreError::RoleExists)
        } else {
            Ok(Board { roles: b.roles.push(row), ..b })
        },
        StatementData::InsertGrant(row) => if b.grants.contains(row) {
            Ok(b)
        } else if !has_user(b.users, row.user) || !has_role(b.roles, row.role) {
            Err(StoreError::MissingReference)
        } else {
            Ok(Board { grants: b.grants.push(row), ..b })
        },
        StatementData::DeleteGrant(row) => Ok(
            Board { grants: b.grants.filter(other_grant(row)), ..b },
        ),
        StatementData::DeleteGrantsOf { role } => Ok(
            Board { grants: b.grants.filter(other_role_grant(role)), ..b },
        ),
        StatementData::DeleteRole { role } => if has_role(b.roles, role) && role_in_use(
            b.grants,
            role,
        ) {
            Err(StoreError::MissingReference)
        } else {
            Ok(Board { roles: b.roles.filter(other_role(role)), ..b })
        },
        StatementData::InsertConv(row) => if has_conv(b.convs, row.id) {
            Err(StoreError::ConvExists)
        } else {
            Ok(Board { convs: b.convs.push(row), ..b })
        },
        StatementData::DeleteMembersOf { conv } => Ok(
            Board { members: b.members.filter(other_conv_member(conv)), ..b },
        ),
        StatementData::DeleteMessagesOf { conv } => Ok(
            Board { posts: b.posts.filter(other_conv_post(conv)), ..b },
        ),
        StatementData::DeleteConv { conv } => if has_conv(b.convs, conv) && conv_in_use(b, conv) {
            Err(StoreError::MissingReference)
        } else {
            Ok(Board { convs: b.convs.filter(other_conv(conv)), ..b })
        },
        StatementData::SetTopic { conv, topic } => Ok(
            Board { convs: b.convs.map_values(retitling(conv, topic)), ..b },
        ),
        StatementData::InsertMember(row) => if has_member(b.members, row.conv, row.user) {
            Ok(b)
        } else if !has_conv(b.convs, row.conv) || !has_user(b.users, row.user) {
            Err(StoreError::MissingReference)
        } else {
            Ok(Board { members: b.members.push(row), ..b })
        },
        StatementData::DeleteMember { conv, user } => Ok(
            Board { members: b.members.filter(other_member(conv, user)), ..b },
        ),
        StatementData::InsertMessage(row) => if has_post(b.posts, row.message.id) {
            Err(StoreError::MessageExists)
        } else if !has_conv(b.convs, row.message.conv) || !has_user(b.users, row.message.author) {
            Err(StoreError::MissingReference)
        } else {
            Ok(Board { posts: b.posts.push(row), ..b })
        },
        StatementData::EditMessage { message, body, at } => Ok(
            Board { posts: b.posts.map_values(editing(message, body, at)), ..b },
        ),
        StatementData::BlankMessage { message } => Ok(
            Board { posts: b.posts.map_values(blanking(message)), ..b },
        ),
    }
}

// ---------------------------------------------------------------------------
// searching and rewriting tables
// ---------------------------------------------------------------------------

/// Whether any row satisfies a condition.
fn any<T: DeepView, F: Fn(&T) -> bool>(
    rows: &Vec<T>,
    wanted: F,
    holds: Ghost<spec_fn(T::V) -> bool>,
) -> (r: bool)
    requires
        forall|x: &T| #[trigger] wanted.requires((x,)),
        forall|x: &T, b: bool| #[trigger]
            wanted.ensures((x,), b) ==> b == (holds@)(x.deep_view()),
    ensures
        r == exists|i: int|
            0 <= i < rows.deep_view().len() && (holds@)(#[trigger] rows.deep_view()[i]),
{
    let mut i: usize = 0;
    while i < rows.len()
        invariant
            i <= rows.len(),
            forall|x: &T| #[trigger] wanted.requires((x,)),
            forall|x: &T, b: bool| #[trigger]
                wanted.ensures((x,), b) ==> b == (holds@)(x.deep_view()),
            forall|j: int| 0 <= j < i ==> !(holds@)(#[trigger] rows.deep_view()[j]),
        decreases rows.len() - i,
    {
        assert(rows.deep_view()[i as int] == rows[i as int].deep_view());
        if wanted(&rows[i]) {
            return true;
        }
        i += 1;
    }
    false
}

/// The rows that satisfy a condition, in their order.
fn kept<T: DeepView, F: Fn(&T) -> bool>(
    rows: Vec<T>,
    wanted: F,
    holds: Ghost<spec_fn(T::V) -> bool>,
) -> (r: Vec<T>)
    requires
        forall|x: &T| #[trigger] wanted.requires((x,)),
        forall|x: &T, b: bool| #[trigger]
            wanted.ensures((x,), b) ==> b == (holds@)(x.deep_view()),
    ensures
        r.deep_view() == rows.deep_view().filter(holds@),
{
    let ghost all = rows.deep_view();
    let mut out: Vec<T> = Vec::new();
    assert(out.deep_view() =~= all.take(0).filter(holds@)) by {
        reveal(Seq::filter);
        assert(all.take(0).len() == 0);
    }
    for x in it: rows
        invariant
            it.seq() == rows@,
            all == rows.deep_view(),
            forall|x: &T| #[trigger] wanted.requires((x,)),
            forall|x: &T, b: bool| #[trigger]
                wanted.ensures((x,), b) ==> b == (holds@)(x.deep_view()),
            out.deep_view() == all.take(it.index() as int).filter(holds@),
    {
        let ghost i = it.index() as int;
        proof {
            assert(all[i] == x.deep_view());
            lemma_filter_step(all, holds@, i);
        }
        let ghost before = out.deep_view();
        if wanted(&x) {
            out.push(x);
            assert(out.deep_view() =~= before.push(all[i]));
        }
    }
    assert(all.take(all.len() as int) == all);
    out
}

/// Every row, changed.
fn changed<T: DeepView, F: Fn(T) -> T>(
    rows: Vec<T>,
    change: F,
    becomes: Ghost<spec_fn(T::V) -> T::V>,
) -> (r: Vec<T>)
    requires
        forall|x: T| #[trigger] change.requires((x,)),
        forall|x: T, y: T| #[trigger]
            change.ensures((x,), y) ==> y.deep_view() == (becomes@)(x.deep_view()),
    ensures
        r.deep_view() == rows.deep_view().map_values(becomes@),
{
    let ghost all = rows.deep_view();
    let mut out: Vec<T> = Vec::new();
    for x in it: rows
        invariant
            it.seq() == rows@,
            all == rows.deep_view(),
            forall|x: T| #[trigger] change.requires((x,)),
            forall|x: T, y: T| #[trigger]
                change.ensures((x,), y) ==> y.deep_view() == (becomes@)(x.deep_view()),
            out.deep_view() == all.take(it.index() as int).map_values(becomes@),
    {
        let ghost i = it.index() as int;
        assert(all[i] == x.deep_view());
        let ghost before = out.deep_view();
        out.push(change(x));
        assert(out.deep_view() =~= before.push((becomes@)(all[i])));
        assert(all.take(i + 1).map_values(becomes@) =~= all.take(i).map_values(becomes@).push(
            (becomes@)(all[i]),
        ));
    }
    assert(all.take(all.len() as int) == all);
    out
}

// ---------------------------------------------------------------------------
// running statements
// ---------------------------------------------------------------------------

fn knows_user(users: &Vec<Account>, id: UserId) -> (r: bool)
    ensures
        r == has_user(users.deep_view(), id),
{
    any(
        users,
        |a: &Account| -> (b: bool)
            ensures
                b == (a.id == id)
            { a.id == id },
        Ghost(|a: AccountData| a.id == id),
    )
}

fn knows_name(users: &Vec<Account>, id: UserId, name: &String) -> (r: bool)
    ensures
        r == name_taken(users.deep_view(), id, name@),
{
    any(
        users,
        |a: &Account| -> (b: bool)
            ensures
                b == (a.id != id && a.name@ == name@)
            { a.id != id && a.name == *name },
        Ghost(|a: AccountData| a.id != id && a.name == name@),
    )
}

fn knows_role(roles: &Vec<Role>, id: RoleId) -> (r: bool)
    ensures
        r == has_role(roles.deep_view(), id),
{
    any(
        roles,
        |x: &Role| -> (b: bool)
            ensures
                b == (x.id == id)
            { x.id == id },
        Ghost(|x: RoleData| x.id == id),
    )
}

fn knows_conv(convs: &Vec<Conversation>, id: ConvId) -> (r: bool)
    ensures
        r == has_conv(convs.deep_view(), id),
{
    any(
        convs,
        |c: &Conversation| -> (b: bool)
            ensures
                b == (c.id == id)
            { c.id == id },
        Ghost(|c: ConvData| c.id == id),
    )
}

fn knows_post(posts: &Vec<Post>, id: MessageId) -> (r: bool)
    ensures
        r == has_post(posts.deep_view(), id),
{
    any(
        posts,
        |p: &Post| -> (b: bool)
            ensures
                b == (p.message.id == id)
            { p.message.id == id },
        Ghost(|p: PostData| p.message.id == id),
    )
}

pub fn knows_grant(grants: &Vec<Grant>, grant: Grant) -> (r: bool)
    ensures
        r == grants.deep_view().contains(grant),
{
    any(
        grants,
        |g: &Grant| -> (b: bool)
            ensures
                b == (*g == grant)
            { *g == grant },
        Ghost(|g: Grant| g == grant),
    )
}

pub fn knows_member(members: &Vec<Member>, conv: ConvId, user: UserId) -> (r: bool)
    ensures
        r == has_member(members.deep_view(), conv, user),
{
    any(
        members,
        |m: &Member| -> (b: bool)
            ensures
                b == (m.conv == conv && m.user == user)
            { m.conv == conv && m.user == user },
        Ghost(|m: Member| m.conv == conv && m.user == user),
    )
}

impl Tables {
    pub fn new() -> (r: Tables)
        ensures
            r@ == empty_board(),
    {
        Tables {
            users: Vec::new(),
            roles: Vec::new(),
            grants: Vec::new(),
            convs: Vec::new(),
            members: Vec::new(),
            posts: Vec::new(),
        }
    }

    fn uses_conv(&self, conv: ConvId) -> (r: bool)
        ensures
            r == conv_in_use(self@, conv),
    {
        let member = any(
            &self.members,
            |m: &Member| -> (b: bool)
                ensures
                    b == (m.conv == conv)
                { m.conv == conv },
            Ghost(|m: Member| m.conv == conv),
        );
        let post = any(
            &self.posts,
            |p: &Post| -> (b: bool)
                ensures
                    b == (p.message.conv == conv)
                { p.message.conv == conv },
            Ghost(|p: PostData| p.message.conv == conv),
        );
        proof {
            let members = self.members.deep_view();
            let posts = self.posts.deep_view();
            assert(self@.members == members && self@.posts == posts);
            assert(member == exists|i: int|
                0 <= i < members.len() && (#[trigger] members[i]).conv == conv);
            assert(post == exists|i: int|
                0 <= i < posts.len() && (#[trigger] posts[i]).message.conv == conv);
        }
        member || post
    }

    fn uses_role(&self, role: RoleId) -> (r: bool)
        ensures
            r == role_in_use(self@.grants, role),
    {
        any(
            &self.grants,
            |g: &Grant| -> (b: bool)
                ensures
                    b == (g.role == role)
                { g.role == role },
            Ghost(|g: Grant| g.role == role),
        )
    }

    /// Change the user rows, and nothing else.
    fn change_users<F: Fn(Account) -> Account>(
        &mut self,
        change: F,
        becomes: Ghost<spec_fn(AccountData) -> AccountData>,
    )
        requires
            forall|x: Account| #[trigger] change.requires((x,)),
            forall|x: Account, y: Account| #[trigger]
                change.ensures((x,), y) ==> y.deep_view() == (becomes@)(x.deep_view()),
        ensures
            final(self)@ == (Board { users: old(self)@.users.map_values(becomes@), ..old(self)@ }),
    {
        let mut rows: Vec<Account> = Vec::new();
        std::mem::swap(&mut rows, &mut self.users);
        self.users = changed(rows, change, becomes);
    }

    /// Note that a user was here at `now`.
    pub fn touch(&mut self, user: UserId, now: Millis)
        ensures
            final(self)@ == touched(old(self)@, user, now),
    {
        self.change_users(
            |a: Account| -> (d: Account)
                ensures
                    d.deep_view() == seeing(user, now)(a.deep_view())
                {
                    if a.id == user {
                        Account { last_seen: now, ..a }
                    } else {
                        a
                    }
                },
            Ghost(seeing(user, now)),
        );
    }

    fn change_posts<F: Fn(Post) -> Post>(
        &mut self,
        change: F,
        becomes: Ghost<spec_fn(PostData) -> PostData>,
    )
        requires
            forall|x: Post| #[trigger] change.requires((x,)),
            forall|x: Post, y: Post| #[trigger]
                change.ensures((x,), y) ==> y.deep_view() == (becomes@)(x.deep_view()),
        ensures
            final(self)@ == (Board { posts: old(self)@.posts.map_values(becomes@), ..old(self)@ }),
    {
        let mut rows: Vec<Post> = Vec::new();
        std::mem::swap(&mut rows, &mut self.posts);
        self.posts = changed(rows, change, becomes);
    }

    fn keep_grants<F: Fn(&Grant) -> bool>(
        &mut self,
        wanted: F,
        holds: Ghost<spec_fn(Grant) -> bool>,
    )
        requires
            forall|x: &Grant| #[trigger] wanted.requires((x,)),
            forall|x: &Grant, b: bool| #[trigger] wanted.ensures((x,), b) ==> b == (holds@)(*x),
        ensures
            final(self)@ == (Board { grants: old(self)@.grants.filter(holds@), ..old(self)@ }),
    {
        let mut rows: Vec<Grant> = Vec::new();
        std::mem::swap(&mut rows, &mut self.grants);
        self.grants = kept(rows, wanted, holds);
    }

    fn keep_members<F: Fn(&Member) -> bool>(
        &mut self,
        wanted: F,
        holds: Ghost<spec_fn(Member) -> bool>,
    )
        requires
            forall|x: &Member| #[trigger] wanted.requires((x,)),
            forall|x: &Member, b: bool| #[trigger] wanted.ensures((x,), b) ==> b == (holds@)(*x),
        ensures
            final(self)@ == (Board { members: old(self)@.members.filter(holds@), ..old(self)@ }),
    {
        let mut rows: Vec<Member> = Vec::new();
        std::mem::swap(&mut rows, &mut self.members);
        self.members = kept(rows, wanted, holds);
    }

    fn drop_role(&mut self, role: RoleId)
        ensures
            final(self)@ == (Board {
                roles: old(self)@.roles.filter(other_role(role)),
                ..old(self)@
            }),
    {
        let mut rows: Vec<Role> = Vec::new();
        std::mem::swap(&mut rows, &mut self.roles);
        self.roles =
        kept(
            rows,
            |x: &Role| -> (b: bool)
                ensures
                    b == (x.id != role)
                { x.id != role },
            Ghost(other_role(role)),
        );
    }

    fn drop_conv(&mut self, conv: ConvId)
        ensures
            final(self)@ == (Board {
                convs: old(self)@.convs.filter(other_conv(conv)),
                ..old(self)@
            }),
    {
        let mut rows: Vec<Conversation> = Vec::new();
        std::mem::swap(&mut rows, &mut self.convs);
        self.convs =
        kept(
            rows,
            |x: &Conversation| -> (b: bool)
                ensures
                    b == (x.id != conv)
                { x.id != conv },
            Ghost(other_conv(conv)),
        );
    }

    fn drop_posts_of(&mut self, conv: ConvId)
        ensures
            final(self)@ == (Board {
                posts: old(self)@.posts.filter(other_conv_post(conv)),
                ..old(self)@
            }),
    {
        let mut rows: Vec<Post> = Vec::new();
        std::mem::swap(&mut rows, &mut self.posts);
        self.posts =
        kept(
            rows,
            |x: &Post| -> (b: bool)
                ensures
                    b == (x.message.conv != conv)
                { x.message.conv != conv },
            Ghost(other_conv_post(conv)),
        );
    }

    fn set_topic(&mut self, conv: ConvId, topic: &String)
        ensures
            final(self)@ == (Board {
                convs: old(self)@.convs.map_values(retitling(conv, topic@)),
                ..old(self)@
            }),
    {
        let mut rows: Vec<Conversation> = Vec::new();
        std::mem::swap(&mut rows, &mut self.convs);
        self.convs =
        changed(
            rows,
            |c: Conversation| -> (d: Conversation)
                ensures
                    d.deep_view() == retitling(conv, topic@)(c.deep_view())
                {
                    if c.id == conv {
                        Conversation { topic: topic.clone(), ..c }
                    } else {
                        c
                    }
                },
            Ghost(retitling(conv, topic@)),
        );
    }

    /// Run one statement. A refused one changes nothing.
    pub fn run(&mut self, statement: &Statement) -> (r: Result<(), StoreError>)
        ensures
            match run(old(self)@, statement.deep_view()) {
                Ok(b) => r is Ok && final(self)@ == b,
                Err(e) => r == Err::<(), StoreError>(e) && final(self)@ == old(self)@,
            },
    {
        match statement {
            Statement::InsertUser(row) => {
                if knows_user(&self.users, row.id) {
                    return Err(StoreError::UserExists);
                }
                if knows_name(&self.users, row.id, &row.name) {
                    return Err(StoreError::NameTaken);
                }
                self.users.push(row.clone());
                assert(self.users.deep_view() =~= old(self)@.users.push(row.deep_view()));
            },
            Statement::RenameUser { user, name } => {
                let user = *user;
                if knows_user(&self.users, user) && knows_name(&self.users, user, name) {
                    return Err(StoreError::NameTaken);
                }
                self.change_users(
                    |a: Account| -> (d: Account)
                        ensures
                            d.deep_view() == renaming(user, name@)(a.deep_view())
                        {
                            if a.id == user {
                                Account { name: name.clone(), ..a }
                            } else {
                                a
                            }
                        },
                    Ghost(renaming(user, name@)),
                );
            },
            Statement::SetBio { user, bio } => {
                let user = *user;
                self.change_users(
                    |a: Account| -> (d: Account)
                        ensures
                            d.deep_view() == rewriting_bio(user, bio@)(a.deep_view())
                        {
                            if a.id == user {
                                Account { bio: bio.clone(), ..a }
                            } else {
                                a
                            }
                        },
                    Ghost(rewriting_bio(user, bio@)),
                );
            },
            Statement::InsertRole(row) => {
                if knows_role(&self.roles, row.id) {
                    return Err(StoreError::RoleExists);
                }
                self.roles.push(row.clone());
                assert(self.roles.deep_view() =~= old(self)@.roles.push(row.deep_view()));
            },
            Statement::InsertGrant(row) => {
                if !knows_grant(&self.grants, *row) {
                    if !knows_user(&self.users, row.user) || !knows_role(&self.roles, row.role) {
                        return Err(StoreError::MissingReference);
                    }
                    self.grants.push(*row);
                    assert(self.grants.deep_view() =~= old(self)@.grants.push(*row));
                }
            },
            Statement::DeleteGrant(row) => {
                let row = *row;
                self.keep_grants(
                    |g: &Grant| -> (b: bool)
                        ensures
                            b == (*g != row)
                        { *g != row },
                    Ghost(other_grant(row)),
                );
            },
            Statement::DeleteGrantsOf { role } => {
                let role = *role;
                self.keep_grants(
                    |g: &Grant| -> (b: bool)
                        ensures
                            b == (g.role != role)
                        { g.role != role },
                    Ghost(other_role_grant(role)),
                );
            },
            Statement::DeleteRole { role } => {
                if knows_role(&self.roles, *role) && self.uses_role(*role) {
                    return Err(StoreError::MissingReference);
                }
                self.drop_role(*role);
            },
            Statement::InsertConv(row) => {
                if knows_conv(&self.convs, row.id) {
                    return Err(StoreError::ConvExists);
                }
                self.convs.push(row.clone());
                assert(self.convs.deep_view() =~= old(self)@.convs.push(row.deep_view()));
            },
            Statement::DeleteMembersOf { conv } => {
                let conv = *conv;
                self.keep_members(
                    |m: &Member| -> (b: bool)
                        ensures
                            b == (m.conv != conv)
                        { m.conv != conv },
                    Ghost(other_conv_member(conv)),
                );
            },
            Statement::DeleteMessagesOf { conv } => {
                self.drop_posts_of(*conv);
            },
            Statement::DeleteConv { conv } => {
                if knows_conv(&self.convs, *conv) && self.uses_conv(*conv) {
                    return Err(StoreError::MissingReference);
                }
                self.drop_conv(*conv);
            },
            Statement::SetTopic { conv, topic } => {
                self.set_topic(*conv, topic);
            },
            Statement::InsertMember(row) => {
                if !knows_member(&self.members, row.conv, row.user) {
                    if !knows_conv(&self.convs, row.conv) || !knows_user(&self.users, row.user) {
                        return Err(StoreError::MissingReference);
                    }
                    self.members.push(*row);
                    assert(self.members.deep_view() =~= old(self)@.members.push(*row));
                }
            },
            Statement::DeleteMember { conv, user } => {
                let conv = *conv;
                let user = *user;
                self.keep_members(
                    |m: &Member| -> (b: bool)
                        ensures
                            b == !(m.conv == conv && m.user == user)
                        { !(m.conv == conv && m.user == user) },
                    Ghost(other_member(conv, user)),
                );
            },
            Statement::InsertMessage(row) => {
                if knows_post(&self.posts, row.message.id) {
                    return Err(StoreError::MessageExists);
                }
                if !knows_conv(&self.convs, row.message.conv) || !knows_user(
                    &self.users,
                    row.message.author,
                ) {
                    return Err(StoreError::MissingReference);
                }
                self.posts.push(row.clone());
                assert(self.posts.deep_view() =~= old(self)@.posts.push(row.deep_view()));
            },
            Statement::EditMessage { message, body, at } => {
                let message = *message;
                let at = *at;
                self.change_posts(
                    |p: Post| -> (d: Post)
                        ensures
                            d.deep_view() == editing(message, body@, at)(p.deep_view())
                        {
                            if p.message.id == message {
                                Post {
                                    message: Message {
                                        body: body.clone(),
                                        edited_at: Some(at),
                                        ..p.message
                                    },
                                    deleted: p.deleted,
                                }
                            } else {
                                p
                            }
                        },
                    Ghost(editing(message, body@, at)),
                );
            },
            Statement::BlankMessage { message } => {
                let message = *message;
                self.change_posts(
                    |p: Post| -> (d: Post)
                        ensures
                            d.deep_view() == blanking(message)(p.deep_view())
                        {
                            if p.message.id == message {
                                Post {
                                    message: Message { body: String::new(), ..p.message },
                                    deleted: true,
                                }
                            } else {
                                p
                            }
                        },
                    Ghost(blanking(message)),
                );
            },
        }
        Ok(())
    }
}

/// A row is there exactly if the table holds one with that id; a name is taken
/// exactly if someone else has it.
pub proof fn rows_are_known_by_their_ids(b: Board, id: i64, message: MessageId, name: Seq<char>, user: UserId)
    ensures
        has_user(b.users, id) <==> exists|a: AccountData| #[trigger] b.users.contains(a) && a.id
            == id,
        has_role(b.roles, id) <==> exists|r: RoleData| #[trigger] b.roles.contains(r) && r.id
            == id,
        has_conv(b.convs, id) <==> exists|c: ConvData| #[trigger] b.convs.contains(c) && c.id
            == id,
        has_post(b.posts, message) <==> exists|p: PostData| #[trigger]
            b.posts.contains(p) && p.message.id == message,
        name_taken(b.users, id, name) <==> exists|a: AccountData| #[trigger]
            b.users.contains(a) && a.id != id && a.name == name,
        has_member(b.members, id, user) <==> exists|m: Member| #[trigger]
            b.members.contains(m) && m.conv == id && m.user == user,
        role_in_use(b.grants, id) <==> exists|g: Grant| #[trigger] b.grants.contains(g) && g.role
            == id,
{
    lemma_held(b.users, |a: AccountData| a.id == id);
    lemma_held(b.roles, |r: RoleData| r.id == id);
    lemma_held(b.convs, |c: ConvData| c.id == id);
    lemma_held(b.posts, |p: PostData| p.message.id == message);
    lemma_held(b.users, |a: AccountData| a.id != id && a.name == name);
    lemma_held(b.members, |m: Member| m.conv == id && m.user == user);
    lemma_held(b.grants, |g: Grant| g.role == id);
}

proof fn lemma_held<T>(s: Seq<T>, p: spec_fn(T) -> bool)
    ensures
        (exists|i: int| 0 <= i < s.len() && p(#[trigger] s[i])) <==> exists|x: T| #[trigger]
            s.contains(x) && p(x),
{
    if exists|i: int| 0 <= i < s.len() && p(#[trigger] s[i]) {
        let i = choose|i: int| 0 <= i < s.len() && p(#[trigger] s[i]);
        assert(s.contains(s[i]));
    }
    if exists|x: T| #[trigger] s.contains(x) && p(x) {
        let x = choose|x: T| #[trigger] s.contains(x) && p(x);
        let i = choose|i: int| 0 <= i < s.len() && s[i] == x;
        assert(p(s[i]));
    }
}

/// That someone was seen is noted with them alone, and changes nothing else of
/// them.
pub proof fn only_who_was_seen_is_touched(b: Board, user: UserId, now: Millis, i: int)
    requires
        0 <= i < b.users.len(),
    ensures
        touched(b, user, now).users.len() == b.users.len(),
        b.users[i].id == user ==> touched(b, user, now).users[i] == (AccountData {
            last_seen: now,
            ..b.users[i]
        }),
        b.users[i].id != user ==> touched(b, user, now).users[i] == b.users[i],
        touched(b, user, now).roles == b.roles && touched(b, user, now).grants == b.grants
            && touched(b, user, now).convs == b.convs && touched(b, user, now).members == b.members
            && touched(b, user, now).posts == b.posts,
{
}

/// Nothing is on an empty board.
pub proof fn an_empty_board_holds_nothing()
    ensures
        empty_board().users.len() == 0 && empty_board().roles.len() == 0
            && empty_board().grants.len() == 0 && empty_board().convs.len() == 0
            && empty_board().members.len() == 0 && empty_board().posts.len() == 0,
{
}

/// Whoever is told why the store refused something can tell the reasons apart.
pub proof fn refusals_read_differently(a: StoreError, b: StoreError)
    requires
        a != b,
    ensures
        refusal_text(a) != refusal_text(b),
{
    reveal_strlit("UNIQUE constraint failed: events.id");
    reveal_strlit("UNIQUE constraint failed: users.id");
    reveal_strlit("UNIQUE constraint failed: users.name");
    reveal_strlit("UNIQUE constraint failed: roles.id");
    reveal_strlit("UNIQUE constraint failed: convs.id");
    reveal_strlit("UNIQUE constraint failed: messages.id");
    reveal_strlit("FOREIGN KEY constraint failed");
    reveal_strlit("no ids left");
    let (s, t) = (refusal_text(a), refusal_text(b));
    assert(s[0] != t[0] || s[26] != t[26] || s[32] != t[32]);
}

} // verus!
