//! What a session shows: three panes, vim modes, and what it knows of the
//! board.
//!
//! A session owns no shared state. It holds a local view of what it is
//! currently showing, says what it needs to read, and reacts to deliveries.
use std::collections::HashMap;

use vstd::prelude::*;

use crate::bus::{Delivery, Payload};
use crate::config::{ERROR_FLASH, MESSAGE_WINDOW};
use crate::model::{
    ConvId, ConvKind, Conversation, Event, EventKind, KindData, Message, MessageId,
    Millis, Role, RoleData, Signal, Tag, User, UserData, UserId, Uuid,
};
use crate::number::{decimal, decimal_int, decimal_nat, decimal_signed};
use crate::seqs::{first, lemma_filter_contains, lemma_filter_step, lemma_first};
use crate::text::{cat, cat3, join, joined, trim, trimmed};
use crate::ui::style::Color;
use crate::ui::switcher::{texts_in, Switcher, SwitcherData};
use crate::ui::theme::Theme;

verus! {

#[derive(Debug, Clone, Copy, PartialEq, Eq, Structural)]
pub enum Mode {
    Normal,
    Insert,
    Command,
}

/// What is drawn on top of the three panes, if anything.
#[derive(Debug)]
pub enum Overlay {
    Switcher(Switcher),
    Profile(User),
    Roles(Vec<Role>),
    Help,
}

pub ghost enum OverlayData {
    Switcher(SwitcherData),
    Profile(UserData),
    Roles(Seq<RoleData>),
    Help,
}

impl View for Overlay {
    type V = OverlayData;

    open spec fn view(&self) -> OverlayData {
        match *self {
            Overlay::Switcher(s) => OverlayData::Switcher(s@),
            Overlay::Profile(u) => OverlayData::Profile(u.deep_view()),
            Overlay::Roles(r) => OverlayData::Roles(r.deep_view()),
            Overlay::Help => OverlayData::Help,
        }
    }
}

#[derive(Debug)]
pub struct App {
    pub me: UserId,
    pub theme: Theme,
    pub mode: Mode,
    /// Conversations this user can see, in sidebar order.
    pub convs: Vec<Conversation>,
    /// What each of them is called in the sidebar -- DMs are named after the
    /// other member, not stored.
    pub labels: HashMap<ConvId, String>,
    pub active: usize,
    pub messages: Vec<Message>,
    pub members: Vec<UserId>,
    pub users: HashMap<UserId, User>,
    pub input: String,
    /// Caret position in `input`, in characters.
    pub cursor: usize,
    pub command: String,
    pub status: Option<String>,
    /// While this is in the future the bar flashes red -- a refused command.
    pub flash_until: Option<Millis>,
    /// Lines scrolled back from the bottom of the conversation.
    pub scroll: usize,
    /// A half-typed multi-key sequence, e.g. the first `g` of `gg`.
    pub pending: Option<char>,
    pub overlay: Option<Overlay>,
    /// Written by the renderer so key handling can clamp scrolling to what is
    /// actually on screen.
    pub view_height: usize,
    pub total_lines: usize,
    pub quit: bool,
}

/// An [`App`], with its texts as sequences of characters.
#[verifier::ext_equal]
pub ghost struct Screen {
    pub me: UserId,
    pub theme: Theme,
    pub mode: Mode,
    pub convs: Seq<Conversation>,
    pub labels: Map<ConvId, Seq<char>>,
    pub active: usize,
    pub messages: Seq<Message>,
    pub members: Seq<UserId>,
    pub users: Map<UserId, User>,
    pub input: Seq<char>,
    pub cursor: usize,
    pub command: Seq<char>,
    pub status: Option<Seq<char>>,
    pub flash_until: Option<Millis>,
    pub scroll: usize,
    pub pending: Option<char>,
    pub overlay: Option<OverlayData>,
    pub view_height: usize,
    pub total_lines: usize,
    pub quit: bool,
}

impl View for App {
    type V = Screen;

    open spec fn view(&self) -> Screen {
        Screen {
            me: self.me,
            theme: self.theme,
            mode: self.mode,
            convs: self.convs@,
            labels: texts_in(self.labels@),
            active: self.active,
            messages: self.messages@,
            members: self.members@,
            users: self.users@,
            input: self.input@,
            cursor: self.cursor,
            command: self.command@,
            status: match self.status {
                Some(s) => Some(s@),
                None => None,
            },
            flash_until: self.flash_until,
            scroll: self.scroll,
            pending: self.pending,
            overlay: match self.overlay {
                Some(o) => Some(o@),
                None => None,
            },
            view_height: self.view_height,
            total_lines: self.total_lines,
            quit: self.quit,
        }
    }
}

// ---------------------------------------------------------------------------
// what is known
// ---------------------------------------------------------------------------

/// The user with this id, if there is one.
pub open spec fn known(users: Map<UserId, User>, id: UserId) -> Option<User> {
    if users.contains_key(id) {
        Some(users[id])
    } else {
        None
    }
}

pub open spec fn name_in(users: Map<UserId, User>, id: UserId) -> Seq<char> {
    match known(users, id) {
        Some(u) => u.name@,
        None => "user"@ + decimal_int(id as int),
    }
}

/// The conversation that is selected.
pub open spec fn selected_conv(s: Screen) -> Option<Conversation> {
    if s.active < s.convs.len() {
        Some(s.convs[s.active as int])
    } else {
        None
    }
}

/// What a conversation is called.
pub open spec fn label_in(labels: Map<ConvId, Seq<char>>, id: ConvId) -> Seq<char> {
    if labels.contains_key(id) {
        labels[id]
    } else {
        "?"@
    }
}

/// Flair: the highest-priority role colours the name everywhere.
pub open spec fn color_in(users: Map<UserId, User>, theme: Theme, id: UserId) -> Color {
    match known(users, id) {
        Some(u) if u.roles@.len() > 0 => theme.shows(u.roles@[0].color),
        _ => theme.shows(theme.palette.fg),
    }
}

/// Whether a user holds a role that grants power.
pub open spec fn is_admin(users: Map<UserId, User>, id: UserId) -> bool {
    match known(users, id) {
        Some(u) => has_admin(u.roles@),
        None => false,
    }
}

pub open spec fn has_admin(roles: Seq<Role>) -> bool {
    exists|i: int| 0 <= i < roles.len() && (#[trigger] roles[i]).admin
}

pub open spec fn is_here(users: Map<UserId, User>, id: UserId) -> bool {
    match known(users, id) {
        Some(u) => u.online,
        None => false,
    }
}

fn find_user(users: &HashMap<UserId, User>, id: UserId) -> (r: Option<&User>)
    ensures
        match r {
            Some(u) => known(users@, id) == Some(*u),
            None => known(users@, id) is None,
        },
{
    broadcast use vstd::std_specs::hash::group_hash_axioms;

    users.get(&id)
}

fn any_admin(roles: &Vec<Role>) -> (r: bool)
    ensures
        r == has_admin(roles@),
{
    let mut i: usize = 0;
    while i < roles.len()
        invariant
            i <= roles.len(),
            forall|j: int| 0 <= j < i ==> !(#[trigger] roles@[j]).admin,
        decreases roles.len() - i,
    {
        if roles[i].admin {
            return true;
        }
        i += 1;
    }
    false
}

fn name_among(users: &HashMap<UserId, User>, id: UserId) -> (r: String)
    ensures
        r@ == name_in(users@, id),
{
    match find_user(users, id) {
        Some(u) => u.name.clone(),
        None => {
            let number = decimal_signed(id);
            cat("user", number.as_str())
        },
    }
}

impl App {
    /// A session of `me` that knows nothing yet.
    pub fn new(me: UserId, theme: Theme) -> (r: App)
        ensures
            r@ == (Screen {
                me,
                theme,
                mode: Mode::Normal,
                convs: seq![],
                labels: Map::empty(),
                active: 0,
                messages: seq![],
                members: seq![],
                users: Map::empty(),
                input: seq![],
                cursor: 0,
                command: seq![],
                status: None,
                flash_until: None,
                scroll: 0,
                pending: None,
                overlay: None,
                view_height: 0,
                total_lines: 0,
                quit: false,
            }),
    {
        let r = App {
            me,
            theme,
            mode: Mode::Normal,
            convs: Vec::new(),
            labels: HashMap::new(),
            active: 0,
            messages: Vec::new(),
            members: Vec::new(),
            users: HashMap::new(),
            input: String::new(),
            cursor: 0,
            command: String::new(),
            status: None,
            flash_until: None,
            scroll: 0,
            pending: None,
            overlay: None,
            view_height: 0,
            total_lines: 0,
            quit: false,
        };
        assert(r@.labels =~= Map::empty());
        assert(r@.input =~= seq![]);
        assert(r@.command =~= seq![]);
        r
    }

    pub fn me(&self) -> (r: UserId)
        ensures
            r == self@.me,
    {
        self.me
    }

    pub fn quit(&mut self)
        ensures
            final(self)@ == (Screen { quit: true, ..old(self)@ }),
    {
        self.quit = true;
    }

    pub fn active_conv(&self) -> (r: Option<&Conversation>)
        ensures
            match r {
                Some(c) => selected_conv(self@) == Some(*c),
                None => selected_conv(self@) is None,
            },
    {
        if self.active < self.convs.len() {
            Some(&self.convs[self.active])
        } else {
            None
        }
    }

    pub fn label(&self, conv: ConvId) -> (r: String)
        ensures
            r@ == label_in(self@.labels, conv),
    {
        broadcast use vstd::std_specs::hash::group_hash_axioms;

        match self.labels.get(&conv) {
            Some(label) => label.clone(),
            None => "?".to_owned(),
        }
    }

    pub fn user(&self, id: UserId) -> (r: Option<&User>)
        ensures
            match r {
                Some(u) => known(self@.users, id) == Some(*u),
                None => known(self@.users, id) is None,
            },
    {
        find_user(&self.users, id)
    }

    pub fn user_name(&self, id: UserId) -> (r: String)
        ensures
            r@ == name_in(self@.users, id),
    {
        name_among(&self.users, id)
    }

    pub fn user_color(&self, id: UserId) -> (r: Color)
        ensures
            r == color_in(self@.users, self@.theme, id),
    {
        match find_user(&self.users, id) {
            Some(u) => if u.roles.len() > 0 {
                self.theme.color(u.roles[0].color)
            } else {
                self.theme.fg()
            },
            None => self.theme.fg(),
        }
    }

    /// Admin commands are gated on holding a role marked admin.
    pub fn is_admin(&self) -> (r: bool)
        ensures
            r == is_admin(self@.users, self@.me),
    {
        match find_user(&self.users, self.me) {
            Some(u) => any_admin(&u.roles),
            None => false,
        }
    }

    pub fn is_here(&self, id: UserId) -> (r: bool)
        ensures
            r == is_here(self@.users, id),
    {
        match find_user(&self.users, id) {
            Some(u) => u.online,
            None => false,
        }
    }

    // -- the bar --------------------------------------------------------------

    pub fn set_status(&mut self, text: String)
        ensures
            final(self)@ == (Screen { status: Some(text@), flash_until: None, ..old(self)@ }),
    {
        self.status = Some(text);
        self.flash_until = None;
    }

    /// A refused command: same message, but the bar goes red for a beat.
    pub fn set_error(&mut self, text: String, now: Millis)
        ensures
            final(self)@ == refused(old(self)@, text@, now),
    {
        self.status = Some(text);
        self.flash_until =
        Some(
            if now > i64::MAX - ERROR_FLASH {
                i64::MAX
            } else {
                now + ERROR_FLASH
            },
        );
    }

    pub fn flashing(&self, now: Millis) -> (r: bool)
        ensures
            r == is_flashing(self@, now),
    {
        match self.flash_until {
            Some(until) => until > now,
            None => false,
        }
    }

    // -- reading --------------------------------------------------------------

    /// Select a conversation by index. If there is one, it has to be loaded
    /// and subscribed to.
    pub fn select(&mut self, index: usize) -> (r: bool)
        ensures
            r == (index < old(self)@.convs.len()),
            final(self)@ == if r {
                Screen { active: index, ..old(self)@ }
            } else {
                old(self)@
            },
    {
        if index >= self.convs.len() {
            return false;
        }
        self.active = index;
        true
    }

    /// Everything that this session wants to hear about.
    pub fn tags(&self) -> (r: Vec<Tag>)
        ensures
            r@ == wanted_tags(self@),
    {
        let mut tags: Vec<Tag> = vec![
            Tag::Directory,
            Tag::Presence,
            Tag::Roles,
            Tag::User(self.me),
        ];
        if let Some(conv) = self.active_conv() {
            tags.push(Tag::Conv(conv.id));
        }
        assert(tags@ =~= wanted_tags(self@));
        tags
    }
}

/// The screen once a command was refused.
pub open spec fn refused(s: Screen, text: Seq<char>, now: Millis) -> Screen {
    Screen {
        status: Some(text),
        flash_until: Some(
            if now + ERROR_FLASH > i64::MAX {
                i64::MAX
            } else {
                (now + ERROR_FLASH) as Millis
            },
        ),
        ..s
    }
}

pub open spec fn is_flashing(s: Screen, now: Millis) -> bool {
    s.flash_until matches Some(until) && until > now
}

pub open spec fn wanted_tags(s: Screen) -> Seq<Tag> {
    let always = seq![Tag::Directory, Tag::Presence, Tag::Roles, Tag::User(s.me)];
    match selected_conv(s) {
        Some(conv) => always.push(Tag::Conv(conv.id)),
        None => always,
    }
}

/// A refused command flashes until its time is up, and then the bar is calm
/// again on its own.
pub proof fn a_flash_lapses(s: Screen, text: Seq<char>, now: Millis, later: Millis)
    requires
        now <= i64::MAX - ERROR_FLASH,
    ensures
        is_flashing(refused(s, text, now), now),
        is_flashing(refused(s, text, now), later) <==> later < now + ERROR_FLASH,
{
}

// ---------------------------------------------------------------------------
// loading
// ---------------------------------------------------------------------------

/// Who is in a conversation.
#[derive(Debug)]
pub struct Roster {
    pub conv: ConvId,
    pub members: Vec<UserId>,
}

pub open spec fn roster_of(conv: ConvId) -> spec_fn(Roster) -> bool {
    |r: Roster| r.conv == conv
}

pub open spec fn in_roster(rosters: Seq<Roster>, conv: ConvId) -> Seq<UserId> {
    match first(rosters, roster_of(conv)) {
        Some(r) => r.members@,
        None => seq![],
    }
}

/// The names of everyone but me.
pub open spec fn other_names(ids: Seq<UserId>, users: Map<UserId, User>, me: UserId) -> Seq<Seq<char>>
    decreases ids.len(),
{
    if ids.len() == 0 {
        seq![]
    } else if ids.last() != me {
        other_names(ids.drop_last(), users, me).push(name_in(users, ids.last()))
    } else {
        other_names(ids.drop_last(), users, me)
    }
}

/// Whether a conversation is called by the names of its members.
pub open spec fn named_by_members(conv: Conversation) -> bool {
    !(conv.kind == ConvKind::Channel || conv.kind == ConvKind::Group && conv.name@.len() > 0)
}

/// What a conversation is called in the sidebar.
pub open spec fn label_for(
    conv: Conversation,
    members: Seq<UserId>,
    users: Map<UserId, User>,
    me: UserId,
) -> Seq<char> {
    if conv.kind == ConvKind::Channel {
        "#"@ + conv.name@
    } else if conv.kind == ConvKind::Group && conv.name@.len() > 0 {
        "&"@ + conv.name@
    } else {
        let names = other_names(members, users, me);
        if names.len() == 0 {
            "@(empty)"@
        } else {
            "@"@ + joined(names, ", "@)
        }
    }
}

/// Those who are known, and the first `n` of those who were just read, each by
/// what was read last.
pub open spec fn with_users(users: Map<UserId, User>, fresh: Seq<User>, n: int) -> Map<
    UserId,
    User,
>
    decreases n,
{
    if n <= 0 {
        users
    } else {
        with_users(users, fresh, n - 1).insert(fresh[n - 1].id, fresh[n - 1])
    }
}

/// What the first `n` conversations are called.
pub open spec fn labelled(
    convs: Seq<Conversation>,
    rosters: Seq<Roster>,
    users: Map<UserId, User>,
    me: UserId,
    n: int,
) -> Map<ConvId, Seq<char>>
    decreases n,
{
    if n <= 0 {
        Map::empty()
    } else {
        let conv = convs[n - 1];
        labelled(convs, rosters, users, me, n - 1).insert(
            conv.id,
            label_for(conv, in_roster(rosters, conv.id), users, me),
        )
    }
}

/// The screen once what it displays has been read anew.
pub open spec fn refreshed(
    s: Screen,
    convs: Seq<Conversation>,
    fresh: Seq<User>,
    rosters: Seq<Roster>,
) -> Screen {
    let users = with_users(s.users, fresh, fresh.len() as int);
    Screen {
        convs,
        users,
        labels: labelled(convs, rosters, users, s.me, convs.len() as int),
        active: if s.active < convs.len() {
            s.active
        } else if convs.len() == 0 {
            0
        } else {
            (convs.len() - 1) as usize
        },
        ..s
    }
}

pub open spec fn needs_members() -> spec_fn(Conversation) -> bool {
    |c: Conversation| named_by_members(c)
}

pub open spec fn conv_ids() -> spec_fn(Conversation) -> ConvId {
    |c: Conversation| c.id
}

/// Which conversations have to have their members read before they can be
/// labelled: those that are called by the names of their members, in order.
pub fn unlabelled(convs: &Vec<Conversation>) -> (r: Vec<ConvId>)
    ensures
        r@ == convs@.filter(needs_members()).map_values(conv_ids()),
{
    let mut out: Vec<ConvId> = Vec::new();
    let mut i: usize = 0;
    assert(convs@.take(0).filter(needs_members()) =~= seq![]) by {
        reveal(Seq::filter);
    }
    while i < convs.len()
        invariant
            i <= convs.len(),
            out@ == convs@.take(i as int).filter(needs_members()).map_values(conv_ids()),
        decreases convs.len() - i,
    {
        proof {
            lemma_filter_step(convs@, needs_members(), i as int);
        }
        let plain = convs[i].kind == ConvKind::Channel || convs[i].kind == ConvKind::Group
            && !convs[i].name.as_str().is_empty();
        if !plain {
            out.push(convs[i].id);
        }
        i += 1;
        assert(out@ =~= convs@.take(i as int).filter(needs_members()).map_values(conv_ids()));
    }
    assert(convs@.take(i as int) == convs@);
    out
}

fn names_without(ids: &Vec<UserId>, users: &HashMap<UserId, User>, me: UserId) -> (r: Vec<String>)
    ensures
        r.deep_view() == other_names(ids@, users@, me),
{
    let mut out: Vec<String> = Vec::new();
    let mut i: usize = 0;
    assert(out.deep_view() =~= seq![]);
    while i < ids.len()
        invariant
            i <= ids.len(),
            out.deep_view() == other_names(ids@.take(i as int), users@, me),
        decreases ids.len() - i,
    {
        proof {
            assert(ids@.take(i + 1).drop_last() == ids@.take(i as int));
            assert(ids@.take(i + 1).last() == ids@[i as int]);
        }
        let ghost before = out.deep_view();
        if ids[i] != me {
            let name = name_among(users, ids[i]);
            out.push(name);
            assert(out.deep_view() =~= before.push(name@));
        }
        i += 1;
    }
    assert(ids@.take(i as int) == ids@);
    out
}

pub fn roster_members<'a>(rosters: &'a Vec<Roster>, conv: ConvId) -> (r: Option<&'a Vec<UserId>>)
    ensures
        match r {
            Some(members) => in_roster(rosters@, conv) == members@,
            None => in_roster(rosters@, conv).len() == 0,
        },
{
    let mut i: usize = 0;
    while i < rosters.len()
        invariant
            i <= rosters.len(),
            forall|j: int| 0 <= j < i ==> !roster_of(conv)(#[trigger] rosters[j]),
        decreases rosters.len() - i,
    {
        if rosters[i].conv == conv {
            proof {
                lemma_first(rosters@, roster_of(conv), i as int);
            }
            return Some(&rosters[i].members);
        }
        i += 1;
    }
    proof {
        lemma_first(rosters@, roster_of(conv), i as int);
    }
    None
}

fn label_conv(conv: &Conversation, rosters: &Vec<Roster>, users: &HashMap<UserId, User>, me: UserId) -> (r:
    String)
    ensures
        r@ == label_for(*conv, in_roster(rosters@, conv.id), users@, me),
{
    if conv.kind == ConvKind::Channel {
        return cat("#", conv.name.as_str());
    }
    if conv.kind == ConvKind::Group && !conv.name.as_str().is_empty() {
        return cat("&", conv.name.as_str());
    }
    let names = match roster_members(rosters, conv.id) {
        Some(members) => names_without(members, users, me),
        None => Vec::new(),
    };
    proof {
        if in_roster(rosters@, conv.id).len() == 0 {
            assert(names.deep_view() =~= other_names(in_roster(rosters@, conv.id), users@, me));
        }
    }
    if names.len() == 0 {
        return "@(empty)".to_owned();
    }
    let all = join(&names, ", ");
    cat("@", all.as_str())
}

impl App {
    /// Take in everything this session displays, read anew: at startup, after
    /// a resync marker, and whenever an event arrives that is easier to absorb
    /// by re-reading than by patching. `rosters` tells who is in the
    /// conversations that are named by their members.
    pub fn refresh(
        &mut self,
        convs: Vec<Conversation>,
        fresh: Vec<User>,
        rosters: &Vec<Roster>,
    )
        ensures
            final(self)@ == refreshed(old(self)@, convs@, fresh@, rosters@),
    {
        broadcast use vstd::std_specs::hash::group_hash_axioms;

        let ghost before = self.users@;
        for user in it: fresh
            invariant
                it.seq() == fresh@,
                self.users@ == with_users(before, fresh@, it.index() as int),
                *self == (App { users: self.users, ..*old(self) }),
        {
            self.users.insert(user.id, user);
        }
        let mut labels: HashMap<ConvId, String> = HashMap::new();
        assert(texts_in(labels@) =~= Map::empty());
        let mut i: usize = 0;
        while i < convs.len()
            invariant
                i <= convs.len(),
                self.me == old(self).me,
                texts_in(labels@) == labelled(convs@, rosters@, self.users@, self.me, i as int),
            decreases convs.len() - i,
        {
            let ghost others = labels@;
            let label = label_conv(&convs[i], rosters, &self.users, self.me);
            labels.insert(convs[i].id, label);
            assert(texts_in(labels@) =~= texts_in(others).insert(convs[i as int].id, label@));
            i += 1;
        }
        if self.active >= convs.len() {
            self.active =
            if convs.len() == 0 {
                0
            } else {
                convs.len() - 1
            };
        }
        self.convs = convs;
        self.labels = labels;
    }

    /// Show the messages and members of the selected conversation, from the
    /// bottom.
    pub fn show(&mut self, messages: Vec<Message>, members: Vec<UserId>)
        ensures
            final(self)@ == (Screen {
                messages: messages@,
                members: members@,
                scroll: 0,
                ..old(self)@
            }),
    {
        self.messages = messages;
        self.members = members;
        self.scroll = 0;
    }

    /// There is no conversation to show.
    pub fn show_nothing(&mut self)
        ensures
            final(self)@ == (Screen { messages: seq![], members: seq![], ..old(self)@ }),
    {
        self.messages = Vec::new();
        self.members = Vec::new();
    }

    /// Where to read on when the view reaches the top of what is in memory:
    /// what came before the oldest message that is loaded.
    pub fn older(&self) -> (r: Option<(ConvId, MessageId)>)
        ensures
            r == older_than(self@),
    {
        match self.active_conv() {
            Some(conv) => if self.messages.len() > 0 {
                Some((conv.id, self.messages[0].id))
            } else {
                None
            },
            None => None,
        }
    }

    /// Put older history in front of what is loaded.
    pub fn prepend(&mut self, older: Vec<Message>)
        ensures
            final(self)@ == (Screen { messages: older@ + old(self)@.messages, ..old(self)@ }),
    {
        let mut rest: Vec<Message> = Vec::new();
        std::mem::swap(&mut rest, &mut self.messages);
        let mut all = older;
        all.append(&mut rest);
        self.messages = all;
    }
}

pub open spec fn older_than(s: Screen) -> Option<(ConvId, MessageId)> {
    match selected_conv(s) {
        Some(conv) if s.messages.len() > 0 => Some((conv.id, s.messages[0].id)),
        _ => None,
    }
}

// ---------------------------------------------------------------------------
// writing
// ---------------------------------------------------------------------------

/// The screen once the typed message was taken off it, and what is to be sent:
/// nothing if it is blank or there is nowhere to send it.
pub open spec fn taken(s: Screen, now: Millis) -> (Screen, Option<KindData>) {
    let body = trimmed(s.input);
    let cleared = Screen { input: seq![], cursor: 0, ..s };
    if body.len() == 0 {
        (cleared, None)
    } else {
        match selected_conv(s) {
            Some(conv) => (
                Screen { scroll: 0, ..cleared },
                Some(KindData::MessageSent { conv: conv.id, author: s.me, body }),
            ),
            None => (refused(cleared, "no conversation selected"@, now), None),
        }
    }
}

/// An event, with its texts as sequences of characters.
pub open spec fn kind_data(kind: Option<EventKind>) -> Option<KindData> {
    match kind {
        Some(k) => Some(k.deep_view()),
        None => None,
    }
}

impl App {
    /// Take the typed message off the screen, to be sent.
    pub fn send_message(&mut self, now: Millis) -> (r: Option<EventKind>)
        ensures
            (final(self)@, kind_data(r)) == taken(old(self)@, now),
    {
        let body = trim(self.input.as_str());
        self.input = String::new();
        self.cursor = 0;
        assert(self.input@ =~= seq![]);
        if body.as_str().is_empty() {
            return None;
        }
        let conv = match self.active_conv() {
            Some(conv) => Some(conv.id),
            None => None,
        };
        match conv {
            Some(conv) => {
                self.scroll = 0;
                Some(EventKind::MessageSent { conv, author: self.me, body })
            },
            None => {
                self.set_error("no conversation selected".to_owned(), now);
                None
            },
        }
    }
}

// ---------------------------------------------------------------------------
// deliveries
// ---------------------------------------------------------------------------

/// What a session has to do about a delivery.
#[derive(Debug, Clone, Copy, PartialEq, Eq, Structural)]
pub enum Reaction {
    /// Nothing more: it has been absorbed.
    Done,
    /// Resolve this uuid, and absorb the event.
    Fetch(Uuid),
    /// Re-read everything.
    Reload,
}

/// The newest messages that a view holds.
pub open spec fn windowed(messages: Seq<Message>) -> Seq<Message> {
    if messages.len() > MESSAGE_WINDOW {
        messages.drop_first()
    } else {
        messages
    }
}

/// The topic of the first conversation with this id.
pub open spec fn retopic(before: Seq<Conversation>, conv: ConvId, topic: String, now: Seq<
    Conversation,
>) -> bool {
    &&& now.len() == before.len()
    &&& forall|i: int|
        0 <= i < now.len() ==> (#[trigger] now[i]) == if before[i].id == conv && forall|j: int|
            0 <= j < i ==> (#[trigger] before[j]).id != conv {
            Conversation { topic, ..before[i] }
        } else {
            before[i]
        }
}

/// Whether `now` is the screen once it has absorbed an event, and `r` what is
/// left to do.
pub open spec fn absorbed(s: Screen, event: Event, now: Screen, r: Reaction) -> bool {
    match event.kind {
        EventKind::MessageSent { conv, author, body } => {
            &&& r == Reaction::Done
            &&& now == if selected_conv(s) is Some && selected_conv(s)->Some_0.id == conv {
                Screen {
                    messages: windowed(
                        s.messages.push(
                            Message {
                                id: event.id,
                                conv,
                                author,
                                body,
                                created_at: event.at,
                                edited_at: None,
                            },
                        ),
                    ),
                    ..s
                }
            } else {
                s
            }
        },
        EventKind::TopicSet { conv, topic } => {
            &&& r == Reaction::Done
            &&& now == Screen { convs: now.convs, ..s }
            &&& retopic(s.convs, conv, topic, now.convs)
        },
        // Everything else is cheaper to absorb by re-reading than by
        // hand-patching each projection in the session.
        _ => r == Reaction::Reload && now == s,
    }
}

pub open spec fn presence_seen(u: User, online: bool, at: Millis) -> User {
    User {
        online,
        last_seen: if online {
            u.last_seen
        } else {
            at
        },
        ..u
    }
}

/// The screen once it has absorbed a signal.
pub open spec fn signal_absorbed(s: Screen, signal: Signal, at: Millis) -> Screen {
    match signal {
        Signal::Presence { user, online } => Screen {
            users: match known(s.users, user) {
                Some(u) => s.users.insert(user, presence_seen(u, online, at)),
                None => s.users,
            },
            ..s
        },
        // Typing indicators and read observations have no UI yet.
        _ => s,
    }
}

/// What a session is told when it fell behind.
pub open spec fn behind(missed: usize) -> Seq<char> {
    "fell behind ("@ + decimal_nat(missed as nat) + " events) -- resynced"@
}

/// Where a conversation stands in the sidebar.
pub fn position(convs: &Vec<Conversation>, conv: ConvId) -> (r: Option<usize>)
    ensures
        match r {
            Some(i) => i < convs@.len() && convs@[i as int].id == conv && forall|j: int|
                0 <= j < i ==> (#[trigger] convs@[j]).id != conv,
            None => forall|j: int| 0 <= j < convs@.len() ==> (#[trigger] convs@[j]).id != conv,
        },
{
    let mut i: usize = 0;
    while i < convs.len()
        invariant
            i <= convs.len(),
            forall|j: int| 0 <= j < i ==> (#[trigger] convs@[j]).id != conv,
        decreases convs.len() - i,
    {
        if convs[i].id == conv {
            return Some(i);
        }
        i += 1;
    }
    None
}

impl App {
    pub fn apply_event(&mut self, event: Event) -> (r: Reaction)
        ensures
            absorbed(old(self)@, event, final(self)@, r),
    {
        let active = match self.active_conv() {
            Some(conv) => Some(conv.id),
            None => None,
        };
        match event.kind {
            EventKind::MessageSent { conv, author, body } => {
                if active == Some(conv) {
                    self.messages.push(
                        Message {
                            id: event.id,
                            conv,
                            author,
                            body,
                            created_at: event.at,
                            edited_at: None,
                        },
                    );
                    if self.messages.len() > MESSAGE_WINDOW {
                        let ghost before = self.messages@;
                        self.messages.remove(0);
                        assert(self.messages@ =~= before.drop_first());
                    }
                }
                Reaction::Done
            },
            EventKind::TopicSet { conv, topic } => {
                if let Some(i) = position(&self.convs, conv) {
                    let row = Conversation {
                        id: self.convs[i].id,
                        kind: self.convs[i].kind,
                        name: self.convs[i].name.clone(),
                        topic,
                        created_at: self.convs[i].created_at,
                    };
                    self.convs.set(i, row);
                }
                Reaction::Done
            },
            _ => Reaction::Reload,
        }
    }

    pub fn apply_signal(&mut self, signal: Signal, at: Millis)
        ensures
            final(self)@ == signal_absorbed(old(self)@, signal, at),
    {
        if let Signal::Presence { user, online } = signal {
            broadcast use vstd::std_specs::hash::group_hash_axioms;

            let ghost before = self.users@;
            if let Some(u) = self.users.remove(&user) {
                let last_seen = if online {
                    u.last_seen
                } else {
                    at
                };
                self.users.insert(user, User { online, last_seen, ..u });
                assert(self.users@ =~= before.insert(user, presence_seen(u, online, at)));
            } else {
                assert(self.users@ =~= before);
            }
        }
    }

    /// Take in a delivery, as of the time `at`.
    pub fn on_delivery(&mut self, delivery: Delivery, at: Millis) -> (r: Reaction)
        ensures
            match delivery {
                Delivery::Inline(Payload::Event(event)) => absorbed(
                    old(self)@,
                    event,
                    final(self)@,
                    r,
                ),
                Delivery::Inline(Payload::Signal(signal)) => r == Reaction::Done && final(self)@
                    == signal_absorbed(old(self)@, signal, at),
                Delivery::Id(id) => r == Reaction::Fetch(id) && final(self)@ == old(self)@,
                Delivery::Resync { missed } => r == Reaction::Reload && final(self)@ == (Screen {
                    status: Some(behind(missed)),
                    flash_until: None,
                    ..old(self)@
                }),
            },
            delivery is Resync ==> r == Reaction::Reload,
            r is Fetch <==> delivery is Id,
            r matches Reaction::Fetch(id) ==> delivery == Delivery::Id(id),
    {
        match delivery {
            Delivery::Inline(Payload::Event(event)) => self.apply_event(event),
            Delivery::Inline(Payload::Signal(signal)) => {
                self.apply_signal(signal, at);
                Reaction::Done
            },
            Delivery::Id(id) => Reaction::Fetch(id),
            Delivery::Resync { missed } => {
                let count = decimal(missed as u64);
                self.set_status(cat3("fell behind (", count.as_str(), " events) -- resynced"));
                Reaction::Reload
            },
        }
    }
}

/// A view never holds more than its window because of what arrives.
pub proof fn the_window_is_kept(messages: Seq<Message>, more: Message)
    requires
        messages.len() <= MESSAGE_WINDOW,
    ensures
        windowed(messages.push(more)).len() <= MESSAGE_WINDOW,
        windowed(messages.push(more)).last() == more,
{
}

// ---------------------------------------------------------------------------
// what a session shows
// ---------------------------------------------------------------------------

/// Someone who is known is called by their name, and anyone else by their
/// number; only someone who is known can be shown as here.
pub proof fn people_are_called_by_their_names(users: Map<UserId, User>, id: UserId)
    ensures
        users.contains_key(id) ==> name_in(users, id) == users[id].name@ && is_here(users, id)
            == users[id].online,
        !users.contains_key(id) ==> name_in(users, id) == "user"@ + decimal_int(id as int)
            && !is_here(users, id),
{
}

/// A name has the colour of the first role of whoever bears it, which is the
/// one of highest priority; without a role, or unknown, it has the theme's own.
pub proof fn the_first_role_colors_the_name(users: Map<UserId, User>, theme: Theme, id: UserId)
    ensures
        users.contains_key(id) && users[id].roles@.len() > 0 ==> color_in(users, theme, id)
            == theme.shows(users[id].roles@[0].color),
        users.contains_key(id) && users[id].roles@.len() == 0 ==> color_in(users, theme, id)
            == theme.shows(theme.palette.fg),
        !users.contains_key(id) ==> color_in(users, theme, id) == theme.shows(theme.palette.fg),
{
}

/// Someone is an administrator exactly if they are known to hold a role that
/// makes them one.
pub proof fn a_role_makes_an_administrator(users: Map<UserId, User>, id: UserId)
    ensures
        is_admin(users, id) <==> users.contains_key(id) && exists|r: Role| #[trigger]
            users[id].roles@.contains(r) && r.admin,
{
    if users.contains_key(id) {
        let roles = users[id].roles@;
        if has_admin(roles) {
            let i = choose|i: int| 0 <= i < roles.len() && (#[trigger] roles[i]).admin;
            assert(roles.contains(roles[i]));
        }
        if exists|r: Role| #[trigger] roles.contains(r) && r.admin {
            let r = choose|r: Role| #[trigger] roles.contains(r) && r.admin;
            let i = choose|i: int| 0 <= i < roles.len() && roles[i] == r;
            assert(roles[i].admin);
        }
    }
}

/// A session follows the list of conversations, who is there, the roles, its
/// own user and the conversation that it shows, and nothing else.
pub proof fn a_session_follows_what_it_shows(s: Screen, t: Tag)
    ensures
        wanted_tags(s).contains(t) <==> {
            ||| t == Tag::Directory
            ||| t == Tag::Presence
            ||| t == Tag::Roles
            ||| t == Tag::User(s.me)
            ||| s.active < s.convs.len() && t == Tag::Conv(s.convs[s.active as int].id)
        },
{
    let w = wanted_tags(s);
    assert(w[0] == Tag::Directory && w[1] == Tag::Presence && w[2] == Tag::Roles && w[3]
        == Tag::User(s.me));
    if s.active < s.convs.len() {
        assert(w[4] == Tag::Conv(s.convs[s.active as int].id));
    }
}

/// A refused command is answered with the reason, flashes for one second, and
/// changes nothing else on the screen.
pub proof fn a_refusal_says_why(s: Screen, text: Seq<char>, now: Millis)
    requires
        now <= i64::MAX - 1000,
    ensures
        refused(s, text, now).status == Some(text),
        is_flashing(refused(s, text, now), (now + 999) as Millis),
        !is_flashing(refused(s, text, now), (now + 1000) as Millis),
        refused(s, text, now) == (Screen {
            status: Some(text),
            flash_until: Some((now + 1000) as Millis),
            ..s
        }),
{
}

proof fn lemma_other_names_in(ids: Seq<UserId>, users: Map<UserId, User>, me: UserId, i: int)
    requires
        0 <= i < ids.len(),
        ids[i] != me,
    ensures
        other_names(ids, users, me).contains(name_in(users, ids[i])),
    decreases ids.len(),
{
    let rest = ids.drop_last();
    let names = other_names(rest, users, me);
    if i == ids.len() - 1 {
        let all = names.push(name_in(users, ids[i]));
        assert(all[names.len() as int] == name_in(users, ids[i]));
    } else {
        lemma_other_names_in(rest, users, me, i);
        assert(rest[i] == ids[i]);
        let k = choose|k: int| 0 <= k < names.len() && names[k] == name_in(users, ids[i]);
        if ids.last() != me {
            assert(names.push(name_in(users, ids.last()))[k] == names[k]);
        }
    }
}

/// Everyone in a conversation but oneself is among those that it is named
/// after, in the order they are listed in, and nobody who is not in it.
pub proof fn a_private_conversation_is_named_after_the_others(
    ids: Seq<UserId>,
    more: UserId,
    users: Map<UserId, User>,
    me: UserId,
)
    ensures
        forall|i: int|
            0 <= i < ids.len() && ids[i] != me ==> other_names(ids, users, me).contains(
                name_in(users, #[trigger] ids[i]),
            ),
        other_names(ids.push(me), users, me) == other_names(ids, users, me),
        more != me ==> other_names(ids.push(more), users, me) == other_names(ids, users, me).push(
            name_in(users, more),
        ),
        other_names(Seq::<UserId>::empty(), users, me).len() == 0,
{
    assert forall|i: int| 0 <= i < ids.len() && ids[i] != me implies other_names(
        ids,
        users,
        me,
    ).contains(name_in(users, #[trigger] ids[i])) by {
        lemma_other_names_in(ids, users, me, i);
    }
    assert(ids.push(me).drop_last() =~= ids);
    assert(ids.push(more).drop_last() =~= ids);
}

/// A channel is called by its name behind a hash, a named group by its name
/// behind an ampersand, and a DM or a group without a name by the name of the
/// other one, whichever of the two is listed first.
pub proof fn labels_say_what_a_conversation_is(
    conv: Conversation,
    members: Seq<UserId>,
    users: Map<UserId, User>,
    me: UserId,
    other: UserId,
)
    ensures
        conv.kind == ConvKind::Channel ==> label_for(conv, members, users, me) == seq!['#']
            + conv.name@,
        conv.kind == ConvKind::Group && conv.name@.len() > 0 ==> label_for(conv, members, users, me)
            == seq!['&'] + conv.name@,
        (conv.kind == ConvKind::Dm || conv.kind == ConvKind::Group && conv.name@.len() == 0) && other
            != me ==> label_for(conv, seq![me, other], users, me) == seq!['@'] + name_in(
            users,
            other,
        ) && label_for(conv, seq![other, me], users, me) == seq!['@'] + name_in(users, other),
        named_by_members(conv) <==> conv.kind == ConvKind::Dm || conv.kind == ConvKind::Group
            && conv.name@.len() == 0,
{
    reveal_strlit("#");
    reveal_strlit("&");
    reveal_strlit("@");
    assert("#"@ =~= seq!['#'] && "&"@ =~= seq!['&'] && "@"@ =~= seq!['@']);
    if other != me {
        let name = name_in(users, other);
        let none = Seq::<UserId>::empty();
        let nobody = Seq::<Seq<char>>::empty();
        assert(none.push(me) =~= seq![me]);
        assert(none.push(other) =~= seq![other]);
        assert(seq![me].push(other) =~= seq![me, other]);
        assert(seq![other].push(me) =~= seq![other, me]);
        a_private_conversation_is_named_after_the_others(none, other, users, me);
        a_private_conversation_is_named_after_the_others(seq![me], other, users, me);
        a_private_conversation_is_named_after_the_others(seq![other], other, users, me);
        assert(other_names(none, users, me) =~= nobody);
        assert(nobody.push(name) =~= seq![name]);
        assert(joined(seq![name], ", "@) == name);
    }
}

/// Who was just read is known as they were read, and everyone else as they
/// were.
pub proof fn what_was_read_last_is_known(
    users: Map<UserId, User>,
    fresh: Seq<User>,
    n: int,
    i: int,
    id: UserId,
)
    requires
        0 <= i < n <= fresh.len(),
        forall|j: int| i < j < n ==> (#[trigger] fresh[j]).id != fresh[i].id,
    ensures
        known(with_users(users, fresh, n), fresh[i].id) == Some(fresh[i]),
        (forall|j: int| 0 <= j < n ==> (#[trigger] fresh[j]).id != id) ==> known(
            with_users(users, fresh, n),
            id,
        ) == known(users, id),
    decreases n,
{
    if i < n - 1 {
        what_was_read_last_is_known(users, fresh, n - 1, i, id);
        assert(fresh[n - 1].id != fresh[i].id);
    }
    lemma_unread_stay(users, fresh, n, id);
}

proof fn lemma_unread_stay(users: Map<UserId, User>, fresh: Seq<User>, n: int, id: UserId)
    ensures
        (forall|j: int| 0 <= j < n ==> (#[trigger] fresh[j]).id != id) ==> known(
            with_users(users, fresh, n),
            id,
        ) == known(users, id),
    decreases n,
{
    if n > 0 {
        lemma_unread_stay(users, fresh, n - 1, id);
        if forall|j: int| 0 <= j < n ==> (#[trigger] fresh[j]).id != id {
            assert(fresh[n - 1].id != id);
        }
    }
}

/// Every conversation in the sidebar has its label, made from the members that
/// were read for it.
pub proof fn every_conversation_is_labelled(
    convs: Seq<Conversation>,
    rosters: Seq<Roster>,
    users: Map<UserId, User>,
    me: UserId,
    n: int,
    i: int,
)
    requires
        0 <= i < n <= convs.len(),
        forall|j: int| i < j < n ==> (#[trigger] convs[j]).id != convs[i].id,
    ensures
        label_in(labelled(convs, rosters, users, me, n), convs[i].id) == label_for(
            convs[i],
            in_roster(rosters, convs[i].id),
            users,
            me,
        ),
    decreases n,
{
    if i < n - 1 {
        every_conversation_is_labelled(convs, rosters, users, me, n - 1, i);
        assert(convs[n - 1].id != convs[i].id);
    }
}

/// Reading anew replaces what is listed and keeps the selection on the list; it
/// leaves alone what is being typed, what is shown and where.
pub proof fn reading_anew_keeps_the_rest(
    s: Screen,
    convs: Seq<Conversation>,
    fresh: Seq<User>,
    rosters: Seq<Roster>,
)
    requires
        convs.len() <= usize::MAX,
    ensures
        ({
            let r = refreshed(s, convs, fresh, rosters);
            &&& r.convs == convs
            &&& convs.len() > 0 ==> r.active < convs.len()
            &&& s.active < convs.len() ==> r.active == s.active
            &&& r.input == s.input && r.cursor == s.cursor && r.command == s.command
            &&& r.messages == s.messages && r.members == s.members && r.scroll == s.scroll
            &&& r.me == s.me && r.mode == s.mode && r.overlay == s.overlay && r.quit == s.quit
        }),
{
}

/// Only conversations that are called by the names of their members have to
/// have those read.
pub proof fn only_private_conversations_need_their_members(convs: Seq<Conversation>, c: Conversation)
    ensures
        convs.filter(needs_members()).contains(c) <==> convs.contains(c) && (c.kind == ConvKind::Dm
            || c.kind == ConvKind::Group && c.name@.len() == 0),
{
    lemma_filter_contains(convs, needs_members());
}

/// Scrolling back asks for what came before the oldest message that is shown,
/// in the conversation that is shown; where nothing is shown, for nothing.
pub proof fn history_goes_on_before_the_oldest_message(s: Screen)
    ensures
        s.active < s.convs.len() && s.messages.len() > 0 ==> older_than(s) == Some(
            (s.convs[s.active as int].id, s.messages[0].id),
        ),
        s.active >= s.convs.len() || s.messages.len() == 0 ==> older_than(s) is None,
{
}

/// What is typed is sent as oneself to the conversation that is shown, without
/// the blanks around it; what is blank is not sent. Either way the line is
/// empty afterwards.
pub proof fn what_is_typed_is_sent(s: Screen, now: Millis)
    ensures
        taken(s, now).0.input.len() == 0 && taken(s, now).0.cursor == 0,
        trimmed(s.input).len() == 0 ==> taken(s, now).1 is None,
        trimmed(s.input).len() > 0 && s.active < s.convs.len() ==> taken(s, now).1 == Some(
            KindData::MessageSent {
                conv: s.convs[s.active as int].id,
                author: s.me,
                body: trimmed(s.input),
            },
        ) && taken(s, now).0.scroll == 0,
        trimmed(s.input).len() > 0 && s.active >= s.convs.len() ==> taken(s, now).1 is None
            && taken(s, now).0.status is Some,
        taken(s, now).0.messages == s.messages && taken(s, now).0.convs == s.convs,
{
}

/// A message that arrives in the conversation that is shown comes last, with
/// who wrote it, what and when; one that arrives elsewhere changes nothing.
pub proof fn messages_arrive_at_the_end(s: Screen, event: Event, now: Screen, r: Reaction)
    requires
        absorbed(s, event, now, r),
        event.kind is MessageSent,
    ensures
        r == Reaction::Done,
        s.active < s.convs.len() && s.convs[s.active as int].id == event.kind->MessageSent_conv ==> {
            let m = now.messages.last();
            &&& now.messages.len() > 0
            &&& m.id == event.id && m.created_at == event.at && m.edited_at is None
            &&& m.author == event.kind->MessageSent_author
            &&& m.conv == event.kind->MessageSent_conv
            &&& m.body == event.kind->MessageSent_body
            &&& s.messages.len() < 500 ==> now.messages.drop_last() == s.messages
            &&& s.messages.len() == 500 ==> now.messages.drop_last() == s.messages.drop_first()
        },
        !(s.active < s.convs.len() && s.convs[s.active as int].id == event.kind->MessageSent_conv)
            ==> now == s,
{
    if s.messages.len() <= 500 {
        let all = s.messages.push(now.messages.last());
        assert(all.drop_last() =~= s.messages);
        assert(s.messages.len() == 500 ==> all.drop_first().drop_last() =~= s.messages.drop_first());
    }
}

/// A new topic is shown with its conversation and with no other one, and any
/// event that is not shown in place has everything read anew.
pub proof fn other_events_are_read_anew(s: Screen, event: Event, now: Screen, r: Reaction, i: int)
    requires
        absorbed(s, event, now, r),
        !(event.kind is MessageSent),
    ensures
        event.kind is TopicSet <==> r == Reaction::Done,
        !(event.kind is TopicSet) ==> r == Reaction::Reload && now == s,
        event.kind is TopicSet && 0 <= i < s.convs.len() ==> {
            &&& now.convs.len() == s.convs.len()
            &&& s.convs[i].id != event.kind->TopicSet_conv ==> now.convs[i] == s.convs[i]
            &&& now.convs[i].id == s.convs[i].id && now.convs[i].name == s.convs[i].name
                && now.convs[i].kind == s.convs[i].kind
            &&& s.convs[i].id == event.kind->TopicSet_conv && (forall|j: int|
                0 <= j < i ==> (#[trigger] s.convs[j]).id != event.kind->TopicSet_conv)
                ==> now.convs[i].topic == event.kind->TopicSet_topic
            &&& now.messages == s.messages && now.active == s.active
        },
{
}

/// Someone who comes or goes is shown so, with when they were last seen if they
/// go; nobody else changes, and nothing else on the screen.
pub proof fn presence_is_shown(s: Screen, user: UserId, online: bool, at: Millis, other: UserId)
    ensures
        ({
            let r = signal_absorbed(s, Signal::Presence { user, online }, at);
            &&& s.users.contains_key(user) ==> is_here(r.users, user) == online && name_in(
                r.users,
                user,
            ) == name_in(s.users, user)
            &&& s.users.contains_key(user) && !online ==> r.users[user].last_seen == at
            &&& s.users.contains_key(user) && online ==> r.users[user].last_seen
                == s.users[user].last_seen
            &&& !s.users.contains_key(user) ==> r.users == s.users
            &&& other != user ==> known(r.users, other) == known(s.users, other)
            &&& r.messages == s.messages && r.convs == s.convs && r.status == s.status
        }),
{
}

/// Someone typing or reading is not shown.
pub proof fn typing_is_not_shown(s: Screen, user: UserId, conv: ConvId, read: Option<ConvId>, at: Millis)
    ensures
        signal_absorbed(s, Signal::Typing { user, conv }, at) == s,
        signal_absorbed(s, Signal::Read { user, conv: read }, at) == s,
{
}

/// A session that fell behind is told by how much.
pub proof fn falling_behind_is_told(missed: usize)
    ensures
        behind(missed) == "fell behind ("@ + decimal_nat(missed as nat) + " events) -- resynced"@,
{
}

} // verus!
