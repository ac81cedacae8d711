//! Command mode (`:`) -- the verbs that have no natural keybinding.
//!
//! A command line is read into an [`Order`]; what has to be looked up on the
//! board for it is handed to the function that decides on it.
use vstd::prelude::*;

use crate::model::{
    ConvId, ConvKind, Conversation, EventKind, KindData, Millis, Role, User, UserId,
};
use crate::number::{parse_signed, signed_value};
use crate::roles::Ruling;
use crate::text::{
    a_text_is_cut_at_its_first_space, cat, cat3, cut, has_space, is_space, join, joined, repeated,
    same, split_once_space, strip_leading, stripped, stripping_takes_the_lead_off, trim, trimmed,
    words, words_lie_between_spaces, words_of,
};
use crate::ui::app::{
    in_roster, is_admin, name_in, refused, selected_conv, App, Overlay, OverlayData, Roster, Screen,
};
use crate::ui::theme::{named_theme, Theme};

verus! {

/// What a command line asks for.
#[derive(Debug)]
pub enum Order {
    Nothing,
    Quit,
    Help,
    Reload,
    ThemeShow,
    ThemeSet(String),
    Info(String),
    Nick(String),
    Bio(String),
    Topic { conv: ConvId, topic: String },
    Join(usize),
    Dm(String),
    Group { name: String, users: Vec<String> },
    Invite { name: String, key: String },
    Mkchan(String),
    Rmchan(String),
    Roles,
    Mkrole { name: String, color: String, priority: i64, hoisted: bool },
    Rmrole(String),
    Grant { user: String, role: String, granting: bool },
    Motd(String),
    /// Not to be done, for this reason.
    Refuse(String),
}

pub ghost enum OrderData {
    Nothing,
    Quit,
    Help,
    Reload,
    ThemeShow,
    ThemeSet(Seq<char>),
    Info(Seq<char>),
    Nick(Seq<char>),
    Bio(Seq<char>),
    Topic { conv: ConvId, topic: Seq<char> },
    Join(usize),
    Dm(Seq<char>),
    Group { name: Seq<char>, users: Seq<Seq<char>> },
    Invite { name: Seq<char>, key: Seq<char> },
    Mkchan(Seq<char>),
    Rmchan(Seq<char>),
    Roles,
    Mkrole { name: Seq<char>, color: Seq<char>, priority: i64, hoisted: bool },
    Rmrole(Seq<char>),
    Grant { user: Seq<char>, role: Seq<char>, granting: bool },
    Motd(Seq<char>),
    Refuse(Seq<char>),
}

impl View for Order {
    type V = OrderData;

    open spec fn view(&self) -> OrderData {
        match *self {
            Order::Nothing => OrderData::Nothing,
            Order::Quit => OrderData::Quit,
            Order::Help => OrderData::Help,
            Order::Reload => OrderData::Reload,
            Order::ThemeShow => OrderData::ThemeShow,
            Order::ThemeSet(text) => OrderData::ThemeSet(text@),
            Order::Info(text) => OrderData::Info(text@),
            Order::Nick(text) => OrderData::Nick(text@),
            Order::Bio(text) => OrderData::Bio(text@),
            Order::Topic { conv, topic } => OrderData::Topic { conv, topic: topic@ },
            Order::Join(index) => OrderData::Join(index),
            Order::Dm(text) => OrderData::Dm(text@),
            Order::Group { name, users } => OrderData::Group { name: name@, users: users.deep_view() },
            Order::Invite { name, key } => OrderData::Invite { name: name@, key: key@ },
            Order::Mkchan(text) => OrderData::Mkchan(text@),
            Order::Rmchan(text) => OrderData::Rmchan(text@),
            Order::Roles => OrderData::Roles,
            Order::Mkrole { name, color, priority, hoisted } => OrderData::Mkrole { name: name@, color: color@, priority, hoisted },
            Order::Rmrole(text) => OrderData::Rmrole(text@),
            Order::Grant { user, role, granting } => OrderData::Grant { user: user@, role: role@, granting },
            Order::Motd(text) => OrderData::Motd(text@),
            Order::Refuse(text) => OrderData::Refuse(text@),
        }
    }
}

/// Where a channel of this name stands in the sidebar.
pub open spec fn channel_at(convs: Seq<Conversation>, name: Seq<char>, i: int) -> Option<usize>
    decreases convs.len() - i,
{
    if i < 0 || i >= convs.len() {
        None
    } else if convs[i].kind == ConvKind::Channel && convs[i].name@ == name {
        Some(i as usize)
    } else {
        channel_at(convs, name, i + 1)
    }
}

fn find_channel(convs: &Vec<Conversation>, name: &str) -> (r: Option<usize>)
    ensures
        r == channel_at(convs@, name@, 0),
{
    let mut i: usize = 0;
    while i < convs.len()
        invariant
            i <= convs.len(),
            channel_at(convs@, name@, i as int) == channel_at(convs@, name@, 0),
        decreases convs.len() - i,
    {
        if convs[i].kind == ConvKind::Channel && same(convs[i].name.as_str(), name) {
            return Some(i);
        }
        i += 1;
    }
    None
}

pub open spec fn refuse(why: Seq<char>) -> OrderData {
    OrderData::Refuse(why)
}

/// The verb of a command line.
pub open spec fn verb_of(line: Seq<char>) -> Seq<char> {
    match cut(line) {
        Some((verb, _)) => verb,
        None => line,
    }
}

/// What follows the verb.
pub open spec fn rest_of(line: Seq<char>) -> Seq<char> {
    match cut(line) {
        Some((_, rest)) => trimmed(rest),
        None => seq![],
    }
}

/// What a command of everyone's asks for; nothing if it is none of them.
pub open spec fn common_order(
    s: Screen,
    verb: Seq<char>,
    rest: Seq<char>,
    args: Seq<Seq<char>>,
) -> Option<OrderData> {
    if verb == "q"@ || verb == "quit"@ {
        Some(OrderData::Quit)
    } else if verb == "help"@ || verb == "h"@ {
        Some(OrderData::Help)
    } else if verb == "reload"@ {
        Some(OrderData::Reload)
    } else if verb == "theme"@ {
        Some(
            if args.len() == 0 {
                OrderData::ThemeShow
            } else {
                OrderData::ThemeSet(args[0])
            },
        )
    } else if verb == "info"@ {
        Some(
            OrderData::Info(
                if args.len() == 0 {
                    name_in(s.users, s.me)
                } else {
                    stripped(args[0], '@')
                },
            ),
        )
    } else if verb == "nick"@ {
        Some(
            if args.len() == 0 {
                refuse("usage: :nick <name>"@)
            } else {
                OrderData::Nick(args[0])
            },
        )
    } else if verb == "bio"@ {
        Some(OrderData::Bio(rest))
    } else if verb == "topic"@ {
        Some(
            match selected_conv(s) {
                Some(conv) => OrderData::Topic { conv: conv.id, topic: rest },
                None => refuse("no conversation selected"@),
            },
        )
    } else if verb == "join"@ {
        Some(
            if args.len() == 0 {
                refuse("usage: :join #channel"@)
            } else {
                match channel_at(s.convs, stripped(args[0], '#'), 0) {
                    Some(index) => OrderData::Join(index),
                    None => refuse("no channel called #"@ + stripped(args[0], '#')),
                }
            },
        )
    } else if verb == "dm"@ {
        Some(
            if args.len() == 0 {
                refuse("usage: :dm <user>"@)
            } else {
                OrderData::Dm(stripped(args[0], '@'))
            },
        )
    } else if verb == "group"@ {
        Some(
            if args.len() < 2 {
                refuse("usage: :group <name> <user> [user...]"@)
            } else {
                OrderData::Group { name: args[0], users: args.drop_first() }
            },
        )
    } else if verb == "roles"@ {
        Some(OrderData::Roles)
    } else if verb == "ban"@ {
        Some(refuse("ban needs the ssh auth layer, which is not built yet"@))
    } else {
        None
    }
}

/// Whether only admins may give this command.
pub open spec fn needs_admin(verb: Seq<char>) -> bool {
    verb == "invite"@ || verb == "mkchan"@ || verb == "rmchan"@ || verb == "mkrole"@ || verb
        == "rmrole"@ || verb == "grant"@ || verb == "revoke"@ || verb == "motd"@
}

/// What an admin's command asks for.
pub open spec fn admin_order(verb: Seq<char>, rest: Seq<char>, args: Seq<Seq<char>>) -> OrderData {
    if verb == "invite"@ {
        match cut(rest) {
            Some((name, key)) => OrderData::Invite { name, key },
            None => refuse("usage: :invite <name> <ssh public key>"@),
        }
    } else if verb == "mkchan"@ {
        if args.len() == 0 {
            refuse("usage: :mkchan <name>"@)
        } else {
            OrderData::Mkchan(stripped(args[0], '#'))
        }
    } else if verb == "rmchan"@ {
        if args.len() == 0 {
            refuse("usage: :rmchan <name>"@)
        } else {
            OrderData::Rmchan(stripped(args[0], '#'))
        }
    } else if verb == "mkrole"@ {
        if args.len() < 2 {
            refuse("usage: :mkrole <name> <#rrggbb> [priority] [hoist]"@)
        } else {
            OrderData::Mkrole {
                name: args[0],
                color: args[1],
                priority: if args.len() > 2 && signed_value(args[2]) is Some {
                    signed_value(args[2])->Some_0 as i64
                } else {
                    10
                },
                hoisted: args.len() > 3 && (args[3] == "hoist"@ || args[3] == "true"@),
            }
        }
    } else if verb == "rmrole"@ {
        if args.len() == 0 {
            refuse("usage: :rmrole <name>"@)
        } else {
            OrderData::Rmrole(args[0])
        }
    } else if verb == "motd"@ {
        if rest.len() == 0 {
            refuse("usage: :motd <text>"@)
        } else {
            OrderData::Motd(rest)
        }
    } else if args.len() < 2 {
        refuse("usage: :"@ + verb + " <user> <role>"@)
    } else {
        OrderData::Grant { user: args[0], role: args[1], granting: verb == "grant"@ }
    }
}

/// What a command line asks for.
pub open spec fn order_of(s: Screen, text: Seq<char>) -> OrderData {
    let line = trimmed(text);
    let verb = verb_of(line);
    let rest = rest_of(line);
    let args = words_of(rest);
    if line.len() == 0 {
        OrderData::Nothing
    } else {
        match common_order(s, verb, rest, args) {
            Some(order) => order,
            None => if !needs_admin(verb) {
                refuse("unknown command :"@ + verb + " -- try :help"@)
            } else if !is_admin(s.users, s.me) {
                refuse("that command needs an admin role"@)
            } else {
                admin_order(verb, rest, args)
            },
        }
    }
}

fn refusal(why: &str) -> (r: Order)
    ensures
        r@ == refuse(why@),
{
    Order::Refuse(why.to_owned())
}

fn copy_tail(args: &Vec<String>) -> (r: Vec<String>)
    requires
        args.len() > 0,
    ensures
        r.deep_view() == args.deep_view().drop_first(),
{
    let mut out: Vec<String> = Vec::new();
    let ghost want = args.deep_view().drop_first();
    let mut i: usize = 1;
    assert(out.deep_view() =~= want.take(0));
    while i < args.len()
        invariant
            1 <= i <= args.len(),
            want == args.deep_view().drop_first(),
            out.deep_view() == want.take(i - 1),
        decreases args.len() - i,
    {
        let ghost before = out.deep_view();
        out.push(args[i].clone());
        proof {
            assert(out.deep_view() =~= before.push(args[i as int]@));
            assert(want[i - 1] == args[i as int]@);
            assert(want.take(i as int) =~= want.take(i - 1).push(want[i - 1]));
        }
        i += 1;
    }
    assert(want.take(i - 1) =~= want);
    out
}

fn common(app: &App, verb: &str, rest: &str, args: &Vec<String>) -> (r: Option<Order>)
    ensures
        match common_order(app@, verb@, rest@, args.deep_view()) {
            Some(order) => r is Some && r->Some_0@ == order,
            None => r is None,
        },
{
    let ghost all = args.deep_view();
    proof {
        if args.len() > 0 {
            assert(all[0] == args[0]@);
        }
    }
    if same(verb, "q") || same(verb, "quit") {
        return Some(Order::Quit);
    }
    if same(verb, "help") || same(verb, "h") {
        return Some(Order::Help);
    }
    if same(verb, "reload") {
        return Some(Order::Reload);
    }
    if same(verb, "theme") {
        return Some(
            if args.len() == 0 {
                Order::ThemeShow
            } else {
                Order::ThemeSet(args[0].clone())
            },
        );
    }
    if same(verb, "info") {
        return Some(
            Order::Info(
                if args.len() == 0 {
                    app.user_name(app.me)
                } else {
                    strip_leading(args[0].as_str(), '@')
                },
            ),
        );
    }
    if same(verb, "nick") {
        return Some(
            if args.len() == 0 {
                refusal("usage: :nick <name>")
            } else {
                Order::Nick(args[0].clone())
            },
        );
    }
    if same(verb, "bio") {
        return Some(Order::Bio(rest.to_owned()));
    }
    if same(verb, "topic") {
        return Some(
            match app.active_conv() {
                Some(conv) => Order::Topic { conv: conv.id, topic: rest.to_owned() },
                None => refusal("no conversation selected"),
            },
        );
    }
    if same(verb, "join") {
        if args.len() == 0 {
            return Some(refusal("usage: :join #channel"));
        }
        let wanted = strip_leading(args[0].as_str(), '#');
        return Some(
            match find_channel(&app.convs, wanted.as_str()) {
                Some(index) => Order::Join(index),
                None => Order::Refuse(cat("no channel called #", wanted.as_str())),
            },
        );
    }
    if same(verb, "dm") {
        return Some(
            if args.len() == 0 {
                refusal("usage: :dm <user>")
            } else {
                Order::Dm(strip_leading(args[0].as_str(), '@'))
            },
        );
    }
    if same(verb, "group") {
        return Some(
            if args.len() < 2 {
                refusal("usage: :group <name> <user> [user...]")
            } else {
                Order::Group { name: args[0].clone(), users: copy_tail(args) }
            },
        );
    }
    if same(verb, "roles") {
        return Some(Order::Roles);
    }
    if same(verb, "ban") {
        return Some(refusal("ban needs the ssh auth layer, which is not built yet"));
    }
    None
}

fn admin_only(verb: &str) -> (r: bool)
    ensures
        r == needs_admin(verb@),
{
    same(verb, "invite") || same(verb, "mkchan") || same(verb, "rmchan") || same(verb, "mkrole")
        || same(verb, "rmrole") || same(verb, "grant") || same(verb, "revoke") || same(
        verb,
        "motd",
    )
}

fn admin(verb: &str, rest: &str, args: &Vec<String>) -> (r: Order)
    ensures
        r@ == admin_order(verb@, rest@, args.deep_view()),
{
    let ghost all = args.deep_view();
    proof {
        if args.len() > 0 {
            assert(all[0] == args[0]@);
        }
        if args.len() > 1 {
            assert(all[1] == args[1]@);
        }
        if args.len() > 2 {
            assert(all[2] == args[2]@);
        }
        if args.len() > 3 {
            assert(all[3] == args[3]@);
        }
    }
    if same(verb, "invite") {
        // The key runs to the end of the line, comment and all, so it can be
        // pasted straight from a .pub file.
        return match split_once_space(rest) {
            Some((name, key)) => Order::Invite { name, key },
            None => refusal("usage: :invite <name> <ssh public key>"),
        };
    }
    if same(verb, "mkchan") {
        return if args.len() == 0 {
            refusal("usage: :mkchan <name>")
        } else {
            Order::Mkchan(strip_leading(args[0].as_str(), '#'))
        };
    }
    if same(verb, "rmchan") {
        return if args.len() == 0 {
            refusal("usage: :rmchan <name>")
        } else {
            Order::Rmchan(strip_leading(args[0].as_str(), '#'))
        };
    }
    if same(verb, "mkrole") {
        if args.len() < 2 {
            return refusal("usage: :mkrole <name> <#rrggbb> [priority] [hoist]");
        }
        let priority: i64 = if args.len() > 2 {
            match parse_signed(args[2].as_str()) {
                Some(n) => n,
                None => 10,
            }
        } else {
            10
        };
        let hoisted = args.len() > 3 && (same(args[3].as_str(), "hoist") || same(
            args[3].as_str(),
            "true",
        ));
        return Order::Mkrole { name: args[0].clone(), color: args[1].clone(), priority, hoisted };
    }
    if same(verb, "rmrole") {
        return if args.len() == 0 {
            refusal("usage: :rmrole <name>")
        } else {
            Order::Rmrole(args[0].clone())
        };
    }
    if same(verb, "motd") {
        return if rest.is_empty() {
            refusal("usage: :motd <text>")
        } else {
            Order::Motd(rest.to_owned())
        };
    }
    if args.len() < 2 {
        return Order::Refuse(cat3("usage: :", verb, " <user> <role>"));
    }
    Order::Grant {
        user: args[0].clone(),
        role: args[1].clone(),
        granting: same(verb, "grant"),
    }
}

/// Read a command line.
pub fn parse(app: &App, text: &str) -> (r: Order)
    ensures
        r@ == order_of(app@, text@),
{
    let line = trim(text);
    if line.as_str().is_empty() {
        return Order::Nothing;
    }
    let (verb, rest) = match split_once_space(line.as_str()) {
        Some((verb, rest)) => (verb, trim(rest.as_str())),
        None => (line.clone(), String::new()),
    };
    assert(verb@ == verb_of(line@));
    assert(rest@ =~= rest_of(line@));
    let args = words(rest.as_str());
    if let Some(order) = common(app, verb.as_str(), rest.as_str(), &args) {
        return order;
    }
    if !admin_only(verb.as_str()) {
        return Order::Refuse(cat3("unknown command :", verb.as_str(), " -- try :help"));
    }
    if !app.is_admin() {
        return refusal("that command needs an admin role");
    }
    admin(verb.as_str(), rest.as_str(), &args)
}

/// Whoever holds no admin role is refused every command that needs one, and
/// nothing comes of it.
pub proof fn admin_commands_need_an_admin(s: Screen, text: Seq<char>)
    requires
        !is_admin(s.users, s.me),
    ensures
        !(order_of(s, text) is Invite),
        !(order_of(s, text) is Mkchan),
        !(order_of(s, text) is Rmchan),
        !(order_of(s, text) is Mkrole),
        !(order_of(s, text) is Rmrole),
        !(order_of(s, text) is Grant),
        !(order_of(s, text) is Motd),
{
}

// ---------------------------------------------------------------------------
// what comes of an order
// ---------------------------------------------------------------------------

/// What `:theme` tells about the one in use.
pub open spec fn theme_notice(theme: Theme) -> Seq<char> {
    "theme is "@ + theme.name@ + " -- available: dark, light, mono"@
}

/// Whether `now` is the screen after `:theme`, with or without a name.
pub open spec fn themed(s: Screen, name: Option<Seq<char>>, at: Millis, now: Screen) -> bool {
    match name {
        None => now == Screen {
            status: Some(theme_notice(s.theme)),
            flash_until: None,
            ..s
        },
        Some(name) => match named_theme(name) {
            Some((palette, mono)) => {
                &&& now.theme.name@ == name
                &&& now.theme.palette == palette
                &&& now.theme.mono == mono
                &&& now.theme.depth == s.theme.depth
                &&& now == Screen {
                    theme: now.theme,
                    status: Some("theme set to "@ + name),
                    flash_until: None,
                    ..s
                }
            },
            None => now == refused(s, "no theme called "@ + name, at),
        },
    }
}

/// An optional text, as a sequence of characters.
pub open spec fn text_in(text: Option<&String>) -> Option<Seq<char>> {
    match text {
        Some(t) => Some(t@),
        None => None,
    }
}

pub fn theme(app: &mut App, name: Option<&String>, at: Millis)
    ensures
        themed(old(app)@, text_in(name), at, final(app)@),
{
    match name {
        None => {
            let notice = cat3(
                "theme is ",
                app.theme.name.as_str(),
                " -- available: dark, light, mono",
            );
            app.set_status(notice);
        },
        Some(name) => {
            if app.theme.set(name.as_str()) {
                app.set_status(cat("theme set to ", name.as_str()));
            } else {
                app.set_error(cat("no theme called ", name.as_str()), at);
            }
        },
    }
}

/// `:info`, with who was found under the name.
pub fn info(app: &mut App, name: &str, found: Option<User>, at: Millis)
    ensures
        final(app)@ == match found {
            Some(user) => Screen {
                overlay: Some(OverlayData::Profile(user.deep_view())),
                ..old(app)@
            },
            None => refused(old(app)@, "no user called "@ + name@, at),
        },
{
    match found {
        Some(user) => {
            app.overlay = Some(Overlay::Profile(user));
        },
        None => {
            app.set_error(cat("no user called ", name), at);
        },
    }
}

/// `:help`
pub fn help(app: &mut App)
    ensures
        final(app)@ == (Screen { overlay: Some(OverlayData::Help), ..old(app)@ }),
{
    app.overlay = Some(Overlay::Help);
}

/// `:roles`, with the roles there are.
pub fn list_roles(app: &mut App, roles: Vec<Role>)
    ensures
        final(app)@ == (Screen {
            overlay: Some(OverlayData::Roles(roles.deep_view())),
            ..old(app)@
        }),
{
    app.overlay = Some(Overlay::Roles(roles));
}

/// `:nick`, with whether someone has the name already.
pub fn nick(me: UserId, name: &str, taken: bool) -> (r: Result<Ruling, String>)
    ensures
        match r {
            Ok(ruling) => {
                &&& !taken
                &&& ruling.kind.deep_view() == (KindData::UserRenamed { user: me, name: name@ })
                &&& ruling.notice@ == "you are now "@ + name@
            },
            Err(why) => taken && why@ == name@ + " is taken"@,
        },
{
    if taken {
        return Err(cat(name, " is taken"));
    }
    Ok(
        Ruling {
            kind: EventKind::UserRenamed { user: me, name: name.to_owned() },
            notice: cat("you are now ", name),
        },
    )
}

/// `:bio`
pub fn bio(me: UserId, text: &str) -> (r: Ruling)
    ensures
        r.kind.deep_view() == (KindData::BioSet { user: me, bio: text@ }),
        r.notice@ == "bio updated"@,
{
    Ruling {
        kind: EventKind::BioSet { user: me, bio: text.to_owned() },
        notice: "bio updated".to_owned(),
    }
}

/// `:topic`
pub fn topic(conv: ConvId, text: &str) -> (r: Ruling)
    ensures
        r.kind.deep_view() == (KindData::TopicSet { conv, topic: text@ }),
        r.notice@ == "topic set"@,
{
    Ruling {
        kind: EventKind::TopicSet { conv, topic: text.to_owned() },
        notice: "topic set".to_owned(),
    }
}

/// `:mkchan`, with the id that was reserved for the channel and whether there
/// is something of that name.
pub fn mkchan(conv: ConvId, name: &str, exists_already: bool) -> (r: Result<Ruling, String>)
    ensures
        match r {
            Ok(ruling) => {
                &&& !exists_already
                &&& ruling.kind.deep_view() == (KindData::ConvCreated {
                    conv,
                    kind: ConvKind::Channel,
                    name: name@,
                })
                &&& ruling.notice@ == "created #"@ + name@
            },
            Err(why) => exists_already && why@ == "#"@ + name@ + " already exists"@,
        },
{
    if exists_already {
        return Err(cat3("#", name, " already exists"));
    }
    Ok(
        Ruling {
            kind: EventKind::ConvCreated {
                conv,
                kind: ConvKind::Channel,
                name: name.to_owned(),
            },
            notice: cat("created #", name),
        },
    )
}

/// `:rmchan`, with what was found under the name.
pub fn rmchan(name: &str, found: Option<ConvId>) -> (r: Result<Ruling, String>)
    ensures
        match r {
            Ok(ruling) => {
                &&& found is Some
                &&& ruling.kind == (EventKind::ConvRemoved { conv: found->Some_0 })
                &&& ruling.notice@ == "removed #"@ + name@
            },
            Err(why) => found is None && why@ == "no channel called #"@ + name@,
        },
{
    match found {
        Some(conv) => Ok(
            Ruling { kind: EventKind::ConvRemoved { conv }, notice: cat("removed #", name) },
        ),
        None => Err(cat("no channel called #", name)),
    }
}

// -- direct messages and groups -------------------------------------------------

/// What `:dm` comes to.
#[derive(Debug, Clone, Copy, PartialEq, Eq, Structural)]
pub enum Direct {
    /// There is one already, at this index.
    Open(usize),
    /// Start one with this user.
    Start(UserId),
}

/// Whether two people, and nobody else, are in a roster.
pub open spec fn just_us(members: Seq<UserId>, me: UserId, other: UserId) -> bool {
    members.len() == 2 && members.contains(other) && members.contains(me)
}

/// Whether a conversation is the DM of these two.
pub open spec fn our_dm(
    conv: Conversation,
    rosters: Seq<Roster>,
    me: UserId,
    other: UserId,
) -> bool {
    conv.kind == ConvKind::Dm && just_us(
        crate::ui::app::in_roster(rosters, conv.id),
        me,
        other,
    )
}

pub open spec fn dm_at(
    convs: Seq<Conversation>,
    rosters: Seq<Roster>,
    me: UserId,
    other: UserId,
    i: int,
) -> Option<usize>
    decreases convs.len() - i,
{
    if i < 0 || i >= convs.len() {
        None
    } else if our_dm(convs[i], rosters, me, other) {
        Some(i as usize)
    } else {
        dm_at(convs, rosters, me, other, i + 1)
    }
}

fn holds(ids: &Vec<UserId>, id: UserId) -> (r: bool)
    ensures
        r == ids@.contains(id),
{
    let mut i: usize = 0;
    while i < ids.len()
        invariant
            i <= ids.len(),
            forall|j: int| 0 <= j < i ==> ids[j] != id,
        decreases ids.len() - i,
    {
        if ids[i] == id {
            return true;
        }
        i += 1;
    }
    false
}

/// `:dm`, with who was found under the name and who is in the conversations
/// that there are. An existing DM with this person is used again.
pub fn dm(
    app: &App,
    name: &str,
    found: Option<UserId>,
    rosters: &Vec<Roster>,
) -> (r: Result<Direct, String>)
    ensures
        match found {
            None => r is Err && r->Err_0@ == "no user called "@ + name@,
            Some(other) => if other == app@.me {
                r is Err && r->Err_0@ == "you cannot DM yourself"@
            } else {
                r is Ok && r->Ok_0 == match dm_at(app@.convs, rosters@, app@.me, other, 0) {
                    Some(index) => Direct::Open(index),
                    None => Direct::Start(other),
                }
            },
        },
        r matches Ok(Direct::Start(other)) ==> found == Some(other) && other != app@.me,
        r is Ok <==> found is Some && found != Some(app@.me),
{
    let other = match found {
        Some(other) => other,
        None => {
            return Err(cat("no user called ", name));
        },
    };
    if other == app.me {
        return Err("you cannot DM yourself".to_owned());
    }
    let mut i: usize = 0;
    while i < app.convs.len()
        invariant
            i <= app.convs.len(),
            found == Some(other),
            other != app@.me,
            dm_at(app@.convs, rosters@, app@.me, other, i as int) == dm_at(
                app@.convs,
                rosters@,
                app@.me,
                other,
                0,
            ),
        decreases app.convs.len() - i,
    {
        if app.convs[i].kind == ConvKind::Dm {
            if let Some(members) = crate::ui::app::roster_members(rosters, app.convs[i].id) {
                if members.len() == 2 && holds(members, other) && holds(members, app.me) {
                    return Ok(Direct::Open(i));
                }
            }
        }
        i += 1;
    }
    Ok(Direct::Start(other))
}

/// Those of the first `n` that were found, after me and each of them once.
pub open spec fn gathered(me: UserId, found: Seq<Option<UserId>>, n: int) -> Seq<UserId>
    decreases n,
{
    if n <= 0 {
        seq![me]
    } else {
        let before = gathered(me, found, n - 1);
        match found[n - 1] {
            Some(id) if !before.contains(id) => before.push(id),
            _ => before,
        }
    }
}

/// Who is in a group that someone starts, with who was found under each of the
/// names.
pub fn group(me: UserId, names: &Vec<String>, found: &Vec<Option<UserId>>) -> (r: Result<
    Vec<UserId>,
    String,
>)
    requires
        names.len() == found.len(),
    ensures
        match r {
            Ok(members) => {
                &&& forall|i: int| 0 <= i < found@.len() ==> (#[trigger] found@[i]) is Some
                &&& members@ == gathered(me, found@, found@.len() as int)
            },
            Err(why) => exists|i: int|
                {
                    &&& 0 <= i < found@.len()
                    &&& (#[trigger] found@[i]) is None
                    &&& forall|j: int| 0 <= j < i ==> (#[trigger] found@[j]) is Some
                    &&& why@ == "no user called "@ + names@[i]@
                },
        },
{
    let mut members: Vec<UserId> = vec![me];
    let mut i: usize = 0;
    assert(members@ =~= gathered(me, found@, 0));
    while i < found.len()
        invariant
            i <= found.len(),
            names.len() == found.len(),
            forall|j: int| 0 <= j < i ==> (#[trigger] found@[j]) is Some,
            members@ == gathered(me, found@, i as int),
        decreases found.len() - i,
    {
        match found[i] {
            Some(id) => {
                if !holds(&members, id) {
                    members.push(id);
                }
            },
            None => {
                assert(found@[i as int] is None);
                return Err(cat("no user called ", names[i].as_str()));
            },
        }
        i += 1;
    }
    Ok(members)
}

/// Nobody is gathered twice, and I am always there.
pub proof fn a_group_holds_everyone_once(me: UserId, found: Seq<Option<UserId>>, n: int)
    requires
        0 <= n <= found.len(),
    ensures
        gathered(me, found, n).contains(me),
        gathered(me, found, n).no_duplicates(),
        forall|i: int|
            0 <= i < n && (#[trigger] found[i]) is Some ==> gathered(me, found, n).contains(
                found[i]->Some_0,
            ),
    decreases n,
{
    if n > 0 {
        a_group_holds_everyone_once(me, found, n - 1);
        let before = gathered(me, found, n - 1);
        let now = gathered(me, found, n);
        assert forall|x: UserId| before.contains(x) implies #[trigger] now.contains(x) by {
            let k = choose|k: int| 0 <= k < before.len() && before[k] == x;
            assert(now[k] == x);
        }
        if let Some(id) = found[n - 1] {
            if !before.contains(id) {
                assert(now[before.len() as int] == id);
            }
        }
    } else {
        assert(gathered(me, found, 0)[0] == me);
    }
}

/// The events that start a conversation: it is created, and everyone joins.
pub open spec fn founded(
    conv: ConvId,
    kind: ConvKind,
    name: Seq<char>,
    members: Seq<UserId>,
) -> Seq<KindData> {
    seq![KindData::ConvCreated { conv, kind, name }] + members.map_values(
        |user: UserId| KindData::MemberJoined { conv, user },
    )
}

pub fn found(conv: ConvId, kind: ConvKind, name: &str, members: &Vec<UserId>) -> (r: Vec<
    EventKind,
>)
    ensures
        r.deep_view() == founded(conv, kind, name@, members@),
{
    let mut out: Vec<EventKind> = Vec::new();
    out.push(EventKind::ConvCreated { conv, kind, name: name.to_owned() });
    let ghost want = founded(conv, kind, name@, members@);
    assert(out.deep_view() =~= want.take(1));
    let mut i: usize = 0;
    while i < members.len()
        invariant
            i <= members.len(),
            want == founded(conv, kind, name@, members@),
            out.deep_view() == want.take(i + 1),
        decreases members.len() - i,
    {
        let ghost before = out.deep_view();
        let joined = EventKind::MemberJoined { conv, user: members[i] };
        out.push(joined);
        proof {
            assert(out.deep_view() =~= before.push(joined.deep_view()));
            assert(want[i + 1] == joined.deep_view());
            assert(want.take(i + 2) =~= want.take(i + 1).push(want[i + 1]));
        }
        i += 1;
    }
    assert(want.take(i + 1) =~= want);
    out
}

// ---------------------------------------------------------------------------
// what the verbs mean
// ---------------------------------------------------------------------------

/// Whether a text is one word.
pub open spec fn one_word(w: Seq<char>) -> bool {
    w.len() > 0 && !has_space(w)
}

/// Whether a text has no blanks around it.
pub open spec fn tight(t: Seq<char>) -> bool {
    t.len() > 0 && !is_space(t[0]) && !is_space(t.last())
}

proof fn lemma_word(w: Seq<char>)
    requires
        one_word(w),
    ensures
        tight(w),
        trimmed(w) == w,
        verb_of(w) == w,
        rest_of(w) == Seq::<char>::empty(),
        words_of(w) == seq![w],
        words_of(Seq::<char>::empty()) == Seq::<Seq<char>>::empty(),
{
    assert(!is_space(w[0]));
    assert(!is_space(w[w.len() - 1]));
    a_text_is_cut_at_its_first_space(w, ' ', w);
    words_lie_between_spaces(w, ' ', w);
}

proof fn lemma_line(verb: Seq<char>, rest: Seq<char>)
    requires
        one_word(verb),
        tight(rest),
    ensures
        ({
            let line = verb + seq![' '] + rest;
            &&& trimmed(line) == line
            &&& verb_of(line) == verb
            &&& rest_of(line) == rest
        }),
{
    let line = verb + seq![' '] + rest;
    lemma_word(verb);
    assert(line[0] == verb[0]);
    assert(line.last() == rest.last());
    a_text_is_cut_at_its_first_space(verb, ' ', rest);
}

proof fn lemma_two_words(a: Seq<char>, b: Seq<char>)
    requires
        one_word(a),
        one_word(b),
    ensures
        tight(a + seq![' '] + b),
        words_of(a + seq![' '] + b) == seq![a, b],
{
    let t = a + seq![' '] + b;
    lemma_word(a);
    lemma_word(b);
    assert(t[0] == a[0] && t.last() == b.last());
    words_lie_between_spaces(a, ' ', b);
    assert(seq![a] + seq![b] =~= seq![a, b]);
}

/// Commands that take nothing, and what those that need something say without
/// it.
pub proof fn bare_commands_do_what_they_say(s: Screen)
    ensures
        order_of(s, "q"@) == OrderData::Quit,
        order_of(s, "quit"@) == OrderData::Quit,
        order_of(s, "help"@) == OrderData::Help,
        order_of(s, "h"@) == OrderData::Help,
        order_of(s, "reload"@) == OrderData::Reload,
        order_of(s, "theme"@) == OrderData::ThemeShow,
        order_of(s, "roles"@) == OrderData::Roles,
        order_of(s, "info"@) == OrderData::Info(name_in(s.users, s.me)),
        order_of(s, "nick"@) is Refuse,
        order_of(s, "join"@) is Refuse,
        order_of(s, "dm"@) is Refuse,
        order_of(s, "group"@) is Refuse,
        order_of(s, Seq::<char>::empty()) == OrderData::Nothing,
{
    lemma_verbs();
    lemma_word("q"@);
    lemma_word("quit"@);
    lemma_word("help"@);
    lemma_word("h"@);
    lemma_word("reload"@);
    lemma_word("theme"@);
    lemma_word("roles"@);
    lemma_word("info"@);
    lemma_word("nick"@);
    lemma_word("join"@);
    lemma_word("dm"@);
    lemma_word("group"@);
    lemma_verbs_apart();
}

/// A command that takes a name gets the name that is written behind it, without
/// the sign that people may write in front of a user or a channel.
pub proof fn commands_take_a_name(s: Screen, a: Seq<char>)
    requires
        one_word(a),
    ensures
        order_of(s, "theme"@ + seq![' '] + a) == OrderData::ThemeSet(a),
        order_of(s, "nick"@ + seq![' '] + a) == OrderData::Nick(a),
        a[0] != '@' ==> order_of(s, "info"@ + seq![' '] + a) == OrderData::Info(a) && order_of(
            s,
            "info"@ + seq![' ', '@'] + a,
        ) == OrderData::Info(a),
        a[0] != '@' ==> order_of(s, "dm"@ + seq![' '] + a) == OrderData::Dm(a) && order_of(
            s,
            "dm"@ + seq![' ', '@'] + a,
        ) == OrderData::Dm(a),
{
    lemma_verbs();
    lemma_verbs_apart();
    lemma_word(a);
    lemma_line("theme"@, a);
    lemma_line("nick"@, a);
    lemma_line("info"@, a);
    lemma_line("dm"@, a);
    if a[0] != '@' {
        let b = seq!['@'] + a;
        assert(one_word(b)) by {
            assert forall|i: int| 0 <= i < b.len() implies !is_space(#[trigger] b[i]) by {
                if i > 0 {
                    assert(b[i] == a[i - 1]);
                }
            }
        }
        lemma_word(b);
        assert(repeated('@', 1) + a =~= b);
        assert(repeated('@', 0) + a =~= a);
        stripping_takes_the_lead_off('@', 1, a);
        stripping_takes_the_lead_off('@', 0, a);
        lemma_line("info"@, b);
        lemma_line("dm"@, b);
        assert("info"@ + seq![' ', '@'] + a =~= "info"@ + seq![' '] + b);
        assert("dm"@ + seq![' ', '@'] + a =~= "dm"@ + seq![' '] + b);
    }
}

/// A bio and a topic are all that is written behind the command, and the topic
/// is that of the conversation that is shown.
pub proof fn commands_take_a_text(s: Screen, t: Seq<char>)
    requires
        tight(t),
    ensures
        order_of(s, "bio"@ + seq![' '] + t) == OrderData::Bio(t),
        s.active < s.convs.len() ==> order_of(s, "topic"@ + seq![' '] + t) == (OrderData::Topic {
            conv: s.convs[s.active as int].id,
            topic: t,
        }),
        s.active >= s.convs.len() ==> order_of(s, "topic"@ + seq![' '] + t) is Refuse,
        is_admin(s.users, s.me) ==> order_of(s, "motd"@ + seq![' '] + t) == OrderData::Motd(t),
        !is_admin(s.users, s.me) ==> order_of(s, "motd"@ + seq![' '] + t) is Refuse,
{
    lemma_verbs();
    lemma_verbs_apart();
    lemma_line("bio"@, t);
    lemma_line("topic"@, t);
    lemma_line("motd"@, t);
}

/// Joining goes to the channel of that name, with or without its sign, and is
/// refused if there is none.
pub proof fn joining_goes_to_the_channel(s: Screen, a: Seq<char>)
    requires
        one_word(a),
        a[0] != '#',
        s.convs.len() <= usize::MAX,
    ensures
        order_of(s, "join"@ + seq![' ', '#'] + a) == order_of(s, "join"@ + seq![' '] + a),
        match order_of(s, "join"@ + seq![' '] + a) {
            OrderData::Join(i) => i < s.convs.len() && s.convs[i as int].kind == ConvKind::Channel
                && s.convs[i as int].name@ == a,
            OrderData::Refuse(_) => forall|c: Conversation| #[trigger]
                s.convs.contains(c) && c.kind == ConvKind::Channel ==> c.name@ != a,
            _ => false,
        },
{
    lemma_verbs();
    lemma_verbs_apart();
    lemma_word(a);
    let b = seq!['#'] + a;
    assert(one_word(b)) by {
        assert forall|i: int| 0 <= i < b.len() implies !is_space(#[trigger] b[i]) by {
            if i > 0 {
                assert(b[i] == a[i - 1]);
            }
        }
    }
    lemma_word(b);
    lemma_line("join"@, a);
    lemma_line("join"@, b);
    assert("join"@ + seq![' ', '#'] + a =~= "join"@ + seq![' '] + b);
    assert(repeated('#', 1) + a =~= b);
    assert(repeated('#', 0) + a =~= a);
    stripping_takes_the_lead_off('#', 1, a);
    stripping_takes_the_lead_off('#', 0, a);
    lemma_channel_at(s.convs, a, 0);
}

proof fn lemma_channel_at(convs: Seq<Conversation>, name: Seq<char>, i: int)
    requires
        0 <= i <= convs.len() <= usize::MAX,
    ensures
        match channel_at(convs, name, i) {
            Some(k) => i <= k < convs.len() && convs[k as int].kind == ConvKind::Channel
                && convs[k as int].name@ == name,
            None => forall|j: int|
                i <= j < convs.len() ==> !((#[trigger] convs[j]).kind == ConvKind::Channel
                    && convs[j].name@ == name),
        },
    decreases convs.len() - i,
{
    if i < convs.len() {
        lemma_channel_at(convs, name, i + 1);
    }
}

/// An administrator's commands take what is written behind them.
pub proof fn an_administrator_is_obeyed(s: Screen, a: Seq<char>, b: Seq<char>)
    requires
        is_admin(s.users, s.me),
        one_word(a),
        one_word(b),
    ensures
        order_of(s, "grant"@ + seq![' '] + (a + seq![' '] + b)) == (OrderData::Grant {
            user: a,
            role: b,
            granting: true,
        }),
        order_of(s, "revoke"@ + seq![' '] + (a + seq![' '] + b)) == (OrderData::Grant {
            user: a,
            role: b,
            granting: false,
        }),
        order_of(s, "invite"@ + seq![' '] + (a + seq![' '] + b)) == (OrderData::Invite {
            name: a,
            key: b,
        }),
        order_of(s, "mkrole"@ + seq![' '] + (a + seq![' '] + b)) == (OrderData::Mkrole {
            name: a,
            color: b,
            priority: 10,
            hoisted: false,
        }),
        order_of(s, "rmrole"@ + seq![' '] + a) == OrderData::Rmrole(a),
        a[0] != '#' ==> order_of(s, "mkchan"@ + seq![' '] + a) == OrderData::Mkchan(a) && order_of(
            s,
            "rmchan"@ + seq![' '] + a,
        ) == OrderData::Rmchan(a),
{
    lemma_verbs();
    lemma_verbs_apart();
    let both = a + seq![' '] + b;
    lemma_two_words(a, b);
    lemma_word(a);
    lemma_word(b);
    lemma_line("grant"@, both);
    lemma_line("revoke"@, both);
    lemma_line("invite"@, both);
    lemma_line("mkrole"@, both);
    lemma_line("rmrole"@, a);
    lemma_line("mkchan"@, a);
    lemma_line("rmchan"@, a);
    a_text_is_cut_at_its_first_space(a, ' ', b);
    assert(repeated('#', 0) + a =~= a);
    if a[0] != '#' {
        stripping_takes_the_lead_off('#', 0, a);
    }
}

/// A group has the name that is written first and those who are written behind
/// it; with a name alone there is nobody to start it with.
pub proof fn a_group_is_started_with_others(s: Screen, a: Seq<char>, b: Seq<char>)
    requires
        one_word(a),
        one_word(b),
    ensures
        order_of(s, "group"@ + seq![' '] + (a + seq![' '] + b)) == (OrderData::Group {
            name: a,
            users: seq![b],
        }),
        order_of(s, "group"@ + seq![' '] + a) is Refuse,
{
    lemma_verbs();
    lemma_verbs_apart();
    let both = a + seq![' '] + b;
    lemma_two_words(a, b);
    lemma_word(a);
    lemma_line("group"@, both);
    lemma_line("group"@, a);
    assert(seq![a, b].drop_first() =~= seq![b]);
}

/// All verbs are single words.
proof fn lemma_verbs()
    ensures
        one_word("q"@) && one_word("quit"@) && one_word("help"@) && one_word("h"@) && one_word(
            "reload"@,
        ) && one_word("theme"@) && one_word("info"@) && one_word("nick"@) && one_word("bio"@)
            && one_word("topic"@) && one_word("join"@) && one_word("dm"@) && one_word("group"@)
            && one_word("roles"@),
        one_word("invite"@) && one_word("mkchan"@) && one_word("rmchan"@) && one_word("mkrole"@)
            && one_word("rmrole"@) && one_word("grant"@) && one_word("revoke"@) && one_word(
            "motd"@,
        ),
{
    reveal_strlit("q");
    reveal_strlit("quit");
    reveal_strlit("help");
    reveal_strlit("h");
    reveal_strlit("reload");
    reveal_strlit("theme");
    reveal_strlit("info");
    reveal_strlit("nick");
    reveal_strlit("bio");
    reveal_strlit("topic");
    reveal_strlit("join");
    reveal_strlit("dm");
    reveal_strlit("group");
    reveal_strlit("roles");
    reveal_strlit("invite");
    reveal_strlit("mkchan");
    reveal_strlit("rmchan");
    reveal_strlit("mkrole");
    reveal_strlit("rmrole");
    reveal_strlit("grant");
    reveal_strlit("revoke");
    reveal_strlit("motd");
}

/// No two verbs are alike: they differ in their length or in one of their
/// letters.
proof fn lemma_verbs_apart()
    ensures
        "q"@.len() == 1 && "q"@[0] == 'q',
        "h"@.len() == 1 && "h"@[0] == 'h',
        "dm"@.len() == 2,
        "bio"@.len() == 3 && "bio"@[1] == 'i',
        "ban"@.len() == 3 && "ban"@[1] == 'a',
        "quit"@.len() == 4 && "quit"@[0] == 'q',
        "help"@.len() == 4 && "help"@[0] == 'h',
        "info"@.len() == 4 && "info"@[0] == 'i',
        "nick"@.len() == 4 && "nick"@[0] == 'n',
        "join"@.len() == 4 && "join"@[0] == 'j',
        "motd"@.len() == 4 && "motd"@[0] == 'm',
        "theme"@.len() == 5 && "theme"@[0] == 't' && "theme"@[1] == 'h',
        "topic"@.len() == 5 && "topic"@[0] == 't' && "topic"@[1] == 'o',
        "group"@.len() == 5 && "group"@[0] == 'g' && "group"@[2] == 'o',
        "grant"@.len() == 5 && "grant"@[0] == 'g' && "grant"@[2] == 'a',
        "roles"@.len() == 5 && "roles"@[0] == 'r',
        "reload"@.len() == 6 && "reload"@[0] == 'r' && "reload"@[1] == 'e' && "reload"@[2] == 'l',
        "revoke"@.len() == 6 && "revoke"@[0] == 'r' && "revoke"@[1] == 'e' && "revoke"@[2] == 'v',
        "invite"@.len() == 6 && "invite"@[0] == 'i',
        "mkchan"@.len() == 6 && "mkchan"@[0] == 'm' && "mkchan"@[2] == 'c',
        "mkrole"@.len() == 6 && "mkrole"@[0] == 'm' && "mkrole"@[2] == 'r',
        "rmchan"@.len() == 6 && "rmchan"@[0] == 'r' && "rmchan"@[1] == 'm' && "rmchan"@[2] == 'c',
        "rmrole"@.len() == 6 && "rmrole"@[0] == 'r' && "rmrole"@[1] == 'm' && "rmrole"@[2] == 'r',
{
    reveal_strlit("q");
    reveal_strlit("quit");
    reveal_strlit("help");
    reveal_strlit("h");
    reveal_strlit("reload");
    reveal_strlit("theme");
    reveal_strlit("info");
    reveal_strlit("nick");
    reveal_strlit("bio");
    reveal_strlit("ban");
    reveal_strlit("topic");
    reveal_strlit("join");
    reveal_strlit("dm");
    reveal_strlit("group");
    reveal_strlit("roles");
    reveal_strlit("invite");
    reveal_strlit("mkchan");
    reveal_strlit("rmchan");
    reveal_strlit("mkrole");
    reveal_strlit("rmrole");
    reveal_strlit("grant");
    reveal_strlit("revoke");
    reveal_strlit("motd");
}

/// A DM that is used again is one of these two and nobody else, and a new one
/// is started only where there is none.
pub proof fn a_dm_is_used_again(
    convs: Seq<Conversation>,
    rosters: Seq<Roster>,
    me: UserId,
    other: UserId,
    i: int,
)
    requires
        0 <= i <= convs.len() <= usize::MAX,
    ensures
        match dm_at(convs, rosters, me, other, i) {
            Some(k) => {
                let members = in_roster(rosters, convs[k as int].id);
                &&& i <= k < convs.len()
                &&& convs[k as int].kind == ConvKind::Dm
                &&& members.len() == 2 && members.contains(me) && members.contains(other)
            },
            None => forall|j: int|
                i <= j < convs.len() && (#[trigger] convs[j]).kind == ConvKind::Dm ==> {
                    let members = in_roster(rosters, convs[j].id);
                    !(members.len() == 2 && members.contains(me) && members.contains(other))
                },
        },
        dm_at(convs, rosters, me, other, i) == dm_at(convs, rosters, other, me, i),
    decreases convs.len() - i,
{
    if i < convs.len() {
        a_dm_is_used_again(convs, rosters, me, other, i + 1);
    }
}

/// Nobody is in a group but whoever starts it and those who were found.
pub proof fn a_group_holds_nobody_else(me: UserId, found: Seq<Option<UserId>>, n: int, x: UserId)
    requires
        0 <= n <= found.len(),
        gathered(me, found, n).contains(x),
    ensures
        x == me || exists|i: int| 0 <= i < n && #[trigger] found[i] == Some(x),
        gathered(me, found, n)[0] == me,
    decreases n,
{
    if n > 0 {
        let before = gathered(me, found, n - 1);
        let now = gathered(me, found, n);
        a_group_holds_everyone_once(me, found, n - 1);
        if before.contains(x) {
            a_group_holds_nobody_else(me, found, n - 1, x);
        } else {
            let k = choose|k: int| 0 <= k < now.len() && now[k] == x;
            assert(k == before.len());
            assert(found[n - 1] == Some(x));
            a_group_holds_nobody_else(me, found, n - 1, me);
        }
    }
}

/// Founding a conversation creates it first, under its name and as what it is,
/// and then has every member join it, once each and in order.
pub proof fn founding_has_everyone_join(
    conv: ConvId,
    kind: ConvKind,
    name: Seq<char>,
    members: Seq<UserId>,
    i: int,
)
    ensures
        founded(conv, kind, name, members).len() == members.len() + 1,
        founded(conv, kind, name, members)[0] == (KindData::ConvCreated { conv, kind, name }),
        0 <= i < members.len() ==> founded(conv, kind, name, members)[i + 1]
            == (KindData::MemberJoined { conv, user: members[i] }),
{
}

/// A theme that there is is put on, and one that there is not is refused and
/// leaves the old one on.
pub proof fn only_known_themes_are_put_on(s: Screen, name: Seq<char>, at: Millis, now: Screen)
    requires
        themed(s, Some(name), at, now),
    ensures
        name == "dark"@ || name == "light"@ || name == "mono"@ ==> now.theme.name@ == name,
        !(name == "dark"@ || name == "light"@ || name == "mono"@) ==> now.theme == s.theme,
        now.theme.depth == s.theme.depth,
        now.status is Some,
        now.messages == s.messages && now.convs == s.convs && now.input == s.input,
{
}

} // verus!
