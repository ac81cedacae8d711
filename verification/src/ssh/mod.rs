//! The ssh front door.
//!
//! The key identifies the account, and access is invite-only. A key that
//! matches an account is let in; a key that does not is shown its own
//! fingerprint so its owner can ask to be added, and then disconnected.
pub mod input;

use vstd::prelude::*;
use vstd::utf8::{decode_utf8, valid_utf8};

use crate::db::projection::{
    account_id, accounts_keep_their_keys, effect, events_keep_the_rules, rules,
};
use crate::db::query::{holds_key, keys_on, lists_key};
use crate::db::tables::Board;
use crate::model::{numbered, EventData, EventKind, User, UserId};
use crate::seqs::first;
use crate::text::{
    cat, cat3, contains_space, eq_nocase, has_space, occurs, occurs_at, same, same_nocase, trim,
    trimmed, utf8_text,
};

verus! {

/// The ssh username everyone connects as. Identity comes from the key, so this
/// is just a fixed, documented way in: `ssh -p 2222 newbbs@host`.
pub const LOGIN_NAME: &'static str = "newbbs";

/// Where the host key lives. Keeping it in the database means the database
/// file is the entire server -- one thing to mount, one thing to back up.
pub const HOST_KEY_SETTING: &'static str = "ssh.host_key";

/// Switch the client's terminal into the state the UI expects, and back.
pub const ENTER_SCREEN: &'static str = "\u{1b}[?1049h\u{1b}[?7l\u{1b}[?25l";

pub const LEAVE_SCREEN: &'static str = "\u{1b}[?25h\u{1b}[?7h\u{1b}[?1049l\u{1b}[0m";

// ---------------------------------------------------------------------------
// the host key
// ---------------------------------------------------------------------------

/// What to do for a host key.
#[derive(Debug)]
pub enum HostKeyPlan {
    /// There is none yet: make one and keep it.
    Generate,
    /// Read the key that this text holds.
    Use(String),
    /// What is kept is no text.
    Unreadable,
}

/// A stable key means clients never see a host-key-changed warning, so one is
/// made only where none is kept: one that cannot be read is not replaced.
pub fn host_key_plan(stored: Option<Vec<u8>>) -> (r: HostKeyPlan)
    ensures
        match stored {
            None => r is Generate,
            Some(bytes) => if valid_utf8(bytes@) {
                r is Use && r->Use_0@ == decode_utf8(bytes@)
            } else {
                r is Unreadable
            },
        },
{
    match stored {
        None => HostKeyPlan::Generate,
        Some(bytes) => match utf8_text(bytes) {
            Some(text) => HostKeyPlan::Use(text),
            None => HostKeyPlan::Unreadable,
        },
    }
}

// ---------------------------------------------------------------------------
// one session per person
// ---------------------------------------------------------------------------

/// The session that someone has open.
#[derive(Debug, Clone, Copy, PartialEq, Eq, Structural)]
pub struct Held {
    pub user: UserId,
    pub id: u64,
}

/// Who is currently connected, so a second connection can displace the first.
#[derive(Debug)]
pub struct Sessions {
    pub live: Vec<Held>,
    pub next_id: u64,
}

pub open spec fn held_by(user: UserId) -> spec_fn(Held) -> bool {
    |h: Held| h.user == user
}

/// The session that `user` has open, if any.
pub open spec fn session_of(live: Seq<Held>, user: UserId) -> Option<u64> {
    match first(live, held_by(user)) {
        Some(h) => Some(h.id),
        None => None,
    }
}

fn without(live: &Vec<Held>, user: UserId) -> (r: Vec<Held>)
    ensures
        session_of(r@, user) is None,
        forall|other: UserId|
            other != user ==> #[trigger] session_of(r@, other) == session_of(live@, other),
{
    let mut out: Vec<Held> = Vec::new();
    let mut i: usize = 0;
    while i < live.len()
        invariant
            i <= live.len(),
            session_of(out@, user) is None,
            forall|other: UserId|
                other != user ==> #[trigger] session_of(out@, other) == session_of(
                    live@.take(i as int),
                    other,
                ),
        decreases live.len() - i,
    {
        let held = live[i];
        let ghost before = out@;
        if held.user != user {
            out.push(held);
        }
        proof {
            assert(live@.take(i + 1) =~= live@.take(i as int).push(held));
            assert forall|other: UserId| other != user implies #[trigger] session_of(out@, other)
                == session_of(live@.take(i + 1), other) by {
                crate::seqs::lemma_first_pushed(live@.take(i as int), held, held_by(other));
                if held.user != user {
                    crate::seqs::lemma_first_pushed(before, held, held_by(other));
                }
                assert(session_of(before, other) == session_of(live@.take(i as int), other));
            }
            if held.user != user {
                crate::seqs::lemma_first_pushed(before, held, held_by(user));
            }
        }
        i += 1;
    }
    assert(live@.take(i as int) == live@);
    out
}

impl Sessions {
    pub fn new() -> (r: Sessions)
        ensures
            r.next_id == 0,
            forall|user: UserId| #[trigger] session_of(r.live@, user) is None,
    {
        Sessions { live: Vec::new(), next_id: 0 }
    }

    /// Register a session, and say which one that user had open before: that
    /// one is to end.
    pub fn claim(&mut self, user: UserId) -> (r: (u64, Option<u64>))
        requires
            old(self).next_id < u64::MAX,
        ensures
            final(self).next_id == old(self).next_id + 1,
            r.0 == final(self).next_id,
            r.1 == session_of(old(self).live@, user),
            session_of(final(self).live@, user) == Some(r.0),
            forall|other: UserId|
                other != user ==> #[trigger] session_of(final(self).live@, other) == session_of(
                    old(self).live@,
                    other,
                ),
    {
        self.next_id += 1;
        let id = self.next_id;
        let previous = self.session(user);
        let mut live = without(&self.live, user);
        let ghost before = live@;
        live.push(Held { user, id });
        proof {
            assert forall|other: UserId| true implies #[trigger] session_of(live@, other) == if other
                == user {
                Some(id)
            } else {
                session_of(before, other)
            } by {
                crate::seqs::lemma_first_pushed(before, Held { user, id }, held_by(other));
            }
        }
        self.live = live;
        (id, previous)
    }

    fn session(&self, user: UserId) -> (r: Option<u64>)
        ensures
            r == session_of(self.live@, user),
    {
        let found = crate::seqs::find(
            &self.live,
            |h: &Held| -> (b: bool)
                ensures
                    b == (h.user == user)
                { h.user == user },
            Ghost(held_by(user)),
        );
        match found {
            Some(h) => Some(h.id),
            None => None,
        }
    }

    /// Release, but only if we are still the session holding the slot -- a
    /// session that was kicked must not evict the one that replaced it.
    pub fn release(&mut self, user: UserId, id: u64)
        ensures
            final(self).next_id == old(self).next_id,
            session_of(final(self).live@, user) == if session_of(old(self).live@, user) == Some(
                id,
            ) {
                None
            } else {
                session_of(old(self).live@, user)
            },
            forall|other: UserId|
                other != user ==> #[trigger] session_of(final(self).live@, other) == session_of(
                    old(self).live@,
                    other,
                ),
            session_of(old(self).live@, user) != Some(id) ==> final(self).live@ == old(self).live@,
    {
        if let Some(held) = self.session(user) {
            if held == id {
                let live = without(&self.live, user);
                self.live = live;
            }
        }
    }
}

// ---------------------------------------------------------------------------
// terminals
// ---------------------------------------------------------------------------

/// The size of a session's terminal.
#[derive(Debug, Clone, Copy, PartialEq, Eq)]
pub struct PtySize {
    pub columns: u16,
    pub rows: u16,
}

pub open spec fn at_least_one(n: u16) -> u16 {
    if n == 0 {
        1
    } else {
        n
    }
}

impl PtySize {
    pub fn new(columns: u16, rows: u16) -> (r: PtySize)
        ensures
            r.columns == at_least_one(columns),
            r.rows == at_least_one(rows),
    {
        let mut size = PtySize { columns: 1, rows: 1 };
        size.set(columns, rows);
        size
    }

    pub fn set(&mut self, columns: u16, rows: u16)
        ensures
            final(self).columns == at_least_one(columns),
            final(self).rows == at_least_one(rows),
    {
        // A zero-sized terminal would divide by zero all over the layout.
        self.columns =
        if columns == 0 {
            1
        } else {
            columns
        };
        self.rows =
        if rows == 0 {
            1
        } else {
            rows
        };
    }

    pub fn get(&self) -> (r: (u16, u16))
        ensures
            r == (self.columns, self.rows),
    {
        (self.columns, self.rows)
    }
}

// ---------------------------------------------------------------------------
// letting people in
// ---------------------------------------------------------------------------

/// What an authentication attempt comes to.
#[derive(Debug)]
pub enum Verdict {
    /// Not the documented way in.
    Reject,
    /// The key of an account.
    Known(UserId),
    /// Accepted far enough to be told they are not invited, and no further.
    /// Holds the fingerprint to show them.
    Stranger(String),
}

/// Decide on someone who logs in as `login` with a key of this fingerprint,
/// where `identity` is the account that the key belongs to.
pub fn authenticate(login: &str, identity: Option<UserId>, fingerprint: String) -> (r: Verdict)
    ensures
        r == if login@ != LOGIN_NAME@ {
            Verdict::Reject
        } else {
            match identity {
                Some(id) => Verdict::Known(id),
                None => Verdict::Stranger(fingerprint),
            }
        },
        r is Known <==> login@ == "newbbs"@ && identity is Some,
        r matches Verdict::Known(id) ==> identity == Some(id),
        r is Reject <==> login@ != "newbbs"@,
{
    if !same(login, LOGIN_NAME) {
        return Verdict::Reject;
    }
    match identity {
        Some(id) => Verdict::Known(id),
        None => Verdict::Stranger(fingerprint),
    }
}

/// What a request for a shell comes to.
#[derive(Debug)]
pub enum Shell {
    /// No pty means no terminal to draw on. Refuse without explanation.
    Close,
    /// Show this, and disconnect.
    TurnAway(String),
    Start(UserId),
}

/// Decide on a request for a shell: only someone known, on a terminal, gets a
/// session.
pub fn open_shell(has_pty: bool, identity: Option<UserId>, offered: &str) -> (r: Shell)
    ensures
        match r {
            Shell::Close => !has_pty,
            Shell::TurnAway(text) => has_pty && identity is None && text@ == turned_away(offered@),
            Shell::Start(me) => has_pty && identity == Some(me),
        },
        r is Start <==> has_pty && identity is Some,
        r is TurnAway <==> has_pty && identity is None,
{
    if !has_pty {
        return Shell::Close;
    }
    match identity {
        Some(me) => Shell::Start(me),
        None => Shell::TurnAway(not_invited(offered)),
    }
}

/// What someone without an invitation reads.
pub open spec fn turned_away(fingerprint: Seq<char>) -> Seq<char> {
    "\r\n  newbbs\r\n\r\n  This board is invite only, and your key is not on the list.\r\n\r\n  Your key fingerprint:\r\n    "@
        + fingerprint
        + "\r\n\r\n  Send that to whoever runs the board and ask them to add you.\r\n\r\n"@
}

/// Shown to a key we do not know, so its owner can ask to be added.
pub fn not_invited(fingerprint: &str) -> (r: String)
    ensures
        r@ == turned_away(fingerprint@),
{
    cat3(
        "\r\n  newbbs\r\n\r\n  This board is invite only, and your key is not on the list.\r\n\r\n  Your key fingerprint:\r\n    ",
        fingerprint,
        "\r\n\r\n  Send that to whoever runs the board and ask them to add you.\r\n\r\n",
    )
}

/// How a session ended.
#[derive(Debug)]
pub enum Ending {
    /// They left.
    Left,
    /// They were disconnected, for this reason.
    Told(String),
    Failed,
}

pub open spec fn last_words(ending: Ending) -> Seq<char> {
    match ending {
        Ending::Left => LEAVE_SCREEN@,
        Ending::Told(reason) => LEAVE_SCREEN@ + reason@ + "\r\n"@,
        Ending::Failed => LEAVE_SCREEN@
            + "newbbs hit an error and had to close the session\r\n"@,
    }
}

/// The last thing that a client is sent.
pub fn farewell(ending: &Ending) -> (r: String)
    ensures
        r@ == last_words(*ending),
{
    match ending {
        Ending::Left => LEAVE_SCREEN.to_owned(),
        Ending::Told(reason) => cat3(LEAVE_SCREEN, reason.as_str(), "\r\n"),
        Ending::Failed => cat(
            LEAVE_SCREEN,
            "newbbs hit an error and had to close the session\r\n",
        ),
    }
}

// ---------------------------------------------------------------------------
// keys
// ---------------------------------------------------------------------------

/// The key that a text in OpenSSH format holds, as it is encoded on the wire;
/// nothing if it holds none.
pub uninterp spec fn public_key(text: Seq<char>) -> Option<Seq<u8>>;

/// The SHA-256 fingerprint of the key that a text holds.
pub uninterp spec fn fingerprint_of(text: Seq<char>) -> Option<Seq<char>>;

/// The key that a text holds, written out anew.
pub uninterp spec fn rewritten(text: Seq<char>) -> Option<Seq<char>>;

/// [`russh::keys::PublicKey::to_bytes`] of the key that
/// [`russh::keys::PublicKey::from_openssh`] reads: it depends on the text
/// alone.
#[verifier::external_body]
fn key_data(text: &str) -> (r: Option<Vec<u8>>)
    ensures
        match r {
            Some(data) => public_key(text@) == Some(data@),
            None => public_key(text@) is None,
        },
{
    russh::keys::PublicKey::from_openssh(text).ok().and_then(|key| key.to_bytes().ok())
}

/// [`russh::keys::PublicKey::fingerprint`] of the key that a text holds: it
/// depends on the text alone.
#[verifier::external_body]
fn key_fingerprint(text: &str) -> (r: Option<String>)
    ensures
        match r {
            Some(print) => fingerprint_of(text@) == Some(print@),
            None => fingerprint_of(text@) is None,
        },
{
    let key = russh::keys::PublicKey::from_openssh(text).ok();
    key.map(|key| key.fingerprint(russh::keys::HashAlg::Sha256).to_string())
}

/// [`russh::keys::PublicKey::to_openssh`] of the key that a text holds: it
/// depends on the text alone, is not empty, and holds the same key.
#[verifier::external_body]
fn key_rewritten(text: &str) -> (r: Option<String>)
    ensures
        match r {
            Some(canonical) => {
                &&& rewritten(text@) == Some(canonical@)
                &&& canonical@.len() > 0
                &&& public_key(canonical@) == public_key(text@)
            },
            None => rewritten(text@) is None,
        },
{
    russh::keys::PublicKey::from_openssh(text).ok().and_then(|key| key.to_openssh().ok())
}

/// A stored key, read: nothing if it does not parse, and then it is ignored.
#[derive(Debug)]
pub struct StoredKey {
    pub user: UserId,
    pub data: Option<Vec<u8>>,
}

pub open spec fn holds_data(data: Seq<u8>) -> spec_fn(StoredKey) -> bool {
    |k: StoredKey| k.data matches Some(d) && d@ == data
}

fn same_bytes(a: &Vec<u8>, b: &Vec<u8>) -> (r: bool)
    ensures
        r == (a@ == b@),
{
    if a.len() != b.len() {
        return false;
    }
    let mut i: usize = 0;
    while i < a.len()
        invariant
            i <= a.len(),
            a.len() == b.len(),
            forall|j: int| 0 <= j < i ==> a[j] == b[j],
        decreases a.len() - i,
    {
        if a[i] != b[i] {
            return false;
        }
        i += 1;
    }
    assert(a@ =~= b@);
    true
}

/// Whose key this is: the first account that holds the same key.
pub fn owner(stored: &Vec<StoredKey>, data: &Vec<u8>) -> (r: Option<UserId>)
    ensures
        r == match first(stored@, holds_data(data@)) {
            Some(k) => Some(k.user),
            None => None,
        },
{
    let mut i: usize = 0;
    while i < stored.len()
        invariant
            i <= stored.len(),
            forall|j: int| 0 <= j < i ==> !holds_data(data@)(#[trigger] stored[j]),
        decreases stored.len() - i,
    {
        if let Some(held) = &stored[i].data {
            if same_bytes(held, data) {
                proof {
                    crate::seqs::lemma_first(stored@, holds_data(data@), i as int);
                }
                return Some(stored[i].user);
            }
        }
        i += 1;
    }
    proof {
        crate::seqs::lemma_first(stored@, holds_data(data@), i as int);
    }
    None
}

pub open spec fn opens(data: Seq<u8>) -> spec_fn((UserId, String)) -> bool {
    |k: (UserId, String)| public_key(k.1@) == Some(data)
}

/// Whose key a text holds, among the keys of all accounts.
pub open spec fn identified(keys: Seq<(UserId, String)>, offered: Seq<char>) -> Option<UserId> {
    match public_key(offered) {
        Some(data) => match first(keys, opens(data)) {
            Some(k) => Some(k.0),
            None => None,
        },
        None => None,
    }
}

fn read_keys(keys: &Vec<(UserId, String)>) -> (r: Vec<StoredKey>)
    ensures
        r.len() == keys.len(),
        forall|i: int|
            0 <= i < r.len() ==> (#[trigger] r[i]).user == keys[i].0 && match r[i].data {
                Some(d) => public_key(keys[i].1@) == Some(d@),
                None => public_key(keys[i].1@) is None,
            },
{
    let mut out: Vec<StoredKey> = Vec::new();
    let mut i: usize = 0;
    while i < keys.len()
        invariant
            i <= keys.len(),
            out.len() == i,
            forall|j: int|
                0 <= j < i ==> (#[trigger] out[j]).user == keys[j].0 && match out[j].data {
                    Some(d) => public_key(keys[j].1@) == Some(d@),
                    None => public_key(keys[j].1@) is None,
                },
        decreases keys.len() - i,
    {
        out.push(StoredKey { user: keys[i].0, data: key_data(keys[i].1.as_str()) });
        i += 1;
    }
    out
}

proof fn lemma_first_read(keys: Seq<(UserId, String)>, stored: Seq<StoredKey>, data: Seq<u8>)
    requires
        stored.len() == keys.len(),
        forall|i: int|
            0 <= i < stored.len() ==> (#[trigger] stored[i]).user == keys[i].0
                && match stored[i].data {
                Some(d) => public_key(keys[i].1@) == Some(d@),
                None => public_key(keys[i].1@) is None,
            },
    ensures
        match first(stored, holds_data(data)) {
            Some(k) => first(keys, opens(data)) matches Some(o) && o.0 == k.user,
            None => first(keys, opens(data)) is None,
        },
    decreases keys.len(),
{
    if keys.len() > 0 {
        let a = keys.drop_first();
        let b = stored.drop_first();
        assert(stored[0].user == keys[0].0);
        assert forall|i: int| 0 <= i < b.len() implies (#[trigger] b[i]).user == a[i].0
            && match b[i].data {
            Some(d) => public_key(a[i].1@) == Some(d@),
            None => public_key(a[i].1@) is None,
        } by {
            assert(b[i] == stored[i + 1]);
        }
        lemma_first_read(a, b, data);
    }
}

/// Match an offered key against the invited accounts. Small servers, so a
/// scan beats maintaining a fingerprint index.
pub fn identify(keys: &Vec<(UserId, String)>, offered: &str) -> (r: Option<UserId>)
    ensures
        r == identified(keys@, offered@),
{
    match key_data(offered) {
        Some(data) => {
            let stored = read_keys(keys);
            proof {
                lemma_first_read(keys@, stored@, data@);
            }
            owner(&stored, &data)
        },
        None => None,
    }
}

/// A key that only one account holds identifies that account.
pub proof fn a_key_identifies_its_account(
    keys: Seq<(UserId, String)>,
    user: UserId,
    stored: String,
    offered: Seq<char>,
)
    requires
        keys.contains((user, stored)),
        public_key(offered) is Some,
        public_key(stored@) == public_key(offered),
        forall|i: int|
            0 <= i < keys.len() && public_key((#[trigger] keys[i]).1@) == public_key(offered)
                ==> keys[i].0 == user,
    ensures
        identified(keys, offered) == Some(user),
{
    let data = public_key(offered)->Some_0;
    crate::seqs::lemma_first_found(keys, opens(data));
    match first(keys, opens(data)) {
        Some(k) => {
            let i = choose|i: int| 0 <= i < keys.len() && keys[i] == k;
            assert(public_key(keys[i].1@) == public_key(offered));
        },
        None => {
            assert(opens(data)((user, stored)));
        },
    }
}

/// Nobody is identified but by their own key: an account without one is out of
/// reach.
pub proof fn identity_takes_a_key(keys: Seq<(UserId, String)>, offered: Seq<char>)
    requires
        identified(keys, offered) is Some,
    ensures
        exists|text: Seq<char>| #[trigger]
            lists_key(keys, identified(keys, offered)->Some_0, text) && public_key(text)
                == public_key(offered),
{
    let data = public_key(offered)->Some_0;
    crate::seqs::lemma_first_found(keys, opens(data));
    let k = first(keys, opens(data))->Some_0;
    let i = choose|i: int| 0 <= i < keys.len() && keys[i] == k;
    assert(keys[i].0 == identified(keys, offered)->Some_0);
    assert(lists_key(keys, k.0, k.1@));
}

/// An account without a key never gets one, whatever happens next, and no key
/// identifies it: it is only reachable from the server itself.
pub proof fn an_account_without_a_key_stays_out_of_reach(
    b: Board,
    e: EventData,
    i: int,
    keys: Seq<(UserId, String)>,
    offered: Seq<char>,
)
    requires
        rules(b),
        effect(b, e) is Ok,
        0 <= i < b.users.len(),
        b.users[i].pubkey.len() == 0,
        keys_on(effect(b, e)->Ok_0, keys),
    ensures
        effect(b, e)->Ok_0.users[i].pubkey.len() == 0,
        identified(keys, offered) != Some(b.users[i].id),
{
    let r = effect(b, e)->Ok_0;
    let id = b.users[i].id;
    accounts_keep_their_keys(b, e, i);
    events_keep_the_rules(b, e);
    if identified(keys, offered) == Some(id) {
        identity_takes_a_key(keys, offered);
        let text = choose|text: Seq<char>| #[trigger]
            lists_key(keys, id, text) && public_key(text) == public_key(offered);
        assert(holds_key(r.users, id, text));
        let j = choose|j: int|
            0 <= j < r.users.len() && (#[trigger] r.users[j]).id == id && r.users[j].pubkey
                == text;
        assert(account_id()(r.users[i]) == account_id()(r.users[j]));
    }
}

/// Someone whose key is added is known by it from then on: a key that nobody
/// had identifies the account that was created with it.
pub proof fn an_invited_key_opens_its_account(
    b: Board,
    before: Seq<(UserId, String)>,
    e: EventData,
    after: Seq<(UserId, String)>,
    offered: Seq<char>,
)
    requires
        keys_on(b, before),
        identified(before, offered) is None,
        effect(b, e) is Ok,
        keys_on(effect(b, e)->Ok_0, after),
        e.kind is UserCreated,
        e.kind->UserCreated_pubkey.len() > 0,
        public_key(e.kind->UserCreated_pubkey) == public_key(offered),
        public_key(offered) is Some,
    ensures
        identified(after, offered) == Some(e.kind->UserCreated_user),
{
    let r = effect(b, e)->Ok_0;
    let user = e.kind->UserCreated_user;
    let text = e.kind->UserCreated_pubkey;
    let data = public_key(offered)->Some_0;
    reveal_with_fuel(crate::db::projection::after, 2);
    assert(r.users[b.users.len() as int].id == user);
    assert(r.users[b.users.len() as int].pubkey == text);
    assert(holds_key(r.users, user, text));
    assert(lists_key(after, user, text));
    crate::seqs::lemma_first_found(before, opens(data));
    crate::seqs::lemma_first_found(after, opens(data));
    match first(after, opens(data)) {
        Some(k) => {
            let i = choose|i: int| 0 <= i < after.len() && after[i] == k;
            assert(after[i].0 == k.0);
            assert(lists_key(after, k.0, k.1@));
            let j = choose|j: int|
                0 <= j < r.users.len() && (#[trigger] r.users[j]).id == k.0 && r.users[j].pubkey
                    == k.1@;
            if j < b.users.len() {
                assert(b.users[j] == r.users[j]);
                assert(holds_key(b.users, k.0, k.1@));
                assert(lists_key(before, k.0, k.1@));
                let n = choose|n: int|
                    0 <= n < before.len() && (#[trigger] before[n]).0 == k.0 && before[n].1@
                        == k.1@;
                assert(before.contains(before[n]));
                assert(opens(data)(before[n]));
            }
        },
        None => {
            let i = choose|i: int|
                0 <= i < after.len() && (#[trigger] after[i]).0 == user && after[i].1@ == text;
            assert(after.contains(after[i]));
            assert(opens(data)(after[i]));
        },
    }
}

// ---------------------------------------------------------------------------
// invites
// ---------------------------------------------------------------------------

/// What an account for someone is created from.
#[derive(Debug)]
pub struct Invitation {
    pub name: String,
    pub pubkey: String,
    pub fingerprint: String,
}

/// What has been read of the key that someone is invited with.
#[derive(Debug)]
pub struct KeyFacts {
    pub fingerprint: String,
    /// The account that holds this key already.
    pub holder: Option<UserId>,
    /// The key written out anew, if that could be done.
    pub canonical: Option<String>,
}

pub open spec fn called(name: Seq<char>) -> spec_fn(User) -> bool {
    |u: User| same_nocase(u.name@, name)
}

/// The name of an account; empty if there is none.
pub open spec fn name_of(users: Seq<User>, id: UserId) -> Seq<char> {
    match first(users, numbered(id)) {
        Some(u) => u.name@,
        None => seq![],
    }
}

/// Why someone cannot be invited under this (trimmed) name with this key.
pub open spec fn invite_refusal(
    users: Seq<User>,
    name: Seq<char>,
    key: Option<(Option<UserId>, bool)>,
) -> Option<Seq<char>> {
    if name.len() == 0 || has_space(name) {
        Some("a name cannot be empty or contain spaces"@)
    } else {
        match key {
            None => Some("that does not look like an ssh public key"@),
            Some((holder, writable)) => if first(users, called(name)) is Some {
                Some("there is already an account called "@ + name)
            } else if holder is Some {
                Some("that key already belongs to "@ + name_of(users, holder->Some_0))
            } else if !writable {
                Some("re-encoding the key"@)
            } else {
                None
            },
        }
    }
}

pub open spec fn facts_of(key: Option<KeyFacts>) -> Option<(Option<UserId>, bool)> {
    match key {
        Some(f) => Some((f.holder, f.canonical is Some)),
        None => None,
    }
}

fn named(users: &Vec<User>, name: &str) -> (r: bool)
    ensures
        r == (first(users@, called(name@)) is Some),
{
    let mut i: usize = 0;
    while i < users.len()
        invariant
            i <= users.len(),
            forall|j: int| 0 <= j < i ==> !called(name@)(#[trigger] users[j]),
        decreases users.len() - i,
    {
        if eq_nocase(users[i].name.as_str(), name) {
            proof {
                crate::seqs::lemma_first(users@, called(name@), i as int);
            }
            return true;
        }
        i += 1;
    }
    proof {
        crate::seqs::lemma_first(users@, called(name@), i as int);
    }
    false
}

fn account_name(users: &Vec<User>, id: UserId) -> (r: String)
    ensures
        r@ == name_of(users@, id),
{
    let mut i: usize = 0;
    while i < users.len()
        invariant
            i <= users.len(),
            forall|j: int| 0 <= j < i ==> !numbered(id)(#[trigger] users[j]),
        decreases users.len() - i,
    {
        if users[i].id == id {
            proof {
                crate::seqs::lemma_first(users@, numbered(id), i as int);
            }
            return users[i].name.clone();
        }
        i += 1;
    }
    proof {
        crate::seqs::lemma_first(users@, numbered(id), i as int);
    }
    String::new()
}

/// Decide on an invitation, given what was read of the key. One key per
/// account: a key already in use would make identity ambiguous at login.
pub fn consider(users: &Vec<User>, name: &str, key: Option<KeyFacts>) -> (r: Result<
    Invitation,
    String,
>)
    ensures
        match invite_refusal(users@, trimmed(name@), facts_of(key)) {
            Some(why) => r is Err && r->Err_0@ == why,
            None => {
                &&& r is Ok
                &&& r->Ok_0.name@ == trimmed(name@)
                &&& r->Ok_0.fingerprint == key->Some_0.fingerprint
                &&& r->Ok_0.pubkey == key->Some_0.canonical->Some_0
            },
        },
{
    let name = trim(name);
    if name.as_str().is_empty() || contains_space(name.as_str()) {
        return Err("a name cannot be empty or contain spaces".to_owned());
    }
    let facts = match key {
        Some(facts) => facts,
        None => {
            return Err("that does not look like an ssh public key".to_owned());
        },
    };
    if named(users, name.as_str()) {
        return Err(cat("there is already an account called ", name.as_str()));
    }
    if let Some(id) = facts.holder {
        let owner = account_name(users, id);
        return Err(cat("that key already belongs to ", owner.as_str()));
    }
    match facts.canonical {
        Some(pubkey) => Ok(Invitation { name, pubkey, fingerprint: facts.fingerprint }),
        None => Err("re-encoding the key".to_owned()),
    }
}

/// What there is to know of the key that a text holds.
pub open spec fn known_of(keys: Seq<(UserId, String)>, text: Seq<char>) -> Option<
    (Option<UserId>, bool),
> {
    if fingerprint_of(text) is Some {
        Some((identified(keys, text), rewritten(text) is Some))
    } else {
        None
    }
}

/// Create an account bound to a public key. Shared by the `invite`
/// subcommand and the in-BBS `:invite`, so both validate identically. `users`
/// are all accounts, `keys` those that have a key.
pub fn invite(
    users: &Vec<User>,
    keys: &Vec<(UserId, String)>,
    name: &str,
    key_text: &str,
) -> (r: Result<Invitation, String>)
    ensures
        ({
            let text = trimmed(key_text@);
            match invite_refusal(users@, trimmed(name@), known_of(keys@, text)) {
                Some(why) => r is Err && r->Err_0@ == why,
                None => {
                    &&& r is Ok
                    &&& r->Ok_0.name@ == trimmed(name@)
                    &&& fingerprint_of(text) == Some(r->Ok_0.fingerprint@)
                    &&& rewritten(text) == Some(r->Ok_0.pubkey@)
                    &&& public_key(r->Ok_0.pubkey@) == public_key(text)
                    &&& r->Ok_0.pubkey@.len() > 0
                    &&& identified(keys@, text) is None
                },
            }
        }),
{
    let text = trim(key_text);
    let facts = match key_fingerprint(text.as_str()) {
        Some(fingerprint) => Some(
            KeyFacts {
                fingerprint,
                holder: identify(keys, text.as_str()),
                canonical: key_rewritten(text.as_str()),
            },
        ),
        None => None,
    };
    consider(users, name, facts)
}

impl Invitation {
    /// The event that creates the account, with an id that was reserved for
    /// it.
    pub fn accepted(self, user: UserId) -> (r: EventKind)
        ensures
            r == (EventKind::UserCreated { user, name: self.name, pubkey: self.pubkey }),
    {
        EventKind::UserCreated { user, name: self.name, pubkey: self.pubkey }
    }
}

/// Someone can be invited exactly under a name that is not empty, has no blanks
/// in it and is nobody's, whatever the case, and with a key that can be read
/// and is nobody's.
pub proof fn an_invitation_needs_a_new_name_and_a_new_key(
    users: Seq<User>,
    name: Seq<char>,
    key: Option<(Option<UserId>, bool)>,
)
    ensures
        invite_refusal(users, name, key) is None <==> {
            &&& name.len() > 0
            &&& !has_space(name)
            &&& forall|u: User| #[trigger] users.contains(u) ==> !same_nocase(u.name@, name)
            &&& key is Some
            &&& key->Some_0.0 is None
            &&& key->Some_0.1
        },
        name.len() > 0 && !has_space(name) && key is Some && (exists|u: User| #[trigger]
            users.contains(u) && same_nocase(u.name@, name)) ==> invite_refusal(users, name, key)
            == Some("there is already an account called "@ + name),
        name.len() > 0 && !has_space(name) && key is None ==> invite_refusal(users, name, key)
            == Some("that does not look like an ssh public key"@),
        invite_refusal(users, name, key) is Some && name.len() > 0 && !has_space(name) && key is Some
            && key->Some_0.0 is Some && (forall|u: User| #[trigger]
            users.contains(u) ==> !same_nocase(u.name@, name)) ==> invite_refusal(users, name, key)
            == Some("that key already belongs to "@ + name_of(users, key->Some_0.0->Some_0)),
{
    crate::seqs::lemma_first_found(users, called(name));
}

/// A name is that of the account with this number, and empty where there is
/// none.
pub proof fn names_belong_to_their_numbers(users: Seq<User>, id: UserId)
    ensures
        (exists|u: User| #[trigger] users.contains(u) && u.id == id) ==> exists|u: User| #[trigger]
            users.contains(u) && u.id == id && u.name@ == name_of(users, id),
        (forall|u: User| #[trigger] users.contains(u) ==> u.id != id) ==> name_of(users, id).len()
            == 0,
{
    crate::seqs::lemma_first_found(users, numbered(id));
}

/// What is open is on the list, as that user's.
pub proof fn an_open_session_is_on_the_list(live: Seq<Held>, user: UserId)
    ensures
        match session_of(live, user) {
            Some(id) => live.contains(Held { user, id }),
            None => forall|h: Held| #[trigger] live.contains(h) ==> h.user != user,
        },
{
    crate::seqs::lemma_first_found(live, held_by(user));
}

/// Whoever is turned away can read the fingerprint of their key, and whoever
/// is disconnected for a reason, the reason; the terminal is put back first.
pub proof fn whoever_is_sent_away_is_told(fingerprint: Seq<char>, reason: String)
    ensures
        occurs(turned_away(fingerprint), fingerprint),
        occurs(last_words(Ending::Told(reason)), reason@),
        occurs_at(last_words(Ending::Told(reason)), LEAVE_SCREEN@, 0),
        occurs_at(last_words(Ending::Left), LEAVE_SCREEN@, 0),
        occurs_at(last_words(Ending::Failed), LEAVE_SCREEN@, 0),
{
    let front = "\r\n  newbbs\r\n\r\n  This board is invite only, and your key is not on the list.\r\n\r\n  Your key fingerprint:\r\n    "@;
    let t = turned_away(fingerprint);
    let at = front.len() as int;
    assert(t.subrange(at, at + fingerprint.len()) =~= fingerprint);
    assert(occurs_at(t, fingerprint, at));
    let w = last_words(Ending::Told(reason));
    let k = LEAVE_SCREEN@.len() as int;
    assert(w.subrange(k, k + reason@.len()) =~= reason@);
    assert(occurs_at(w, reason@, k));
    assert(w.subrange(0, k) =~= LEAVE_SCREEN@);
    assert(last_words(Ending::Left).subrange(0, k) =~= LEAVE_SCREEN@);
    assert(last_words(Ending::Failed).subrange(0, k) =~= LEAVE_SCREEN@);
}

/// A terminal has at least one column and one row, and any that has is taken
/// at its size.
pub proof fn a_terminal_has_a_size(n: u16)
    ensures
        at_least_one(0) == 1,
        at_least_one(n) >= 1,
        n >= 1 ==> at_least_one(n) == n,
{
}

} // verus!
