use newbbs::bus::{
    settle, BusMsg, BusState, Delivery, Flow, Outcome, Payload, Reply, Request, Response, Stamp,
};
use newbbs::db::bootstrap::bootstrap;
use newbbs::db::tables::StoreError;
use newbbs::db::Db;
use newbbs::model::{ConvKind, EventKind, Signal, Tag, User};
use tokio::sync::mpsc::{channel, Receiver};

const NOW: i64 = 1_700_000_000_000;

/// A fresh board, and its bus.
struct Board {
    db: Db,
    bus: BusState,
    at: i64,
}

impl Board {
    fn new() -> Board {
        let mut db = Db::new();
        bootstrap(&mut db, NOW).unwrap();
        Board { db, bus: BusState::new(), at: NOW + 1000 }
    }

    fn send(&mut self, msg: BusMsg, encoded_len: usize) -> (Flow, Option<Reply>) {
        self.at += 1;
        let stamp = Stamp::new(self.at, encoded_len);
        self.bus.handle(&mut self.db, msg, stamp)
    }

    fn ask(&mut self, request: Request) -> Result<Response, StoreError> {
        match self.send(BusMsg::Request(request), 100) {
            (Flow::Continue, Some(Reply::Answer(answer))) => answer,
            other => panic!("{other:?}"),
        }
    }

    /// Commit an event whose kind takes this many bytes.
    fn commit(&mut self, kind: EventKind, encoded_len: usize) {
        let request = Request::Commit { actor: None, kind };
        match self.send(BusMsg::Request(request), encoded_len) {
            (_, Some(Reply::Answer(Ok(Response::Event(_))))) => {}
            other => panic!("{other:?}"),
        }
    }

    fn subscribe(&mut self, user: Option<i64>, tags: Vec<Tag>, room: usize) -> (u64, Receiver<Delivery>) {
        let (tx, rx) = channel(room);
        match self.send(BusMsg::Subscribe { user, tags, tx }, 0) {
            (Flow::Continue, Some(Reply::Subscribed(id))) => (id, rx),
            other => panic!("{other:?}"),
        }
    }

    fn user_by_name(&mut self, name: &str) -> User {
        match self.ask(Request::UserByName(name.to_string())) {
            Ok(Response::MaybeUser(Some(user))) => user,
            other => panic!("{other:?}"),
        }
    }

    fn general(&mut self) -> i64 {
        match self.ask(Request::ConversationByName("general".to_string())) {
            Ok(Response::MaybeConversation(Some(conv))) => conv.id,
            other => panic!("#general exists on every board, got {other:?}"),
        }
    }

    fn next_id(&mut self, counter: &str) -> i64 {
        match self.ask(Request::Alloc(counter.to_string())) {
            Ok(Response::Id(id)) => id,
            other => panic!("{other:?}"),
        }
    }
}

fn said(conv: i64, author: i64, body: &str) -> EventKind {
    EventKind::MessageSent { conv, author, body: body.to_string() }
}

/// The rule the whole delivery design turns on: a payload that undercuts a
/// uuid travels whole, anything bigger travels as an id to resolve.
#[test]
fn payload_smaller_than_a_uuid_is_inlined() {
    let mut board = Board::new();
    let admin = board.user_by_name("admin");
    let general = board.general();
    let (_, mut sub) = board.subscribe(None, vec![Tag::Conv(general)], 8);

    // A variant, two small numbers, a length and two letters.
    board.commit(said(general, admin.id, "hi"), 6);
    match sub.try_recv().expect("delivery") {
        Delivery::Inline(Payload::Event(event)) => {
            assert!(matches!(event.kind, EventKind::MessageSent { .. }));
        }
        other => panic!("expected a short message to ride inline, got {other:?}"),
    }

    board.commit(
        said(general, admin.id, "this one is comfortably longer than sixteen bytes"),
        53,
    );
    match sub.try_recv().expect("delivery") {
        Delivery::Id(id) => match board.ask(Request::Event(id)) {
            Ok(Response::MaybeEvent(Some(event))) => {
                assert!(matches!(event.kind, EventKind::MessageSent { .. }));
            }
            other => panic!("resolvable by uuid, got {other:?}"),
        },
        other => panic!("expected a long message to ship as a uuid, got {other:?}"),
    }
}

#[test]
fn the_limit_of_what_is_inlined() {
    let mut board = Board::new();
    let (admin, general) = (board.user_by_name("admin").id, board.general());
    let (_, mut sub) = board.subscribe(None, vec![Tag::Conv(general)], 8);
    board.commit(said(general, admin, "x"), 15);
    assert!(matches!(sub.try_recv(), Ok(Delivery::Inline(_))));
    board.commit(said(general, admin, "x"), 16);
    assert!(matches!(sub.try_recv(), Ok(Delivery::Id(_))));
}

/// Subscriptions are by tag: an event in another conversation must not reach a
/// session that is not watching it.
#[test]
fn untagged_events_do_not_reach_a_session() {
    let mut board = Board::new();
    let admin = board.user_by_name("admin");
    let general = board.general();
    // A second channel of our own, rather than relying on whatever happens to
    // exist on a fresh board.
    let elsewhere = board.next_id("conv");
    board.commit(
        EventKind::ConvCreated {
            conv: elsewhere,
            kind: ConvKind::Channel,
            name: "elsewhere".to_string(),
        },
        14,
    );
    let (_, mut sub) = board.subscribe(None, vec![Tag::Conv(general)], 8);
    board.commit(said(elsewhere, admin.id, "not for you"), 15);
    board.commit(said(general, admin.id, "for you"), 11);

    // The first thing to arrive must be the one that was tagged for us.
    match sub.try_recv().expect("delivery") {
        Delivery::Inline(Payload::Event(event)) => match event.kind {
            EventKind::MessageSent { conv, .. } => assert_eq!(conv, general),
            other => panic!("expected the #general message, got {other:?}"),
        },
        other => panic!("expected the #general message, got {other:?}"),
    }
}

/// Appending an event and updating the projections is one transaction, so a
/// read straight after a write always sees it.
#[test]
fn a_write_is_visible_to_the_next_read() {
    let mut board = Board::new();
    let conv = board.next_id("conv");
    board.commit(
        EventKind::ConvCreated { conv, kind: ConvKind::Channel, name: "fresh".to_string() },
        9,
    );
    match board.ask(Request::ConversationByName("fresh".to_string())) {
        Ok(Response::MaybeConversation(found)) => {
            assert_eq!(found.map(|c| c.id), Some(conv));
        }
        other => panic!("{other:?}"),
    }
}

/// What is found is what was created.
#[test]
fn a_created_conversation_is_found() {
    let mut board = Board::new();
    let conv = board.next_id("conv");
    let name = "Fresh".to_string();
    board.commit(EventKind::ConvCreated { conv, kind: ConvKind::Group, name }, 9);
    let created = board.at;
    for request in [Request::Conversation(conv), Request::ConversationByName("fresh".to_string())] {
        match board.ask(request) {
            Ok(Response::MaybeConversation(Some(found))) => {
                assert_eq!((found.id, found.kind), (conv, ConvKind::Group));
                assert_eq!((found.name.as_str(), found.topic.as_str()), ("Fresh", ""));
                assert_eq!(found.created_at, created);
            }
            other => panic!("{other:?}"),
        }
    }
}

#[test]
fn a_refused_commit_reaches_nobody() {
    let mut board = Board::new();
    let general = board.general();
    let (_, mut sub) = board.subscribe(None, vec![Tag::Conv(general)], 8);
    let request = Request::Commit { actor: None, kind: said(general, 99, "ghost") };
    match board.ask(request) {
        Err(StoreError::MissingReference) => {}
        other => panic!("{other:?}"),
    }
    assert!(sub.try_recv().is_err());
}

/// A session that fell behind is told how much it missed before it gets
/// anything else.
#[test]
fn a_resync_comes_before_anything_else() {
    let mut board = Board::new();
    let (admin, general) = (board.user_by_name("admin").id, board.general());
    let (_, mut sub) = board.subscribe(None, vec![Tag::Conv(general)], 2);
    for _ in 0..5 {
        board.commit(said(general, admin, "x"), 5);
    }
    assert!(matches!(sub.try_recv(), Ok(Delivery::Inline(_))));
    assert!(matches!(sub.try_recv(), Ok(Delivery::Inline(_))));
    assert!(sub.try_recv().is_err());
    board.commit(said(general, admin, "y"), 5);
    assert!(matches!(sub.try_recv(), Ok(Delivery::Resync { missed: 3 })));
    assert!(matches!(sub.try_recv(), Ok(Delivery::Inline(_))));
}

#[test]
fn outcomes_of_an_attempt_to_send() {
    let full = settle(4, Outcome::Full);
    assert_eq!((full.missed, full.alive), (5, true));
    let closed = settle(4, Outcome::Closed);
    assert!(!closed.alive);
}

#[test]
fn a_closed_session_is_forgotten() {
    let mut board = Board::new();
    let (admin, general) = (board.user_by_name("admin").id, board.general());
    let (_, sub) = board.subscribe(None, vec![Tag::Conv(general)], 2);
    drop(sub);
    assert_eq!(board.bus.subs.len(), 1);
    board.commit(said(general, admin, "x"), 5);
    assert_eq!(board.bus.subs.len(), 0);
}

fn presence(delivery: Delivery) -> (i64, bool) {
    match delivery {
        Delivery::Inline(Payload::Signal(Signal::Presence { user, online })) => (user, online),
        other => panic!("{other:?}"),
    }
}

#[test]
fn presence_follows_subscriptions() {
    let mut board = Board::new();
    let admin = board.user_by_name("admin").id;
    let (_, mut watcher) = board.subscribe(None, vec![Tag::Presence], 8);
    let (first, _rx) = board.subscribe(Some(admin), vec![], 8);
    assert_eq!(presence(watcher.try_recv().unwrap()), (admin, true));
    assert!(board.user_by_name("admin").online);
    let (flow, reply) = board.send(BusMsg::Unsubscribe { id: first }, 0);
    assert!(matches!(flow, Flow::Continue) && reply.is_none());
    assert_eq!(presence(watcher.try_recv().unwrap()), (admin, false));
    let gone = board.user_by_name("admin");
    assert!(!gone.online);
    assert_eq!(gone.last_seen, board.at - 1);
}

/// The first subscription of someone announces them, to itself too, and the end
/// of the last one tells that they are gone.
#[test]
fn arrivals_and_departures_are_published_once() {
    let mut board = Board::new();
    let admin = board.user_by_name("admin").id;
    let (_, mut watcher) = board.subscribe(None, vec![Tag::Presence], 8);
    let (first, mut own) = board.subscribe(Some(admin), vec![Tag::User(admin)], 8);
    assert_eq!(presence(own.try_recv().unwrap()), (admin, true));
    assert_eq!(presence(watcher.try_recv().unwrap()), (admin, true));
    let (second, mut other) = board.subscribe(Some(admin), vec![Tag::Presence], 8);
    assert!(second > first);
    assert!(watcher.try_recv().is_err() && other.try_recv().is_err());
    let seen = board.user_by_name("admin").last_seen;
    board.send(BusMsg::Unsubscribe { id: first }, 0);
    assert!(watcher.try_recv().is_err());
    let user = board.user_by_name("admin");
    assert_eq!((user.online, user.last_seen), (true, seen));
    board.send(BusMsg::Unsubscribe { id: second }, 0);
    let left = board.at;
    assert_eq!(presence(watcher.try_recv().unwrap()), (admin, false));
    let user = board.user_by_name("admin");
    assert_eq!((user.online, user.last_seen), (false, left));
    // An id is not given out again.
    assert!(board.subscribe(None, vec![], 8).0 > second);
}

#[test]
fn a_stamp_carries_its_time() {
    let stamp = Stamp::new(NOW, 7);
    assert_eq!((stamp.at, stamp.encoded_len), (NOW, 7));
    assert_eq!(stamp.id.bits >> 80, NOW as u128);
}

#[test]
fn a_session_can_watch_something_else() {
    let mut board = Board::new();
    let (admin, general) = (board.user_by_name("admin").id, board.general());
    let (id, mut sub) = board.subscribe(None, vec![Tag::Roles], 8);
    board.commit(said(general, admin, "x"), 5);
    assert!(sub.try_recv().is_err());
    board.send(BusMsg::Retag { id, tags: vec![Tag::Conv(general)] }, 0);
    board.commit(said(general, admin, "x"), 5);
    assert!(sub.try_recv().is_ok());
}

#[test]
fn shutting_down_stops_the_owner() {
    let mut board = Board::new();
    let (flow, reply) = board.send(BusMsg::Shutdown, 0);
    assert!(matches!(flow, Flow::Stop) && reply.is_none());
}

#[test]
fn reads_are_announced() {
    let mut board = Board::new();
    let (admin, general) = (board.user_by_name("admin").id, board.general());
    let (_, mut sub) = board.subscribe(None, vec![Tag::Conv(general)], 8);
    let request =
        Request::Messages { conv: general, before: None, limit: 10, reader: Some(admin) };
    assert!(matches!(board.ask(request), Ok(Response::Messages(_))));
    match sub.try_recv() {
        Ok(Delivery::Inline(Payload::Signal(Signal::Read { user, conv }))) => {
            assert_eq!((user, conv), (admin, Some(general)));
        }
        other => panic!("{other:?}"),
    }
}

#[test]
fn every_request_has_its_answer() {
    let mut board = Board::new();
    let (admin, general) = (board.user_by_name("admin").id, board.general());
    assert!(matches!(board.ask(Request::Notify(Signal::Typing { user: admin, conv: general })), Ok(Response::Unit)));
    assert!(matches!(board.ask(Request::Conversation(general)), Ok(Response::MaybeConversation(Some(_)))));
    assert!(matches!(board.ask(Request::User(admin)), Ok(Response::MaybeUser(Some(_)))));
    assert!(matches!(board.ask(Request::TouchLastSeen(admin)), Ok(Response::Unit)));
    match board.ask(Request::Conversations { user: admin }) {
        Ok(Response::Conversations(convs)) => assert_eq!(convs[0].id, general),
        other => panic!("{other:?}"),
    }
    match board.ask(Request::Users) {
        Ok(Response::Users(users)) => assert_eq!(users.len(), 1),
        other => panic!("{other:?}"),
    }
    match board.ask(Request::Roles) {
        Ok(Response::Roles(roles)) => assert_eq!(roles[0].name, "sysop"),
        other => panic!("{other:?}"),
    }
    match board.ask(Request::LogDump(2)) {
        Ok(Response::Events(events)) => assert_eq!(events.len(), 2),
        other => panic!("{other:?}"),
    }
    match board.ask(Request::UserKeys) {
        Ok(Response::UserKeys(keys)) => assert!(keys.is_empty()),
        other => panic!("{other:?}"),
    }
    let set = Request::SetSetting { key: "k".to_string(), value: vec![7] };
    assert!(matches!(board.ask(set), Ok(Response::Unit)));
    match board.ask(Request::Setting("k".to_string())) {
        Ok(Response::Setting(value)) => assert_eq!(value, Some(vec![7])),
        other => panic!("{other:?}"),
    }
    assert!(matches!(board.ask(Request::ClearSetting("k".to_string())), Ok(Response::Unit)));
    match board.ask(Request::Setting("k".to_string())) {
        Ok(Response::Setting(value)) => assert_eq!(value, None),
        other => panic!("{other:?}"),
    }
    match board.ask(Request::Replay { tags: vec![Tag::Directory], since: None }) {
        Ok(Response::Replay { events, truncated }) => {
            assert!(!events.is_empty() && !truncated);
        }
        other => panic!("{other:?}"),
    }
    match board.ask(Request::Members(general)) {
        Ok(Response::Members(members)) => assert!(members.len() <= 1),
        other => panic!("{other:?}"),
    }
}
