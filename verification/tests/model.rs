use newbbs::model::{any_shared, now_millis, stamp, ConvKind, Event, EventKind, Signal, Tag, Uuid};

#[test]
fn events_carry_the_tags_of_what_they_touch() {
    let sent = EventKind::MessageSent { conv: 4, author: 2, body: "hi".to_string() };
    assert_eq!(sent.tags(), vec![Tag::Conv(4), Tag::User(2)]);
    assert!(EventKind::MessageDeleted { message: Uuid { bits: 9 } }.tags().is_empty());
    let created =
        EventKind::ConvCreated { conv: 4, kind: ConvKind::Channel, name: "x".to_string() };
    assert!(created.tags().contains(&Tag::Directory));
    let granted = EventKind::RoleGranted { user: 2, role: 1 };
    assert_eq!(granted.tags(), vec![Tag::User(2), Tag::Roles]);
    assert_eq!(EventKind::RoleRemoved { role: 1 }.tags(), vec![Tag::Roles]);
    let event = Event { id: Uuid { bits: 1 }, at: 0, actor: None, kind: granted };
    assert_eq!(event.tags(), vec![Tag::User(2), Tag::Roles]);
}

#[test]
fn signals_carry_tags_too() {
    assert_eq!(
        Signal::Presence { user: 2, online: true }.tags(),
        vec![Tag::User(2), Tag::Presence]
    );
    assert_eq!(Signal::Typing { user: 2, conv: 4 }.tags(), vec![Tag::Conv(4)]);
    assert_eq!(Signal::Read { user: 2, conv: Some(4) }.tags(), vec![Tag::Conv(4)]);
    assert_eq!(Signal::Read { user: 2, conv: None }.tags(), vec![]);
}

#[test]
fn tags_in_common() {
    assert!(any_shared(&vec![Tag::Roles, Tag::Conv(1)], &vec![Tag::Conv(1)]));
    assert!(!any_shared(&vec![Tag::Conv(2)], &vec![Tag::Conv(1), Tag::User(2)]));
    assert!(!any_shared(&vec![], &vec![Tag::Roles]));
}

#[test]
fn stamps_are_milliseconds() {
    assert_eq!(stamp(Some(1_700_000_000_000)), 1_700_000_000_000);
    assert_eq!(stamp(None), 0);
    assert_eq!(stamp(Some(1 << 64)), 0);
    assert_eq!(stamp(Some((1 << 64) - 1)), -1);
    assert_eq!(stamp(Some(1 << 63)), i64::MIN);
    // Some time in this century.
    let now = now_millis();
    assert!(now > 946_684_800_000 && now < 4_102_444_800_000);
}
