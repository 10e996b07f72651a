use api_club_bot::router::{partition_key, route, ChatKind, Command, Event, Handler};

fn msg(kind: ChatKind, command: Option<Command>) -> Event {
    Event::Message { chat_id: 7, kind, command }
}

#[test]
fn notices_are_deleted_everywhere() {
    for kind in [ChatKind::Private, ChatKind::Group, ChatKind::Supergroup, ChatKind::Channel] {
        let e = Event::MembershipChanged { chat_id: 1, kind, message_id: 3 };
        assert_eq!(route(e, false), Handler::DeleteNotice);
        assert_eq!(route(e, true), Handler::DeleteNotice);
    }
}

#[test]
fn newcomers_are_greeted_in_groups() {
    let e = |kind, was_left, now_present| Event::MemberTransition {
        chat_id: 1,
        kind,
        was_left,
        now_present,
    };
    assert_eq!(route(e(ChatKind::Supergroup, true, true), false), Handler::Greet);
    assert_eq!(route(e(ChatKind::Group, true, true), false), Handler::Greet);
    assert_eq!(route(e(ChatKind::Private, true, true), false), Handler::Ignore);
    assert_eq!(route(e(ChatKind::Supergroup, false, true), false), Handler::Ignore);
    assert_eq!(route(e(ChatKind::Supergroup, true, false), false), Handler::Ignore);
}

#[test]
fn private_messages() {
    assert_eq!(route(msg(ChatKind::Private, None), false), Handler::LogUnhandled);
    assert_eq!(route(msg(ChatKind::Private, Some(Command::Request)), false), Handler::Dialogue);
    assert_eq!(route(msg(ChatKind::Private, Some(Command::Help)), false), Handler::Help);
    assert_eq!(route(msg(ChatKind::Private, Some(Command::Start)), false), Handler::Help);
    assert_eq!(route(msg(ChatKind::Private, Some(Command::Version)), false), Handler::Version);
    assert_eq!(route(msg(ChatKind::Private, Some(Command::Help)), true), Handler::Dialogue);
    assert_eq!(route(msg(ChatKind::Private, None), true), Handler::Dialogue);
}

#[test]
fn group_messages_are_ignored() {
    assert_eq!(route(msg(ChatKind::Group, Some(Command::Request)), false), Handler::Ignore);
    assert_eq!(route(msg(ChatKind::Supergroup, None), true), Handler::Ignore);
}

#[test]
fn partition_keys() {
    assert_eq!(partition_key(msg(ChatKind::Private, None)), Some(7));
    assert_eq!(partition_key(msg(ChatKind::Group, None)), Some(7));
    assert_eq!(partition_key(msg(ChatKind::Supergroup, None)), None);
    assert_eq!(partition_key(msg(ChatKind::Channel, None)), None);
}
