use api_club_bot::greeting::{greeting_text, schedule_deletion, GREETING_LIFETIME_SECS};
use api_club_bot::router::{route, ChatKind, Event, Handler};

#[test]
fn greeting_markup() {
    assert_eq!(
        greeting_text(42, "Ann <&>"),
        "<i>\u{1f3b6} ~ Welcome aboard</i>, <b><a href=\"tg://user?id=42\">Ann &lt;&amp;&gt;</a></b>!"
    );
}

#[test]
fn newcomer_gets_one_greeting_deleted_after_delay() {
    let e = Event::MemberTransition { chat_id: -100, kind: ChatKind::Supergroup, was_left: true, now_present: true };
    assert_eq!(route(e, false), Handler::Greet);
    let start: u64 = 1_000;
    let pending = schedule_deletion(-100, 55, start);
    assert_eq!(pending.chat_id, -100);
    assert_eq!(pending.message_id, 55);
    assert_eq!(pending.due_at, start + 15 * 60);
    assert_eq!(GREETING_LIFETIME_SECS, 900);
    let mut deletions = 0;
    for now in start..start + 2_000 {
        if pending.is_due(now) {
            assert!(now >= start + 900);
            deletions += 1;
            break;
        }
    }
    assert_eq!(deletions, 1);
    assert!(!pending.is_due(start + 899));
    assert!(pending.is_due(start + 900));
}
