use api_club_bot::sender::{push_decimal, sender_uid, unhandled_note, Sender};

#[test]
fn uid_prefers_username() {
    let s = Some(Sender { id: 12345, username: Some("alice".to_string()) });
    assert_eq!(sender_uid(&s), "alice");
    let s = Some(Sender { id: 12345, username: None });
    assert_eq!(sender_uid(&s), "12345");
    assert_eq!(sender_uid(&None), "");
}

#[test]
fn decimal_digits() {
    let mut out = String::from("n=");
    push_decimal(&mut out, 0);
    assert_eq!(out, "n=0");
    let mut out = String::new();
    push_decimal(&mut out, u64::MAX);
    assert_eq!(out, u64::MAX.to_string());
}

#[test]
fn notes_for_unhandled_messages() {
    let who = Some(Sender { id: 9, username: Some("bob".to_string()) });
    assert_eq!(
        unhandled_note(&who, Some("hi")),
        Some("Message from user @bob:\n~~> Text: hi".to_string())
    );
    let anon = Some(Sender { id: 9, username: None });
    assert_eq!(
        unhandled_note(&anon, Some("a\nb")),
        Some("Message from user id#9:\n~~> Text:\na\nb".to_string())
    );
    assert_eq!(
        unhandled_note(&None, Some("one\n")),
        Some("Message from undefined:\n~~> Text: one\n".to_string())
    );
    assert_eq!(unhandled_note(&who, None), None);
}
