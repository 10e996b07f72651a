use api_club_bot::dialogue::{handle_private, request_command, settle, Reply, State};
use api_club_bot::router::Command;

fn artist_of(s: &State) -> Option<String> {
    match s {
        State::RequestSong { artist } => Some(artist.clone()),
        _ => None,
    }
}

#[test]
fn full_request_from_fresh_chat() {
    let s = request_command(State::Start, Some("begin"), Some(0));
    assert!(matches!(s.next, State::RequestArtist));
    assert_eq!(s.replies, vec![Reply::AskArtist]);
    let s = request_command(s.next, Some("Daft Punk"), None);
    assert_eq!(artist_of(&s.next), Some("\"Daft Punk\"".to_string()));
    assert_eq!(s.replies, vec![Reply::AskSong]);
    let s = request_command(s.next, Some("One More Time"), None);
    match &s.next {
        State::RequestLink { artist, song } => {
            assert_eq!(artist, "\"Daft Punk\"");
            assert_eq!(song, "\"One More Time\"");
        }
        _ => panic!("expected the link prompt"),
    }
    assert_eq!(s.replies, vec![Reply::AskLink]);
    let s = request_command(s.next, Some("/done"), None);
    assert!(matches!(s.next, State::Start));
    assert_eq!(s.replies, vec![Reply::Requested]);
    let e = s.entry.expect("one record to store");
    assert_eq!(e.artist, "\"Daft Punk\"");
    assert_eq!(e.song, "\"One More Time\"");
    assert_eq!(e.link, "");
}

#[test]
fn artist_is_sanitized() {
    let s = request_command(State::Start, Some("begin"), None);
    let s = request_command(s.next, Some("  Artist   With   Spaces  "), None);
    assert_eq!(artist_of(&s.next), Some("\"Artist With Spaces\"".to_string()));
}

#[test]
fn prior_requests_are_announced() {
    let s = request_command(State::Start, None, Some(2));
    assert_eq!(s.replies, vec![Reply::PriorRequests(2), Reply::AskArtist]);
    let s = request_command(State::Start, None, None);
    assert_eq!(s.replies, vec![Reply::AskArtist]);
}

#[test]
fn cancel_from_every_dialogue_state() {
    let states = vec![
        State::RequestArtist,
        State::RequestSong { artist: "\"a\"".to_string() },
        State::RequestLink { artist: "\"a\"".to_string(), song: "\"s\"".to_string() },
    ];
    for st in states {
        let s = request_command(st, Some("/cancel"), None);
        assert!(matches!(s.next, State::Start));
        assert!(s.entry.is_none());
        assert_eq!(s.replies, vec![Reply::Cancelled]);
    }
}

#[test]
fn non_text_keeps_state() {
    let s = request_command(State::RequestArtist, None, None);
    assert!(matches!(s.next, State::RequestArtist));
    assert_eq!(s.replies, vec![Reply::PlainTextPlease]);
    let s = request_command(State::RequestSong { artist: "\"a\"".to_string() }, None, None);
    assert_eq!(artist_of(&s.next), Some("\"a\"".to_string()));
    assert_eq!(s.replies, vec![Reply::PlainTextPlease]);
}

#[test]
fn command_mid_dialogue_is_text() {
    let s = request_command(State::RequestArtist, Some("/request"), None);
    assert_eq!(artist_of(&s.next), Some("\"/request\"".to_string()));
}

#[test]
fn link_variants() {
    let link_state = || State::RequestLink { artist: "\"a\"".to_string(), song: "\"s\"".to_string() };
    let s = request_command(link_state(), None, None);
    assert_eq!(s.entry.unwrap().link, "");
    let s = request_command(link_state(), Some(""), None);
    assert_eq!(s.entry.unwrap().link, "");
    let s = request_command(link_state(), Some(" https://x.y/z "), None);
    assert_eq!(s.entry.unwrap().link, "\"https://x.y/z\"");
}

#[test]
fn failed_store_keeps_link_state() {
    let prev = State::RequestLink { artist: "\"a\"".to_string(), song: "\"s\"".to_string() };
    let step = request_command(
        State::RequestLink { artist: "\"a\"".to_string(), song: "\"s\"".to_string() },
        Some("/done"),
        None,
    );
    let (st, replies) = settle(prev, step, false);
    assert!(matches!(st, State::RequestLink { .. }));
    assert_eq!(replies, vec![Reply::StoreFailed]);
}

#[test]
fn successful_store_returns_to_start() {
    let prev = State::RequestLink { artist: "\"a\"".to_string(), song: "\"s\"".to_string() };
    let step = request_command(
        State::RequestLink { artist: "\"a\"".to_string(), song: "\"s\"".to_string() },
        Some("/done"),
        None,
    );
    let (st, replies) = settle(prev, step, true);
    assert!(matches!(st, State::Start));
    assert_eq!(replies, vec![Reply::Requested]);
}

#[test]
fn default_state_is_start() {
    assert!(matches!(State::default(), State::Start));
}

#[test]
fn private_chat_fold() {
    let msgs: Vec<(Option<Command>, Option<&str>)> = vec![
        (None, Some("hello")),
        (Some(Command::Help), Some("/help")),
        (Some(Command::Request), Some("/request")),
        (Some(Command::Help), Some("/help")),
        (None, None),
        (None, Some("One More Time")),
        (None, Some("/done")),
    ];
    let mut state = State::Start;
    let mut stored = Vec::new();
    for (command, text) in msgs {
        let step = handle_private(5, state, command, text, None);
        if let Some(e) = step.entry {
            stored.push((e.artist, e.song, e.link));
        }
        state = step.next;
    }
    assert!(matches!(state, State::Start));
    assert_eq!(
        stored,
        vec![("\"/help\"".to_string(), "\"One More Time\"".to_string(), "".to_string())]
    );
}

#[test]
fn start_ignores_other_messages() {
    let step = handle_private(5, State::Start, None, Some("begin"), Some(4));
    assert!(matches!(step.next, State::Start));
    assert!(step.replies.is_empty());
    let step = handle_private(5, State::Start, Some(Command::Version), Some("/ver"), None);
    assert!(matches!(step.next, State::Start));
    let step = handle_private(5, State::Start, Some(Command::Request), Some("/request"), Some(4));
    assert!(matches!(step.next, State::RequestArtist));
    assert_eq!(step.replies, vec![Reply::PriorRequests(4), Reply::AskArtist]);
}
