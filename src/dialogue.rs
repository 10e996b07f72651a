//! The request dialogue: a pure step function from the chat's state and one
//! incoming message to the next state, the replies, and what to store.
use vstd::prelude::*;
use crate::router::{route, routed, ChatKind, Command, Event, Handler};
use crate::text::{is_stored_text, lemma_sanitized_is_stored, same_text, sanitize, sanitized};

verus! {

/// Where a chat stands in the request dialogue.
#[derive(Clone, Debug)]
pub enum State {
    Start,
    RequestArtist,
    RequestSong { artist: String },
    RequestLink { artist: String, song: String },
}

/// The mathematical value of a `State`: stored fields as character sequences.
pub enum Phase {
    Start,
    RequestArtist,
    RequestSong { artist: Seq<char> },
    RequestLink { artist: Seq<char>, song: Seq<char> },
}

impl View for State {
    type V = Phase;

    open spec fn view(&self) -> Phase {
        match self {
            State::Start => Phase::Start,
            State::RequestArtist => Phase::RequestArtist,
            State::RequestSong { artist } => Phase::RequestSong { artist: artist@ },
            State::RequestLink { artist, song } => Phase::RequestLink {
                artist: artist@,
                song: song@,
            },
        }
    }
}

impl Default for State {
    fn default() -> (r: State)
        ensures
            r@ == Phase::Start,
    {
        State::Start
    }
}

/// A reply to send back to the chat.
#[derive(Clone, Copy, Debug, PartialEq, Eq, Structural)]
pub enum Reply {
    /// The sender already has this many stored requests.
    PriorRequests(usize),
    AskArtist,
    AskSong,
    AskLink,
    /// A message without text arrived where text is needed.
    PlainTextPlease,
    Cancelled,
    Requested,
    /// Storing the request failed; the last message may be sent again.
    StoreFailed,
}

/// A finished request, before it is stamped and stored.
pub struct Entry {
    pub artist: String,
    pub song: String,
    pub link: String,
}

pub struct EntryView {
    pub artist: Seq<char>,
    pub song: Seq<char>,
    pub link: Seq<char>,
}

impl View for Entry {
    type V = EntryView;

    open spec fn view(&self) -> EntryView {
        EntryView { artist: self.artist@, song: self.song@, link: self.link@ }
    }
}

/// The outcome of one dialogue step.
pub struct Step {
    pub next: State,
    pub replies: Vec<Reply>,
    pub entry: Option<Entry>,
}

pub struct StepView {
    pub next: Phase,
    pub replies: Seq<Reply>,
    pub entry: Option<EntryView>,
}

impl View for Step {
    type V = StepView;

    open spec fn view(&self) -> StepView {
        StepView {
            next: self.next@,
            replies: self.replies@,
            entry: match self.entry {
                Some(e) => Some(e@),
                None => None,
            },
        }
    }
}

pub open spec fn cancel_word() -> Seq<char> {
    seq!['/', 'c', 'a', 'n', 'c', 'e', 'l']
}

pub open spec fn done_word() -> Seq<char> {
    seq!['/', 'd', 'o', 'n', 'e']
}

/// The text of a message, if it has one.
pub open spec fn text_view(t: Option<&str>) -> Option<Seq<char>> {
    match t {
        Some(s) => Some(s@),
        None => None,
    }
}

/// The link field stored for the text sent at the link prompt: empty for no
/// text, an empty text or the done marker.
pub open spec fn link_for(t: Option<Seq<char>>) -> Seq<char> {
    match t {
        Some(s) => if s.len() == 0 || s == done_word() {
            Seq::empty()
        } else {
            sanitized(s)
        },
        None => Seq::empty(),
    }
}

/// What the cancel word does in any state but the start.
pub open spec fn cancelled() -> StepView {
    StepView { next: Phase::Start, replies: seq![Reply::Cancelled], entry: None }
}

/// The transition table. `prior` is the sender's number of stored requests,
/// read only when a dialogue begins.
pub open spec fn transition(p: Phase, t: Option<Seq<char>>, prior: nat) -> StepView {
    let cancel = t == Some(cancel_word());
    match p {
        Phase::Start => StepView {
            next: Phase::RequestArtist,
            replies: if prior > 0 {
                seq![Reply::PriorRequests(prior as usize), Reply::AskArtist]
            } else {
                seq![Reply::AskArtist]
            },
            entry: None,
        },
        Phase::RequestArtist => if cancel {
            cancelled()
        } else {
            match t {
                Some(s) => StepView {
                    next: Phase::RequestSong { artist: sanitized(s) },
                    replies: seq![Reply::AskSong],
                    entry: None,
                },
                None => StepView { next: p, replies: seq![Reply::PlainTextPlease], entry: None },
            }
        },
        Phase::RequestSong { artist } => if cancel {
            cancelled()
        } else {
            match t {
                Some(s) => StepView {
                    next: Phase::RequestLink { artist, song: sanitized(s) },
                    replies: seq![Reply::AskLink],
                    entry: None,
                },
                None => StepView { next: p, replies: seq![Reply::PlainTextPlease], entry: None },
            }
        },
        Phase::RequestLink { artist, song } => if cancel {
            cancelled()
        } else {
            StepView {
                next: Phase::Start,
                replies: seq![Reply::Requested],
                entry: Some(EntryView { artist, song, link: link_for(t) }),
            }
        },
    }
}

pub open spec fn prior_count(prior: Option<usize>) -> nat {
    match prior {
        Some(n) => n as nat,
        None => 0,
    }
}

fn one_reply(r: Reply) -> (v: Vec<Reply>)
    ensures
        v@ == seq![r],
{
    let mut v: Vec<Reply> = Vec::new();
    v.push(r);
    assert(v@ =~= seq![r]);
    v
}

/// One dialogue step: the next state, the replies, and the finished request
/// to store, if any. `text` is the message's text (`None` for a message
/// without text); `prior` is the sender's count of stored requests, `None`
/// where it could not be read, which counts as none.
pub fn request_command(state: State, text: Option<&str>, prior: Option<usize>) -> (r: Step)
    ensures
        r@ == transition(state@, text_view(text), prior_count(prior)),
{
    proof {
        reveal_strlit("/cancel");
        reveal_strlit("/done");
        assert("/cancel"@ =~= cancel_word());
        assert("/done"@ =~= done_word());
    }
    let cancel = match text {
        Some(t) => same_text(t, "/cancel"),
        None => false,
    };
    match state {
        State::Start => {
            let mut replies: Vec<Reply> = Vec::new();
            if let Some(n) = prior {
                if n > 0 {
                    replies.push(Reply::PriorRequests(n));
                }
            }
            replies.push(Reply::AskArtist);
            proof {
                if prior_count(prior) > 0 {
                    assert(replies@ =~= seq![
                        Reply::PriorRequests(prior_count(prior) as usize),
                        Reply::AskArtist,
                    ]);
                } else {
                    assert(replies@ =~= seq![Reply::AskArtist]);
                }
            }
            Step { next: State::RequestArtist, replies, entry: None }
        },
        _ if cancel => Step {
            next: State::Start,
            replies: one_reply(Reply::Cancelled),
            entry: None,
        },
        State::RequestArtist => match text {
            Some(t) => Step {
                next: State::RequestSong { artist: sanitize(t) },
                replies: one_reply(Reply::AskSong),
                entry: None,
            },
            None => Step {
                next: State::RequestArtist,
                replies: one_reply(Reply::PlainTextPlease),
                entry: None,
            },
        },
        State::RequestSong { artist } => match text {
            Some(t) => Step {
                next: State::RequestLink { artist, song: sanitize(t) },
                replies: one_reply(Reply::AskLink),
                entry: None,
            },
            None => Step {
                next: State::RequestSong { artist },
                replies: one_reply(Reply::PlainTextPlease),
                entry: None,
            },
        },
        State::RequestLink { artist, song } => {
            let link = match text {
                Some(t) => {
                    if t.is_empty() || same_text(t, "/done") {
                        String::new()
                    } else {
                        sanitize(t)
                    }
                },
                None => String::new(),
            };
            Step {
                next: State::Start,
                replies: one_reply(Reply::Requested),
                entry: Some(Entry { artist, song, link }),
            }
        },
    }
}

/// Applies the outcome of storing a step's request. Where the step stored
/// nothing, or storing succeeded, the step's state and replies stand; where
/// storing failed, the chat keeps `prev` and is told to try again.
pub fn settle(prev: State, step: Step, stored: bool) -> (r: (State, Vec<Reply>))
    ensures
        step.entry is None || stored ==> r.0@ == step.next@ && r.1@ == step.replies@,
        step.entry is Some && !stored ==> r.0@ == prev@ && r.1@ == seq![Reply::StoreFailed],
{
    if step.entry.is_some() && !stored {
        (prev, one_reply(Reply::StoreFailed))
    } else {
        (step.next, step.replies)
    }
}

/// The state after a sequence of messages, one step of the table each.
pub open spec fn run(p: Phase, msgs: Seq<Option<Seq<char>>>, prior: nat) -> Phase
    decreases msgs.len(),
{
    if msgs.len() == 0 {
        p
    } else {
        run(transition(p, msgs[0], prior).next, msgs.drop_first(), prior)
    }
}

/// Every text a state holds is a stored free-text field.
pub open spec fn phase_ok(p: Phase) -> bool {
    match p {
        Phase::RequestSong { artist } => is_stored_text(artist),
        Phase::RequestLink { artist, song } => is_stored_text(artist) && is_stored_text(song),
        _ => true,
    }
}

/// A finished request holds stored fields; its link may be empty.
pub open spec fn entry_ok(e: EntryView) -> bool {
    is_stored_text(e.artist) && is_stored_text(e.song) && (e.link.len() == 0 || is_stored_text(
        e.link,
    ))
}

/// One step keeps the state's fields stored texts, and what it hands over
/// to store is a well-formed request.
pub proof fn lemma_step_ok(p: Phase, t: Option<Seq<char>>, prior: nat)
    requires
        phase_ok(p),
    ensures
        phase_ok(transition(p, t, prior).next),
        transition(p, t, prior).entry matches Some(e) ==> entry_ok(e),
{
    if let Some(s) = t {
        lemma_sanitized_is_stored(s);
    }
}

/// Any sequence of messages, from any well-formed state, is handled by the
/// table at every step and ends in a well-formed state; from the start every
/// state reached is well-formed.
pub proof fn lemma_run_ok(p: Phase, msgs: Seq<Option<Seq<char>>>, prior: nat)
    requires
        phase_ok(p),
    ensures
        phase_ok(run(p, msgs, prior)),
    decreases msgs.len(),
{
    if msgs.len() > 0 {
        lemma_step_ok(p, msgs[0], prior);
        lemma_run_ok(transition(p, msgs[0], prior).next, msgs.drop_first(), prior);
    }
}

/// The cancel word, in any state but the start, returns the chat to the start
/// and stores nothing.
pub proof fn lemma_cancel(p: Phase, prior: nat)
    requires
        !(p is Start),
    ensures
        transition(p, Some(cancel_word()), prior).next == Phase::Start,
        transition(p, Some(cancel_word()), prior).entry is None,
        transition(p, Some(cancel_word()), prior).replies == seq![Reply::Cancelled],
{
}

/// What a message in a one-to-one chat does to the chat: the dialogue step
/// where routing hands the message to the dialogue, nothing otherwise.
pub open spec fn chat_step(
    p: Phase,
    command: Option<Command>,
    t: Option<Seq<char>>,
    prior: nat,
) -> StepView {
    if routed(Event::Message { chat_id: 0, kind: ChatKind::Private, command }, !(p is Start))
        == Handler::Dialogue {
        transition(p, t, prior)
    } else {
        StepView { next: p, replies: seq![], entry: None }
    }
}

/// The state of a one-to-one chat after its messages, in arrival order, each
/// routed and handled, every store succeeding.
pub open spec fn chat_run(
    p: Phase,
    msgs: Seq<(Option<Command>, Option<Seq<char>>)>,
    prior: nat,
) -> Phase
    decreases msgs.len(),
{
    if msgs.len() == 0 {
        p
    } else {
        chat_run(chat_step(p, msgs[0].0, msgs[0].1, prior).next, msgs.drop_first(), prior)
    }
}

/// Handles a message of a one-to-one chat in `state`: routes it, and runs the
/// dialogue step where routing picks the dialogue; otherwise the state stays
/// and nothing is replied or stored.
pub fn handle_private(
    chat_id: i64,
    state: State,
    command: Option<Command>,
    text: Option<&str>,
    prior: Option<usize>,
) -> (r: Step)
    ensures
        r@ == chat_step(state@, command, text_view(text), prior_count(prior)),
{
    let in_dialogue = match state {
        State::Start => false,
        _ => true,
    };
    let e = Event::Message { chat_id, kind: ChatKind::Private, command };
    let h = route(e, in_dialogue);
    assert(routed(e, in_dialogue) == routed(
        Event::Message { chat_id: 0, kind: ChatKind::Private, command },
        in_dialogue,
    ));
    match h {
        Handler::Dialogue => request_command(state, text, prior),
        _ => Step { next: state, replies: Vec::new(), entry: None },
    }
}

/// Any sequence of messages in a one-to-one chat, from any well-formed state,
/// is handled at every step and leaves only well-formed states.
pub proof fn lemma_chat_run_ok(
    p: Phase,
    msgs: Seq<(Option<Command>, Option<Seq<char>>)>,
    prior: nat,
)
    requires
        phase_ok(p),
    ensures
        phase_ok(chat_run(p, msgs, prior)),
    decreases msgs.len(),
{
    if msgs.len() > 0 {
        lemma_step_ok(p, msgs[0].1, prior);
        lemma_chat_run_ok(chat_step(p, msgs[0].0, msgs[0].1, prior).next, msgs.drop_first(), prior);
    }
}

/// At the start, only the request command opens a dialogue; any other
/// message leaves the chat at the start.
pub proof fn lemma_start_needs_request(command: Option<Command>, t: Option<Seq<char>>, prior: nat)
    ensures
        chat_step(Phase::Start, command, t, prior).next == (if command == Some(Command::Request) {
            Phase::RequestArtist
        } else {
            Phase::Start
        }),
{
}

} // verus!
