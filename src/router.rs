//! Which handler takes an incoming update, and which updates must be
//! handled one at a time per chat.
use vstd::prelude::*;

verus! {

/// The kind of chat an update comes from.
#[derive(Clone, Copy, Debug, PartialEq, Eq, Structural)]
pub enum ChatKind {
    Private,
    Group,
    Supergroup,
    Channel,
}

/// The commands offered in one-to-one chats.
#[derive(Clone, Copy, Debug, PartialEq, Eq, Structural)]
pub enum Command {
    Start,
    Help,
    Version,
    Request,
}

/// An incoming update, reduced to what routing reads.
#[derive(Clone, Copy, Debug, PartialEq, Eq, Structural)]
pub enum Event {
    /// A message; `command` is the command it spells, if any.
    Message { chat_id: i64, kind: ChatKind, command: Option<Command> },
    /// The service message that a member joined or left.
    MembershipChanged { chat_id: i64, kind: ChatKind, message_id: i32 },
    /// A member's status changed; `was_left` and `now_present` describe the
    /// old and the new status.
    MemberTransition { chat_id: i64, kind: ChatKind, was_left: bool, now_present: bool },
}

/// The handler an update goes to.
#[derive(Clone, Copy, Debug, PartialEq, Eq, Structural)]
pub enum Handler {
    /// Delete the join or leave notice.
    DeleteNotice,
    /// Greet the new member.
    Greet,
    Help,
    Version,
    /// The request dialogue.
    Dialogue,
    /// Record a direct message that nothing else takes.
    LogUnhandled,
    Ignore,
}

/// First match wins: notices are deleted; a member who was away and is now
/// present is greeted outside one-to-one chats; in a one-to-one chat a
/// dialogue in progress takes every message, and otherwise a command is run
/// and anything else is logged; nothing else is handled.
pub open spec fn routed(e: Event, in_dialogue: bool) -> Handler {
    match e {
        Event::MembershipChanged { .. } => Handler::DeleteNotice,
        Event::MemberTransition { kind, was_left, now_present, .. } => if kind != ChatKind::Private
            && was_left && now_present {
            Handler::Greet
        } else {
            Handler::Ignore
        },
        Event::Message { kind, command, .. } => if kind != ChatKind::Private {
            Handler::Ignore
        } else if in_dialogue {
            Handler::Dialogue
        } else {
            match command {
                Some(Command::Start) => Handler::Help,
                Some(Command::Help) => Handler::Help,
                Some(Command::Version) => Handler::Version,
                Some(Command::Request) => Handler::Dialogue,
                None => Handler::LogUnhandled,
            }
        },
    }
}

/// Picks the handler for `e`; `in_dialogue` says whether the chat's
/// dialogue state is other than the start.
pub fn route(e: Event, in_dialogue: bool) -> (r: Handler)
    ensures
        r == routed(e, in_dialogue),
{
    match e {
        Event::MembershipChanged { .. } => Handler::DeleteNotice,
        Event::MemberTransition { kind, was_left, now_present, .. } => {
            if kind != ChatKind::Private && was_left && now_present {
                Handler::Greet
            } else {
                Handler::Ignore
            }
        },
        Event::Message { kind, command, .. } => {
            if kind != ChatKind::Private {
                Handler::Ignore
            } else if in_dialogue {
                Handler::Dialogue
            } else {
                match command {
                    Some(Command::Start) => Handler::Help,
                    Some(Command::Help) => Handler::Help,
                    Some(Command::Version) => Handler::Version,
                    Some(Command::Request) => Handler::Dialogue,
                    None => Handler::LogUnhandled,
                }
            }
        },
    }
}

pub open spec fn chat_of(e: Event) -> (i64, ChatKind) {
    match e {
        Event::Message { chat_id, kind, .. } => (chat_id, kind),
        Event::MembershipChanged { chat_id, kind, .. } => (chat_id, kind),
        Event::MemberTransition { chat_id, kind, .. } => (chat_id, kind),
    }
}

/// The key under which updates are handled in order, one at a time: the
/// chat id, except for supergroups and channels, whose updates drive no
/// dialogue and may run in any order.
pub fn partition_key(e: Event) -> (r: Option<i64>)
    ensures
        r == (if chat_of(e).1 == ChatKind::Supergroup || chat_of(e).1 == ChatKind::Channel {
            None
        } else {
            Some(chat_of(e).0)
        }),
{
    let (chat_id, kind) = match e {
        Event::Message { chat_id, kind, .. } => (chat_id, kind),
        Event::MembershipChanged { chat_id, kind, .. } => (chat_id, kind),
        Event::MemberTransition { chat_id, kind, .. } => (chat_id, kind),
    };
    match kind {
        ChatKind::Supergroup | ChatKind::Channel => None,
        _ => Some(chat_id),
    }
}

} // verus!
