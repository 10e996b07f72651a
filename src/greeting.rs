//! Greeting new members: the greeting's text, and its removal after a fixed
//! delay.
use vstd::prelude::*;
use crate::sender::decimal;

verus! {

/// How long a greeting stays, in seconds.
pub const GREETING_LIFETIME_SECS: u64 = 900;

/// `s` with `&`, `<` and `>` written as HTML entities.
pub open spec fn html_escaped(s: Seq<char>) -> Seq<char>
    decreases s.len(),
{
    if s.len() == 0 {
        s
    } else {
        (if s[0] == '&' {
            "&amp;"@
        } else if s[0] == '<' {
            "&lt;"@
        } else if s[0] == '>' {
            "&gt;"@
        } else {
            seq![s[0]]
        }) + html_escaped(s.drop_first())
    }
}

/// Relies on `teloxide::utils::html::bold`: wraps the text in `<b>` tags.
#[verifier::external_body]
fn html_bold(s: &str) -> (r: String)
    ensures
        r@ == "<b>"@ + s@ + "</b>"@,
{
    teloxide::utils::html::bold(s)
}

/// Relies on `teloxide::utils::html::italic`: wraps the text in `<i>` tags.
#[verifier::external_body]
fn html_italic(s: &str) -> (r: String)
    ensures
        r@ == "<i>"@ + s@ + "</i>"@,
{
    teloxide::utils::html::italic(s)
}

/// Relies on `teloxide::utils::html::user_mention`: a link to the user's
/// `tg://user?id=` address, its text HTML-escaped.
#[verifier::external_body]
fn html_user_mention(user_id: u64, text: &str) -> (r: String)
    ensures
        r@ == "<a href=\"tg://user?id="@ + decimal(user_id as nat) + "\">"@ + html_escaped(text@)
            + "</a>"@,
{
    teloxide::utils::html::user_mention(teloxide::types::UserId(user_id), text)
}

/// The greeting for a new member, as HTML.
pub open spec fn greeting_of(user_id: u64, name: Seq<char>) -> Seq<char> {
    "<i>\u{1f3b6} ~ Welcome aboard</i>, "@ + "<b>"@ + ("<a href=\"tg://user?id="@ + decimal(
        user_id as nat,
    ) + "\">"@ + html_escaped(name) + "</a>"@) + "</b>"@ + "!"@
}

pub fn greeting_text(user_id: u64, name: &str) -> (r: String)
    ensures
        r@ == greeting_of(user_id, name@),
{
    let mut out = html_italic("\u{1f3b6} ~ Welcome aboard");
    out.append(", ");
    let mention = html_user_mention(user_id, name);
    let b = html_bold(mention.as_str());
    out.append(b.as_str());
    out.append("!");
    proof {
        reveal_strlit("<i>");
        reveal_strlit("</i>");
        reveal_strlit("\u{1f3b6} ~ Welcome aboard");
        reveal_strlit("<i>\u{1f3b6} ~ Welcome aboard</i>, ");
        reveal_strlit(", ");
    }
    assert(out@ =~= greeting_of(user_id, name@));
    out
}

/// A sent greeting, to be deleted once its time is up.
#[derive(Clone, Copy, Debug, PartialEq, Eq, Structural)]
pub struct PendingDeletion {
    pub chat_id: i64,
    pub message_id: i32,
    /// When to delete it, in seconds on the caller's clock.
    pub due_at: u64,
}

/// The deletion scheduled for a greeting sent at `sent_at`.
pub open spec fn scheduled(chat_id: i64, message_id: i32, sent_at: u64) -> PendingDeletion {
    PendingDeletion { chat_id, message_id, due_at: (sent_at + GREETING_LIFETIME_SECS) as u64 }
}

/// Whether a pending deletion is carried out at time `now`.
pub open spec fn due(p: PendingDeletion, now: u64) -> bool {
    now >= p.due_at
}

/// Schedules the deletion of a greeting sent at `sent_at`.
pub fn schedule_deletion(chat_id: i64, message_id: i32, sent_at: u64) -> (r: PendingDeletion)
    requires
        sent_at <= u64::MAX - GREETING_LIFETIME_SECS,
    ensures
        r == scheduled(chat_id, message_id, sent_at),
{
    PendingDeletion { chat_id, message_id, due_at: sent_at + GREETING_LIFETIME_SECS }
}

impl PendingDeletion {
    /// Whether the greeting is to be deleted at time `now`.
    pub fn is_due(&self, now: u64) -> (r: bool)
        ensures
            r == due(*self, now),
    {
        now >= self.due_at
    }
}

/// A greeting's deletion removes that greeting and no other message, is not
/// carried out at any time before its lifetime has passed, and is carried out
/// at every time from then on.
pub proof fn lemma_greeting_lifetime(chat_id: i64, message_id: i32, sent_at: u64, now: u64)
    requires
        sent_at <= u64::MAX - GREETING_LIFETIME_SECS,
    ensures
        scheduled(chat_id, message_id, sent_at).chat_id == chat_id,
        scheduled(chat_id, message_id, sent_at).message_id == message_id,
        due(scheduled(chat_id, message_id, sent_at), now) <==> now >= sent_at
            + GREETING_LIFETIME_SECS,
{
}

} // verus!
