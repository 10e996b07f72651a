//! Who sent a message: the id stored with a request, and the note that
//! records a direct message no handler took.
use vstd::prelude::*;
use crate::record::{is_digit, is_plain};
use crate::text::chars_of;

verus! {

/// The sender of a message.
pub struct Sender {
    pub id: u64,
    pub username: Option<String>,
}

pub open spec fn digit_char(d: nat) -> char {
    if d == 0 {
        '0'
    } else if d == 1 {
        '1'
    } else if d == 2 {
        '2'
    } else if d == 3 {
        '3'
    } else if d == 4 {
        '4'
    } else if d == 5 {
        '5'
    } else if d == 6 {
        '6'
    } else if d == 7 {
        '7'
    } else if d == 8 {
        '8'
    } else {
        '9'
    }
}

/// The decimal digits of `n`, most significant first, no leading zeros.
pub open spec fn decimal(n: nat) -> Seq<char>
    decreases n,
{
    if n < 10 {
        seq![digit_char(n)]
    } else {
        decimal(n / 10) + seq![digit_char(n % 10)]
    }
}

fn digit(d: u64) -> (c: char)
    requires
        d < 10,
    ensures
        c == digit_char(d as nat),
{
    if d == 0 {
        '0'
    } else if d == 1 {
        '1'
    } else if d == 2 {
        '2'
    } else if d == 3 {
        '3'
    } else if d == 4 {
        '4'
    } else if d == 5 {
        '5'
    } else if d == 6 {
        '6'
    } else if d == 7 {
        '7'
    } else if d == 8 {
        '8'
    } else {
        '9'
    }
}

/// Appends the decimal digits of `n` to `out`.
pub fn push_decimal(out: &mut String, n: u64)
    ensures
        final(out)@ == old(out)@ + decimal(n as nat),
    decreases n,
{
    if n >= 10 {
        push_decimal(out, n / 10);
    }
    out.push(digit(n % 10));
    assert(final(out)@ =~= old(out)@ + decimal(n as nat));
}

/// The id stored with a request: the username where there is one, else the
/// numeric id; empty for a message without a sender.
pub open spec fn uid_of(s: &Option<Sender>) -> Seq<char> {
    match s {
        Some(u) => match &u.username {
            Some(n) => n@,
            None => decimal(u.id as nat),
        },
        None => Seq::empty(),
    }
}

pub fn sender_uid(from: &Option<Sender>) -> (r: String)
    ensures
        r@ == uid_of(from),
{
    let mut out = String::new();
    match from {
        Some(u) => match &u.username {
            Some(n) => out.append(n.as_str()),
            None => push_decimal(&mut out, u.id),
        },
        None => {},
    }
    assert(out@ =~= uid_of(from));
    out
}

/// How a log note names a sender.
pub open spec fn who(s: &Option<Sender>) -> Seq<char> {
    match s {
        Some(u) => match &u.username {
            Some(n) => "user @"@ + n@,
            None => "user id#"@ + decimal(u.id as nat),
        },
        None => "undefined"@,
    }
}

/// At most one line: no line end but perhaps a last one.
pub open spec fn one_line(s: Seq<char>) -> bool {
    forall|i: int| 0 <= i < s.len() - 1 ==> #[trigger] s[i] != '\n'
}

/// The note for a direct message that no handler took: the sender, then the
/// text after a header, on the header's line where the text is one line.
/// Messages without text give no note.
pub open spec fn note_of(from: &Option<Sender>, text: Option<Seq<char>>) -> Option<Seq<char>> {
    match text {
        Some(t) => Some(
            "Message from "@ + who(from) + ":\n~~> Text:"@ + (if one_line(t) {
                " "@
            } else {
                "\n"@
            }) + t,
        ),
        None => None,
    }
}

fn is_one_line(t: &str) -> (r: bool)
    ensures
        r == one_line(t@),
{
    let v = chars_of(t);
    let mut i: usize = 0;
    while i < v.len() && i + 1 < v.len()
        invariant
            v@ == t@,
            i <= v.len(),
            forall|k: int| 0 <= k < i ==> v@[k] != '\n',
        decreases v.len() - i,
    {
        if v[i] == '\n' {
            return false;
        }
        i = i + 1;
    }
    true
}

pub fn unhandled_note(from: &Option<Sender>, text: Option<&str>) -> (r: Option<String>)
    ensures
        match r {
            Some(s) => note_of(from, match text {
                Some(t) => Some(t@),
                None => None,
            }) == Some(s@),
            None => text is None,
        },
{
    let t = match text {
        Some(t) => t,
        None => return None,
    };
    let mut out = String::new();
    out.append("Message from ");
    match from {
        Some(u) => match &u.username {
            Some(n) => {
                out.append("user @");
                out.append(n.as_str());
            },
            None => {
                out.append("user id#");
                push_decimal(&mut out, u.id);
            },
        },
        None => out.append("undefined"),
    }
    out.append(":\n~~> Text:");
    if is_one_line(t) {
        out.append(" ");
    } else {
        out.append("\n");
    }
    out.append(t);
    assert(out@ =~= note_of(from, Some(t@))->0);
    Some(out)
}

proof fn lemma_decimal_digits(n: nat)
    ensures
        forall|i: int| 0 <= i < decimal(n).len() ==> is_digit(#[trigger] decimal(n)[i]),
    decreases n,
{
    let d = if n < 10 {
        n
    } else {
        n % 10
    };
    assert(is_digit(digit_char(d))) by {
        assert('0' as u32 == 48 && '9' as u32 == 57);
        assert('1' as u32 == 49 && '2' as u32 == 50 && '3' as u32 == 51 && '4' as u32 == 52);
        assert('5' as u32 == 53 && '6' as u32 == 54 && '7' as u32 == 55 && '8' as u32 == 56);
    }
    if n >= 10 {
        lemma_decimal_digits(n / 10);
        let p = decimal(n / 10);
        assert forall|i: int| 0 <= i < decimal(n).len() implies is_digit(
            #[trigger] decimal(n)[i],
        ) by {
            if i < p.len() {
                assert(decimal(n)[i] == p[i]);
            } else {
                assert(decimal(n)[i] == digit_char(d));
            }
        }
    }
}

/// A sender id is a plain log field where the username, if any, is one: a
/// numeric id always is.
pub proof fn lemma_uid_plain(from: &Option<Sender>)
    requires
        from matches Some(u) && u.username matches Some(n) ==> is_plain(n@),
    ensures
        is_plain(uid_of(from)),
{
    if let Some(u) = from {
        if u.username is None {
            lemma_decimal_digits(u.id as nat);
        }
    }
}

} // verus!
