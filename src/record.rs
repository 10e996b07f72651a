//! The submission log: one line per request, fields in fixed order,
//! `timestamp,sender_id,"artist","song","link"`, the link empty when absent.
use vstd::prelude::*;
use crate::dialogue::{entry_ok, Entry, EntryView};
use crate::text::{chars_of, escape, is_space, is_stored_text, same_text, unquote};

verus! {

/// One stored request. `artist` and `song` are stored free-text fields
/// (quoted); `link` is one too, or empty.
pub struct Submission {
    pub timestamp: String,
    pub sender_id: String,
    pub artist: String,
    pub song: String,
    pub link: String,
}

pub struct SubmissionView {
    pub timestamp: Seq<char>,
    pub sender_id: Seq<char>,
    pub artist: Seq<char>,
    pub song: Seq<char>,
    pub link: Seq<char>,
}

impl View for Submission {
    type V = SubmissionView;

    open spec fn view(&self) -> SubmissionView {
        SubmissionView {
            timestamp: self.timestamp@,
            sender_id: self.sender_id@,
            artist: self.artist@,
            song: self.song@,
            link: self.link@,
        }
    }
}

/// The line that stores `v`, without its line end.
pub open spec fn encode(v: SubmissionView) -> Seq<char> {
    v.timestamp + seq![','] + v.sender_id + seq![','] + v.artist + seq![','] + v.song + seq![',']
        + v.link
}

/// A field written as it is: no separator, quote or line end in it.
pub open spec fn is_plain(s: Seq<char>) -> bool {
    forall|i: int| 0 <= i < s.len() ==> #[trigger] s[i] != ',' && s[i] != '"' && s[i] != '\n'
}

/// A record whose line reads back as the same record.
pub open spec fn record_ok(v: SubmissionView) -> bool {
    &&& is_plain(v.timestamp)
    &&& is_plain(v.sender_id)
    &&& is_stored_text(v.artist)
    &&& is_stored_text(v.song)
    &&& v.link.len() == 0 || is_stored_text(v.link)
}

/// The first `,` at or after `i`, or the length where there is none.
pub open spec fn find_comma(s: Seq<char>, i: int) -> int
    decreases s.len() - i,
{
    if i < 0 || i >= s.len() {
        s.len() as int
    } else if s[i] == ',' {
        i
    } else {
        find_comma(s, i + 1)
    }
}

/// Scanning a quoted field from `j`, just after its opening `"`: the
/// position after its closing `"`, reading `""` as an escaped quote; -1
/// where the line ends first.
pub open spec fn quoted_end(s: Seq<char>, j: int) -> int
    decreases s.len() - j,
{
    if j < 0 || j >= s.len() {
        -1
    } else if s[j] == '"' {
        if j + 1 < s.len() && s[j + 1] == '"' {
            quoted_end(s, j + 2)
        } else {
            j + 1
        }
    } else {
        quoted_end(s, j + 1)
    }
}

/// The record a line holds, if it is one.
pub open spec fn decode(s: Seq<char>) -> Option<SubmissionView> {
    let a = find_comma(s, 0);
    let b = find_comma(s, a + 1);
    let e1 = quoted_end(s, b + 2);
    let e2 = quoted_end(s, e1 + 2);
    if a < s.len() && b < s.len() && b + 1 < s.len() && s[b + 1] == '"' && 0 <= e1 < s.len()
        && s[e1] == ',' && e1 + 1 < s.len() && s[e1 + 1] == '"' && 0 <= e2 < s.len() && s[e2]
        == ',' && (e2 + 1 == s.len() || (s[e2 + 1] == '"' && quoted_end(s, e2 + 2) == s.len())) {
        Some(
            SubmissionView {
                timestamp: s.subrange(0, a),
                sender_id: s.subrange(a + 1, b),
                artist: s.subrange(b + 1, e1),
                song: s.subrange(e1 + 1, e2),
                link: s.subrange(e2 + 1, s.len() as int),
            },
        )
    } else {
        None
    }
}

/// The first second of the year 10000, in seconds since the Unix epoch:
/// before it every year has four digits.
pub const YEAR_10000_SECS: i64 = 253402300800;

/// The RFC 3339 text, in UTC with whole seconds and `Z`, of the instant
/// `secs` seconds after the Unix epoch.
pub uninterp spec fn rfc3339_of(secs: int) -> Seq<char>;

pub open spec fn is_digit(c: char) -> bool {
    48 <= (c as u32) <= 57
}

/// The shape `YYYY-MM-DDTHH:MM:SSZ`.
pub open spec fn is_rfc3339_secs(s: Seq<char>) -> bool {
    &&& s.len() == 20
    &&& s[4] == '-' && s[7] == '-' && s[10] == 'T' && s[13] == ':' && s[16] == ':' && s[19] == 'Z'
    &&& forall|i: int|
        0 <= i < 19 && i != 4 && i != 7 && i != 10 && i != 13 && i != 16 ==> is_digit(
            #[trigger] s[i],
        )
}

/// Relies on `chrono::DateTime::from_timestamp` (`None` only out of chrono's
/// range, which holds every instant of years 0 to 9999) and
/// `DateTime::to_rfc3339_opts` with whole seconds and `Z`, which writes digits,
/// `+`, `-`, `:`, `T` and `Z` only, a four-digit year without sign for years
/// 0 to 9999.
#[verifier::external_body]
fn format_utc_secs(secs: i64) -> (r: Option<String>)
    ensures
        0 <= secs < YEAR_10000_SECS ==> r is Some,
        r matches Some(s) ==> s@ == rfc3339_of(secs as int) && is_plain(s@),
        r matches Some(s) ==> (0 <= secs < YEAR_10000_SECS ==> is_rfc3339_secs(s@)),
{
    chrono::DateTime::from_timestamp(secs, 0).map(
        |t| t.to_rfc3339_opts(chrono::SecondsFormat::Secs, true),
    )
}

/// The submission for a finished request made at `now` (seconds since the
/// Unix epoch), with the fields as the dialogue handed them over; `None`
/// where the time cannot be written.
pub fn stamp(now: i64, sender_id: String, entry: Entry) -> (r: Option<Submission>)
    ensures
        0 <= now < YEAR_10000_SECS ==> r is Some,
        r matches Some(x) ==> {
            &&& x.timestamp@ == rfc3339_of(now as int)
            &&& is_plain(x.timestamp@)
            &&& (0 <= now < YEAR_10000_SECS ==> is_rfc3339_secs(x.timestamp@))
            &&& x.sender_id@ == sender_id@
            &&& x.artist@ == entry.artist@
            &&& x.song@ == entry.song@
            &&& x.link@ == entry.link@
        },
{
    match format_utc_secs(now) {
        Some(timestamp) => Some(
            Submission { timestamp, sender_id, artist: entry.artist, song: entry.song, link: entry.link },
        ),
        None => None,
    }
}

/// The line that stores `s`, with its line end.
pub fn encode_record(s: &Submission) -> (r: String)
    ensures
        r@ == encode(s@).push('\n'),
{
    let mut out = String::new();
    out.append(s.timestamp.as_str());
    out.push(',');
    out.append(s.sender_id.as_str());
    out.push(',');
    out.append(s.artist.as_str());
    out.push(',');
    out.append(s.song.as_str());
    out.push(',');
    out.append(s.link.as_str());
    out.push('\n');
    assert(out@ =~= encode(s@).push('\n'));
    out
}

fn next_comma(v: &Vec<char>, i: usize) -> (r: usize)
    requires
        i <= v.len(),
    ensures
        r as int == find_comma(v@, i as int),
        i <= r <= v.len(),
{
    let mut k = i;
    while k < v.len()
        invariant
            i <= k <= v.len(),
            find_comma(v@, k as int) == find_comma(v@, i as int),
        decreases v.len() - k,
    {
        if v[k] == ',' {
            return k;
        }
        k = k + 1;
    }
    k
}

/// Exec form of `quoted_end`; `None` stands for -1.
fn close_quote(v: &Vec<char>, j: usize) -> (r: Option<usize>)
    requires
        j <= v.len(),
    ensures
        match r {
            Some(e) => e as int == quoted_end(v@, j as int) && j < e <= v.len(),
            None => quoted_end(v@, j as int) == -1,
        },
{
    let mut k = j;
    while k < v.len()
        invariant
            j <= k,
            quoted_end(v@, k as int) == quoted_end(v@, j as int),
        decreases v.len() - k,
    {
        if v[k] == '"' {
            if k + 1 < v.len() && v[k + 1] == '"' {
                k = k + 2;
            } else {
                return Some(k + 1);
            }
        } else {
            k = k + 1;
        }
    }
    None
}

fn string_of(v: &Vec<char>, from: usize, to: usize) -> (r: String)
    requires
        from <= to <= v.len(),
    ensures
        r@ == v@.subrange(from as int, to as int),
{
    let mut out = String::new();
    let mut k = from;
    while k < to
        invariant
            from <= k <= to <= v.len(),
            out@ == v@.subrange(from as int, k as int),
        decreases to - k,
    {
        out.push(v[k]);
        assert(v@.subrange(from as int, k + 1) == v@.subrange(from as int, k as int).push(v@[k as int]));
        k = k + 1;
    }
    out
}

/// The record that `line` stores, or `None` where it is no record line.
pub fn parse_record(line: &str) -> (r: Option<Submission>)
    ensures
        match r {
            Some(x) => decode(line@) == Some(x@),
            None => decode(line@) is None,
        },
{
    let v = chars_of(line);
    let n = v.len();
    let a = next_comma(&v, 0);
    if a >= n {
        return None;
    }
    let b = next_comma(&v, a + 1);
    if b >= n || b + 1 >= n || v[b + 1] != '"' {
        return None;
    }
    let e1 = match close_quote(&v, b + 2) {
        Some(e) => e,
        None => return None,
    };
    if e1 >= n || v[e1] != ',' || e1 + 1 >= n || v[e1 + 1] != '"' {
        return None;
    }
    let e2 = match close_quote(&v, e1 + 2) {
        Some(e) => e,
        None => return None,
    };
    if e2 >= n || v[e2] != ',' {
        return None;
    }
    if e2 + 1 < n {
        if v[e2 + 1] != '"' {
            return None;
        }
        match close_quote(&v, e2 + 2) {
            Some(e) => {
                if e != n {
                    return None;
                }
            },
            None => return None,
        }
    }
    Some(
        Submission {
            timestamp: string_of(&v, 0, a),
            sender_id: string_of(&v, a + 1, b),
            artist: string_of(&v, b + 1, e1),
            song: string_of(&v, e1 + 1, e2),
            link: string_of(&v, e2 + 1, n),
        },
    )
}

proof fn lemma_find_comma(s: Seq<char>, i: int, k: int)
    requires
        0 <= i <= k < s.len(),
        s[k] == ',',
        forall|m: int| i <= m < k ==> s[m] != ',',
    ensures
        find_comma(s, i) == k,
    decreases k - i,
{
    if i < k {
        lemma_find_comma(s, i + 1, k);
    }
}

proof fn lemma_quoted_scan(s: Seq<char>, j: int, c: Seq<char>)
    requires
        0 <= j,
        j + escape(c).len() < s.len(),
        s.subrange(j, j + escape(c).len()) == escape(c),
        s[j + escape(c).len()] == '"',
        j + escape(c).len() + 1 < s.len() ==> s[j + escape(c).len() + 1] != '"',
    ensures
        quoted_end(s, j) == j + escape(c).len() + 1,
    decreases c.len(),
{
    if c.len() > 0 {
        let t = c.drop_first();
        let e = escape(c);
        if c[0] == '"' {
            assert(e == seq!['"', '"'] + escape(t));
            assert(s[j] == e[0]);
            assert(s[j + 1] == e[1]);
            assert(s.subrange(j + 2, j + 2 + escape(t).len()) =~= escape(t)) by {
                assert forall|m: int| 0 <= m < escape(t).len() implies s.subrange(
                    j + 2,
                    j + 2 + escape(t).len(),
                )[m] == escape(t)[m] by {
                    assert(s[j + 2 + m] == e[m + 2]);
                }
            }
            lemma_quoted_scan(s, j + 2, t);
        } else {
            assert(e == seq![c[0]] + escape(t));
            assert(s[j] == e[0]);
            assert(s.subrange(j + 1, j + 1 + escape(t).len()) =~= escape(t)) by {
                assert forall|m: int| 0 <= m < escape(t).len() implies s.subrange(
                    j + 1,
                    j + 1 + escape(t).len(),
                )[m] == escape(t)[m] by {
                    assert(s[j + 1 + m] == e[m + 1]);
                }
            }
            lemma_quoted_scan(s, j + 1, t);
        }
    } else {
        assert(s[j] == '"');
    }
}

/// A stored field placed at `p` in `s` is scanned to its end, provided no
/// `"` follows it.
proof fn lemma_stored_at(s: Seq<char>, p: int, q: Seq<char>)
    requires
        is_stored_text(q),
        0 <= p,
        p + q.len() <= s.len(),
        s.subrange(p, p + q.len()) == q,
        p + q.len() < s.len() ==> s[p + q.len()] != '"',
    ensures
        q.len() >= 2,
        s[p] == '"',
        quoted_end(s, p + 1) == p + q.len(),
{
    let c = unquote(q);
    let e = escape(c);
    assert(q == seq!['"'] + e + seq!['"']);
    assert(s[p] == q[0]);
    assert(s[p + 1 + e.len()] == q[e.len() + 1 as int]);
    assert(s.subrange(p + 1, p + 1 + e.len()) =~= e) by {
        assert forall|m: int| 0 <= m < e.len() implies s.subrange(p + 1, p + 1 + e.len())[m]
            == e[m] by {
            assert(s[p + 1 + m] == q[m + 1]);
        }
    }
    lemma_quoted_scan(s, p + 1, c);
}

/// A record written as a line reads back as the same record: timestamp,
/// sender, and the stored artist, song and link fields.
#[verifier::rlimit(40)]
pub proof fn lemma_round_trip(v: SubmissionView)
    requires
        record_ok(v),
    ensures
        decode(encode(v)) == Some(v),
{
    let s = encode(v);
    let t = v.timestamp.len() as int;
    let u = v.sender_id.len() as int;
    let la = v.artist.len() as int;
    let lg = v.song.len() as int;
    let ll = v.link.len() as int;
    let a = t;
    let b = t + 1 + u;
    let e1 = b + 1 + la;
    let e2 = e1 + 1 + lg;
    assert(s.len() == e2 + 1 + ll);
    assert(s.subrange(0, a) =~= v.timestamp);
    assert(s.subrange(a + 1, b) =~= v.sender_id);
    assert(s.subrange(b + 1, e1) =~= v.artist);
    assert(s.subrange(e1 + 1, e2) =~= v.song);
    assert(s.subrange(e2 + 1, s.len() as int) =~= v.link);
    assert(s[a] == ',');
    assert(s[b] == ',');
    assert(s[e1] == ',');
    assert(s[e2] == ',');
    assert forall|m: int| 0 <= m < a implies s[m] != ',' by {
        assert(s[m] == v.timestamp[m]);
    }
    lemma_find_comma(s, 0, a);
    assert forall|m: int| a + 1 <= m < b implies s[m] != ',' by {
        assert(s[m] == v.sender_id[m - a - 1]);
    }
    lemma_find_comma(s, a + 1, b);
    lemma_stored_at(s, b + 1, v.artist);
    lemma_stored_at(s, e1 + 1, v.song);
    if ll > 0 {
        lemma_stored_at(s, e2 + 1, v.link);
    }
    assert(decode(s) == Some(v));
}

/// Whether `line` is a record line from the sender `uid`.
pub open spec fn from_sender(line: Seq<char>, uid: Seq<char>) -> bool {
    decode(line) matches Some(v) && v.sender_id == uid
}

/// How many of `lines` are records from `uid`.
pub open spec fn sender_count(lines: Seq<Seq<char>>, uid: Seq<char>) -> nat
    decreases lines.len(),
{
    if lines.len() == 0 {
        0
    } else {
        sender_count(lines.drop_last(), uid) + if from_sender(lines.last(), uid) {
            1nat
        } else {
            0nat
        }
    }
}

pub open spec fn views(lines: Seq<String>) -> Seq<Seq<char>> {
    lines.map_values(|l: String| l@)
}

/// Counts the record lines among `lines` whose sender is `sender_id`; lines
/// that hold no record are passed over.
pub fn count_by_sender(lines: &Vec<String>, sender_id: &str) -> (r: usize)
    ensures
        r == sender_count(views(lines@), sender_id@),
{
    let mut count: usize = 0;
    let mut i: usize = 0;
    while i < lines.len()
        invariant
            i <= lines.len(),
            count <= i,
            count == sender_count(views(lines@).take(i as int), sender_id@),
        decreases lines.len() - i,
    {
        let hit = match parse_record(lines[i].as_str()) {
            Some(rec) => same_text(rec.sender_id.as_str(), sender_id),
            None => false,
        };
        let ghost w = views(lines@);
        assert(w.take(i + 1).drop_last() == w.take(i as int));
        assert(w.take(i + 1).last() == lines@[i as int]@);
        if hit {
            count = count + 1;
        }
        i = i + 1;
    }
    assert(views(lines@).take(lines.len() as int) == views(lines@));
    count
}

/// Lines without line ends, each followed by one `\n`.
pub open spec fn join_lines(ls: Seq<Seq<char>>) -> Seq<char>
    decreases ls.len(),
{
    if ls.len() == 0 {
        Seq::empty()
    } else {
        ls[0] + seq!['\n'] + join_lines(ls.drop_first())
    }
}

pub open spec fn no_newline(s: Seq<char>) -> bool {
    forall|i: int| 0 <= i < s.len() ==> #[trigger] s[i] != '\n'
}

/// `t` with a final line end added where its last line has none.
pub open spec fn terminated(t: Seq<char>) -> Seq<char> {
    if t.len() == 0 || t.last() == '\n' {
        t
    } else {
        t.push('\n')
    }
}

proof fn lemma_join_push(ls: Seq<Seq<char>>, x: Seq<char>)
    ensures
        join_lines(ls.push(x)) == join_lines(ls) + x + seq!['\n'],
    decreases ls.len(),
{
    if ls.len() == 0 {
        assert(ls.push(x).drop_first() == ls);
        assert(join_lines(ls.push(x)) =~= join_lines(ls) + x + seq!['\n']);
    } else {
        assert(ls.push(x).drop_first() == ls.drop_first().push(x));
        lemma_join_push(ls.drop_first(), x);
        assert(join_lines(ls.push(x)) =~= join_lines(ls) + x + seq!['\n']);
    }
}

/// The lines of a log text: none holds a line end, and written out again
/// they give the text, with a line end added after an unterminated last line.
pub fn split_lines(text: &str) -> (r: Vec<String>)
    ensures
        forall|i: int| 0 <= i < r@.len() ==> no_newline(#[trigger] r@[i]@),
        join_lines(views(r@)) == terminated(text@),
{
    let mut out: Vec<String> = Vec::new();
    let mut cur = String::new();
    for c in it: text.chars()
        invariant
            it.seq() == text@,
            forall|i: int| 0 <= i < out@.len() ==> no_newline(#[trigger] out@[i]@),
            no_newline(cur@),
            join_lines(views(out@)) + cur@ == text@.take(it.index() as int),
    {
        let ghost k = it.index() as int;
        assert(text@.take(k + 1) == text@.take(k).push(c));
        if c == '\n' {
            proof {
                lemma_join_push(views(out@), cur@);
                assert(views(out@.push(cur)) == views(out@).push(cur@));
            }
            out.push(cur);
            cur = String::new();
            assert(join_lines(views(out@)) + cur@ =~= text@.take(k + 1));
        } else {
            cur.push(c);
            assert(join_lines(views(out@)) + cur@ =~= text@.take(k + 1));
        }
    }
    assert(text@.take(text@.len() as int) == text@);
    if !cur.as_str().is_empty() {
        proof {
            lemma_join_push(views(out@), cur@);
            assert(views(out@.push(cur)) == views(out@).push(cur@));
            assert(text@.last() == cur@.last());
        }
        out.push(cur);
        assert(join_lines(views(out@)) =~= terminated(text@));
    } else {
        assert(join_lines(views(out@)) =~= text@);
        proof {
            if views(out@).len() > 0 {
                lemma_join_ends(views(out@));
            }
        }
    }
    out
}

proof fn lemma_join_ends(ls: Seq<Seq<char>>)
    requires
        ls.len() > 0,
    ensures
        join_lines(ls).len() > 0,
        join_lines(ls).last() == '\n',
    decreases ls.len(),
{
    let j = join_lines(ls);
    let rest = join_lines(ls.drop_first());
    assert(j == ls[0] + seq!['\n'] + rest);
    if ls.len() > 1 {
        lemma_join_ends(ls.drop_first());
        assert(j.last() == rest.last());
    } else {
        assert(rest.len() == 0);
        assert(j.last() == '\n');
    }
}

proof fn lemma_join_injective(a: Seq<Seq<char>>, b: Seq<Seq<char>>)
    requires
        forall|i: int| 0 <= i < a.len() ==> no_newline(#[trigger] a[i]),
        forall|i: int| 0 <= i < b.len() ==> no_newline(#[trigger] b[i]),
        join_lines(a) == join_lines(b),
    ensures
        a == b,
    decreases a.len(),
{
    if a.len() == 0 || b.len() == 0 {
        if a.len() > 0 {
            lemma_join_ends(a);
        }
        if b.len() > 0 {
            lemma_join_ends(b);
        }
        assert(a =~= b);
    } else {
        let x = a[0];
        let y = b[0];
        let j = join_lines(a);
        assert(j == x + seq!['\n'] + join_lines(a.drop_first()));
        assert(j == y + seq!['\n'] + join_lines(b.drop_first()));
        if x.len() < y.len() {
            assert(j[x.len() as int] == '\n');
            assert(j[x.len() as int] == y[x.len() as int]);
        } else if y.len() < x.len() {
            assert(j[y.len() as int] == '\n');
            assert(j[y.len() as int] == x[y.len() as int]);
        }
        assert(x =~= j.subrange(0, x.len() as int));
        assert(y =~= j.subrange(0, y.len() as int));
        assert(join_lines(a.drop_first()) =~= j.subrange(x.len() as int + 1, j.len() as int));
        assert(join_lines(b.drop_first()) =~= j.subrange(y.len() as int + 1, j.len() as int));
        assert forall|i: int| 0 <= i < a.drop_first().len() implies no_newline(
            #[trigger] a.drop_first()[i],
        ) by {
            assert(a.drop_first()[i] == a[i + 1]);
        }
        assert forall|i: int| 0 <= i < b.drop_first().len() implies no_newline(
            #[trigger] b.drop_first()[i],
        ) by {
            assert(b.drop_first()[i] == b[i + 1]);
        }
        lemma_join_injective(a.drop_first(), b.drop_first());
        assert(a =~= seq![x] + a.drop_first());
        assert(b =~= seq![y] + b.drop_first());
    }
}

proof fn lemma_escape_no_newline(c: Seq<char>)
    requires
        no_newline(c),
    ensures
        no_newline(escape(c)),
    decreases c.len(),
{
    if c.len() > 0 {
        assert(no_newline(c.drop_first())) by {
            assert forall|i: int| 0 <= i < c.drop_first().len() implies #[trigger] c.drop_first()[i]
                != '\n' by {
                assert(c.drop_first()[i] == c[i + 1]);
            }
        }
        lemma_escape_no_newline(c.drop_first());
        assert(c[0] != '\n');
    }
}

proof fn lemma_record_no_newline(v: SubmissionView)
    requires
        record_ok(v),
    ensures
        no_newline(encode(v)),
{
    assert forall|q: Seq<char>| #[trigger] is_stored_text(q) implies no_newline(q) by {
        let c = unquote(q);
        assert(no_newline(c)) by {
            assert forall|i: int| 0 <= i < c.len() implies #[trigger] c[i] != '\n' by {
                if c[i] == '\n' {
                    assert(is_space(c[i]));
                }
            }
        }
        lemma_escape_no_newline(c);
    }
    assert forall|i: int| 0 <= i < encode(v).len() implies #[trigger] encode(v)[i] != '\n' by {
        let s = encode(v);
        let t = v.timestamp.len() as int;
        let b = t + 1 + v.sender_id.len();
        let e1 = b + 1 + v.artist.len();
        let e2 = e1 + 1 + v.song.len();
        if i < t {
            assert(s[i] == v.timestamp[i]);
        } else if t < i < b {
            assert(s[i] == v.sender_id[i - t - 1]);
        } else if b < i < e1 {
            assert(s[i] == v.artist[i - b - 1]);
        } else if e1 < i < e2 {
            assert(s[i] == v.song[i - e1 - 1]);
        } else if e2 < i {
            assert(s[i] == v.link[i - e2 - 1]);
        }
    }
}

pub open spec fn encode_all(rs: Seq<SubmissionView>) -> Seq<Seq<char>> {
    rs.map_values(|v: SubmissionView| encode(v))
}

/// How many of the records `rs` come from `uid`.
pub open spec fn records_from(rs: Seq<SubmissionView>, uid: Seq<char>) -> nat
    decreases rs.len(),
{
    if rs.len() == 0 {
        0
    } else {
        records_from(rs.drop_last(), uid) + if rs.last().sender_id == uid {
            1nat
        } else {
            0nat
        }
    }
}

/// Counting a sender's lines in a log of appended records gives the number
/// of those records that the sender made.
pub proof fn lemma_count_log(rs: Seq<SubmissionView>, uid: Seq<char>)
    requires
        forall|i: int| 0 <= i < rs.len() ==> record_ok(#[trigger] rs[i]),
    ensures
        sender_count(encode_all(rs), uid) == records_from(rs, uid),
    decreases rs.len(),
{
    if rs.len() > 0 {
        let r0 = rs.drop_last();
        assert forall|i: int| 0 <= i < r0.len() implies record_ok(#[trigger] r0[i]) by {
            assert(r0[i] == rs[i]);
        }
        lemma_count_log(r0, uid);
        assert(encode_all(rs).drop_last() =~= encode_all(r0));
        lemma_round_trip(rs.last());
    }
}

/// A log made of appended record lines splits back into exactly those
/// lines, none cut or merged, and each reads back as its record.
pub proof fn lemma_log_lines(rs: Seq<SubmissionView>, lines: Seq<Seq<char>>)
    requires
        forall|i: int| 0 <= i < rs.len() ==> record_ok(#[trigger] rs[i]),
        forall|i: int| 0 <= i < lines.len() ==> no_newline(#[trigger] lines[i]),
        join_lines(lines) == terminated(join_lines(encode_all(rs))),
    ensures
        lines == encode_all(rs),
        forall|i: int| 0 <= i < rs.len() ==> decode(#[trigger] lines[i]) == Some(rs[i]),
{
    let ls = encode_all(rs);
    assert forall|i: int| 0 <= i < ls.len() implies no_newline(#[trigger] ls[i]) by {
        lemma_record_no_newline(rs[i]);
    }
    if ls.len() > 0 {
        lemma_join_ends(ls);
    }
    lemma_join_injective(lines, ls);
    assert forall|i: int| 0 <= i < rs.len() implies decode(#[trigger] lines[i]) == Some(rs[i]) by {
        lemma_round_trip(rs[i]);
    }
}

/// A request the dialogue hands over, stamped with a plain timestamp and a
/// plain sender id, is a record that reads back from its line and counts for
/// its sender: appending its line raises that sender's count by one and
/// leaves every other sender's count as it was.
pub proof fn lemma_append_entry(
    lines: Seq<Seq<char>>,
    timestamp: Seq<char>,
    sender_id: Seq<char>,
    e: EntryView,
    uid: Seq<char>,
)
    requires
        entry_ok(e),
        is_plain(timestamp),
        is_plain(sender_id),
    ensures
        ({
            let v = SubmissionView {
                timestamp,
                sender_id,
                artist: e.artist,
                song: e.song,
                link: e.link,
            };
            &&& decode(encode(v)) == Some(v)
            &&& sender_count(lines.push(encode(v)), uid) == sender_count(lines, uid) + if sender_id
                == uid {
                1nat
            } else {
                0nat
            }
        }),
{
    let v = SubmissionView { timestamp, sender_id, artist: e.artist, song: e.song, link: e.link };
    lemma_round_trip(v);
    assert(lines.push(encode(v)).drop_last() == lines);
}

} // verus!
