//! Free-text normalization and delimiter-safe quoting of stored fields.
use vstd::prelude::*;

verus! {

/// Unicode `White_Space`, the class that both `str::trim` and the regex
/// class `\s` remove or match.
pub open spec fn is_space(c: char) -> bool {
    let n = c as u32;
    ||| 9 <= n <= 13
    ||| n == 32
    ||| n == 0x85
    ||| n == 0xa0
    ||| n == 0x1680
    ||| 0x2000 <= n <= 0x200a
    ||| n == 0x2028
    ||| n == 0x2029
    ||| n == 0x202f
    ||| n == 0x205f
    ||| n == 0x3000
}

/// `s` without its leading whitespace.
pub open spec fn trim_start(s: Seq<char>) -> Seq<char>
    decreases s.len(),
{
    if s.len() > 0 && is_space(s[0]) {
        trim_start(s.drop_first())
    } else {
        s
    }
}

/// `s` without its trailing whitespace.
pub open spec fn trim_end(s: Seq<char>) -> Seq<char>
    decreases s.len(),
{
    if s.len() > 0 && is_space(s.last()) {
        trim_end(s.drop_last())
    } else {
        s
    }
}

pub open spec fn trimmed(s: Seq<char>) -> Seq<char> {
    trim_end(trim_start(s))
}

/// Every maximal run of whitespace in `s` replaced by one `' '`.
pub open spec fn collapse(s: Seq<char>) -> Seq<char>
    decreases s.len(),
{
    if s.len() == 0 {
        s
    } else if is_space(s[0]) {
        if s.len() > 1 && is_space(s[1]) {
            collapse(s.drop_first())
        } else {
            seq![' '] + collapse(s.drop_first())
        }
    } else {
        seq![s[0]] + collapse(s.drop_first())
    }
}

/// Trimmed, with inner whitespace runs collapsed to single spaces.
pub open spec fn normalized(s: Seq<char>) -> Seq<char> {
    collapse(trimmed(s))
}

/// Every whitespace character is a plain space and no two are adjacent.
pub open spec fn tight(s: Seq<char>) -> bool {
    forall|i: int|
        0 <= i < s.len() && is_space(#[trigger] s[i]) ==> s[i] == ' ' && (i + 1 < s.len()
            ==> !is_space(s[i + 1]))
}

/// What normalization produces: tight, and no whitespace at either end.
pub open spec fn is_normal(s: Seq<char>) -> bool {
    &&& tight(s)
    &&& s.len() > 0 ==> !is_space(s[0]) && !is_space(s.last())
}

/// The content with each `"` doubled.
pub open spec fn escape(s: Seq<char>) -> Seq<char>
    decreases s.len(),
{
    if s.len() == 0 {
        s
    } else if s[0] == '"' {
        seq!['"', '"'] + escape(s.drop_first())
    } else {
        seq![s[0]] + escape(s.drop_first())
    }
}

/// A stored free-text field: the escaped content between two `"`.
pub open spec fn quote(s: Seq<char>) -> Seq<char> {
    seq!['"'] + escape(s) + seq!['"']
}

/// Inverse of `escape`: each `""` read as one `"`.
pub open spec fn unescape(s: Seq<char>) -> Seq<char>
    decreases s.len(),
{
    if s.len() >= 2 && s[0] == '"' && s[1] == '"' {
        seq!['"'] + unescape(s.subrange(2, s.len() as int))
    } else if s.len() > 0 {
        seq![s[0]] + unescape(s.drop_first())
    } else {
        s
    }
}

/// The content of a stored free-text field.
pub open spec fn unquote(q: Seq<char>) -> Seq<char> {
    unescape(q.subrange(1, q.len() - 1))
}

/// A stored free-text field: a quoted field whose content is normalized.
pub open spec fn is_stored_text(q: Seq<char>) -> bool {
    q == quote(unquote(q)) && is_normal(unquote(q))
}

/// What `sanitize` makes of a text.
pub open spec fn sanitized(s: Seq<char>) -> Seq<char> {
    quote(normalized(s))
}

/// Relies on `str::trim`: the slice without leading and trailing `White_Space`.
pub assume_specification[ str::trim ](s: &str) -> (r: &str)
    ensures
        r@ == trimmed(s@),
;

/// Relies on `String::push`: appends one character.
pub assume_specification[ String::push ](s: &mut String, ch: char)
    ensures
        final(s)@ == old(s)@.push(ch),
;

/// Relies on `regex::Regex::new` and `Regex::replace_all` with the pattern
/// `\s+` (Unicode `White_Space`, greedy, leftmost): each maximal whitespace
/// run becomes one space.
#[verifier::external_body]
fn collapse_runs(s: &str) -> (r: String)
    ensures
        r@ == collapse(s@),
{
    let re = regex::Regex::new(r"\s+").expect("constant pattern");
    re.replace_all(s, " ").into_owned()
}

/// Trims `input` and collapses each inner whitespace run to one space.
pub fn normalize_whitespace(input: &str) -> (r: String)
    ensures
        r@ == normalized(input@),
{
    collapse_runs(input.trim())
}

/// Appends `quote(s@)` to `out`.
fn push_quoted(out: &mut String, s: &str)
    ensures
        final(out)@ == old(out)@ + quote(s@),
{
    let ghost start = out@;
    out.push('"');
    for c in it: s.chars()
        invariant
            it.seq() == s@,
            out@ == start + seq!['"'] + escape(s@.take(it.index() as int)),
    {
        proof {
            lemma_escape_push(s@.take(it.index() as int), c);
            assert(s@.take(it.index() + 1) == s@.take(it.index() as int).push(c));
        }
        if c == '"' {
            out.push('"');
            out.push('"');
        } else {
            out.push(c);
        }
    }
    assert(s@.take(s@.len() as int) == s@);
    out.push('"');
}

/// The characters of `s`, one per element.
pub fn chars_of(s: &str) -> (r: Vec<char>)
    ensures
        r@ == s@,
{
    let mut out: Vec<char> = Vec::new();
    for c in it: s.chars()
        invariant
            it.seq() == s@,
            out@ == s@.take(it.index() as int),
    {
        assert(s@.take(it.index() + 1) == s@.take(it.index() as int).push(c));
        out.push(c);
    }
    assert(s@.take(s@.len() as int) == s@);
    out
}

/// Whether two texts are the same characters.
pub fn same_text(a: &str, b: &str) -> (r: bool)
    ensures
        r == (a@ == b@),
{
    let x = chars_of(a);
    let y = chars_of(b);
    if x.len() != y.len() {
        return false;
    }
    let mut i: usize = 0;
    while i < x.len()
        invariant
            x@ == a@,
            y@ == b@,
            x.len() == y.len(),
            i <= x.len(),
            forall|k: int| 0 <= k < i ==> x@[k] == y@[k],
        decreases x.len() - i,
    {
        if x[i] != y[i] {
            return false;
        }
        i = i + 1;
    }
    assert(x@ == y@);
    true
}

/// Normalizes whitespace and wraps the result in `"`, doubling each `"`
/// inside, so that the field never reads as a column boundary.
pub fn sanitize(input: &str) -> (r: String)
    ensures
        r@ == sanitized(input@),
{
    let n = normalize_whitespace(input);
    let mut out = String::new();
    push_quoted(&mut out, n.as_str());
    assert(out@ == quote(n@));
    out
}

pub proof fn lemma_escape_push(s: Seq<char>, c: char)
    ensures
        escape(s.push(c)) == escape(s) + (if c == '"' {
            seq!['"', '"']
        } else {
            seq![c]
        }),
    decreases s.len(),
{
    if s.len() == 0 {
        assert(s.push(c).drop_first() == s);
        assert(escape(s.push(c)) == (if c == '"' {
            seq!['"', '"']
        } else {
            seq![c]
        }) + escape(s));
    } else {
        assert(s.push(c).drop_first() == s.drop_first().push(c));
        lemma_escape_push(s.drop_first(), c);
    }
}


proof fn lemma_trim_start_shape(s: Seq<char>)
    ensures
        trim_start(s).len() <= s.len(),
        trim_start(s) == s.subrange(s.len() - trim_start(s).len(), s.len() as int),
        trim_start(s).len() > 0 ==> !is_space(trim_start(s)[0]),
    decreases s.len(),
{
    if s.len() > 0 && is_space(s[0]) {
        lemma_trim_start_shape(s.drop_first());
        assert(s.drop_first().subrange(
            s.drop_first().len() - trim_start(s).len(),
            s.drop_first().len() as int,
        ) == s.subrange(s.len() - trim_start(s).len(), s.len() as int));
    } else {
        assert(s.subrange(0, s.len() as int) == s);
    }
}

proof fn lemma_trim_end_shape(s: Seq<char>)
    ensures
        trim_end(s).len() <= s.len(),
        trim_end(s) == s.subrange(0, trim_end(s).len() as int),
        trim_end(s).len() > 0 ==> !is_space(trim_end(s).last()),
    decreases s.len(),
{
    if s.len() > 0 && is_space(s.last()) {
        lemma_trim_end_shape(s.drop_last());
        assert(s.drop_last().subrange(0, trim_end(s).len() as int) == s.subrange(
            0,
            trim_end(s).len() as int,
        ));
    } else {
        assert(s.subrange(0, s.len() as int) == s);
    }
}

/// A trimmed text has no whitespace at either end.
proof fn lemma_trimmed_ends(s: Seq<char>)
    ensures
        trimmed(s).len() > 0 ==> !is_space(trimmed(s)[0]) && !is_space(trimmed(s).last()),
{
    let a = trim_start(s);
    lemma_trim_start_shape(s);
    lemma_trim_end_shape(a);
    if trimmed(s).len() > 0 {
        assert(trimmed(s)[0] == a[0]);
    }
}

proof fn lemma_collapse_shape(s: Seq<char>)
    ensures
        tight(collapse(s)),
        s.len() > 0 ==> collapse(s).len() > 0 && (is_space(s[0]) <==> is_space(
            collapse(s)[0],
        )) && (is_space(s.last()) <==> is_space(collapse(s).last())),
        s.len() == 0 ==> collapse(s).len() == 0,
    decreases s.len(),
{
    if s.len() > 0 {
        let t = s.drop_first();
        lemma_collapse_shape(t);
        let c = collapse(s);
        if t.len() > 0 {
            assert(t.last() == s.last());
        }
        if is_space(s[0]) && s.len() > 1 && is_space(s[1]) {
        } else {
            let h = if is_space(s[0]) {
                ' '
            } else {
                s[0]
            };
            assert(c == seq![h] + collapse(t));
            assert forall|i: int| 0 <= i < c.len() && is_space(#[trigger] c[i]) implies c[i]
                == ' ' && (i + 1 < c.len() ==> !is_space(c[i + 1])) by {
                if i > 0 {
                    assert(c[i] == collapse(t)[i - 1]);
                    if i + 1 < c.len() {
                        assert(c[i + 1] == collapse(t)[i]);
                    }
                } else if i + 1 < c.len() {
                    assert(c[1] == collapse(t)[0]);
                }
            }
        }
    }
}

proof fn lemma_collapse_tight(s: Seq<char>)
    requires
        tight(s),
    ensures
        collapse(s) == s,
    decreases s.len(),
{
    if s.len() > 0 {
        let t = s.drop_first();
        assert forall|i: int| 0 <= i < t.len() && is_space(#[trigger] t[i]) implies t[i] == ' '
            && (i + 1 < t.len() ==> !is_space(t[i + 1])) by {
            assert(t[i] == s[i + 1]);
            if i + 1 < t.len() {
                assert(t[i + 1] == s[i + 2]);
            }
        }
        lemma_collapse_tight(t);
        if is_space(s[0]) && s.len() > 1 {
            assert(!is_space(s[1]));
        }
        assert(s == seq![s[0]] + t);
    }
}

proof fn lemma_normalized_is_normal(s: Seq<char>)
    ensures
        is_normal(normalized(s)),
{
    lemma_trimmed_ends(s);
    lemma_collapse_shape(trimmed(s));
}

/// Normalizing a normalized text changes nothing.
pub proof fn lemma_normalize_idempotent(s: Seq<char>)
    ensures
        normalized(normalized(s)) == normalized(s),
{
    let n = normalized(s);
    lemma_normalized_is_normal(s);
    assert(trim_start(n) == n);
    assert(trim_end(n) == n);
    lemma_collapse_tight(n);
}

proof fn lemma_unescape_escape(s: Seq<char>)
    ensures
        unescape(escape(s)) == s,
    decreases s.len(),
{
    if s.len() > 0 {
        let t = s.drop_first();
        lemma_unescape_escape(t);
        let e = escape(s);
        if s[0] == '"' {
            assert(e.subrange(2, e.len() as int) == escape(t));
        } else {
            assert(e.drop_first() == escape(t));
        }
        assert(s == seq![s[0]] + t);
    }
}

/// Reading back the content of a quoted field gives the text that was quoted.
pub proof fn lemma_unquote_quote(s: Seq<char>)
    ensures
        unquote(quote(s)) == s,
{
    let q = quote(s);
    assert(q.subrange(1, q.len() - 1) == escape(s));
    lemma_unescape_escape(s);
}

/// Sanitizing is stable: the content of a sanitized field is normalized
/// text, and sanitizing that content again gives the same field.
pub proof fn lemma_sanitize_stable(s: Seq<char>)
    ensures
        unquote(sanitized(s)) == normalized(s),
        sanitized(unquote(sanitized(s))) == sanitized(s),
{
    lemma_unquote_quote(normalized(s));
    lemma_normalize_idempotent(s);
}

/// Every sanitized text is a stored free-text field.
pub proof fn lemma_sanitized_is_stored(s: Seq<char>)
    ensures
        is_stored_text(sanitized(s)),
{
    lemma_unquote_quote(normalized(s));
    lemma_normalized_is_normal(s);
}

} // verus!
