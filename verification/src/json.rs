use vstd::prelude::*;
use crate::text::{self, append_str, chars_of, string_of, trim_start_chars};

verus! {

/// The three parts of an HTTP reply: status line text, content type, body.
pub type Reply = (&'static str, &'static str, String);

// ------------------------------------------------------------------
// Searching
// ------------------------------------------------------------------

/// `pat` occurs in `s` starting at index `i`.
pub open spec fn occurs_at(s: Seq<char>, pat: Seq<char>, i: int) -> bool {
    &&& 0 <= i
    &&& i + pat.len() <= s.len()
    &&& s.subrange(i, i + pat.len()) == pat
}

/// `i` is the first index at which `pat` occurs in `s`.
pub open spec fn is_first_match(s: Seq<char>, pat: Seq<char>, i: int) -> bool {
    &&& occurs_at(s, pat, i)
    &&& forall|j: int| 0 <= j < i ==> !occurs_at(s, pat, j)
}

/// `str::split_once`: the text before and after the first occurrence of `pat`.
pub open spec fn split_once(s: Seq<char>, pat: Seq<char>) -> Option<(Seq<char>, Seq<char>)> {
    if exists|i: int| is_first_match(s, pat, i) {
        let i = choose|i: int| is_first_match(s, pat, i);
        Some((s.take(i), s.skip(i + pat.len())))
    } else {
        None
    }
}

pub proof fn lemma_split_once_at(s: Seq<char>, pat: Seq<char>, i: int)
    requires
        is_first_match(s, pat, i),
    ensures
        split_once(s, pat) == Some((s.take(i), s.skip(i + pat.len()))),
{
    let k = choose|k: int| is_first_match(s, pat, k);
    assert(is_first_match(s, pat, k));
    if k < i {
        assert(!occurs_at(s, pat, k));
    }
    if i < k {
        assert(!occurs_at(s, pat, i));
    }
    assert(k == i);
}

pub proof fn lemma_split_once_absent(s: Seq<char>, pat: Seq<char>)
    requires
        forall|i: int| !occurs_at(s, pat, i),
    ensures
        split_once(s, pat) is None,
{
}

/// Whether `pat` occurs in `s` at index `i`.
pub fn matches_at(s: &Vec<char>, pat: &Vec<char>, i: usize) -> (r: bool)
    requires
        i + pat.len() <= s.len(),
    ensures
        r == occurs_at(s@, pat@, i as int),
{
    for k in 0..pat.len()
        invariant
            i + pat.len() <= s.len(),
            forall|j: int| 0 <= j < k ==> s@[i + j] == pat@[j],
    {
        if s[i + k] != pat[k] {
            assert(s@.subrange(i as int, i + pat.len())[k as int] != pat@[k as int]);
            return false;
        }
    }
    assert(s@.subrange(i as int, i + pat.len()) =~= pat@);
    true
}

/// The first index at which `pat` occurs in `s`.
pub fn find_first(s: &Vec<char>, pat: &Vec<char>) -> (r: Option<usize>)
    ensures
        match r {
            Some(i) => is_first_match(s@, pat@, i as int),
            None => forall|i: int| !occurs_at(s@, pat@, i),
        },
{
    if pat.len() == 0 {
        assert(s@.subrange(0, 0) =~= pat@);
        return Some(0);
    }
    for i in 0..s.len()
        invariant
            pat.len() > 0,
            forall|j: int| 0 <= j < i ==> !occurs_at(s@, pat@, j),
    {
        if pat.len() <= s.len() - i && matches_at(s, pat, i) {
            return Some(i);
        }
    }
    None
}

/// The views of an optional pair of character vectors.
pub open spec fn pair_view(o: Option<(Vec<char>, Vec<char>)>) -> Option<(Seq<char>, Seq<char>)> {
    match o {
        Some((a, b)) => Some((a@, b@)),
        None => None,
    }
}

/// The view of an optional string.
pub open spec fn opt_view(o: Option<String>) -> Option<Seq<char>> {
    match o {
        Some(v) => Some(v@),
        None => None,
    }
}

pub fn split_once_chars(s: &Vec<char>, pat: &Vec<char>) -> (r: Option<(Vec<char>, Vec<char>)>)
    ensures
        pair_view(r) == split_once(s@, pat@),
{
    match find_first(s, pat) {
        None => {
            proof {
                lemma_split_once_absent(s@, pat@);
            }
            None
        },
        Some(i) => {
            proof {
                lemma_split_once_at(s@, pat@, i as int);
            }
            let mut before: Vec<char> = Vec::new();
            for k in 0..i
                invariant
                    i + pat.len() <= s.len(),
                    before@ == s@.take(k as int),
            {
                before.push(s[k]);
                assert(s@.take(k + 1) == s@.take(k as int).push(s@[k as int]));
            }
            let start = i + pat.len();
            let mut after: Vec<char> = Vec::new();
            for k in start..s.len()
                invariant
                    start <= s.len(),
                    after@ == s@.subrange(start as int, k as int),
            {
                after.push(s[k]);
                assert(s@.subrange(start as int, k + 1) == s@.subrange(start as int, k as int).push(
                    s@[k as int],
                ));
            }
            assert(after@ == s@.skip(start as int));
            Some((before, after))
        },
    }
}

// ------------------------------------------------------------------
// JSON strings
// ------------------------------------------------------------------

/// How `escape_json` writes one character.
pub open spec fn escape_char(c: char) -> Seq<char> {
    if c == '\\' {
        seq!['\\', '\\']
    } else if c == '"' {
        seq!['\\', '"']
    } else if c == '\n' {
        seq!['\\', 'n']
    } else if c == '\r' {
        seq!['\\', 'r']
    } else {
        seq![c]
    }
}

/// `escape_json`: backslash, quote, line feed and carriage return escaped.
pub open spec fn escape(s: Seq<char>) -> Seq<char>
    decreases s.len(),
{
    if s.len() == 0 {
        Seq::empty()
    } else {
        escape(s.drop_last()) + escape_char(s.last())
    }
}

/// A JSON string literal holding `s`.
pub open spec fn json_string(s: Seq<char>) -> Seq<char> {
    seq!['"'] + escape(s) + seq!['"']
}

/// A JSON array of already rendered items.
pub open spec fn json_array(items: Seq<Seq<char>>) -> Seq<char> {
    seq!['['] + text::join(items, seq![',']) + seq![']']
}

/// The JSON string literals of the given values.
pub open spec fn json_strings(vals: Seq<Seq<char>>) -> Seq<Seq<char>> {
    vals.map_values(|v: Seq<char>| json_string(v))
}

/// `string_array_json`.
pub open spec fn string_array_json_spec(vals: Seq<Seq<char>>) -> Seq<char> {
    json_array(json_strings(vals))
}

/// The character that an escape sequence `\c` stands for in `json_field`.
pub open spec fn unescape_char(c: char) -> char {
    if c == 'n' {
        '\n'
    } else if c == 'r' {
        '\r'
    } else if c == 't' {
        '\t'
    } else {
        c
    }
}

/// `a` put before the text in `o`, if there is one.
pub open spec fn prepend(a: Seq<char>, o: Option<Seq<char>>) -> Option<Seq<char>> {
    match o {
        Some(r) => Some(a + r),
        None => None,
    }
}

/// The contents of a JSON string whose opening quote has been read: the
/// characters up to the first unescaped quote, escapes resolved; `None` when
/// the text ends first.
pub open spec fn string_value(v: Seq<char>, escaped: bool) -> Option<Seq<char>>
    decreases v.len(),
{
    if v.len() == 0 {
        None
    } else if escaped {
        prepend(seq![unescape_char(v[0])], string_value(v.drop_first(), false))
    } else if v[0] == '\\' {
        string_value(v.drop_first(), true)
    } else if v[0] == '"' {
        Some(Seq::empty())
    } else {
        prepend(seq![v[0]], string_value(v.drop_first(), false))
    }
}

/// `json_field`: the string value after the first `"field"` and the colon
/// that follows it.
pub open spec fn json_field_spec(body: Seq<char>, field: Seq<char>) -> Option<Seq<char>> {
    let needle = seq!['"'] + field + seq!['"'];
    match split_once(body, needle) {
        None => None,
        Some((_, after_field)) => match split_once(after_field, seq![':']) {
            None => None,
            Some((_, after_colon)) => {
                let v = text::trim_start(after_colon);
                if v.len() > 0 && v[0] == '"' {
                    string_value(v.drop_first(), false)
                } else {
                    None
                }
            },
        },
    }
}

/// `json_field(..).unwrap_or_default()`.
pub open spec fn field_text(body: Seq<char>, field: Seq<char>) -> Seq<char> {
    match json_field_spec(body, field) {
        Some(v) => v,
        None => Seq::empty(),
    }
}

proof fn lemma_prepend_push(a: Seq<char>, c: char, o: Option<Seq<char>>)
    ensures
        prepend(a, prepend(seq![c], o)) == prepend(a.push(c), o),
{
    match o {
        Some(r) => {
            assert(a + (seq![c] + r) == a.push(c) + r);
        },
        None => {},
    }
}

/// Reads a JSON string body starting at `start`, as `string_value` says.
pub fn read_json_string(v: &Vec<char>, start: usize) -> (r: Option<Vec<char>>)
    requires
        start <= v.len(),
    ensures
        match r {
            Some(x) => string_value(v@.skip(start as int), false) == Some(x@),
            None => string_value(v@.skip(start as int), false) is None,
        },
{
    let mut result: Vec<char> = Vec::new();
    let mut escaped = false;
    let ghost whole = string_value(v@.skip(start as int), false);
    assert(prepend(Seq::<char>::empty(), whole) == whole) by {
        match whole {
            Some(x) => {
                assert(Seq::<char>::empty() + x == x);
            },
            None => {},
        }
    }
    for i in start..v.len()
        invariant
            start <= v.len(),
            whole == string_value(v@.skip(start as int), false),
            whole == prepend(result@, string_value(v@.skip(i as int), escaped)),
    {
        let c = v[i];
        let ghost t = v@.skip(i as int);
        assert(t[0] == c);
        assert(t.drop_first() == v@.skip(i + 1));
        if escaped {
            proof {
                lemma_prepend_push(result@, unescape_char(c), string_value(t.drop_first(), false));
            }
            let u = if c == 'n' {
                '\n'
            } else if c == 'r' {
                '\r'
            } else if c == 't' {
                '\t'
            } else {
                c
            };
            result.push(u);
            escaped = false;
        } else if c == '\\' {
            escaped = true;
        } else if c == '"' {
            assert(result@ + Seq::<char>::empty() == result@);
            return Some(result);
        } else {
            proof {
                lemma_prepend_push(result@, c, string_value(t.drop_first(), false));
            }
            result.push(c);
        }
    }
    assert(v@.skip(v.len() as int).len() == 0);
    None
}

/// Reads the string value of `field` out of a small JSON object: the text
/// after the first `"field"`, its colon, and the opening quote, up to the
/// first unescaped quote. `None` where any of these is missing.
pub fn json_field(body: &str, field: &str) -> (r: Option<String>)
    ensures
        opt_view(r) == json_field_spec(body@, field@),
{
    let b = chars_of(body);
    let mut needle: Vec<char> = Vec::new();
    needle.push('"');
    append_str(&mut needle, field);
    needle.push('"');
    assert(needle@ == seq!['"'] + field@ + seq!['"']);
    let after_field = match split_once_chars(&b, &needle) {
        Some((_, a)) => a,
        None => {
            return None;
        },
    };
    let colon: Vec<char> = vec![':'];
    assert(colon@ == seq![':']);
    let after_colon = match split_once_chars(&after_field, &colon) {
        Some((_, a)) => a,
        None => {
            return None;
        },
    };
    let v = trim_start_chars(&after_colon);
    if v.len() == 0 || v[0] != '"' {
        return None;
    }
    assert(v@.skip(1) == v@.drop_first());
    match read_json_string(&v, 1) {
        Some(x) => Some(string_of(&x)),
        None => None,
    }
}

pub fn push_escaped(out: &mut Vec<char>, s: &Vec<char>)
    ensures
        final(out)@ == old(out)@ + escape(s@),
{
    let ghost start = out@;
    assert(s@.take(0) == Seq::<char>::empty());
    assert(start + escape(Seq::<char>::empty()) == start);
    for i in 0..s.len()
        invariant
            out@ == start + escape(s@.take(i as int)),
    {
        let c = s[i];
        assert(s@.take(i + 1).drop_last() == s@.take(i as int));
        assert(s@.take(i + 1).last() == c);
        if c == '\\' {
            out.push('\\');
            out.push('\\');
        } else if c == '"' {
            out.push('\\');
            out.push('"');
        } else if c == '\n' {
            out.push('\\');
            out.push('n');
        } else if c == '\r' {
            out.push('\\');
            out.push('r');
        } else {
            out.push(c);
        }
        assert(out@ == start + escape(s@.take(i + 1)));
    }
    assert(s@.take(s.len() as int) == s@);
}

/// Escapes backslash, double quote, line feed and carriage return for use
/// inside a JSON string literal.
pub fn escape_json(value: &str) -> (out: String)
    ensures
        out@ == escape(value@),
{
    let cs = chars_of(value);
    let mut out: Vec<char> = Vec::new();
    push_escaped(&mut out, &cs);
    string_of(&out)
}

/// Appends a JSON string literal holding `s`.
pub fn push_json_string(out: &mut Vec<char>, s: &Vec<char>)
    ensures
        final(out)@ == old(out)@ + json_string(s@),
{
    out.push('"');
    push_escaped(out, s);
    out.push('"');
}

/// Renders a list of strings as a JSON array of string literals.
pub fn string_array_json(values: &[String]) -> (out: String)
    ensures
        out@ == string_array_json_spec(text::string_views(values@)),
{
    let mut out: Vec<char> = Vec::new();
    push_string_array(&mut out, values);
    assert(out@ == Seq::<char>::empty() + string_array_json_spec(text::string_views(values@)));
    string_of(&out)
}

/// Appends the JSON array of string literals of `values`.
pub fn push_string_array(out: &mut Vec<char>, values: &[String])
    ensures
        final(out)@ == old(out)@ + string_array_json_spec(text::string_views(values@)),
{
    let ghost start = out@;
    let ghost items = json_strings(text::string_views(values@));
    out.push('[');
    for i in 0..values.len()
        invariant
            items == json_strings(text::string_views(values@)),
            items.len() == values@.len(),
            out@ == start + seq!['['] + text::join(items.take(i as int), seq![',']),
    {
        let ghost before = out@;
        assert(items.take(i + 1).drop_last() == items.take(i as int));
        assert(items.take(i + 1).last() == json_string(values@[i as int]@));
        if i > 0 {
            out.push(',');
        }
        let cs = chars_of(values[i].as_str());
        push_json_string(out, &cs);
        if i == 0 {
            assert(out@ == start + seq!['['] + text::join(items.take(1), seq![',']));
        } else {
            assert(out@ == start + seq!['['] + text::join(items.take(i + 1), seq![',']));
        }
    }
    assert(items.take(values.len() as int) == items);
    out.push(']');
}

/// A JSON reply with the given status.
pub fn json_response(status: &'static str, body: &str) -> (r: Reply)
    ensures
        r.0 == status,
        r.1@ == "application/json; charset=utf-8"@,
        r.2@ == body@,
{
    (status, "application/json; charset=utf-8", String::from_str(body))
}

/// The body `{"ok":false,"error":"<message>"}`.
pub open spec fn error_body(message: Seq<char>) -> Seq<char> {
    "{\"ok\":false,\"error\":\""@ + escape(message) + "\"}"@
}

/// A `500 Internal Server Error` JSON reply that carries the error message.
pub fn server_error(error: &str) -> (r: Reply)
    ensures
        r.0 == "500 Internal Server Error",
        r.1@ == "application/json; charset=utf-8"@,
        r.2@ == error_body(error@),
{
    let mut out: Vec<char> = Vec::new();
    append_str(&mut out, "{\"ok\":false,\"error\":\"");
    let cs = chars_of(error);
    push_escaped(&mut out, &cs);
    append_str(&mut out, "\"}");
    let body = string_of(&out);
    json_response("500 Internal Server Error", body.as_str())
}

/// A reply as text: status, content type, body.
pub type ReplyView = (Seq<char>, Seq<char>, Seq<char>);

pub open spec fn reply_view(r: Reply) -> ReplyView {
    (r.0@, r.1@, r.2@)
}

/// A JSON reply with the given status and body.
pub open spec fn json_reply(status: Seq<char>, body: Seq<char>) -> ReplyView {
    (status, "application/json; charset=utf-8"@, body)
}

/// `json_field(body, field).unwrap_or_default()`.
pub fn field_or_empty(body: &str, field: &str) -> (out: String)
    ensures
        out@ == field_text(body@, field@),
{
    match json_field(body, field) {
        Some(v) => v,
        None => String::new(),
    }
}

// ------------------------------------------------------------------
// Reading back what was escaped
// ------------------------------------------------------------------

pub proof fn lemma_escape_front(v: Seq<char>)
    requires
        v.len() > 0,
    ensures
        escape(v) == escape_char(v[0]) + escape(v.drop_first()),
    decreases v.len(),
{
    if v.len() == 1 {
        assert(v.drop_last() =~= Seq::<char>::empty());
        assert(v.drop_first() =~= Seq::<char>::empty());
        assert(escape_char(v[0]) + Seq::<char>::empty() == escape_char(v[0]));
    } else {
        lemma_escape_front(v.drop_last());
        assert(v.drop_last().drop_first() == v.drop_first().drop_last());
        assert(v.drop_first().last() == v.last());
        assert(v.drop_last()[0] == v[0]);
    }
}

/// The escaped text followed by a quote reads back as the text.
pub proof fn lemma_string_value_escape(v: Seq<char>, rest: Seq<char>)
    ensures
        string_value(escape(v) + seq!['"'] + rest, false) == Some(v),
    decreases v.len(),
{
    if v.len() == 0 {
        assert(escape(v) == Seq::<char>::empty());
        let input = escape(v) + seq!['"'] + rest;
        assert(input[0] == '"');
        assert(Seq::<char>::empty() =~= v);
    } else {
        lemma_escape_front(v);
        let t = v.drop_first();
        lemma_string_value_escape(t, rest);
        let x = escape(t) + seq!['"'] + rest;
        let c = v[0];
        let input = escape(v) + seq!['"'] + rest;
        assert(input == escape_char(c) + x);
        assert(seq![c] + t =~= v);
        if c == '\\' || c == '"' || c == '\n' || c == '\r' {
            let e = escape_char(c);
            assert(e.len() == 2 && e[0] == '\\');
            assert(input[0] == '\\');
            assert(input.drop_first() =~= seq![e[1]] + x);
            assert((seq![e[1]] + x)[0] == e[1]);
            assert((seq![e[1]] + x).drop_first() =~= x);
            assert(unescape_char(e[1]) == c);
            let y = seq![e[1]] + x;
            assert(string_value(y, true) == prepend(seq![c], string_value(x, false)));
            assert(string_value(input, false) == string_value(y, true));
            assert(string_value(input, false) == Some(seq![c] + t));
        } else {
            assert(escape_char(c) == seq![c]);
            assert(input[0] == c);
            assert(input.drop_first() =~= x);
            assert(string_value(input, false) == prepend(seq![c], string_value(x, false)));
            assert(string_value(input, false) == Some(seq![c] + t));
        }
    }
}

/// `json_field` reads back the text of a field written as a JSON string:
/// for the body `{"field":"<escaped text>"}` it gives the text.
pub proof fn lemma_json_field_reads_escaped(field: Seq<char>, v: Seq<char>)
    ensures
        json_field_spec(
            seq!['{'] + (seq!['"'] + field + seq!['"']) + seq![':'] + json_string(v) + seq!['}'],
            field,
        ) == Some(v),
{
    let needle = seq!['"'] + field + seq!['"'];
    let body = seq!['{'] + needle + seq![':'] + json_string(v) + seq!['}'];
    assert(body.subrange(1, 1 + needle.len() as int) =~= needle);
    assert(!occurs_at(body, needle, 0)) by {
        if occurs_at(body, needle, 0) {
            assert(body.subrange(0, needle.len() as int)[0] == body[0]);
        }
    }
    lemma_split_once_at(body, needle, 1);
    let after_field = body.skip(1 + needle.len() as int);
    let tail = json_string(v) + seq!['}'];
    assert(after_field =~= seq![':'] + tail);
    assert(after_field.subrange(0, 1) =~= seq![':']);
    lemma_split_once_at(after_field, seq![':'], 0);
    assert(after_field.skip(1) =~= tail);
    text::lemma_trim_start_shape(tail);
    assert(tail[0] == '"');
    assert(tail.drop_first() =~= escape(v) + seq!['"'] + seq!['}']);
    lemma_string_value_escape(v, seq!['}']);
}

// ------------------------------------------------------------------
// Reading a member back from a rendered object
// ------------------------------------------------------------------

/// The quoted member name that `json_field` looks for.
pub open spec fn key_needle(field: Seq<char>) -> Seq<char> {
    seq!['"'] + field + seq!['"']
}

/// `pat` occurs nowhere in `s`.
pub open spec fn absent(s: Seq<char>, pat: Seq<char>) -> bool {
    forall|i: int| !occurs_at(s, pat, i)
}

/// A member name: not empty, ASCII letters only.
pub open spec fn key_name(field: Seq<char>) -> bool {
    &&& field.len() > 0
    &&& forall|i: int|
        0 <= i < field.len() ==> (65 <= (#[trigger] field[i] as u32) <= 90) || (97 <= (field[i] as u32)
            <= 122)
}

/// A text that renders as itself: no quote, backslash or line break.
pub open spec fn plain(s: Seq<char>) -> bool {
    forall|i: int| 0 <= i < s.len() ==> #[trigger] s[i] != '"' && s[i] != '\\' && s[i] != '\n' && s[i] != '\r'
}

/// A value that renders as itself and is none of the given member names.
pub open spec fn plain_value(v: Seq<char>, names: Seq<Seq<char>>) -> bool {
    plain(v) && !names.contains(v)
}

/// `c` is no letter and no quote, so it can stand in no occurrence of a
/// quoted member name.
pub open spec fn blocker(c: char) -> bool {
    c == '{' || c == '[' || c == ']' || c == ',' || c == ':'
}

proof fn lemma_needle_char(field: Seq<char>, k: int)
    requires
        key_name(field),
        0 <= k < field.len() + 2,
    ensures
        !blocker(key_needle(field)[k]),
{
    if 0 < k < field.len() + 1 {
        assert(key_needle(field)[k] == field[k - 1]);
    }
}

/// A plain text renders as itself.
pub proof fn lemma_escape_plain(s: Seq<char>)
    requires
        plain(s),
    ensures
        escape(s) == s,
    decreases s.len(),
{
    if s.len() > 0 {
        let t = s.drop_last();
        assert(plain(t)) by {
            assert forall|i: int| 0 <= i < t.len() implies #[trigger] t[i] != '"' && t[i] != '\\' && t[i]
                != '\n' && t[i] != '\r' by {
                assert(t[i] == s[i]);
            }
        }
        lemma_escape_plain(t);
        assert(s[s.len() - 1] != '"' && s[s.len() - 1] != '\\');
        assert(t.push(s.last()) =~= s);
    }
}

/// Joining two texts without the quoted name, where the first ends in a
/// blocker, gives a text without it.
pub proof fn lemma_absent_concat(x: Seq<char>, y: Seq<char>, field: Seq<char>)
    requires
        key_name(field),
        absent(x, key_needle(field)),
        absent(y, key_needle(field)),
        x.len() > 0,
        blocker(x.last()),
    ensures
        absent(x + y, key_needle(field)),
{
    let n = key_needle(field);
    let s = x + y;
    let l = n.len() as int;
    assert forall|i: int| !occurs_at(s, n, i) by {
        if occurs_at(s, n, i) {
            if i + l <= x.len() {
                assert(x.subrange(i, i + l) =~= s.subrange(i, i + l));
                assert(occurs_at(x, n, i));
            } else if i >= x.len() {
                assert(y.subrange(i - x.len(), i - x.len() + l) =~= s.subrange(i, i + l));
                assert(occurs_at(y, n, i - x.len()));
            } else {
                let p = x.len() - 1;
                assert(s.subrange(i, i + l)[p - i] == s[p]);
                assert(s[p] == x.last());
                lemma_needle_char(field, p - i);
            }
        }
    }
}

/// A short text holds no quoted name.
pub proof fn lemma_absent_short(s: Seq<char>, field: Seq<char>)
    requires
        key_name(field),
        s.len() <= 2,
        s.len() > 0 ==> s[0] != '"',
    ensures
        absent(s, key_needle(field)),
{
    let n = key_needle(field);
    assert forall|i: int| !occurs_at(s, n, i) by {
        if occurs_at(s, n, i) {
            assert(n.len() >= 3);
        }
    }
}

/// A quoted text other than the name, followed by a blocker, holds no
/// occurrence of the quoted name.
pub proof fn lemma_absent_quoted(v: Seq<char>, c: char, field: Seq<char>)
    requires
        key_name(field),
        forall|i: int| 0 <= i < v.len() ==> #[trigger] v[i] != '"',
        v != field,
        blocker(c),
    ensures
        absent(seq!['"'] + v + seq!['"'] + seq![c], key_needle(field)),
{
    let n = key_needle(field);
    let s = seq!['"'] + v + seq!['"'] + seq![c];
    let l = n.len() as int;
    assert forall|i: int| !occurs_at(s, n, i) by {
        if occurs_at(s, n, i) {
            let sub = s.subrange(i, i + l);
            assert(sub[0] == s[i]);
            assert(sub[l - 1] == s[i + l - 1]);
            assert(n[0] == '"' && n[l - 1] == '"');
            if 1 <= i <= v.len() {
                assert(s[i] == v[i - 1]);
            }
            let e = i + l - 1;
            if 1 <= e <= v.len() {
                assert(s[e] == v[e - 1]);
            }
            assert(s[v.len() as int + 2] == c);
            if i == 0 {
                assert(e == v.len() + 1);
                assert forall|k: int| 0 <= k < v.len() implies v[k] == field[k] by {
                    assert(sub[k + 1] == s[k + 1]);
                    assert(s[k + 1] == v[k]);
                    assert(n[k + 1] == field[k]);
                }
                assert(v =~= field);
            }
        }
    }
}

/// Appending a member `<b>"name":"v"` and a blocker to a text that holds no
/// quoted `field` and ends in the blocker `b` keeps the quoted `field` out,
/// when `name` is not `field` and the plain `v` is not `field` either.
pub proof fn lemma_absent_member(x: Seq<char>, lit: Seq<char>, name: Seq<char>, v: Seq<char>, c: char, field: Seq<char>)
    requires
        key_name(field),
        key_name(name),
        name != field,
        plain(v),
        v != field,
        x.len() > 0,
        absent(x, key_needle(field)),
        blocker(x.last()),
        lit == key_needle(name) + seq![':'],
        blocker(c),
    ensures
        absent(x + (lit + json_string(v)) + seq![c], key_needle(field)),
        (x + (lit + json_string(v)) + seq![c]).last() == c,
{
    lemma_escape_plain(v);
    assert forall|i: int| 0 <= i < name.len() implies #[trigger] name[i] != '"' by {
        assert(65 <= (name[i] as u32));
    }
    lemma_absent_quoted(name, ':', field);
    assert(lit =~= seq!['"'] + name + seq!['"'] + seq![':']);
    lemma_absent_concat(x, lit, field);
    assert((x + lit).last() == ':');
    lemma_absent_quoted(v, c, field);
    lemma_absent_concat(x + lit, seq!['"'] + v + seq!['"'] + seq![c], field);
    assert(x + (lit + json_string(v)) + seq![c] =~= (x + lit) + (seq!['"'] + v + seq!['"'] + seq![c]));
}

/// Appending a JSON array of plain texts other than `field`, then a
/// blocker, keeps the quoted `field` out.
pub proof fn lemma_absent_array(x: Seq<char>, vals: Seq<Seq<char>>, c: char, field: Seq<char>)
    requires
        key_name(field),
        x.len() > 0,
        absent(x, key_needle(field)),
        blocker(x.last()),
        forall|i: int| 0 <= i < vals.len() ==> plain(#[trigger] vals[i]) && vals[i] != field,
        blocker(c),
    ensures
        absent(x + seq!['['] + text::join(json_strings(vals), seq![',']) + seq![c], key_needle(field)),
    decreases vals.len(),
{
    let items = json_strings(vals);
    lemma_absent_short(seq!['['], field);
    lemma_absent_concat(x, seq!['['], field);
    let xb = x + seq!['['];
    assert(xb.last() == '[');
    if vals.len() == 0 {
        assert(text::join(items, seq![',']) =~= Seq::<char>::empty());
        lemma_absent_short(seq![c], field);
        lemma_absent_concat(xb, seq![c], field);
        assert(x + seq!['['] + text::join(items, seq![',']) + seq![c] =~= xb + seq![c]);
    } else {
        let v = vals.last();
        lemma_escape_plain(v);
        lemma_absent_quoted(v, c, field);
        let q = seq!['"'] + v + seq!['"'] + seq![c];
        assert(items.last() == json_string(v));
        if vals.len() == 1 {
            assert(text::join(items, seq![',']) == items[0]);
            lemma_absent_concat(xb, q, field);
            assert(x + seq!['['] + text::join(items, seq![',']) + seq![c] =~= xb + q);
        } else {
            let front = vals.drop_last();
            assert forall|i: int| 0 <= i < front.len() implies plain(#[trigger] front[i]) && front[i] != field by {
                assert(front[i] == vals[i]);
            }
            lemma_absent_array(x, front, ',', field);
            assert(json_strings(front) =~= items.drop_last());
            let y = x + seq!['['] + text::join(json_strings(front), seq![',']) + seq![','];
            assert(y.last() == ',');
            lemma_absent_concat(y, q, field);
            assert(x + seq!['['] + text::join(items, seq![',']) + seq![c] =~= y + q);
        }
    }
}

/// Appending a member `"name":[..]` of plain texts other than `field`, then a
/// blocker, keeps the quoted `field` out.
pub proof fn lemma_absent_array_member(
    x: Seq<char>,
    lit: Seq<char>,
    name: Seq<char>,
    vals: Seq<Seq<char>>,
    c: char,
    field: Seq<char>,
)
    requires
        key_name(field),
        key_name(name),
        name != field,
        x.len() > 0,
        absent(x, key_needle(field)),
        blocker(x.last()),
        lit == key_needle(name) + seq![':'],
        forall|i: int| 0 <= i < vals.len() ==> plain(#[trigger] vals[i]) && vals[i] != field,
        blocker(c),
    ensures
        absent(x + (lit + string_array_json_spec(vals)) + seq![c], key_needle(field)),
        (x + (lit + string_array_json_spec(vals)) + seq![c]).last() == c,
{
    assert forall|i: int| 0 <= i < name.len() implies #[trigger] name[i] != '"' by {
        assert(65 <= (name[i] as u32));
    }
    lemma_absent_quoted(name, ':', field);
    assert(lit =~= seq!['"'] + name + seq!['"'] + seq![':']);
    lemma_absent_concat(x, lit, field);
    assert((x + lit).last() == ':');
    lemma_absent_array(x + lit, vals, ']', field);
    let y = x + lit + seq!['['] + text::join(json_strings(vals), seq![',']) + seq![']'];
    assert(y.last() == ']');
    lemma_absent_short(seq![c], field);
    lemma_absent_concat(y, seq![c], field);
    assert(x + (lit + string_array_json_spec(vals)) + seq![c] =~= y + seq![c]);
}

/// After a text that holds no quoted `field` and ends in a blocker, the
/// member `"field":"v"` reads back as `v`, whatever follows it.
pub proof fn lemma_json_field_after(x: Seq<char>, lit: Seq<char>, field: Seq<char>, v: Seq<char>, rest: Seq<char>)
    requires
        key_name(field),
        x.len() > 0,
        absent(x, key_needle(field)),
        blocker(x.last()),
        lit == key_needle(field) + seq![':'],
    ensures
        json_field_spec(x + (lit + json_string(v)) + rest, field) == Some(v),
{
    let n = key_needle(field);
    let l = n.len() as int;
    let body = x + (lit + json_string(v)) + rest;
    let p = x.len() as int;
    assert(body.subrange(p, p + l) =~= n);
    assert forall|j: int| 0 <= j < p implies !occurs_at(body, n, j) by {
        if occurs_at(body, n, j) {
            if j + l <= p {
                assert(x.subrange(j, j + l) =~= body.subrange(j, j + l));
                assert(occurs_at(x, n, j));
            } else {
                assert(body.subrange(j, j + l)[p - 1 - j] == body[p - 1]);
                assert(body[p - 1] == x.last());
                lemma_needle_char(field, p - 1 - j);
            }
        }
    }
    lemma_split_once_at(body, n, p);
    let after_field = body.skip(p + l);
    let tail = json_string(v) + rest;
    assert(after_field =~= seq![':'] + tail);
    assert(after_field.subrange(0, 1) =~= seq![':']);
    lemma_split_once_at(after_field, seq![':'], 0);
    assert(after_field.skip(1) =~= tail);
    text::lemma_trim_start_shape(tail);
    assert(tail[0] == '"');
    assert(tail.drop_first() =~= escape(v) + seq!['"'] + rest);
    lemma_string_value_escape(v, rest);
}

} // verus!
