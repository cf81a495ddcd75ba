use vstd::prelude::*;
use vstd::std_specs::iter::IteratorSpec;

verus! {

broadcast use vstd::string::group_string_axioms;

/// Trusted: std's `String::push`, which its documentation says appends the
/// given character to the end of the string. The contract claims exactly
/// that: the characters after the call are those before it, then `ch`.
pub assume_specification[ String::push ](s: &mut String, ch: char)
    ensures
        final(s)@ == old(s)@.push(ch),
;

/// The characters of a string slice, in order.
pub fn chars_of(s: &str) -> (out: Vec<char>)
    ensures
        out@ == s@,
{
    let mut out: Vec<char> = Vec::new();
    let mut it = s.chars();
    loop
        invariant
            it.obeys_prophetic_iter_laws(),
            it.decrease() is Some,
            s@ == out@ + it.remaining(),
        decreases it.decrease()->0,
    {
        match it.next() {
            Some(c) => {
                out.push(c);
            }
            None => {
                return out;
            }
        }
    }
}

/// A string holding the given characters.
pub fn string_of(cs: &Vec<char>) -> (out: String)
    ensures
        out@ == cs@,
{
    let mut out = String::new();
    for i in 0..cs.len()
        invariant
            out@ == cs@.take(i as int),
    {
        out.push(cs[i]);
        assert(cs@.take(i + 1) == cs@.take(i as int).push(cs@[i as int]));
    }
    assert(cs@.take(cs.len() as int) == cs@);
    out
}


/// Appends the characters of `s` to `out`.
pub fn append_chars(out: &mut Vec<char>, s: &Vec<char>)
    ensures
        final(out)@ == old(out)@ + s@,
{
    let ghost start = out@;
    for i in 0..s.len()
        invariant
            out@ == start + s@.take(i as int),
    {
        out.push(s[i]);
        assert(s@.take(i + 1) == s@.take(i as int).push(s@[i as int]));
    }
    assert(s@.take(s.len() as int) == s@);
}

/// Appends the characters of a string slice to `out`.
pub fn append_str(out: &mut Vec<char>, s: &str)
    ensures
        final(out)@ == old(out)@ + s@,
{
    let cs = chars_of(s);
    append_chars(out, &cs);
}

// ------------------------------------------------------------------
// Character classes
// ------------------------------------------------------------------

/// Unicode `White_Space`, as `char::is_whitespace` decides it.
pub open spec fn is_ws(c: char) -> bool {
    let u = c as u32;
    (9 <= u <= 13) || u == 32 || u == 0x85 || u == 0xa0 || u == 0x1680 || (0x2000 <= u <= 0x200a)
        || u == 0x2028 || u == 0x2029 || u == 0x202f || u == 0x205f || u == 0x3000
}

/// ASCII whitespace: space, tab, line feed, form feed, carriage return.
pub open spec fn is_ascii_ws(c: char) -> bool {
    c == ' ' || c == '\t' || c == '\n' || c == '\x0C' || c == '\r'
}

pub open spec fn is_digit(c: char) -> bool {
    48 <= (c as u32) <= 57
}

pub open spec fn is_ascii_alnum(c: char) -> bool {
    let u = c as u32;
    (48 <= u <= 57) || (65 <= u <= 90) || (97 <= u <= 122)
}

/// ASCII lower-casing of one character; other characters are kept.
pub open spec fn lower(c: char) -> char {
    if 65 <= (c as u32) <= 90 {
        ((c as u32) + 32) as char
    } else {
        c
    }
}

/// The value of a decimal digit character.
pub open spec fn digit_value(c: char) -> nat {
    ((c as u32) - 48) as nat
}

/// The decimal digit character for `d < 10`.
pub open spec fn digit_char(d: nat) -> char {
    (48 + d) as char
}

/// The lower-case hexadecimal digit character for `d < 16`.
pub open spec fn hex_char(d: nat) -> char {
    if d < 10 {
        (48 + d) as char
    } else {
        (87 + d) as char
    }
}

pub fn is_whitespace_char(c: char) -> (b: bool)
    ensures
        b == is_ws(c),
{
    let u = c as u32;
    (9 <= u && u <= 13) || u == 32 || u == 0x85 || u == 0xa0 || u == 0x1680 || (0x2000 <= u && u
        <= 0x200a) || u == 0x2028 || u == 0x2029 || u == 0x202f || u == 0x205f || u == 0x3000
}

pub fn is_ascii_ws_char(c: char) -> (b: bool)
    ensures
        b == is_ascii_ws(c),
{
    c == ' ' || c == '\t' || c == '\n' || c == '\x0C' || c == '\r'
}

pub fn is_digit_char(c: char) -> (b: bool)
    ensures
        b == is_digit(c),
{
    let u = c as u32;
    48 <= u && u <= 57
}

pub fn is_ascii_alnum_char(c: char) -> (b: bool)
    ensures
        b == is_ascii_alnum(c),
{
    let u = c as u32;
    (48 <= u && u <= 57) || (65 <= u && u <= 90) || (97 <= u && u <= 122)
}

pub fn lower_char(c: char) -> (r: char)
    ensures
        r == lower(c),
{
    if 'A' <= c && c <= 'Z' {
        ((c as u8) + 32) as char
    } else {
        c
    }
}

// ------------------------------------------------------------------
// Trimming
// ------------------------------------------------------------------

pub open spec fn trim_start(s: Seq<char>) -> Seq<char>
    decreases s.len(),
{
    if s.len() > 0 && is_ws(s[0]) {
        trim_start(s.drop_first())
    } else {
        s
    }
}

pub open spec fn trim_end(s: Seq<char>) -> Seq<char>
    decreases s.len(),
{
    if s.len() > 0 && is_ws(s.last()) {
        trim_end(s.drop_last())
    } else {
        s
    }
}

/// `str::trim`: whitespace removed from both ends.
pub open spec fn trim(s: Seq<char>) -> Seq<char> {
    trim_end(trim_start(s))
}

pub fn trim_start_chars(s: &Vec<char>) -> (out: Vec<char>)
    ensures
        out@ == trim_start(s@),
{
    let mut i: usize = 0;
    assert(s@.skip(0) == s@);
    while i < s.len() && is_whitespace_char(s[i])
        invariant
            i <= s.len(),
            trim_start(s@) == trim_start(s@.skip(i as int)),
        decreases s.len() - i,
    {
        assert(s@.skip(i as int).drop_first() == s@.skip(i + 1));
        i = i + 1;
    }
    let mut out: Vec<char> = Vec::new();
    let mut j: usize = i;
    while j < s.len()
        invariant
            i <= j <= s.len(),
            out@ == s@.subrange(i as int, j as int),
        decreases s.len() - j,
    {
        out.push(s[j]);
        assert(s@.subrange(i as int, j + 1) == s@.subrange(i as int, j as int).push(s@[j as int]));
        j = j + 1;
    }
    assert(out@ == s@.skip(i as int));
    out
}

pub fn trim_end_chars(s: &Vec<char>) -> (out: Vec<char>)
    ensures
        out@ == trim_end(s@),
{
    let mut n: usize = s.len();
    assert(s@.take(s.len() as int) == s@);
    while n > 0 && is_whitespace_char(s[n - 1])
        invariant
            n <= s.len(),
            trim_end(s@) == trim_end(s@.take(n as int)),
        decreases n,
    {
        assert(s@.take(n as int).drop_last() == s@.take(n - 1));
        n = n - 1;
    }
    let mut out: Vec<char> = Vec::new();
    for j in 0..n
        invariant
            n <= s.len(),
            out@ == s@.take(j as int),
    {
        out.push(s[j]);
        assert(s@.take(j + 1) == s@.take(j as int).push(s@[j as int]));
    }
    out
}

pub fn trim_chars(s: &Vec<char>) -> (out: Vec<char>)
    ensures
        out@ == trim(s@),
{
    let t = trim_start_chars(s);
    trim_end_chars(&t)
}

/// After `trim_start`, the sequence is empty or starts with a non-whitespace character.
pub proof fn lemma_trim_start_shape(s: Seq<char>)
    ensures
        trim_start(s).len() <= s.len(),
        trim_start(s).len() > 0 ==> !is_ws(trim_start(s)[0]),
        s.len() > 0 && !is_ws(s[0]) ==> trim_start(s) == s,
        trim_start(s) == s.skip(s.len() - trim_start(s).len()),
    decreases s.len(),
{
    if s.len() > 0 && is_ws(s[0]) {
        lemma_trim_start_shape(s.drop_first());
        assert(s.drop_first().skip(s.drop_first().len() - trim_start(s).len()) == s.skip(
            s.len() - trim_start(s).len(),
        ));
    } else {
        assert(s.skip(0) == s);
    }
}

/// After `trim_end`, the sequence is empty or ends with a non-whitespace character.
pub proof fn lemma_trim_end_shape(s: Seq<char>)
    ensures
        trim_end(s).len() <= s.len(),
        trim_end(s).len() > 0 ==> !is_ws(trim_end(s).last()),
        s.len() > 0 && !is_ws(s.last()) ==> trim_end(s) == s,
        trim_end(s) == s.take(trim_end(s).len() as int),
        s.len() > 0 && trim_end(s).len() == 0 ==> is_ws(s[0]),
    decreases s.len(),
{
    if s.len() > 0 && is_ws(s.last()) {
        lemma_trim_end_shape(s.drop_last());
        assert(s.drop_last().take(trim_end(s).len() as int) == s.take(trim_end(s).len() as int));
        if s.len() > 1 {
            assert(s.drop_last()[0] == s[0]);
        }
    } else {
        assert(s.take(s.len() as int) == s);
    }
}

/// A sequence with no whitespace at either end is its own trim.
pub proof fn lemma_trim_fixed(s: Seq<char>)
    requires
        s.len() > 0 ==> !is_ws(s[0]) && !is_ws(s.last()),
    ensures
        trim(s) == s,
{
    lemma_trim_start_shape(s);
    lemma_trim_end_shape(s);
}

/// The trim of a sequence starts and ends with non-whitespace, and trimming twice
/// changes nothing.
pub proof fn lemma_trim_shape(s: Seq<char>)
    ensures
        trim(s).len() <= s.len(),
        trim(s).len() > 0 ==> !is_ws(trim(s)[0]) && !is_ws(trim(s).last()),
        trim(trim(s)) == trim(s),
{
    let t = trim_start(s);
    lemma_trim_start_shape(s);
    lemma_trim_end_shape(t);
    let r = trim_end(t);
    if r.len() > 0 {
        assert(r[0] == t[0]);
    }
    lemma_trim_fixed(r);
}

// ------------------------------------------------------------------
// Prefixes, filters and maps
// ------------------------------------------------------------------

/// At most the first `n` elements (`Iterator::take`).
pub open spec fn prefix<A>(s: Seq<A>, n: nat) -> Seq<A> {
    if s.len() <= n {
        s
    } else {
        s.take(n as int)
    }
}

/// The characters of `s` that satisfy `p`, in order.
pub open spec fn keep(s: Seq<char>, p: spec_fn(char) -> bool) -> Seq<char>
    decreases s.len(),
{
    if s.len() == 0 {
        s
    } else if p(s.last()) {
        keep(s.drop_last(), p).push(s.last())
    } else {
        keep(s.drop_last(), p)
    }
}

pub proof fn lemma_keep_all(s: Seq<char>, p: spec_fn(char) -> bool)
    requires
        forall|i: int| 0 <= i < s.len() ==> #[trigger] p(s[i]),
    ensures
        keep(s, p) == s,
    decreases s.len(),
{
    if s.len() > 0 {
        lemma_keep_all(s.drop_last(), p);
        assert(p(s[s.len() - 1]));
    }
}

pub proof fn lemma_keep_props(s: Seq<char>, p: spec_fn(char) -> bool)
    ensures
        keep(s, p).len() <= s.len(),
        forall|i: int| 0 <= i < keep(s, p).len() ==> #[trigger] p(keep(s, p)[i]),
        forall|i: int|
            0 <= i < keep(s, p).len() ==> exists|j: int| 0 <= j < s.len() && s[j] == #[trigger] keep(s, p)[i],
    decreases s.len(),
{
    if s.len() > 0 {
        lemma_keep_props(s.drop_last(), p);
        let k = keep(s.drop_last(), p);
        assert forall|i: int| 0 <= i < keep(s, p).len() implies exists|j: int|
            0 <= j < s.len() && s[j] == #[trigger] keep(s, p)[i] by {
            if i < k.len() {
                assert(keep(s, p)[i] == k[i]);
                let j = choose|j: int| 0 <= j < s.drop_last().len() && s.drop_last()[j] == k[i];
                assert(s[j] == k[i]);
            } else {
                assert(s[s.len() - 1] == keep(s, p)[i]);
            }
        }
    }
}

// ------------------------------------------------------------------
// Splitting and joining
// ------------------------------------------------------------------

/// `s.split(sep)`: the pieces between the characters that satisfy `sep`
/// (always at least one piece).
pub open spec fn split_by(s: Seq<char>, sep: spec_fn(char) -> bool) -> Seq<Seq<char>>
    decreases s.len(),
{
    if s.len() == 0 {
        seq![Seq::<char>::empty()]
    } else {
        let p = split_by(s.drop_last(), sep);
        if sep(s.last()) {
            p.push(Seq::<char>::empty())
        } else {
            p.update(p.len() - 1, p.last().push(s.last()))
        }
    }
}

/// The separator predicate of one character.
pub open spec fn is_char(c: char) -> spec_fn(char) -> bool {
    |x: char| x == c
}

/// The separator predicate of `split_whitespace`.
pub open spec fn ws_sep() -> spec_fn(char) -> bool {
    |x: char| is_ws(x)
}

/// `pieces.join(sep)`.
pub open spec fn join(ps: Seq<Seq<char>>, sep: Seq<char>) -> Seq<char>
    decreases ps.len(),
{
    if ps.len() == 0 {
        Seq::empty()
    } else if ps.len() == 1 {
        ps[0]
    } else {
        join(ps.drop_last(), sep) + sep + ps.last()
    }
}

/// The non-empty pieces, in order.
pub open spec fn nonempty(ps: Seq<Seq<char>>) -> Seq<Seq<char>>
    decreases ps.len(),
{
    if ps.len() == 0 {
        ps
    } else if ps.last().len() > 0 {
        nonempty(ps.drop_last()).push(ps.last())
    } else {
        nonempty(ps.drop_last())
    }
}

/// `str::split_whitespace`.
pub open spec fn words(s: Seq<char>) -> Seq<Seq<char>> {
    nonempty(split_by(s, ws_sep()))
}

/// A piece contains no character that satisfies `p`.
pub open spec fn free_of(s: Seq<char>, p: spec_fn(char) -> bool) -> bool {
    forall|i: int| 0 <= i < s.len() ==> !p(#[trigger] s[i])
}

/// The views of a sequence of character vectors.
pub open spec fn views(v: Seq<Vec<char>>) -> Seq<Seq<char>> {
    v.map_values(|x: Vec<char>| x@)
}

/// The views of a sequence of strings.
pub open spec fn string_views(v: Seq<String>) -> Seq<Seq<char>> {
    v.map_values(|x: String| x@)
}

pub proof fn lemma_split_len(s: Seq<char>, sep: spec_fn(char) -> bool)
    ensures
        split_by(s, sep).len() >= 1,
    decreases s.len(),
{
    if s.len() > 0 {
        lemma_split_len(s.drop_last(), sep);
    }
}

pub proof fn lemma_split_free(s: Seq<char>, sep: spec_fn(char) -> bool)
    requires
        free_of(s, sep),
    ensures
        split_by(s, sep) == seq![s],
    decreases s.len(),
{
    if s.len() > 0 {
        assert(free_of(s.drop_last(), sep)) by {
            assert forall|i: int| 0 <= i < s.drop_last().len() implies !sep(
                #[trigger] s.drop_last()[i],
            ) by {
                assert(s.drop_last()[i] == s[i]);
            }
        }
        lemma_split_free(s.drop_last(), sep);
        assert(!sep(s[s.len() - 1]));
        assert(s.drop_last().push(s.last()) =~= s);
        assert(seq![s.drop_last()].update(0, s) =~= seq![s]);
    } else {
        assert(s =~= Seq::<char>::empty());
    }
}

pub proof fn lemma_split_append_free(a: Seq<char>, b: Seq<char>, sep: spec_fn(char) -> bool)
    requires
        free_of(b, sep),
    ensures
        split_by(a + b, sep) == split_by(a, sep).update(
            split_by(a, sep).len() - 1,
            split_by(a, sep).last() + b,
        ),
    decreases b.len(),
{
    lemma_split_len(a, sep);
    let q = split_by(a, sep);
    if b.len() == 0 {
        assert(a + b == a);
        assert(q.last() + b == q.last());
        assert(q.update(q.len() - 1, q.last()) == q);
    } else {
        let b0 = b.drop_last();
        assert(free_of(b0, sep)) by {
            assert forall|i: int| 0 <= i < b0.len() implies !sep(#[trigger] b0[i]) by {
                assert(b0[i] == b[i]);
            }
        }
        lemma_split_append_free(a, b0, sep);
        assert((a + b).drop_last() == a + b0);
        assert((a + b).last() == b.last());
        assert(!sep(b[b.len() - 1]));
        let r = split_by(a + b0, sep);
        assert(r.last().push(b.last()) == q.last() + b);
        assert(r.update(r.len() - 1, r.last().push(b.last())) == q.update(
            q.len() - 1,
            q.last() + b,
        ));
    }
}

/// Splitting what a join produced gives the pieces back, when the separator
/// character occurs in none of them.
pub proof fn lemma_split_join(ps: Seq<Seq<char>>, c: char, sep: spec_fn(char) -> bool)
    requires
        ps.len() >= 1,
        sep(c),
        forall|i: int| 0 <= i < ps.len() ==> free_of(#[trigger] ps[i], sep),
    ensures
        split_by(join(ps, seq![c]), sep) == ps,
    decreases ps.len(),
{
    if ps.len() == 1 {
        lemma_split_free(ps[0], sep);
        assert(seq![ps[0]] == ps);
    } else {
        let front = ps.drop_last();
        assert forall|i: int| 0 <= i < front.len() implies free_of(#[trigger] front[i], sep) by {
            assert(front[i] == ps[i]);
        }
        lemma_split_join(front, c, sep);
        let j = join(front, seq![c]);
        let a = j + seq![c];
        assert(a.drop_last() == j);
        assert(split_by(a, sep) == front.push(Seq::<char>::empty()));
        assert(free_of(ps.last(), sep));
        lemma_split_append_free(a, ps.last(), sep);
        assert(join(ps, seq![c]) == a + ps.last());
        assert(Seq::<char>::empty() + ps.last() == ps.last());
        assert(front.push(Seq::<char>::empty()).update(front.len() as int, ps.last()) == ps);
    }
}

pub fn split_chars(s: &Vec<char>, c: char) -> (out: Vec<Vec<char>>)
    ensures
        views(out@) == split_by(s@, is_char(c)),
{
    let mut out: Vec<Vec<char>> = Vec::new();
    let mut cur: Vec<char> = Vec::new();
    assert(s@.take(0) == Seq::<char>::empty());
    assert(views(out@).push(cur@) == seq![Seq::<char>::empty()]);
    for i in 0..s.len()
        invariant
            views(out@).push(cur@) == split_by(s@.take(i as int), is_char(c)),
    {
        let ghost before = views(out@).push(cur@);
        assert(s@.take(i + 1).drop_last() == s@.take(i as int));
        assert(s@.take(i + 1).last() == s@[i as int]);
        if s[i] == c {
            out.push(cur);
            cur = Vec::new();
            assert(views(out@).push(cur@) == before.push(Seq::<char>::empty()));
        } else {
            cur.push(s[i]);
            assert(views(out@).push(cur@) == before.update(
                before.len() - 1,
                before.last().push(s@[i as int]),
            ));
        }
    }
    assert(s@.take(s.len() as int) == s@);
    out.push(cur);
    out
}

pub fn split_ws_chars(s: &Vec<char>) -> (out: Vec<Vec<char>>)
    ensures
        views(out@) == split_by(s@, ws_sep()),
{
    let mut out: Vec<Vec<char>> = Vec::new();
    let mut cur: Vec<char> = Vec::new();
    assert(s@.take(0) == Seq::<char>::empty());
    assert(views(out@).push(cur@) == seq![Seq::<char>::empty()]);
    for i in 0..s.len()
        invariant
            views(out@).push(cur@) == split_by(s@.take(i as int), ws_sep()),
    {
        let ghost before = views(out@).push(cur@);
        assert(s@.take(i + 1).drop_last() == s@.take(i as int));
        assert(s@.take(i + 1).last() == s@[i as int]);
        if is_whitespace_char(s[i]) {
            out.push(cur);
            cur = Vec::new();
            assert(views(out@).push(cur@) == before.push(Seq::<char>::empty()));
        } else {
            cur.push(s[i]);
            assert(views(out@).push(cur@) == before.update(
                before.len() - 1,
                before.last().push(s@[i as int]),
            ));
        }
    }
    assert(s@.take(s.len() as int) == s@);
    out.push(cur);
    out
}

/// A copy of a character vector.
pub fn copy_chars(v: &Vec<char>) -> (out: Vec<char>)
    ensures
        out@ == v@,
{
    let mut out: Vec<char> = Vec::new();
    append_chars(&mut out, v);
    out
}

pub fn nonempty_pieces(ps: &Vec<Vec<char>>) -> (out: Vec<Vec<char>>)
    ensures
        views(out@) == nonempty(views(ps@)),
{
    let mut out: Vec<Vec<char>> = Vec::new();
    let ghost all = views(ps@);
    for i in 0..ps.len()
        invariant
            all == views(ps@),
            views(out@) == nonempty(all.take(i as int)),
    {
        assert(all.take(i + 1).drop_last() == all.take(i as int));
        assert(all.take(i + 1).last() == ps@[i as int]@);
        if ps[i].len() > 0 {
            out.push(copy_chars(&ps[i]));
        }
    }
    assert(all.take(ps.len() as int) == all);
    out
}

pub fn join_pieces(ps: &Vec<Vec<char>>, sep: &Vec<char>) -> (out: Vec<char>)
    ensures
        out@ == join(views(ps@), sep@),
{
    let mut out: Vec<char> = Vec::new();
    let ghost all = views(ps@);
    for i in 0..ps.len()
        invariant
            all == views(ps@),
            out@ == join(all.take(i as int), sep@),
    {
        assert(all.take(i + 1).drop_last() == all.take(i as int));
        assert(all.take(i + 1).last() == ps@[i as int]@);
        if i > 0 {
            append_chars(&mut out, sep);
        }
        append_chars(&mut out, &ps[i]);
        if i == 0 {
            assert(join(all.take(0), sep@) == Seq::<char>::empty());
            assert(out@ == ps@[0]@);
        }
    }
    assert(all.take(ps.len() as int) == all);
    out
}


// ------------------------------------------------------------------
// Lines of a text file
// ------------------------------------------------------------------

/// One trailing carriage return removed.
pub open spec fn strip_cr(s: Seq<char>) -> Seq<char> {
    if s.len() > 0 && s.last() == '\r' {
        s.drop_last()
    } else {
        s
    }
}

/// `str::lines`: split at `\n`, a `\r` before each `\n` dropped, and no
/// empty last line after a final `\n`.
pub open spec fn lines(s: Seq<char>) -> Seq<Seq<char>> {
    let ps = split_by(s, is_char('\n'));
    if ps.last().len() == 0 {
        Seq::new((ps.len() - 1) as nat, |i: int| strip_cr(ps[i]))
    } else {
        Seq::new(ps.len(), |i: int| if i < ps.len() - 1 { strip_cr(ps[i]) } else { ps[i] })
    }
}

/// The text of a file that holds the given lines: joined by `\n`, with a
/// final `\n` unless there is nothing at all.
pub open spec fn file_text(ls: Seq<Seq<char>>) -> Seq<char> {
    let body = join(ls, seq!['\n']);
    if body.len() == 0 {
        body
    } else {
        body.push('\n')
    }
}

/// A line that reads back unchanged from a file: not empty, no line feed,
/// no carriage return at its end.
pub open spec fn storable_line(l: Seq<char>) -> bool {
    &&& l.len() > 0
    &&& free_of(l, is_char('\n'))
    &&& l.last() != '\r'
}

/// Reading the lines of a file written from storable lines gives those lines back.
pub proof fn lemma_lines_file_text(ls: Seq<Seq<char>>)
    requires
        forall|i: int| 0 <= i < ls.len() ==> storable_line(#[trigger] ls[i]),
    ensures
        lines(file_text(ls)) == ls,
{
    let nl = is_char('\n');
    if ls.len() == 0 {
        assert(split_by(Seq::<char>::empty(), nl) == seq![Seq::<char>::empty()]);
        assert(lines(file_text(ls)) =~= ls);
    } else {
        let body = join(ls, seq!['\n']);
        assert(body.len() > 0) by {
            assert(storable_line(ls[ls.len() - 1]));
            if ls.len() == 1 {
            } else {
                assert(body == join(ls.drop_last(), seq!['\n']) + seq!['\n'] + ls.last());
            }
        }
        assert forall|i: int| 0 <= i < ls.len() implies free_of(#[trigger] ls[i], nl) by {
            assert(storable_line(ls[i]));
        }
        lemma_split_join(ls, '\n', nl);
        assert(body.push('\n').drop_last() == body);
        let ps = split_by(body.push('\n'), nl);
        assert(ps == ls.push(Seq::<char>::empty()));
        assert forall|i: int| 0 <= i < ls.len() implies strip_cr(#[trigger] ps[i]) == ls[i] by {
            assert(storable_line(ls[i]));
        }
        assert(lines(file_text(ls)) =~= ls);
    }
}

pub fn lines_of(s: &Vec<char>) -> (out: Vec<Vec<char>>)
    ensures
        views(out@) == lines(s@),
{
    let ps = split_chars(s, '\n');
    proof {
        lemma_split_len(s@, is_char('\n'));
    }
    let n = ps.len();
    let count = if ps[n - 1].len() == 0 {
        n - 1
    } else {
        n
    };
    let ghost pv = views(ps@);
    let mut out: Vec<Vec<char>> = Vec::new();
    for i in 0..count
        invariant
            n == ps.len(),
            pv == views(ps@),
            pv == split_by(s@, is_char('\n')),
            count <= n,
            count == (if pv.last().len() == 0 { n - 1 } else { n as int }),
            out@.len() == i,
            forall|k: int|
                0 <= k < i ==> (#[trigger] out@[k])@ == (if k < n - 1 {
                    strip_cr(pv[k])
                } else {
                    pv[k]
                }),
    {
        let p = &ps[i];
        let l = p.len();
        if i < n - 1 && l > 0 && p[l - 1] == '\r' {
            let mut q: Vec<char> = Vec::new();
            for j in 0..l - 1
                invariant
                    l == p.len(),
                    l > 0,
                    q@ == p@.take(j as int),
            {
                q.push(p[j]);
                assert(p@.take(j + 1) == p@.take(j as int).push(p@[j as int]));
            }
            assert(q@ == p@.drop_last());
            out.push(q);
        } else {
            out.push(copy_chars(p));
        }
    }
    assert(views(out@) =~= lines(s@));
    out
}

pub fn file_text_of(ls: &Vec<Vec<char>>) -> (out: Vec<char>)
    ensures
        out@ == file_text(views(ls@)),
{
    let nl: Vec<char> = vec!['\n'];
    assert(nl@ == seq!['\n']);
    let mut body = join_pieces(ls, &nl);
    if body.len() > 0 {
        body.push('\n');
    }
    body
}

// ------------------------------------------------------------------
// ASCII case folding
// ------------------------------------------------------------------

/// ASCII lower-casing of every character.
pub open spec fn fold_case(s: Seq<char>) -> Seq<char> {
    s.map_values(|c: char| lower(c))
}

/// `str::eq_ignore_ascii_case`.
pub open spec fn same_name_spec(a: Seq<char>, b: Seq<char>) -> bool {
    fold_case(a) == fold_case(b)
}

pub fn same_name_chars(a: &Vec<char>, b: &Vec<char>) -> (r: bool)
    ensures
        r == same_name_spec(a@, b@),
{
    if a.len() != b.len() {
        proof {
            assert(fold_case(a@).len() != fold_case(b@).len());
        }
        return false;
    }
    for i in 0..a.len()
        invariant
            a.len() == b.len(),
            forall|k: int| 0 <= k < i ==> lower(a@[k]) == lower(b@[k]),
    {
        if lower_char(a[i]) != lower_char(b[i]) {
            proof {
                assert(fold_case(a@)[i as int] != fold_case(b@)[i as int]);
            }
            return false;
        }
    }
    assert(fold_case(a@) =~= fold_case(b@));
    true
}

// ------------------------------------------------------------------
// Numbers
// ------------------------------------------------------------------

/// The decimal digits of `n`, without leading zeros.
pub open spec fn decimal(n: nat) -> Seq<char>
    decreases n,
{
    if n < 10 {
        seq![digit_char(n)]
    } else {
        decimal(n / 10).push(digit_char(n % 10))
    }
}

/// The last `k` lower-case hexadecimal digits of `n`, zero padded.
pub open spec fn hex_fixed(n: nat, k: nat) -> Seq<char>
    decreases k,
{
    if k == 0 {
        Seq::empty()
    } else {
        hex_fixed(n / 16, (k - 1) as nat).push(hex_char(n % 16))
    }
}

pub fn push_decimal(out: &mut Vec<char>, n: u128)
    ensures
        final(out)@ == old(out)@ + decimal(n as nat),
    decreases n,
{
    if n >= 10 {
        push_decimal(out, n / 10);
    }
    let d = (n % 10) as u8;
    out.push((d + 48) as char);
    proof {
        if n < 10 {
            assert(decimal(n as nat) == seq![digit_char(n as nat)]);
        }
    }
}

pub fn push_hex_fixed(out: &mut Vec<char>, n: u64, k: u32)
    ensures
        final(out)@ == old(out)@ + hex_fixed(n as nat, k as nat),
    decreases k,
{
    if k > 0 {
        push_hex_fixed(out, n / 16, k - 1);
        let d = (n % 16) as u8;
        if d < 10 {
            out.push((d + 48) as char);
        } else {
            out.push((d + 87) as char);
        }
    } else {
        assert(old(out)@ + hex_fixed(n as nat, 0) == old(out)@);
    }
}

/// The value of a sequence of decimal digits.
pub open spec fn digits_value(d: Seq<char>) -> nat
    decreases d.len(),
{
    if d.len() == 0 {
        0
    } else {
        digits_value(d.drop_last()) * 10 + digit_value(d.last())
    }
}

pub open spec fn all_digits(d: Seq<char>) -> bool {
    forall|i: int| 0 <= i < d.len() ==> is_digit(#[trigger] d[i])
}

/// `u8::from_str`: an optional `+`, then one or more decimal digits whose
/// value is at most 255.
pub open spec fn parse_u8(s: Seq<char>) -> Option<u8> {
    let d = if s.len() > 0 && s[0] == '+' {
        s.drop_first()
    } else {
        s
    };
    if d.len() > 0 && all_digits(d) && digits_value(d) <= 255 {
        Some(digits_value(d) as u8)
    } else {
        None
    }
}

pub fn parse_u8_chars(s: &Vec<char>) -> (r: Option<u8>)
    ensures
        r == parse_u8(s@),
{
    let start: usize = if s.len() > 0 && s[0] == '+' {
        1
    } else {
        0
    };
    let ghost d = if s@.len() > 0 && s@[0] == '+' {
        s@.drop_first()
    } else {
        s@
    };
    assert(d == s@.skip(start as int));
    if start >= s.len() {
        return None;
    }
    let mut acc: u32 = 0;
    let mut over = false;
    let mut i: usize = start;
    assert(d.take(0) == Seq::<char>::empty());
    while i < s.len()
        invariant
            start <= i <= s.len(),
            d == s@.skip(start as int),
            d == (if s@.len() > 0 && s@[0] == '+' {
                s@.drop_first()
            } else {
                s@
            }),
            all_digits(d.take(i - start)),
            over ==> digits_value(d.take(i - start)) > 255,
            !over ==> acc as nat == digits_value(d.take(i - start)) && acc <= 255,
        decreases s.len() - i,
    {
        let c = s[i];
        assert(d[i - start] == c);
        assert(d.take(i - start + 1).drop_last() == d.take(i - start));
        assert(d.take(i - start + 1).last() == c);
        if !is_digit_char(c) {
            assert(!all_digits(d));
            return None;
        }
        if !over {
            acc = acc * 10 + ((c as u32) - 48);
            if acc > 255 {
                over = true;
            }
        }
        assert(all_digits(d.take(i - start + 1))) by {
            assert forall|k: int| 0 <= k < d.take(i - start + 1).len() implies is_digit(
                #[trigger] d.take(i - start + 1)[k],
            ) by {
                if k < i - start {
                    assert(d.take(i - start + 1)[k] == d.take(i - start)[k]);
                }
            }
        }
        i = i + 1;
    }
    assert(d.take(s.len() - start) == d);
    if over {
        None
    } else {
        Some(acc as u8)
    }
}

// ------------------------------------------------------------------
// Which characters survive splitting, joining and filtering
// ------------------------------------------------------------------

/// A tab, line feed or carriage return.
pub open spec fn is_line_break_or_tab(c: char) -> bool {
    c == '\t' || c == '\n' || c == '\r'
}

/// No tab, line feed or carriage return: the text can stand as a field of a
/// stored line.
pub open spec fn clean_field(s: Seq<char>) -> bool {
    forall|i: int| 0 <= i < s.len() ==> !is_line_break_or_tab(#[trigger] s[i])
}

/// Every character of `s` satisfies `p`.
pub open spec fn all_chars(s: Seq<char>, p: spec_fn(char) -> bool) -> bool {
    forall|i: int| 0 <= i < s.len() ==> p(#[trigger] s[i])
}

pub proof fn lemma_all_chars_prefix(s: Seq<char>, n: nat, p: spec_fn(char) -> bool)
    requires
        all_chars(s, p),
    ensures
        all_chars(prefix(s, n), p),
{
    if s.len() > n {
        assert forall|i: int| 0 <= i < prefix(s, n).len() implies p(#[trigger] prefix(s, n)[i]) by {
            assert(prefix(s, n)[i] == s[i]);
        }
    }
}

/// What `keep` keeps satisfies the filter.
pub proof fn lemma_keep_all_chars(s: Seq<char>, p: spec_fn(char) -> bool)
    ensures
        all_chars(keep(s, p), p),
{
    lemma_keep_props(s, p);
}

/// Every piece of a split avoids the separator, and keeps every property
/// that all characters of the text have.
pub proof fn lemma_split_pieces(s: Seq<char>, sep: spec_fn(char) -> bool, q: spec_fn(char) -> bool)
    requires
        all_chars(s, q),
    ensures
        forall|i: int|
            0 <= i < split_by(s, sep).len() ==> free_of(#[trigger] split_by(s, sep)[i], sep)
                && all_chars(split_by(s, sep)[i], q),
    decreases s.len(),
{
    lemma_split_len(s, sep);
    if s.len() > 0 {
        let t = s.drop_last();
        assert(all_chars(t, q)) by {
            assert forall|i: int| 0 <= i < t.len() implies q(#[trigger] t[i]) by {
                assert(t[i] == s[i]);
            }
        }
        lemma_split_pieces(t, sep, q);
        lemma_split_len(t, sep);
        let ps = split_by(t, sep);
        assert(q(s[s.len() - 1]));
        if !sep(s.last()) {
            let l = ps.last().push(s.last());
            assert(free_of(ps[ps.len() - 1], sep) && all_chars(ps[ps.len() - 1], q));
            assert(free_of(l, sep) && all_chars(l, q)) by {
                assert forall|k: int| 0 <= k < l.len() implies !sep(#[trigger] l[k]) && q(l[k]) by {
                    if k < l.len() - 1 {
                        assert(l[k] == ps.last()[k]);
                    }
                }
            }
        }
    }
}

/// The non-empty pieces are among the pieces.
pub proof fn lemma_nonempty_props(ps: Seq<Seq<char>>)
    ensures
        forall|i: int|
            0 <= i < nonempty(ps).len() ==> #[trigger] nonempty(ps)[i].len() > 0 && exists|j: int|
                0 <= j < ps.len() && ps[j] == nonempty(ps)[i],
    decreases ps.len(),
{
    if ps.len() > 0 {
        lemma_nonempty_props(ps.drop_last());
        let r = nonempty(ps.drop_last());
        assert forall|i: int| 0 <= i < nonempty(ps).len() implies #[trigger] nonempty(ps)[i].len() > 0
            && exists|j: int| 0 <= j < ps.len() && ps[j] == nonempty(ps)[i] by {
            if i < r.len() {
                assert(nonempty(ps)[i] == r[i]);
                let j = choose|j: int| 0 <= j < ps.drop_last().len() && ps.drop_last()[j] == r[i];
                assert(ps[j] == r[i]);
            } else {
                assert(ps[ps.len() - 1] == nonempty(ps)[i]);
            }
        }
    }
}

/// A join avoids what all its pieces and the separator avoid.
pub proof fn lemma_join_all_chars(ps: Seq<Seq<char>>, sep: Seq<char>, q: spec_fn(char) -> bool)
    requires
        forall|i: int| 0 <= i < ps.len() ==> all_chars(#[trigger] ps[i], q),
        all_chars(sep, q),
    ensures
        all_chars(join(ps, sep), q),
    decreases ps.len(),
{
    if ps.len() > 1 {
        let front = ps.drop_last();
        assert forall|i: int| 0 <= i < front.len() implies all_chars(#[trigger] front[i], q) by {
            assert(front[i] == ps[i]);
        }
        lemma_join_all_chars(front, sep, q);
        let a = join(front, sep);
        let l = ps.last();
        assert(all_chars(ps[ps.len() - 1], q));
        let j = a + sep + l;
        assert forall|k: int| 0 <= k < j.len() implies q(#[trigger] j[k]) by {
            if k < a.len() {
                assert(j[k] == a[k]);
            } else if k < a.len() + sep.len() {
                assert(j[k] == sep[k - a.len()]);
            } else {
                assert(j[k] == l[k - a.len() - sep.len()]);
            }
        }
    } else if ps.len() == 1 {
        assert(all_chars(ps[0], q));
    }
}

/// A join of two or more pieces with a non-empty separator is not empty.
pub proof fn lemma_join_len(ps: Seq<Seq<char>>, sep: Seq<char>)
    requires
        ps.len() >= 2,
        sep.len() > 0,
    ensures
        join(ps, sep).len() > 0,
{
}

// ------------------------------------------------------------------
// Lengths of pieces
// ------------------------------------------------------------------

/// The summed length of the pieces.
pub open spec fn total_len(ps: Seq<Seq<char>>) -> nat
    decreases ps.len(),
{
    if ps.len() == 0 {
        0
    } else {
        total_len(ps.drop_last()) + ps.last().len()
    }
}

/// The pieces of a split, with one separator between each two, make up the text.
pub proof fn lemma_split_total_len(s: Seq<char>, sep: spec_fn(char) -> bool)
    ensures
        total_len(split_by(s, sep)) + split_by(s, sep).len() == s.len() + 1,
    decreases s.len(),
{
    lemma_split_len(s, sep);
    if s.len() > 0 {
        let t = s.drop_last();
        lemma_split_total_len(t, sep);
        lemma_split_len(t, sep);
        let p = split_by(t, sep);
        assert(total_len(p) == total_len(p.drop_last()) + p.last().len());
        if sep(s.last()) {
            assert(p.push(Seq::<char>::empty()).drop_last() == p);
            assert(total_len(p.push(Seq::<char>::empty())) == total_len(p));
        } else {
            let q = p.update(p.len() - 1, p.last().push(s.last()));
            assert(q.drop_last() == p.drop_last());
            assert(q.last() == p.last().push(s.last()));
            assert(total_len(q) == total_len(q.drop_last()) + q.last().len());
        }
    } else {
        let e = seq![Seq::<char>::empty()];
        assert(e.drop_last() =~= Seq::<Seq<char>>::empty());
        assert(total_len(Seq::<Seq<char>>::empty()) == 0);
        assert(e.last() == Seq::<char>::empty());
        assert(total_len(e) == total_len(e.drop_last()) + e.last().len());
        assert(total_len(e) == 0);
    }
}

/// Dropping empty pieces keeps the summed length and does not add pieces.
pub proof fn lemma_nonempty_total_len(ps: Seq<Seq<char>>)
    ensures
        total_len(nonempty(ps)) == total_len(ps),
        nonempty(ps).len() <= ps.len(),
    decreases ps.len(),
{
    if ps.len() > 0 {
        lemma_nonempty_total_len(ps.drop_last());
        if ps.last().len() > 0 {
            assert(nonempty(ps).drop_last() == nonempty(ps.drop_last()));
        }
    }
}

/// The length of a join with a one-character separator.
pub proof fn lemma_join_total_len(ps: Seq<Seq<char>>, c: char)
    requires
        ps.len() >= 1,
    ensures
        join(ps, seq![c]).len() == total_len(ps) + ps.len() - 1,
    decreases ps.len(),
{
    if ps.len() == 1 {
        assert(ps.drop_last().len() == 0);
    } else {
        lemma_join_total_len(ps.drop_last(), c);
    }
}

/// Collapsing whitespace never makes a text longer.
pub proof fn lemma_words_join_len(s: Seq<char>)
    ensures
        join(words(s), seq![' ']).len() <= s.len(),
{
    let ps = split_by(s, ws_sep());
    lemma_split_total_len(s, ws_sep());
    lemma_nonempty_total_len(ps);
    if words(s).len() > 0 {
        lemma_join_total_len(words(s), ' ');
    }
}

/// No two neighbouring characters of `s` are both `c`.
pub open spec fn no_double(s: Seq<char>, c: char) -> bool {
    forall|i: int, j: int| 0 <= i && j == i + 1 && j < s.len() ==> !(#[trigger] s[i] == c && #[trigger] s[j] == c)
}

/// Non-empty pieces without `c`, joined by `c`, never put two `c` side by
/// side.
pub proof fn lemma_join_no_double(ps: Seq<Seq<char>>, c: char)
    requires
        forall|i: int| 0 <= i < ps.len() ==> (#[trigger] ps[i]).len() > 0 && free_of(ps[i], is_char(c)),
    ensures
        no_double(join(ps, seq![c]), c),
    decreases ps.len(),
{
    if ps.len() == 1 {
        let p = ps[0];
        assert forall|i: int, j: int| 0 <= i && j == i + 1 && j < p.len() implies !(#[trigger] p[i] == c && #[trigger] p[j] == c) by {
            assert(!is_char(c)(p[i]));
        }
    } else if ps.len() > 1 {
        let front = ps.drop_last();
        assert forall|i: int| 0 <= i < front.len() implies (#[trigger] front[i]).len() > 0 && free_of(front[i], is_char(c)) by {
            assert(front[i] == ps[i]);
        }
        lemma_join_no_double(front, c);
        let a = join(front, seq![c]);
        let l = ps.last();
        assert(l.len() > 0 && free_of(l, is_char(c)));
        assert(front.last().len() > 0 && free_of(front.last(), is_char(c))) by {
            assert(front.last() == ps[ps.len() - 2]);
        }
        lemma_join_last(front, seq![c]);
        let r = join(ps, seq![c]);
        assert(r == a + seq![c] + l);
        assert forall|i: int, j: int| 0 <= i && j == i + 1 && j < r.len() implies !(#[trigger] r[i] == c && #[trigger] r[j] == c) by {
            if j < a.len() {
                assert(r[i] == a[i] && r[j] == a[j]);
            } else if j == a.len() {
                assert(r[i] == a.last());
                assert(a.last() == front.last().last());
                assert(!is_char(c)(front.last()[front.last().len() - 1]));
            } else if j == a.len() + 1 {
                assert(r[j] == l[0]);
                assert(!is_char(c)(l[0]));
            } else {
                assert(r[j] == l[j - a.len() - 1]);
                assert(!is_char(c)(l[j - a.len() - 1]));
            }
        }
    }
}

/// Joining the pieces of a split by a space gives the text back, when the
/// only whitespace in it is the space.
pub proof fn lemma_join_split_ws(s: Seq<char>)
    requires
        forall|i: int| 0 <= i < s.len() && is_ws(#[trigger] s[i]) ==> s[i] == ' ',
    ensures
        join(split_by(s, ws_sep()), seq![' ']) == s,
    decreases s.len(),
{
    if s.len() > 0 {
        let t = s.drop_last();
        assert forall|i: int| 0 <= i < t.len() && is_ws(#[trigger] t[i]) implies t[i] == ' ' by {
            assert(t[i] == s[i]);
        }
        lemma_join_split_ws(t);
        lemma_split_len(t, ws_sep());
        let p = split_by(t, ws_sep());
        let c = s.last();
        assert(t.push(c) =~= s);
        if ws_sep()(c) {
            assert(c == ' ');
            let q = p.push(Seq::<char>::empty());
            assert(q.drop_last() =~= p);
            assert(join(q, seq![' ']) =~= t + seq![' '] + Seq::<char>::empty());
        } else {
            let q = p.update(p.len() - 1, p.last().push(c));
            if p.len() == 1 {
                assert(join(q, seq![' ']) == q[0]);
                assert(join(p, seq![' ']) == p[0]);
            } else {
                assert(q.drop_last() =~= p.drop_last());
                assert(join(q, seq![' ']) =~= join(p.drop_last(), seq![' ']) + seq![' '] + p.last().push(c));
            }
        }
    }
}

/// A text that does not start with a space and has no two spaces side by
/// side splits at whitespace into pieces of which all but the last are not
/// empty.
pub proof fn lemma_split_ws_pieces_front(s: Seq<char>)
    requires
        forall|i: int| 0 <= i < s.len() && is_ws(#[trigger] s[i]) ==> s[i] == ' ',
        s.len() > 0 ==> s[0] != ' ',
        no_double(s, ' '),
    ensures
        forall|i: int|
            0 <= i < split_by(s, ws_sep()).len() - 1 ==> (#[trigger] split_by(s, ws_sep())[i]).len() > 0,
    decreases s.len(),
{
    if s.len() > 0 {
        let t = s.drop_last();
        assert forall|i: int| 0 <= i < t.len() && is_ws(#[trigger] t[i]) implies t[i] == ' ' by {
            assert(t[i] == s[i]);
        }
        assert(no_double(t, ' ')) by {
            assert forall|i: int, j: int| 0 <= i && j == i + 1 && j < t.len() implies !(#[trigger] t[i] == ' ' && #[trigger] t[j] == ' ') by {
                assert(t[i] == s[i] && t[j] == s[j]);
            }
        }
        if t.len() > 0 {
            assert(t[0] == s[0]);
        }
        lemma_split_ws_pieces_front(t);
        lemma_split_len(t, ws_sep());
        let p = split_by(t, ws_sep());
        let c = s.last();
        if ws_sep()(c) {
            assert(t.len() > 0);
            let k = t.len() - 1;
            assert(!(s[k] == ' ' && s[k + 1] == ' '));
            assert(s[k] == t.last());
            assert(!ws_sep()(t.last()));
            lemma_split_ws_last(t);
        }
    }
}

/// The last piece of a split of a text that does not end in a separator is
/// not empty.
pub proof fn lemma_split_ws_last(t: Seq<char>)
    requires
        t.len() > 0,
        !ws_sep()(t.last()),
    ensures
        split_by(t, ws_sep()).last().len() > 0,
{
    lemma_split_len(t.drop_last(), ws_sep());
}

/// A join starts with the first character of its first piece.
pub proof fn lemma_join_first(ps: Seq<Seq<char>>, sep: Seq<char>)
    requires
        ps.len() >= 1,
        ps[0].len() > 0,
    ensures
        join(ps, sep).len() > 0,
        join(ps, sep)[0] == ps[0][0],
    decreases ps.len(),
{
    if ps.len() > 1 {
        let front = ps.drop_last();
        assert(front[0] == ps[0]);
        lemma_join_first(front, sep);
        let j = join(front, sep) + sep + ps.last();
        assert(j[0] == join(front, sep)[0]);
    }
}

/// A join ends with the last character of its last piece.
pub proof fn lemma_join_last(ps: Seq<Seq<char>>, sep: Seq<char>)
    requires
        ps.len() >= 1,
        ps.last().len() > 0,
    ensures
        join(ps, sep).len() > 0,
        join(ps, sep).last() == ps.last().last(),
{
}

/// A lower-case hexadecimal digit.
pub open spec fn is_hex_char(c: char) -> bool {
    (48 <= (c as u32) <= 57) || (97 <= (c as u32) <= 102)
}

/// `hex_fixed` gives exactly `k` hexadecimal digits.
pub proof fn lemma_hex_fixed(n: nat, k: nat)
    ensures
        hex_fixed(n, k).len() == k,
        forall|i: int| 0 <= i < k ==> is_hex_char(#[trigger] hex_fixed(n, k)[i]),
    decreases k,
{
    if k > 0 {
        lemma_hex_fixed(n / 16, (k - 1) as nat);
        let h = hex_fixed(n, k);
        let d = n % 16;
        assert(is_hex_char(hex_char(d)));
        assert forall|i: int| 0 <= i < k implies is_hex_char(#[trigger] h[i]) by {
            if i < k - 1 {
                assert(h[i] == hex_fixed(n / 16, (k - 1) as nat)[i]);
            }
        }
    }
}

/// Trimming keeps a text free of what it was free of.
pub proof fn lemma_trim_free(s: Seq<char>, p: spec_fn(char) -> bool)
    requires
        free_of(s, p),
    ensures
        free_of(trim(s), p),
{
    lemma_trim_start_shape(s);
    let t = trim_start(s);
    lemma_trim_end_shape(t);
    assert forall|i: int| 0 <= i < t.len() implies !p(#[trigger] t[i]) by {
        assert(t[i] == s[s.len() - t.len() + i]);
    }
    let r = trim(s);
    assert forall|i: int| 0 <= i < r.len() implies !p(#[trigger] r[i]) by {
        assert(r[i] == t[i]);
    }
}

/// The lines of a text hold no line feed.
pub proof fn lemma_lines_free(s: Seq<char>)
    ensures
        forall|i: int| 0 <= i < lines(s).len() ==> free_of(#[trigger] lines(s)[i], is_char('\n')),
{
    let nl = is_char('\n');
    let any = |c: char| true;
    assert(all_chars(s, any));
    lemma_split_pieces(s, nl, any);
    lemma_split_len(s, nl);
    let ps = split_by(s, nl);
    let ls = lines(s);
    assert forall|i: int| 0 <= i < ls.len() implies free_of(#[trigger] ls[i], nl) by {
        assert(free_of(ps[i], nl));
        let p = ps[i];
        if p.len() > 0 && p.last() == '\r' {
            assert forall|k: int| 0 <= k < p.drop_last().len() implies !nl(#[trigger] p.drop_last()[k]) by {
                assert(p.drop_last()[k] == p[k]);
            }
        }
    }
}

/// Names that are the same ignoring ASCII case form classes: every name is
/// the same as itself, the relation is symmetric, and it chains.
pub proof fn lemma_same_name_equivalence(a: Seq<char>, b: Seq<char>, c: Seq<char>)
    ensures
        same_name_spec(a, a),
        same_name_spec(a, b) == same_name_spec(b, a),
        same_name_spec(a, b) && same_name_spec(b, c) ==> same_name_spec(a, c),
{
}

/// The first character that `keep` keeps is the first of the text when that
/// one passes.
pub proof fn lemma_keep_first(s: Seq<char>, p: spec_fn(char) -> bool)
    requires
        s.len() > 0,
        p(s[0]),
    ensures
        keep(s, p).len() > 0,
        keep(s, p)[0] == s[0],
    decreases s.len(),
{
    let t = s.drop_last();
    if s.len() > 1 {
        assert(t[0] == s[0]);
        lemma_keep_first(t, p);
        if p(s.last()) {
            assert(keep(s, p) == keep(t, p).push(s.last()));
            assert(keep(s, p)[0] == keep(t, p)[0]);
        }
    } else {
        assert(t.len() == 0);
        assert(keep(t, p) == t);
        assert(s.last() == s[0]);
        assert(keep(s, p) == keep(t, p).push(s.last()));
    }
}

/// The decimal digits of a number.
pub proof fn lemma_decimal_digits(n: nat)
    ensures
        decimal(n).len() > 0,
        forall|i: int| 0 <= i < decimal(n).len() ==> is_digit(#[trigger] decimal(n)[i]),
    decreases n,
{
    if n >= 10 {
        lemma_decimal_digits(n / 10);
        let d = decimal(n);
        assert forall|i: int| 0 <= i < d.len() implies is_digit(#[trigger] d[i]) by {
            if i < d.len() - 1 {
                assert(d[i] == decimal(n / 10)[i]);
            }
        }
    }
}

/// The decimal digits of a number read back as the number.
pub proof fn lemma_decimal_value(n: nat)
    ensures
        digits_value(decimal(n)) == n,
        all_digits(decimal(n)),
    decreases n,
{
    lemma_decimal_digits(n);
    if n >= 10 {
        lemma_decimal_value(n / 10);
        let d = decimal(n);
        assert(d.drop_last() == decimal(n / 10));
        assert(digit_value(digit_char(n % 10)) == n % 10);
        assert(d.last() == digit_char(n % 10));
        assert(digits_value(d) == digits_value(decimal(n / 10)) * 10 + digit_value(d.last()));
        assert((n / 10) * 10 + n % 10 == n) by (nonlinear_arith);
    } else {
        let d = decimal(n);
        assert(d.drop_last() =~= Seq::<char>::empty());
        assert(digits_value(Seq::<char>::empty()) == 0);
        assert(d.last() == digit_char(n));
        assert(digit_value(digit_char(n)) == n);
        assert(digits_value(d) == digits_value(d.drop_last()) * 10 + digit_value(d.last()));
    }
}

/// Ten to the power `k`.
pub open spec fn pow10(k: nat) -> nat
    decreases k,
{
    if k == 0 {
        1
    } else {
        10 * pow10((k - 1) as nat)
    }
}

/// A number below `10^k` has at most `k` decimal digits.
pub proof fn lemma_decimal_len(n: nat, k: nat)
    requires
        k >= 1,
        n < pow10(k),
    ensures
        decimal(n).len() <= k,
    decreases k,
{
    if n >= 10 {
        assert(pow10(1) == 10) by {
            assert(pow10(0) == 1);
        }
        if k == 1 {
            assert(false);
        }
        let k1 = (k - 1) as nat;
        assert(pow10(k) == 10 * pow10(k1));
        let m = pow10(k1);
        assert(n / 10 < m) by (nonlinear_arith)
            requires
                n < 10 * m,
        ;
        lemma_decimal_len(n / 10, k1);
    }
}

pub proof fn lemma_pow10_grows(k: nat)
    ensures
        pow10(k) >= 1,
        pow10(k + 1) >= 10,
    decreases k,
{
    if k > 0 {
        lemma_pow10_grows((k - 1) as nat);
    }
    assert(pow10(k + 1) == 10 * pow10(k));
}

/// A `u128` has at most 39 decimal digits.
pub proof fn lemma_decimal_u128(n: u128)
    ensures
        decimal(n as nat).len() <= 39,
{
    reveal_with_fuel(pow10, 40);
    assert(pow10(39) == 1000000000000000000000000000000000000000nat);
    lemma_decimal_len(n as nat, 39);
}

} // verus!
