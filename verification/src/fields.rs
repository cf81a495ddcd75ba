use vstd::prelude::*;
use crate::json;
use crate::text::{
    self, chars_of, copy_chars, is_ascii_alnum_char, is_ascii_ws_char, is_digit_char,
    join_pieces, nonempty_pieces, parse_u8_chars, same_name_chars, split_chars, split_ws_chars,
    string_of, trim_chars,
};

verus! {

/// The built-in account of the living-room display.
pub const OVERVIEW_ACCOUNT: &'static str = "overview";

// ------------------------------------------------------------------
// Specifications
// ------------------------------------------------------------------

/// A character that may stand in an account or group name.
pub open spec fn name_char(c: char) -> bool {
    text::is_ascii_alnum(c) || text::is_ascii_ws(c) || c == '-' || c == '_' || c == '.'
}

pub open spec fn name_char_pred() -> spec_fn(char) -> bool {
    |c: char| name_char(c)
}

/// `sanitize_account_name`: trimmed, only name characters, at most 32 of
/// them, whitespace runs collapsed to single spaces.
pub open spec fn sanitize_name(s: Seq<char>) -> Seq<char> {
    text::join(
        text::words(text::prefix(text::keep(text::trim(s), name_char_pred()), 32)),
        seq![' '],
    )
}

/// Tab, line feed or carriage return.
pub open spec fn is_tnr(c: char) -> bool {
    c == '\t' || c == '\n' || c == '\r'
}

pub open spec fn not_tnr_pred() -> spec_fn(char) -> bool {
    |c: char| !is_tnr(c)
}

/// `sanitize_task_text`: trimmed, tabs and line breaks dropped, at most
/// `max` characters.
pub open spec fn sanitize_text(s: Seq<char>, max: nat) -> Seq<char> {
    text::prefix(text::keep(text::trim(s), not_tnr_pred()), max)
}

/// A tab or line break turned into a space.
pub open spec fn blank_tnr(c: char) -> char {
    if is_tnr(c) {
        ' '
    } else {
        c
    }
}

/// `sanitize_note_text` and `sanitize_broadcast_text`: trimmed, tabs and
/// line breaks turned into spaces, at most `max` characters.
pub open spec fn sanitize_note(s: Seq<char>, max: nat) -> Seq<char> {
    text::prefix(text::trim(s).map_values(|c: char| blank_tnr(c)), max)
}

/// Some entry of `list` is the same name as `n`, ignoring ASCII case.
pub open spec fn has_name(list: Seq<Seq<char>>, n: Seq<char>) -> bool {
    exists|i: int| 0 <= i < list.len() && text::same_name_spec(#[trigger] list[i], n)
}

/// The first of every group of names that are the same ignoring ASCII case.
pub open spec fn dedup_names(list: Seq<Seq<char>>) -> Seq<Seq<char>>
    decreases list.len(),
{
    if list.len() == 0 {
        list
    } else {
        let d = dedup_names(list.drop_last());
        if has_name(d, list.last()) {
            d
        } else {
            d.push(list.last())
        }
    }
}

/// The entries that satisfy `p`, in order.
pub open spec fn keep_seqs(list: Seq<Seq<char>>, p: spec_fn(Seq<char>) -> bool) -> Seq<Seq<char>>
    decreases list.len(),
{
    if list.len() == 0 {
        list
    } else if p(list.last()) {
        keep_seqs(list.drop_last(), p).push(list.last())
    } else {
        keep_seqs(list.drop_last(), p)
    }
}

/// One comma-separated entry of an assignee field: `@group` or a person.
pub open spec fn assignee_entry(piece: Seq<char>) -> Seq<char> {
    let t = text::trim(piece);
    if t.len() > 0 && t[0] == '@' {
        seq!['@'] + sanitize_name(t.drop_first())
    } else {
        sanitize_name(piece)
    }
}

pub open spec fn assignee_ok() -> spec_fn(Seq<char>) -> bool {
    |e: Seq<char>| e.len() > 0 && e != seq!['@']
}

pub open spec fn nonempty_ok() -> spec_fn(Seq<char>) -> bool {
    |e: Seq<char>| e.len() > 0
}

/// `parse_assignees_field`.
pub open spec fn parse_assignees(v: Seq<char>) -> Seq<Seq<char>> {
    dedup_names(
        keep_seqs(
            text::split_by(v, text::is_char(',')).map_values(|p: Seq<char>| assignee_entry(p)),
            assignee_ok(),
        ),
    )
}

/// A list of names separated by commas, each sanitized, empty ones dropped,
/// repeats dropped (the `seenBy` field of a broadcast).
pub open spec fn parse_name_list(v: Seq<char>) -> Seq<Seq<char>> {
    dedup_names(
        keep_seqs(
            text::split_by(v, text::is_char(',')).map_values(|p: Seq<char>| sanitize_name(p)),
            nonempty_ok(),
        ),
    )
}

/// `YYYY-MM-DD`: ten characters, dashes at 4 and 7, digits elsewhere.
pub open spec fn valid_date_key(s: Seq<char>) -> bool {
    &&& s.len() == 10
    &&& s[4] == '-'
    &&& s[7] == '-'
    &&& forall|i: int| 0 <= i < 10 && i != 4 && i != 7 ==> text::is_digit(#[trigger] s[i])
}

/// Empty, or `H:M` with an hour below 24 and a minute below 60, each parsed
/// as `u8`.
pub open spec fn valid_time(s: Seq<char>) -> bool {
    s.len() == 0 || match json::split_once(s, seq![':']) {
        None => false,
        Some((h, m)) => match (text::parse_u8(h), text::parse_u8(m)) {
            (Some(a), Some(b)) => a < 24 && b < 60,
            _ => false,
        },
    }
}

/// Four decimal digits.
pub open spec fn valid_pin(s: Seq<char>) -> bool {
    s.len() == 4 && text::all_digits(s)
}

/// The name is the built-in overview account's, ignoring ASCII case.
pub open spec fn is_overview(name: Seq<char>) -> bool {
    text::same_name_spec(name, OVERVIEW_ACCOUNT@)
}

// ------------------------------------------------------------------
// Character-level helpers
// ------------------------------------------------------------------

/// The characters that satisfy the name-character test.
fn keep_name_chars(s: &Vec<char>) -> (out: Vec<char>)
    ensures
        out@ == text::keep(s@, name_char_pred()),
{
    let mut out: Vec<char> = Vec::new();
    assert(s@.take(0) == Seq::<char>::empty());
    for i in 0..s.len()
        invariant
            out@ == text::keep(s@.take(i as int), name_char_pred()),
    {
        let c = s[i];
        assert(s@.take(i + 1).drop_last() == s@.take(i as int));
        assert(s@.take(i + 1).last() == c);
        if is_ascii_alnum_char(c) || is_ascii_ws_char(c) || c == '-' || c == '_' || c == '.' {
            out.push(c);
        }
    }
    assert(s@.take(s.len() as int) == s@);
    out
}

/// The characters other than tab, line feed and carriage return.
fn drop_tnr_chars(s: &Vec<char>) -> (out: Vec<char>)
    ensures
        out@ == text::keep(s@, not_tnr_pred()),
{
    let mut out: Vec<char> = Vec::new();
    assert(s@.take(0) == Seq::<char>::empty());
    for i in 0..s.len()
        invariant
            out@ == text::keep(s@.take(i as int), not_tnr_pred()),
    {
        let c = s[i];
        assert(s@.take(i + 1).drop_last() == s@.take(i as int));
        assert(s@.take(i + 1).last() == c);
        if !(c == '\t' || c == '\n' || c == '\r') {
            out.push(c);
        }
    }
    assert(s@.take(s.len() as int) == s@);
    out
}

/// At most the first `n` characters.
pub fn prefix_chars(s: &Vec<char>, n: usize) -> (out: Vec<char>)
    ensures
        out@ == text::prefix(s@, n as nat),
{
    let m = if s.len() <= n {
        s.len()
    } else {
        n
    };
    let mut out: Vec<char> = Vec::new();
    for i in 0..m
        invariant
            m <= s.len(),
            out@ == s@.take(i as int),
    {
        out.push(s[i]);
        assert(s@.take(i + 1) == s@.take(i as int).push(s@[i as int]));
    }
    assert(s@.take(s.len() as int) == s@);
    out
}

pub fn sanitize_name_chars(s: &Vec<char>) -> (out: Vec<char>)
    ensures
        out@ == sanitize_name(s@),
{
    let t = trim_chars(s);
    let f = keep_name_chars(&t);
    let p = prefix_chars(&f, 32);
    let pieces = split_ws_chars(&p);
    let ws = nonempty_pieces(&pieces);
    let space: Vec<char> = vec![' '];
    assert(space@ == seq![' ']);
    join_pieces(&ws, &space)
}

pub fn sanitize_text_chars(s: &Vec<char>, max_len: usize) -> (out: Vec<char>)
    ensures
        out@ == sanitize_text(s@, max_len as nat),
{
    let t = trim_chars(s);
    let f = drop_tnr_chars(&t);
    prefix_chars(&f, max_len)
}

pub fn sanitize_note_chars(s: &Vec<char>, max_len: usize) -> (out: Vec<char>)
    ensures
        out@ == sanitize_note(s@, max_len as nat),
{
    let t = trim_chars(s);
    let ghost m = t@.map_values(|c: char| blank_tnr(c));
    let mut b: Vec<char> = Vec::new();
    for i in 0..t.len()
        invariant
            m == t@.map_values(|c: char| blank_tnr(c)),
            b@ == m.take(i as int),
    {
        let c = t[i];
        if c == '\t' || c == '\n' || c == '\r' {
            b.push(' ');
        } else {
            b.push(c);
        }
        assert(m.take(i + 1) == m.take(i as int).push(m[i as int]));
    }
    assert(m.take(t.len() as int) == m);
    prefix_chars(&b, max_len)
}

/// Whether some entry of `list` is the same name as `n`.
pub fn has_name_chars(list: &Vec<Vec<char>>, n: &Vec<char>) -> (r: bool)
    ensures
        r == has_name(text::views(list@), n@),
{
    let ghost lv = text::views(list@);
    for i in 0..list.len()
        invariant
            lv == text::views(list@),
            forall|k: int| 0 <= k < i ==> !text::same_name_spec(#[trigger] lv[k], n@),
    {
        if same_name_chars(&list[i], n) {
            assert(text::same_name_spec(lv[i as int], n@));
            return true;
        }
    }
    false
}

/// Keeps the first of every group of names that are the same ignoring case.
pub fn dedup_name_chars(list: &Vec<Vec<char>>) -> (out: Vec<Vec<char>>)
    ensures
        text::views(out@) == dedup_names(text::views(list@)),
{
    let ghost lv = text::views(list@);
    let mut out: Vec<Vec<char>> = Vec::new();
    for i in 0..list.len()
        invariant
            lv == text::views(list@),
            text::views(out@) == dedup_names(lv.take(i as int)),
    {
        assert(lv.take(i + 1).drop_last() == lv.take(i as int));
        assert(lv.take(i + 1).last() == list@[i as int]@);
        if !has_name_chars(&out, &list[i]) {
            out.push(copy_chars(&list[i]));
            assert(text::views(out@) == dedup_names(lv.take(i as int)).push(list@[i as int]@));
        }
    }
    assert(lv.take(list.len() as int) == lv);
    out
}

/// Strings holding the given character vectors.
pub fn strings_of(v: &Vec<Vec<char>>) -> (out: Vec<String>)
    ensures
        text::string_views(out@) == text::views(v@),
{
    let mut out: Vec<String> = Vec::new();
    for i in 0..v.len()
        invariant
            out@.len() == i,
            forall|k: int| 0 <= k < i ==> (#[trigger] out@[k])@ == v@[k]@,
    {
        out.push(string_of(&v[i]));
    }
    assert(text::string_views(out@) =~= text::views(v@));
    out
}

/// Character vectors holding the given strings.
pub fn chars_of_strings(v: &[String]) -> (out: Vec<Vec<char>>)
    ensures
        text::views(out@) == text::string_views(v@),
{
    let mut out: Vec<Vec<char>> = Vec::new();
    for i in 0..v.len()
        invariant
            out@.len() == i,
            forall|k: int| 0 <= k < i ==> (#[trigger] out@[k])@ == v@[k]@,
    {
        out.push(chars_of(v[i].as_str()));
    }
    assert(text::string_views(v@) =~= text::views(out@));
    out
}

pub fn assignee_entry_chars(piece: &Vec<char>) -> (out: Vec<char>)
    ensures
        out@ == assignee_entry(piece@),
{
    let t = trim_chars(piece);
    if t.len() > 0 && t[0] == '@' {
        let mut rest: Vec<char> = Vec::new();
        for k in 1..t.len()
            invariant
                t.len() > 0,
                rest@ == t@.subrange(1, k as int),
        {
            rest.push(t[k]);
            assert(t@.subrange(1, k + 1) == t@.subrange(1, k as int).push(t@[k as int]));
        }
        assert(rest@ == t@.drop_first());
        let name = sanitize_name_chars(&rest);
        let mut out: Vec<char> = vec!['@'];
        text::append_chars(&mut out, &name);
        out
    } else {
        sanitize_name_chars(piece)
    }
}

// ------------------------------------------------------------------
// Public sanitizers and validators
// ------------------------------------------------------------------

/// Cleans an account or group name: trims it, keeps only ASCII letters,
/// digits, whitespace, `-`, `_` and `.`, keeps at most 32 characters and
/// collapses whitespace runs to one space.
pub fn sanitize_account_name(name: &str) -> (out: String)
    ensures
        out@ == sanitize_name(name@),
{
    let cs = chars_of(name);
    let out = sanitize_name_chars(&cs);
    string_of(&out)
}

/// Cleans a one-line text: trims it, drops tabs and line breaks, keeps at
/// most `max_len` characters.
pub fn sanitize_task_text(value: &str, max_len: usize) -> (out: String)
    ensures
        out@ == sanitize_text(value@, max_len as nat),
{
    let cs = chars_of(value);
    let out = sanitize_text_chars(&cs, max_len);
    string_of(&out)
}

/// Cleans a note: trims it, turns tabs and line breaks into spaces, keeps at
/// most `max_len` characters.
pub fn sanitize_note_text(value: &str, max_len: usize) -> (out: String)
    ensures
        out@ == sanitize_note(value@, max_len as nat),
{
    let cs = chars_of(value);
    let out = sanitize_note_chars(&cs, max_len);
    string_of(&out)
}

/// Cleans a broadcast message, as `sanitize_note_text` cleans a note.
pub fn sanitize_broadcast_text(value: &str, max_len: usize) -> (out: String)
    ensures
        out@ == sanitize_note(value@, max_len as nat),
{
    let cs = chars_of(value);
    let out = sanitize_note_chars(&cs, max_len);
    string_of(&out)
}

pub fn parse_assignees_chars(value: &Vec<char>) -> (out: Vec<Vec<char>>)
    ensures
        text::views(out@) == parse_assignees(value@),
{
    let pieces = split_chars(value, ',');
    let ghost pv = text::views(pieces@);
    let ghost mapped = pv.map_values(|p: Seq<char>| assignee_entry(p));
    let mut kept: Vec<Vec<char>> = Vec::new();
    for i in 0..pieces.len()
        invariant
            pv == text::views(pieces@),
            mapped == pv.map_values(|p: Seq<char>| assignee_entry(p)),
            text::views(kept@) == keep_seqs(mapped.take(i as int), assignee_ok()),
    {
        assert(mapped.take(i + 1).drop_last() == mapped.take(i as int));
        assert(mapped.take(i + 1).last() == assignee_entry(pieces@[i as int]@));
        let e = assignee_entry_chars(&pieces[i]);
        if e.len() > 0 && !(e.len() == 1 && e[0] == '@') {
            assert(e@ != seq!['@']);
            kept.push(e);
        } else {
            assert(e@.len() == 1 ==> e@ =~= seq!['@']);
        }
    }
    assert(mapped.take(pieces.len() as int) == mapped);
    dedup_name_chars(&kept)
}

/// Reads a comma-separated list of people and `@group`s: each entry
/// sanitized, empty entries and a bare `@` dropped, repeats (ignoring ASCII
/// case) dropped.
pub fn parse_assignees_field(value: &str) -> (out: Vec<String>)
    ensures
        text::string_views(out@) == parse_assignees(value@),
{
    let cs = chars_of(value);
    let list = parse_assignees_chars(&cs);
    strings_of(&list)
}

pub fn parse_name_list_chars(value: &Vec<char>) -> (out: Vec<Vec<char>>)
    ensures
        text::views(out@) == parse_name_list(value@),
{
    let pieces = split_chars(value, ',');
    let ghost pv = text::views(pieces@);
    let ghost mapped = pv.map_values(|p: Seq<char>| sanitize_name(p));
    let mut kept: Vec<Vec<char>> = Vec::new();
    for i in 0..pieces.len()
        invariant
            pv == text::views(pieces@),
            mapped == pv.map_values(|p: Seq<char>| sanitize_name(p)),
            text::views(kept@) == keep_seqs(mapped.take(i as int), nonempty_ok()),
    {
        assert(mapped.take(i + 1).drop_last() == mapped.take(i as int));
        assert(mapped.take(i + 1).last() == sanitize_name(pieces@[i as int]@));
        let e = sanitize_name_chars(&pieces[i]);
        if e.len() > 0 {
            kept.push(e);
        }
    }
    assert(mapped.take(pieces.len() as int) == mapped);
    dedup_name_chars(&kept)
}

pub fn date_key_ok_chars(cs: &Vec<char>) -> (r: bool)
    ensures
        r == valid_date_key(cs@),
{
    if cs.len() != 10 || cs[4] != '-' || cs[7] != '-' {
        return false;
    }
    for i in 0..10usize
        invariant
            cs.len() == 10,
            forall|k: int| 0 <= k < i && k != 4 && k != 7 ==> text::is_digit(#[trigger] cs@[k]),
    {
        if i != 4 && i != 7 && !is_digit_char(cs[i]) {
            assert(!text::is_digit(cs@[i as int]));
            return false;
        }
    }
    true
}

/// Whether the text is a date key `YYYY-MM-DD` (digits, dashes at 4 and 7).
pub fn is_valid_date_key(value: &str) -> (r: bool)
    ensures
        r == valid_date_key(value@),
{
    let cs = chars_of(value);
    date_key_ok_chars(&cs)
}

pub fn time_ok_chars(cs: &Vec<char>) -> (r: bool)
    ensures
        r == valid_time(cs@),
{
    if cs.len() == 0 {
        return true;
    }
    let colon: Vec<char> = vec![':'];
    assert(colon@ == seq![':']);
    let (hour, minute) = match json::split_once_chars(cs, &colon) {
        Some(p) => p,
        None => {
            return false;
        },
    };
    let h = match parse_u8_chars(&hour) {
        Some(h) => h,
        None => {
            return false;
        },
    };
    let m = match parse_u8_chars(&minute) {
        Some(m) => m,
        None => {
            return false;
        },
    };
    h < 24 && m < 60
}

/// Whether the text is empty or a time `H:M` with hour below 24 and minute
/// below 60.
pub fn is_valid_time_value(value: &str) -> (r: bool)
    ensures
        r == valid_time(value@),
{
    let cs = chars_of(value);
    time_ok_chars(&cs)
}

/// Whether the text is a four digit PIN.
pub fn is_valid_pin(pin: &str) -> (r: bool)
    ensures
        r == valid_pin(pin@),
{
    let cs = chars_of(pin);
    if cs.len() != 4 {
        return false;
    }
    for i in 0..4usize
        invariant
            cs.len() == 4,
            cs@ == pin@,
            forall|k: int| 0 <= k < i ==> text::is_digit(#[trigger] cs@[k]),
    {
        if !is_digit_char(cs[i]) {
            assert(!text::is_digit(cs@[i as int]));
            return false;
        }
    }
    true
}

/// Whether two names are equal ignoring ASCII case.
pub fn same_name(left: &str, right: &str) -> (r: bool)
    ensures
        r == text::same_name_spec(left@, right@),
{
    let a = chars_of(left);
    let b = chars_of(right);
    same_name_chars(&a, &b)
}

/// Whether the name is the built-in overview account.
pub fn is_overview_account(name: &str) -> (r: bool)
    ensures
        r == is_overview(name@),
{
    same_name(name, OVERVIEW_ACCOUNT)
}

// ------------------------------------------------------------------
// What the sanitizers produce
// ------------------------------------------------------------------

/// Neither a tab, a line break nor a comma.
pub open spec fn list_safe() -> spec_fn(char) -> bool {
    |c: char| !text::is_line_break_or_tab(c) && c != ','
}

pub proof fn lemma_clean_from_all(s: Seq<char>, p: spec_fn(char) -> bool)
    requires
        text::all_chars(s, p),
        forall|c: char| #[trigger] p(c) ==> !text::is_line_break_or_tab(c),
    ensures
        text::clean_field(s),
{
    assert forall|i: int| 0 <= i < s.len() implies !text::is_line_break_or_tab(#[trigger] s[i]) by {
        assert(p(s[i]));
    }
}

/// A sanitized one-line text holds no tab or line break.
pub proof fn lemma_sanitize_text_clean(s: Seq<char>, max: nat)
    ensures
        text::clean_field(sanitize_text(s, max)),
{
    let k = text::keep(text::trim(s), not_tnr_pred());
    text::lemma_keep_all_chars(text::trim(s), not_tnr_pred());
    text::lemma_all_chars_prefix(k, max, not_tnr_pred());
    lemma_clean_from_all(sanitize_text(s, max), not_tnr_pred());
}

/// A sanitized note holds no tab or line break.
pub proof fn lemma_sanitize_note_clean(s: Seq<char>, max: nat)
    ensures
        text::clean_field(sanitize_note(s, max)),
{
    let m = text::trim(s).map_values(|c: char| blank_tnr(c));
    assert(text::all_chars(m, not_tnr_pred()));
    text::lemma_all_chars_prefix(m, max, not_tnr_pred());
    lemma_clean_from_all(sanitize_note(s, max), not_tnr_pred());
}

/// A sanitized name holds no tab, line break or comma.
pub proof fn lemma_sanitize_name_safe(s: Seq<char>)
    ensures
        text::all_chars(sanitize_name(s), list_safe()),
        text::clean_field(sanitize_name(s)),
{
    let k = text::prefix(text::keep(text::trim(s), name_char_pred()), 32);
    text::lemma_keep_all_chars(text::trim(s), name_char_pred());
    text::lemma_all_chars_prefix(text::keep(text::trim(s), name_char_pred()), 32, name_char_pred());
    let ps = text::split_by(k, text::ws_sep());
    text::lemma_split_pieces(k, text::ws_sep(), name_char_pred());
    let ws = text::nonempty(ps);
    text::lemma_nonempty_props(ps);
    assert forall|i: int| 0 <= i < ws.len() implies text::all_chars(#[trigger] ws[i], list_safe()) by {
        assert(ws[i].len() > 0);
        let j = choose|j: int| 0 <= j < ps.len() && ps[j] == ws[i];
        assert(text::free_of(ps[j], text::ws_sep()) && text::all_chars(ps[j], name_char_pred()));
        assert forall|k2: int| 0 <= k2 < ws[i].len() implies list_safe()(#[trigger] ws[i][k2]) by {
            assert(!text::ws_sep()(ps[j][k2]));
            assert(name_char_pred()(ps[j][k2]));
        }
    }
    assert(text::all_chars(seq![' '], list_safe()));
    text::lemma_join_all_chars(ws, seq![' '], list_safe());
    lemma_clean_from_all(sanitize_name(s), list_safe());
}

// ------------------------------------------------------------------
// Lists of names
// ------------------------------------------------------------------

/// Every entry satisfies `q`.
pub open spec fn all_seqs(list: Seq<Seq<char>>, q: spec_fn(Seq<char>) -> bool) -> bool {
    forall|i: int| 0 <= i < list.len() ==> q(#[trigger] list[i])
}

/// The entries can stand in a stored field: no tab or line break.
pub open spec fn clean_pred() -> spec_fn(Seq<char>) -> bool {
    |s: Seq<char>| text::clean_field(s)
}

/// No two entries are the same name ignoring ASCII case.
pub open spec fn distinct_names(list: Seq<Seq<char>>) -> bool {
    forall|i: int, j: int|
        0 <= i < j < list.len() ==> !text::same_name_spec(#[trigger] list[i], #[trigger] list[j])
}

pub proof fn lemma_keep_seqs_all(list: Seq<Seq<char>>, p: spec_fn(Seq<char>) -> bool)
    requires
        all_seqs(list, p),
    ensures
        keep_seqs(list, p) == list,
    decreases list.len(),
{
    if list.len() > 0 {
        let a = list.drop_last();
        assert(all_seqs(a, p)) by {
            assert forall|i: int| 0 <= i < a.len() implies p(#[trigger] a[i]) by {
                assert(a[i] == list[i]);
            }
        }
        lemma_keep_seqs_all(a, p);
        assert(p(list[list.len() - 1]));
        assert(a.push(list.last()) == list);
    }
}

pub proof fn lemma_keep_seqs_sub(list: Seq<Seq<char>>, p: spec_fn(Seq<char>) -> bool, q: spec_fn(Seq<char>) -> bool)
    requires
        all_seqs(list, q),
    ensures
        all_seqs(keep_seqs(list, p), q),
    decreases list.len(),
{
    if list.len() > 0 {
        let a = list.drop_last();
        assert(all_seqs(a, q)) by {
            assert forall|i: int| 0 <= i < a.len() implies q(#[trigger] a[i]) by {
                assert(a[i] == list[i]);
            }
        }
        lemma_keep_seqs_sub(a, p, q);
        assert(q(list[list.len() - 1]));
        let k = keep_seqs(list, p);
        assert forall|i: int| 0 <= i < k.len() implies q(#[trigger] k[i]) by {
            if i < keep_seqs(a, p).len() {
                assert(k[i] == keep_seqs(a, p)[i]);
            }
        }
    }
}

pub proof fn lemma_dedup_sub(list: Seq<Seq<char>>, q: spec_fn(Seq<char>) -> bool)
    requires
        all_seqs(list, q),
    ensures
        all_seqs(dedup_names(list), q),
    decreases list.len(),
{
    if list.len() > 0 {
        let a = list.drop_last();
        assert(all_seqs(a, q)) by {
            assert forall|i: int| 0 <= i < a.len() implies q(#[trigger] a[i]) by {
                assert(a[i] == list[i]);
            }
        }
        lemma_dedup_sub(a, q);
        assert(q(list[list.len() - 1]));
        let d = dedup_names(list);
        assert forall|i: int| 0 <= i < d.len() implies q(#[trigger] d[i]) by {
            if i < dedup_names(a).len() {
                assert(d[i] == dedup_names(a)[i]);
            }
        }
    }
}

/// Dropping repeated names changes nothing when the names are distinct.
pub proof fn lemma_dedup_names_distinct(list: Seq<Seq<char>>)
    requires
        distinct_names(list),
    ensures
        dedup_names(list) == list,
    decreases list.len(),
{
    if list.len() > 0 {
        let a = list.drop_last();
        assert(distinct_names(a)) by {
            assert forall|i: int, j: int| 0 <= i < j < a.len() implies !text::same_name_spec(
                #[trigger] a[i],
                #[trigger] a[j],
            ) by {
                assert(a[i] == list[i] && a[j] == list[j]);
            }
        }
        lemma_dedup_names_distinct(a);
        assert(!has_name(a, list.last())) by {
            assert forall|i: int| 0 <= i < a.len() implies !text::same_name_spec(#[trigger] a[i], list.last()) by {
                assert(a[i] == list[i]);
                assert(!text::same_name_spec(list[i], list[list.len() - 1]));
            }
        }
        assert(a.push(list.last()) == list);
    }
}

/// The result of dropping repeated names has no repeated names.
pub proof fn lemma_dedup_names_is_distinct(list: Seq<Seq<char>>)
    ensures
        distinct_names(dedup_names(list)),
    decreases list.len(),
{
    if list.len() > 0 {
        let a = list.drop_last();
        lemma_dedup_names_is_distinct(a);
        let d = dedup_names(a);
        if !has_name(d, list.last()) {
            let e = d.push(list.last());
            assert forall|i: int, j: int| 0 <= i < j < e.len() implies !text::same_name_spec(
                #[trigger] e[i],
                #[trigger] e[j],
            ) by {
                if j < d.len() {
                    assert(e[i] == d[i] && e[j] == d[j]);
                } else {
                    assert(e[i] == d[i]);
                    assert(!text::same_name_spec(d[i], list.last()));
                }
            }
        }
    }
}

/// An assignee entry holds no tab or line break.
pub proof fn lemma_assignee_entry_clean(piece: Seq<char>)
    ensures
        text::clean_field(assignee_entry(piece)),
{
    let t = text::trim(piece);
    if t.len() > 0 && t[0] == '@' {
        let n = sanitize_name(t.drop_first());
        lemma_sanitize_name_safe(t.drop_first());
        let e = seq!['@'] + n;
        assert forall|i: int| 0 <= i < e.len() implies !text::is_line_break_or_tab(#[trigger] e[i]) by {
            if i > 0 {
                assert(e[i] == n[i - 1]);
            }
        }
    } else {
        lemma_sanitize_name_safe(piece);
    }
}

/// The entries of an assignee field hold no tab or line break.
pub proof fn lemma_parse_assignees_clean(v: Seq<char>)
    ensures
        all_seqs(parse_assignees(v), clean_pred()),
{
    let mapped = text::split_by(v, text::is_char(',')).map_values(|p: Seq<char>| assignee_entry(p));
    assert forall|i: int| 0 <= i < mapped.len() implies clean_pred()(#[trigger] mapped[i]) by {
        lemma_assignee_entry_clean(text::split_by(v, text::is_char(','))[i]);
    }
    lemma_keep_seqs_sub(mapped, assignee_ok(), clean_pred());
    lemma_dedup_sub(keep_seqs(mapped, assignee_ok()), clean_pred());
}

/// The entries of a name list hold no tab or line break.
pub proof fn lemma_parse_name_list_clean(v: Seq<char>)
    ensures
        all_seqs(parse_name_list(v), clean_pred()),
{
    let mapped = text::split_by(v, text::is_char(',')).map_values(|p: Seq<char>| sanitize_name(p));
    assert forall|i: int| 0 <= i < mapped.len() implies clean_pred()(#[trigger] mapped[i]) by {
        lemma_sanitize_name_safe(text::split_by(v, text::is_char(','))[i]);
    }
    lemma_keep_seqs_sub(mapped, nonempty_ok(), clean_pred());
    lemma_dedup_sub(keep_seqs(mapped, nonempty_ok()), clean_pred());
}

/// A date key holds only digits and dashes.
pub proof fn lemma_date_key_clean(s: Seq<char>)
    requires
        valid_date_key(s),
    ensures
        text::clean_field(s),
{
    assert forall|i: int| 0 <= i < s.len() implies !text::is_line_break_or_tab(#[trigger] s[i]) by {
        if i != 4 && i != 7 {
            assert(text::is_digit(s[i]));
        }
    }
}

/// What `u8::from_str` accepts holds only digits and a leading `+`.
pub proof fn lemma_parse_u8_clean(s: Seq<char>)
    requires
        text::parse_u8(s) is Some,
    ensures
        text::clean_field(s),
{
    let d = if s.len() > 0 && s[0] == '+' {
        s.drop_first()
    } else {
        s
    };
    assert forall|i: int| 0 <= i < s.len() implies !text::is_line_break_or_tab(#[trigger] s[i]) by {
        if s.len() > 0 && s[0] == '+' {
            if i > 0 {
                assert(s[i] == d[i - 1]);
                assert(text::is_digit(d[i - 1]));
            }
        } else {
            assert(text::is_digit(d[i]));
        }
    }
}

/// A valid time holds only digits, `+` and a colon.
pub proof fn lemma_time_clean(s: Seq<char>)
    requires
        valid_time(s),
    ensures
        text::clean_field(s),
{
    if s.len() > 0 {
        let colon = seq![':'];
        let i = choose|i: int| json::is_first_match(s, colon, i);
        json::lemma_split_once_at(s, colon, i);
        let h = s.take(i);
        let m = s.skip(i + 1);
        lemma_parse_u8_clean(h);
        lemma_parse_u8_clean(m);
        assert(s.subrange(i, i + 1)[0] == s[i]);
        assert forall|k: int| 0 <= k < s.len() implies !text::is_line_break_or_tab(#[trigger] s[k]) by {
            if k < i {
                assert(s[k] == h[k]);
            } else if k > i {
                assert(s[k] == m[k - i - 1]);
            }
        }
    }
}

// ------------------------------------------------------------------
// Sanitizing a name twice
// ------------------------------------------------------------------

pub proof fn lemma_nonempty_all(ps: Seq<Seq<char>>)
    requires
        forall|i: int| 0 <= i < ps.len() ==> (#[trigger] ps[i]).len() > 0,
    ensures
        text::nonempty(ps) == ps,
    decreases ps.len(),
{
    if ps.len() > 0 {
        lemma_nonempty_all(ps.drop_last());
        assert(ps[ps.len() - 1].len() > 0);
        assert(ps.drop_last().push(ps.last()) == ps);
    }
}

/// Sanitizing a name that was already sanitized changes nothing.
pub proof fn lemma_sanitize_name_idempotent(s: Seq<char>)
    ensures
        sanitize_name(sanitize_name(s)) == sanitize_name(s),
{
    let kept = text::keep(text::trim(s), name_char_pred());
    let k = text::prefix(kept, 32);
    text::lemma_keep_all_chars(text::trim(s), name_char_pred());
    text::lemma_all_chars_prefix(kept, 32, name_char_pred());
    assert(k.len() <= 32);
    let ps = text::split_by(k, text::ws_sep());
    text::lemma_split_pieces(k, text::ws_sep(), name_char_pred());
    let w = text::nonempty(ps);
    text::lemma_nonempty_props(ps);
    assert forall|i: int| 0 <= i < w.len() implies text::free_of(#[trigger] w[i], text::ws_sep())
        && text::all_chars(w[i], name_char_pred()) && w[i].len() > 0 by {
        assert(w[i].len() > 0);
        let j = choose|j: int| 0 <= j < ps.len() && ps[j] == w[i];
        assert(text::free_of(ps[j], text::ws_sep()) && text::all_chars(ps[j], name_char_pred()));
    }
    let r = text::join(w, seq![' ']);
    assert(r == sanitize_name(s));
    text::lemma_words_join_len(k);
    assert(r.len() <= 32);
    assert(text::all_chars(seq![' '], name_char_pred()));
    text::lemma_join_all_chars(w, seq![' '], name_char_pred());
    if w.len() > 0 {
        text::lemma_join_first(w, seq![' ']);
        text::lemma_join_last(w, seq![' ']);
        assert(w[0].len() > 0 && text::free_of(w[0], text::ws_sep()));
        assert(!text::ws_sep()(w[0][0]));
        let l = w[w.len() - 1];
        assert(l.len() > 0 && text::free_of(l, text::ws_sep()));
        assert(!text::ws_sep()(l[l.len() - 1]));
    }
    text::lemma_trim_fixed(r);
    text::lemma_keep_all(r, name_char_pred());
    assert(text::prefix(r, 32) == r);
    if w.len() > 0 {
        assert(text::ws_sep()(' '));
        text::lemma_split_join(w, ' ', text::ws_sep());
        lemma_nonempty_all(w);
    } else {
        let e = Seq::<char>::empty();
        assert(r == e);
        let none = Seq::<Seq<char>>::empty();
        assert(text::split_by(e, text::ws_sep()) == seq![e]);
        assert(seq![e].drop_last() =~= none);
        assert(seq![e].last() == e);
        assert(text::nonempty(none) == none);
        assert(text::words(r) == none);
    }
}

/// The empty name sanitizes to itself.
pub proof fn lemma_sanitize_empty()
    ensures
        sanitize_name(Seq::<char>::empty()).len() == 0,
{
    let e = Seq::<char>::empty();
    assert(text::trim_start(e) == e);
    assert(text::trim_end(e) == e);
    assert(text::keep(e, name_char_pred()) == e);
    assert(text::split_by(e, text::ws_sep()) == seq![e]);
    let none = Seq::<Seq<char>>::empty();
    assert(seq![e].drop_last() =~= none);
    assert(seq![e].last() == e);
    assert(text::nonempty(none) == none);
    assert(text::nonempty(seq![e]) == none);
    assert(text::join(none, seq![' ']) == e);
}

/// A character of a sanitized name: an ASCII letter or digit, a space,
/// `-`, `_` or `.`.
pub open spec fn shaped_name_char(c: char) -> bool {
    text::is_ascii_alnum(c) || c == ' ' || c == '-' || c == '_' || c == '.'
}

pub open spec fn shaped_name_char_pred() -> spec_fn(char) -> bool {
    |c: char| shaped_name_char(c)
}

/// A sanitized name has at most 32 characters, only ASCII letters, digits,
/// spaces, `-`, `_` and `.`, no space (nor other whitespace) at either end,
/// and never two spaces side by side.
pub proof fn lemma_sanitize_name_shape(s: Seq<char>)
    ensures
        sanitize_name(s).len() <= 32,
        text::all_chars(sanitize_name(s), name_char_pred()),
        text::all_chars(sanitize_name(s), shaped_name_char_pred()),
        text::trim(sanitize_name(s)) == sanitize_name(s),
        sanitize_name(s).len() > 0 ==> sanitize_name(s)[0] != ' ' && sanitize_name(s).last() != ' ',
        text::no_double(sanitize_name(s), ' '),
{
    let kept = text::keep(text::trim(s), name_char_pred());
    let k = text::prefix(kept, 32);
    text::lemma_keep_all_chars(text::trim(s), name_char_pred());
    text::lemma_all_chars_prefix(kept, 32, name_char_pred());
    let ps = text::split_by(k, text::ws_sep());
    text::lemma_split_pieces(k, text::ws_sep(), name_char_pred());
    let w = text::nonempty(ps);
    text::lemma_nonempty_props(ps);
    assert forall|i: int| 0 <= i < w.len() implies text::free_of(#[trigger] w[i], text::ws_sep())
        && text::all_chars(w[i], name_char_pred()) && w[i].len() > 0 by {
        assert(w[i].len() > 0);
        let j = choose|j: int| 0 <= j < ps.len() && ps[j] == w[i];
        assert(text::free_of(ps[j], text::ws_sep()) && text::all_chars(ps[j], name_char_pred()));
    }
    let r = text::join(w, seq![' ']);
    assert(text::all_chars(seq![' '], name_char_pred()));
    text::lemma_join_all_chars(w, seq![' '], name_char_pred());
    if w.len() > 0 {
        text::lemma_join_first(w, seq![' ']);
        text::lemma_join_last(w, seq![' ']);
        assert(!text::ws_sep()(w[0][0]));
        let l = w[w.len() - 1];
        assert(!text::ws_sep()(l[l.len() - 1]));
    }
    text::lemma_trim_fixed(r);
    text::lemma_words_join_len(k);
    assert(k.len() <= 32);
    assert forall|i: int| 0 <= i < w.len() implies text::all_chars(#[trigger] w[i], shaped_name_char_pred())
        && text::free_of(w[i], text::is_char(' ')) by {
        assert(text::free_of(w[i], text::ws_sep()) && text::all_chars(w[i], name_char_pred()));
        assert forall|k2: int| 0 <= k2 < w[i].len() implies shaped_name_char_pred()(#[trigger] w[i][k2]) by {
            assert(!text::ws_sep()(w[i][k2]));
            assert(name_char_pred()(w[i][k2]));
        }
        assert forall|k2: int| 0 <= k2 < w[i].len() implies !text::is_char(' ')(#[trigger] w[i][k2]) by {
            assert(!text::ws_sep()(w[i][k2]));
        }
    }
    assert(text::all_chars(seq![' '], shaped_name_char_pred()));
    text::lemma_join_all_chars(w, seq![' '], shaped_name_char_pred());
    if w.len() > 0 {
        text::lemma_join_no_double(w, ' ');
    }
}

/// A kept assignee entry is its own entry, and holds no comma.
pub proof fn lemma_assignee_entry_fixed(piece: Seq<char>)
    requires
        assignee_ok()(assignee_entry(piece)),
    ensures
        assignee_entry(assignee_entry(piece)) == assignee_entry(piece),
        text::free_of(assignee_entry(piece), text::is_char(',')),
{
    let t = text::trim(piece);
    let e = assignee_entry(piece);
    if t.len() > 0 && t[0] == '@' {
        let n = sanitize_name(t.drop_first());
        lemma_sanitize_name_shape(t.drop_first());
        lemma_sanitize_name_idempotent(t.drop_first());
        lemma_sanitize_name_safe(t.drop_first());
        assert(e == seq!['@'] + n);
        if n.len() == 0 {
            assert(e =~= seq!['@']);
        }
        text::lemma_trim_shape(n);
        assert(e[0] == '@');
        assert(e.last() == n.last());
        text::lemma_trim_fixed(e);
        assert(e.drop_first() =~= n);
        assert forall|i: int| 0 <= i < e.len() implies !text::is_char(',')(#[trigger] e[i]) by {
            if i > 0 {
                assert(e[i] == n[i - 1]);
                assert(list_safe()(n[i - 1]));
            }
        }
    } else {
        lemma_sanitize_name_shape(piece);
        lemma_sanitize_name_idempotent(piece);
        lemma_sanitize_name_safe(piece);
        assert(name_char_pred()(e[0]));
        assert forall|i: int| 0 <= i < e.len() implies !text::is_char(',')(#[trigger] e[i]) by {
            assert(list_safe()(e[i]));
        }
    }
}

/// Reading an assignee field written from a parsed one gives the same
/// entries back.
pub proof fn lemma_parse_assignees_idempotent(v: Seq<char>)
    ensures
        parse_assignees(text::join(parse_assignees(v), seq![','])) == parse_assignees(v),
{
    let pieces = text::split_by(v, text::is_char(','));
    let mapped = pieces.map_values(|p: Seq<char>| assignee_entry(p));
    let kept = keep_seqs(mapped, assignee_ok());
    let l = dedup_names(kept);
    let q = |e: Seq<char>| assignee_ok()(e) ==> (assignee_entry(e) == e && text::free_of(e, text::is_char(',')));
    assert forall|i: int| 0 <= i < mapped.len() implies q(#[trigger] mapped[i]) by {
        if assignee_ok()(mapped[i]) {
            lemma_assignee_entry_fixed(pieces[i]);
        }
    }
    lemma_keep_seqs_sub(mapped, assignee_ok(), q);
    lemma_keep_seqs_sat(mapped, assignee_ok());
    let q2 = |e: Seq<char>| assignee_ok()(e) && assignee_entry(e) == e && text::free_of(e, text::is_char(','));
    assert forall|i: int| 0 <= i < kept.len() implies q2(#[trigger] kept[i]) by {
        assert(q(kept[i]));
        assert(assignee_ok()(kept[i]));
    }
    lemma_dedup_sub(kept, q2);
    lemma_dedup_names_is_distinct(kept);
    if l.len() == 0 {
        let e = Seq::<char>::empty();
        assert(text::join(l, seq![',']) == e);
        assert(text::split_by(e, text::is_char(',')) == seq![e]);
        lemma_sanitize_empty();
        let m2 = seq![e].map_values(|p: Seq<char>| assignee_entry(p));
        assert(text::trim(e) =~= e) by {
            text::lemma_trim_fixed(e);
        }
        assert(m2.len() == 1 && m2[0].len() == 0);
        let none = Seq::<Seq<char>>::empty();
        assert(m2.drop_last() =~= none);
        assert(m2.last() == m2[0]);
        assert(keep_seqs(none, assignee_ok()) == none);
        assert(keep_seqs(m2, assignee_ok()) == none);
        assert(dedup_names(none) == none);
        assert(l =~= none);
    } else {
        assert forall|i: int| 0 <= i < l.len() implies text::free_of(#[trigger] l[i], text::is_char(',')) by {
            assert(q2(l[i]));
        }
        text::lemma_split_join(l, ',', text::is_char(','));
        let m2 = l.map_values(|p: Seq<char>| assignee_entry(p));
        assert forall|i: int| 0 <= i < l.len() implies m2[i] == #[trigger] l[i] by {
            assert(q2(l[i]));
        }
        assert(m2 =~= l);
        assert(all_seqs(l, assignee_ok())) by {
            assert forall|i: int| 0 <= i < l.len() implies assignee_ok()(#[trigger] l[i]) by {
                assert(q2(l[i]));
            }
        }
        lemma_keep_seqs_all(l, assignee_ok());
        lemma_dedup_names_distinct(l);
    }
}

/// A stored name list: every entry is a non-empty sanitized name, and no
/// two entries are the same name.
pub open spec fn name_list_wf(l: Seq<Seq<char>>) -> bool {
    &&& forall|i: int| 0 <= i < l.len() ==> sanitize_name(#[trigger] l[i]) == l[i] && l[i].len() > 0
    &&& distinct_names(l)
}

/// What `parse_name_list` returns is a stored name list.
pub proof fn lemma_parse_name_list_wf(v: Seq<char>)
    ensures
        name_list_wf(parse_name_list(v)),
{
    let pieces = text::split_by(v, text::is_char(','));
    let mapped = pieces.map_values(|p: Seq<char>| sanitize_name(p));
    let kept = keep_seqs(mapped, nonempty_ok());
    let q = |e: Seq<char>| sanitize_name(e) == e;
    assert forall|i: int| 0 <= i < mapped.len() implies q(#[trigger] mapped[i]) by {
        lemma_sanitize_name_idempotent(pieces[i]);
    }
    lemma_keep_seqs_sub(mapped, nonempty_ok(), q);
    lemma_keep_seqs_sat(mapped, nonempty_ok());
    let q2 = |e: Seq<char>| nonempty_ok()(e) && sanitize_name(e) == e;
    assert forall|i: int| 0 <= i < kept.len() implies q2(#[trigger] kept[i]) by {
        assert(q(kept[i]));
        assert(nonempty_ok()(kept[i]));
    }
    lemma_dedup_sub(kept, q2);
    lemma_dedup_names_is_distinct(kept);
    let l = dedup_names(kept);
    assert forall|i: int| 0 <= i < l.len() implies sanitize_name(#[trigger] l[i]) == l[i] && l[i].len() > 0 by {
        assert(q2(l[i]));
    }
}

/// A stored name list joined by commas reads back as itself.
pub proof fn lemma_name_list_roundtrip(l: Seq<Seq<char>>)
    requires
        name_list_wf(l),
    ensures
        parse_name_list(text::join(l, seq![','])) == l,
{
    if l.len() == 0 {
        let e = Seq::<char>::empty();
        assert(text::join(l, seq![',']) == e);
        assert(text::split_by(e, text::is_char(',')) == seq![e]);
        lemma_sanitize_empty();
        let m2 = seq![e].map_values(|p: Seq<char>| sanitize_name(p));
        assert(m2.len() == 1 && m2[0].len() == 0);
        let none = Seq::<Seq<char>>::empty();
        assert(m2.drop_last() =~= none);
        assert(m2.last() == m2[0]);
        assert(keep_seqs(none, nonempty_ok()) == none);
        assert(keep_seqs(m2, nonempty_ok()) == none);
        assert(dedup_names(none) == none);
        assert(l =~= none);
    } else {
        assert forall|i: int| 0 <= i < l.len() implies text::free_of(#[trigger] l[i], text::is_char(',')) by {
            lemma_sanitize_name_safe(l[i]);
            assert forall|k: int| 0 <= k < l[i].len() implies !text::is_char(',')(#[trigger] l[i][k]) by {
                assert(list_safe()(sanitize_name(l[i])[k]));
            }
        }
        text::lemma_split_join(l, ',', text::is_char(','));
        let m2 = l.map_values(|p: Seq<char>| sanitize_name(p));
        assert(m2 =~= l);
        assert(all_seqs(l, nonempty_ok()));
        lemma_keep_seqs_all(l, nonempty_ok());
        lemma_dedup_names_distinct(l);
    }
}

/// Reading a name list written from a parsed one gives the same names back.
pub proof fn lemma_parse_name_list_idempotent(v: Seq<char>)
    ensures
        parse_name_list(text::join(parse_name_list(v), seq![','])) == parse_name_list(v),
{
    lemma_parse_name_list_wf(v);
    lemma_name_list_roundtrip(parse_name_list(v));
}

/// A stored name list with one more name that it does not hold yet is
/// still a stored name list.
pub proof fn lemma_name_list_push(l: Seq<Seq<char>>, n: Seq<char>)
    requires
        name_list_wf(l),
        sanitize_name(n) == n,
        n.len() > 0,
        !has_name(l, n),
    ensures
        name_list_wf(l.push(n)),
{
    let e = l.push(n);
    assert forall|i: int, j: int| 0 <= i < j < e.len() implies !text::same_name_spec(
        #[trigger] e[i],
        #[trigger] e[j],
    ) by {
        if j < l.len() {
            assert(e[i] == l[i] && e[j] == l[j]);
        } else {
            assert(e[i] == l[i]);
            assert(!text::same_name_spec(l[i], n));
        }
    }
    assert forall|i: int| 0 <= i < e.len() implies sanitize_name(#[trigger] e[i]) == e[i] && e[i].len() > 0 by {
        if i < l.len() {
            assert(e[i] == l[i]);
        }
    }
}

/// A trimmed text of at most `max` characters, with no tab or line break,
/// is its own sanitized text.
pub proof fn lemma_sanitize_text_of_clean(s: Seq<char>, max: nat)
    requires
        text::trim(s) == s,
        text::all_chars(s, not_tnr_pred()),
        s.len() <= max,
    ensures
        sanitize_text(s, max) == s,
{
    text::lemma_keep_all(s, not_tnr_pred());
}

/// Sanitizing a one-line text again changes nothing, unless the cut at
/// `max` characters left whitespace at its end.
pub proof fn lemma_sanitize_text_fixed(s: Seq<char>, max: nat)
    requires
        text::trim(sanitize_text(s, max)) == sanitize_text(s, max),
    ensures
        sanitize_text(sanitize_text(s, max), max) == sanitize_text(s, max),
{
    let kept = text::keep(text::trim(s), not_tnr_pred());
    text::lemma_keep_all_chars(text::trim(s), not_tnr_pred());
    text::lemma_all_chars_prefix(kept, max, not_tnr_pred());
    lemma_sanitize_text_of_clean(sanitize_text(s, max), max);
}

/// Sanitizing a note again changes nothing, unless the cut at `max`
/// characters left whitespace at its end.
pub proof fn lemma_sanitize_note_fixed(s: Seq<char>, max: nat)
    requires
        text::trim(sanitize_note(s, max)) == sanitize_note(s, max),
    ensures
        sanitize_note(sanitize_note(s, max), max) == sanitize_note(s, max),
{
    let r = sanitize_note(s, max);
    let m = text::trim(s).map_values(|c: char| blank_tnr(c));
    assert(text::all_chars(m, not_tnr_pred()));
    text::lemma_all_chars_prefix(m, max, not_tnr_pred());
    let m2 = r.map_values(|c: char| blank_tnr(c));
    assert forall|i: int| 0 <= i < r.len() implies m2[i] == #[trigger] r[i] by {
        assert(not_tnr_pred()(r[i]));
    }
    assert(m2 =~= r);
}

/// A name list keyed by the names themselves.
pub open spec fn name_key() -> spec_fn(Seq<char>) -> Seq<char> {
    |x: Seq<char>| x
}

pub proof fn lemma_distinct_names_keys(list: Seq<Seq<char>>)
    ensures
        distinct_names(list) == crate::lists::distinct_keys(list, name_key()),
{
    if distinct_names(list) {
        assert forall|i: int, j: int| 0 <= i < j < list.len() implies !text::same_name_spec(
            name_key()(#[trigger] list[i]),
            name_key()(#[trigger] list[j]),
        ) by {}
    }
    if crate::lists::distinct_keys(list, name_key()) {
        assert forall|i: int, j: int| 0 <= i < j < list.len() implies !text::same_name_spec(
            #[trigger] list[i],
            #[trigger] list[j],
        ) by {
            assert(!text::same_name_spec(name_key()(list[i]), name_key()(list[j])));
        }
    }
}

/// What `keep_seqs` keeps satisfies the filter.
pub proof fn lemma_keep_seqs_sat(list: Seq<Seq<char>>, p: spec_fn(Seq<char>) -> bool)
    ensures
        all_seqs(keep_seqs(list, p), p),
    decreases list.len(),
{
    if list.len() > 0 {
        let a = list.drop_last();
        lemma_keep_seqs_sat(a, p);
        let k = keep_seqs(list, p);
        assert forall|i: int| 0 <= i < k.len() implies p(#[trigger] k[i]) by {
            if i < keep_seqs(a, p).len() {
                assert(k[i] == keep_seqs(a, p)[i]);
            }
        }
    }
}

/// A date key is exactly `YYYY-MM-DD` with any ASCII digits: ten
/// characters, dashes at positions 4 and 7, an ASCII digit (code 48 to 57)
/// at every other position. Any eight digits in that frame make a valid
/// date key.
pub proof fn lemma_date_key_frame(s: Seq<char>, d: Seq<char>)
    requires
        d.len() == 8,
        forall|i: int| 0 <= i < 8 ==> 48 <= (#[trigger] d[i] as u32) <= 57,
    ensures
        valid_date_key(s) <==> (s.len() == 10 && s[4] == '-' && s[7] == '-' && forall|i: int|
            0 <= i < 10 && i != 4 && i != 7 ==> 48 <= (#[trigger] s[i] as u32) <= 57),
        valid_date_key(
            seq![d[0], d[1], d[2], d[3], '-', d[4], d[5], '-', d[6], d[7]],
        ),
{
    let k = seq![d[0], d[1], d[2], d[3], '-', d[4], d[5], '-', d[6], d[7]];
    if valid_date_key(s) {
        assert forall|i: int| 0 <= i < 10 && i != 4 && i != 7 implies 48 <= (#[trigger] s[i] as u32) <= 57 by {
            assert(text::is_digit(s[i]));
        }
    }
    assert forall|i: int| 0 <= i < 10 && i != 4 && i != 7 implies text::is_digit(#[trigger] k[i]) by {
        if i < 4 {
            assert(k[i] == d[i]);
        } else if i < 7 {
            assert(k[i] == d[i - 1]);
        } else {
            assert(k[i] == d[i - 2]);
        }
    }
}

/// A time `H:M` written with decimal numbers up to 255 is valid exactly
/// when the hour is below 24 and the minute below 60; no time at all is
/// valid too.
pub proof fn lemma_time_values(h: nat, m: nat)
    requires
        h <= 255,
        m <= 255,
    ensures
        valid_time(text::decimal(h) + seq![':'] + text::decimal(m)) <==> (h < 24 && m < 60),
        valid_time(Seq::<char>::empty()),
{
    let dh = text::decimal(h);
    let dm = text::decimal(m);
    let s = dh + seq![':'] + dm;
    text::lemma_decimal_value(h);
    text::lemma_decimal_value(m);
    text::lemma_decimal_digits(h);
    text::lemma_decimal_digits(m);
    let colon = seq![':'];
    let p = dh.len() as int;
    assert(s.subrange(p, p + 1) =~= colon);
    assert forall|j: int| 0 <= j < p implies !json::occurs_at(s, colon, j) by {
        assert(s[j] == dh[j]);
        assert(text::is_digit(dh[j]));
        if json::occurs_at(s, colon, j) {
            assert(s.subrange(j, j + 1)[0] == s[j]);
        }
    }
    json::lemma_split_once_at(s, colon, p);
    assert(s.take(p) =~= dh);
    assert(s.skip(p + 1) =~= dm);
    assert(text::is_digit(dh[0]) && text::is_digit(dm[0]));
    assert(text::parse_u8(dh) == Some(h as u8));
    assert(text::parse_u8(dm) == Some(m as u8));
}

/// Sanitizing leaves a name alone exactly when it already has the shape of
/// a sanitized name: at most 32 characters, only ASCII letters, digits,
/// spaces, `-`, `_` and `.`, no space at either end and never two spaces
/// side by side. With `lemma_sanitize_name_shape`, these are exactly the
/// names that sanitizing can produce.
pub proof fn lemma_sanitize_name_of_shaped(s: Seq<char>)
    requires
        s.len() <= 32,
        text::all_chars(s, shaped_name_char_pred()),
        s.len() > 0 ==> s[0] != ' ' && s.last() != ' ',
        text::no_double(s, ' '),
    ensures
        sanitize_name(s) == s,
{
    assert forall|i: int| 0 <= i < s.len() && text::is_ws(#[trigger] s[i]) implies s[i] == ' ' by {
        assert(shaped_name_char_pred()(s[i]));
    }
    if s.len() > 0 {
        assert(shaped_name_char_pred()(s[0]));
        assert(shaped_name_char_pred()(s[s.len() - 1]));
    }
    text::lemma_trim_fixed(s);
    assert forall|i: int| 0 <= i < s.len() implies #[trigger] name_char_pred()(s[i]) by {
        assert(shaped_name_char_pred()(s[i]));
    }
    text::lemma_keep_all(s, name_char_pred());
    assert(text::prefix(s, 32) == s);
    let ps = text::split_by(s, text::ws_sep());
    text::lemma_join_split_ws(s);
    if s.len() == 0 {
        let e = Seq::<char>::empty();
        assert(s =~= e);
        lemma_sanitize_empty();
    } else {
        text::lemma_split_ws_pieces_front(s);
        text::lemma_split_len(s, text::ws_sep());
        assert(!text::ws_sep()(s.last()));
        text::lemma_split_ws_last(s);
        assert forall|i: int| 0 <= i < ps.len() implies (#[trigger] ps[i]).len() > 0 by {
            if i == ps.len() - 1 {
                assert(ps[i] == ps.last());
            }
        }
        lemma_nonempty_all(ps);
    }
}

} // verus!
