use vstd::prelude::*;
use crate::fields::{self, chars_of_strings, sanitize_name_chars, strings_of};
use crate::lists;
use crate::json::{self, push_json_string, push_string_array, split_once_chars};
use crate::text::{
    self, append_chars, append_str, chars_of, copy_chars, file_text_of, join_pieces, lines_of,
    same_name_chars, split_chars, string_of, trim_chars,
};

verus! {

/// A person who can sign in: a name and the hash of the PIN.
pub struct Account {
    pub name: String,
    pub pin_hash: String,
}

/// What an account holds, as text.
pub struct AccountView {
    pub name: Seq<char>,
    pub pin_hash: Seq<char>,
}

impl View for Account {
    type V = AccountView;

    open spec fn view(&self) -> AccountView {
        AccountView { name: self.name@, pin_hash: self.pin_hash@ }
    }
}

/// A named group of accounts.
pub struct Group {
    pub name: String,
    pub members: Vec<String>,
}

/// What a group holds, as text.
pub struct GroupView {
    pub name: Seq<char>,
    pub members: Seq<Seq<char>>,
}

impl View for Group {
    type V = GroupView;

    open spec fn view(&self) -> GroupView {
        GroupView { name: self.name@, members: text::string_views(self.members@) }
    }
}

pub open spec fn account_views(s: Seq<Account>) -> Seq<AccountView> {
    s.map_values(|a: Account| a@)
}

pub open spec fn group_views(s: Seq<Group>) -> Seq<GroupView> {
    s.map_values(|g: Group| g@)
}

pub open spec fn account_key() -> spec_fn(AccountView) -> Seq<char> {
    |a: AccountView| a.name
}

pub open spec fn group_key() -> spec_fn(GroupView) -> Seq<char> {
    |g: GroupView| g.name
}

// ------------------------------------------------------------------
// Accounts
// ------------------------------------------------------------------

/// The stored line of an account: name, tab, PIN hash.
pub open spec fn account_line(a: AccountView) -> Seq<char> {
    a.name + seq!['\t'] + a.pin_hash
}

/// `parse_account_line`: the name before the first tab, sanitized, and the
/// trimmed hash after it; both must be non-empty.
pub open spec fn parse_account_line_spec(line: Seq<char>) -> Option<AccountView> {
    match json::split_once(line, seq!['\t']) {
        None => None,
        Some((n, p)) => {
            let name = fields::sanitize_name(n);
            let pin_hash = text::trim(p);
            if name.len() == 0 || pin_hash.len() == 0 {
                None
            } else {
                Some(AccountView { name, pin_hash })
            }
        },
    }
}

pub open spec fn account_parser() -> spec_fn(Seq<char>) -> Option<AccountView> {
    |l: Seq<char>| parse_account_line_spec(l)
}

/// The accounts of an accounts file: the lines that parse, the first of each
/// name kept.
pub open spec fn parse_accounts_spec(content: Seq<char>) -> Seq<AccountView> {
    lists::dedup_by(lists::parse_lines(text::lines(content), account_parser()), account_key())
}

/// The text of an accounts file.
pub open spec fn accounts_file_spec(accounts: Seq<AccountView>) -> Seq<char> {
    text::file_text(accounts.map_values(|a: AccountView| account_line(a)))
}

pub open spec fn opt_account_view(o: Option<Account>) -> Option<AccountView> {
    match o {
        Some(a) => Some(a@),
        None => None,
    }
}

pub fn parse_account_line_chars(line: &Vec<char>) -> (r: Option<Account>)
    ensures
        opt_account_view(r) == parse_account_line_spec(line@),
{
    let tab: Vec<char> = vec!['\t'];
    assert(tab@ == seq!['\t']);
    match split_once_chars(line, &tab) {
        None => None,
        Some((n, p)) => {
            let name = sanitize_name_chars(&n);
            let pin_hash = trim_chars(&p);
            if name.len() == 0 || pin_hash.len() == 0 {
                None
            } else {
                Some(Account { name: string_of(&name), pin_hash: string_of(&pin_hash) })
            }
        },
    }
}

/// Reads one line of the accounts file: `name<TAB>hash`, the name sanitized
/// and the hash trimmed; `None` when there is no tab or either part is empty.
pub fn parse_account_line(line: &str) -> (r: Option<Account>)
    ensures
        opt_account_view(r) == parse_account_line_spec(line@),
{
    let cs = chars_of(line);
    parse_account_line_chars(&cs)
}

/// Whether some account's name is the same name as `name`.
pub fn has_account_chars(list: &Vec<Account>, name: &Vec<char>) -> (r: bool)
    ensures
        r == lists::has_key(account_views(list@), account_key(), name@),
{
    let ghost lv = account_views(list@);
    for i in 0..list.len()
        invariant
            lv == account_views(list@),
            forall|k: int| 0 <= k < i ==> !text::same_name_spec(#[trigger] lv[k].name, name@),
    {
        let other = chars_of(list[i].name.as_str());
        if same_name_chars(&other, name) {
            assert(text::same_name_spec(account_key()(lv[i as int]), name@));
            return true;
        }
    }
    assert forall|k: int| 0 <= k < lv.len() implies !text::same_name_spec(
        account_key()(#[trigger] lv[k]),
        name@,
    ) by {}
    false
}

/// Reads an accounts file: one account per line, lines that do not parse
/// skipped, the first account of each name kept.
pub fn parse_accounts_file(content: &str) -> (out: Vec<Account>)
    ensures
        account_views(out@) == parse_accounts_spec(content@),
{
    let cs = chars_of(content);
    let ls = lines_of(&cs);
    let ghost lv = text::views(ls@);
    let mut out: Vec<Account> = Vec::new();
    for i in 0..ls.len()
        invariant
            lv == text::views(ls@),
            lv == text::lines(content@),
            account_views(out@) == lists::dedup_by(
                lists::parse_lines(lv.take(i as int), account_parser()),
                account_key(),
            ),
    {
        assert(lv.take(i + 1).drop_last() == lv.take(i as int));
        assert(lv.take(i + 1).last() == ls@[i as int]@);
        let ghost prev = lists::parse_lines(lv.take(i as int), account_parser());
        match parse_account_line_chars(&ls[i]) {
            Some(a) => {
                assert(lists::parse_lines(lv.take(i + 1), account_parser()) == prev.push(a@));
                assert(prev.push(a@).drop_last() == prev);
                let name = chars_of(a.name.as_str());
                if !has_account_chars(&out, &name) {
                    out.push(a);
                    assert(account_views(out@) == lists::dedup_by(prev, account_key()).push(a@));
                }
            },
            None => {},
        }
    }
    assert(lv.take(ls.len() as int) == lv);
    out
}

pub fn account_line_chars(a: &Account) -> (out: Vec<char>)
    ensures
        out@ == account_line(a@),
{
    let mut out = chars_of(a.name.as_str());
    out.push('\t');
    append_str(&mut out, a.pin_hash.as_str());
    out
}

/// The text of the accounts file: one `name<TAB>hash` line per account.
pub fn accounts_file_text(accounts: &[Account]) -> (out: String)
    ensures
        out@ == accounts_file_spec(account_views(accounts@)),
{
    let ghost want = account_views(accounts@).map_values(|a: AccountView| account_line(a));
    let mut ls: Vec<Vec<char>> = Vec::new();
    for i in 0..accounts.len()
        invariant
            want == account_views(accounts@).map_values(|a: AccountView| account_line(a)),
            text::views(ls@) == want.take(i as int),
    {
        ls.push(account_line_chars(&accounts[i]));
        assert(want.take(i + 1) == want.take(i as int).push(want[i as int]));
    }
    assert(want.take(accounts.len() as int) == want);
    let t = file_text_of(&ls);
    string_of(&t)
}

/// The names listed by `accounts_json`: the overview account first.
pub open spec fn account_names(accounts: Seq<AccountView>) -> Seq<Seq<char>> {
    seq![fields::OVERVIEW_ACCOUNT@] + accounts.map_values(|a: AccountView| a.name)
}

/// The JSON array of account names, `overview` first.
pub fn accounts_json(accounts: &[Account]) -> (out: String)
    ensures
        out@ == json::string_array_json_spec(account_names(account_views(accounts@))),
{
    let mut names: Vec<String> = Vec::new();
    names.push(String::from_str(fields::OVERVIEW_ACCOUNT));
    for i in 0..accounts.len()
        invariant
            names@.len() == i + 1,
            (names@[0])@ == fields::OVERVIEW_ACCOUNT@,
            forall|k: int| 1 <= k <= i ==> (#[trigger] names@[k])@ == accounts@[k - 1].name@,
    {
        names.push(accounts[i].name.clone());
    }
    assert(text::string_views(names@) =~= account_names(account_views(accounts@)));
    json::string_array_json(names.as_slice())
}

// ------------------------------------------------------------------
// Groups
// ------------------------------------------------------------------

/// The stored line of a group: name, tab, members separated by commas.
pub open spec fn group_line(g: GroupView) -> Seq<char> {
    g.name + seq!['\t'] + text::join(g.members, seq![','])
}

/// A member that survives reading: not empty and the name of an account.
pub open spec fn known_member(accounts: Seq<AccountView>) -> spec_fn(Seq<char>) -> bool {
    |m: Seq<char>| m.len() > 0 && lists::has_key(accounts, account_key(), m)
}

/// The members of a group line: sanitized, unknown ones dropped, repeats dropped.
pub open spec fn parse_members(m: Seq<char>, accounts: Seq<AccountView>) -> Seq<Seq<char>> {
    fields::dedup_names(
        fields::keep_seqs(
            text::split_by(m, text::is_char(',')).map_values(
                |p: Seq<char>| fields::sanitize_name(p),
            ),
            known_member(accounts),
        ),
    )
}

/// `parse_group_line`: the name before the first tab (the whole line when
/// there is none), sanitized and not empty, and its known members.
pub open spec fn parse_group_line_spec(line: Seq<char>, accounts: Seq<AccountView>) -> Option<
    GroupView,
> {
    let (n, m) = match json::split_once(line, seq!['\t']) {
        Some(p) => p,
        None => (line, Seq::<char>::empty()),
    };
    let name = fields::sanitize_name(n);
    if name.len() == 0 {
        None
    } else {
        Some(GroupView { name, members: parse_members(m, accounts) })
    }
}

pub open spec fn group_parser(accounts: Seq<AccountView>) -> spec_fn(Seq<char>) -> Option<
    GroupView,
> {
    |l: Seq<char>| parse_group_line_spec(l, accounts)
}

/// The groups of a groups file read against the given accounts.
pub open spec fn parse_groups_spec(content: Seq<char>, accounts: Seq<AccountView>) -> Seq<GroupView> {
    lists::dedup_by(lists::parse_lines(text::lines(content), group_parser(accounts)), group_key())
}

/// The text of a groups file.
pub open spec fn groups_file_spec(groups: Seq<GroupView>) -> Seq<char> {
    text::file_text(groups.map_values(|g: GroupView| group_line(g)))
}

pub open spec fn opt_group_view(o: Option<Group>) -> Option<GroupView> {
    match o {
        Some(g) => Some(g@),
        None => None,
    }
}

pub fn parse_group_line_chars(line: &Vec<char>, accounts: &[Account]) -> (r: Option<Group>)
    ensures
        opt_group_view(r) == parse_group_line_spec(line@, account_views(accounts@)),
{
    let tab: Vec<char> = vec!['\t'];
    assert(tab@ == seq!['\t']);
    let (n, m) = match split_once_chars(line, &tab) {
        Some(p) => p,
        None => (copy_chars(line), Vec::new()),
    };
    assert(m@ == (match json::split_once(line@, seq!['\t']) {
        Some(p) => p,
        None => (line@, Seq::<char>::empty()),
    }).1);
    let name = sanitize_name_chars(&n);
    if name.len() == 0 {
        return None;
    }
    let av = account_list_chars(accounts);
    let pieces = split_chars(&m, ',');
    let ghost pv = text::views(pieces@);
    let ghost mapped = pv.map_values(|p: Seq<char>| fields::sanitize_name(p));
    let ghost accs = account_views(accounts@);
    let mut kept: Vec<Vec<char>> = Vec::new();
    for i in 0..pieces.len()
        invariant
            pv == text::views(pieces@),
            mapped == pv.map_values(|p: Seq<char>| fields::sanitize_name(p)),
            text::views(av@) == accs.map_values(|a: AccountView| a.name),
            accs == account_views(accounts@),
            text::views(kept@) == fields::keep_seqs(mapped.take(i as int), known_member(accs)),
    {
        assert(mapped.take(i + 1).drop_last() == mapped.take(i as int));
        assert(mapped.take(i + 1).last() == fields::sanitize_name(pieces@[i as int]@));
        let e = sanitize_name_chars(&pieces[i]);
        let known = fields::has_name_chars(&av, &e);
        proof {
            lemma_has_name_key(accs, e@);
        }
        if e.len() > 0 && known {
            kept.push(e);
        }
    }
    assert(mapped.take(pieces.len() as int) == mapped);
    let members = fields::dedup_name_chars(&kept);
    Some(Group { name: string_of(&name), members: strings_of(&members) })
}

/// `has_name` over the names of accounts is `has_key` over the accounts.
pub proof fn lemma_has_name_key(accs: Seq<AccountView>, n: Seq<char>)
    ensures
        fields::has_name(accs.map_values(|a: AccountView| a.name), n) == lists::has_key(
            accs,
            account_key(),
            n,
        ),
{
    let names = accs.map_values(|a: AccountView| a.name);
    if fields::has_name(names, n) {
        let i = choose|i: int| 0 <= i < names.len() && text::same_name_spec(#[trigger] names[i], n);
        assert(text::same_name_spec(account_key()(accs[i]), n));
    }
    if lists::has_key(accs, account_key(), n) {
        let i = choose|i: int|
            0 <= i < accs.len() && text::same_name_spec(account_key()(#[trigger] accs[i]), n);
        assert(text::same_name_spec(names[i], n));
    }
}

/// The names of the accounts, as character vectors.
pub fn account_list_chars(accounts: &[Account]) -> (out: Vec<Vec<char>>)
    ensures
        text::views(out@) == account_views(accounts@).map_values(|a: AccountView| a.name),
{
    let mut out: Vec<Vec<char>> = Vec::new();
    for i in 0..accounts.len()
        invariant
            out@.len() == i,
            forall|k: int| 0 <= k < i ==> (#[trigger] out@[k])@ == accounts@[k].name@,
    {
        out.push(chars_of(accounts[i].name.as_str()));
    }
    assert(text::views(out@) =~= account_views(accounts@).map_values(|a: AccountView| a.name));
    out
}

/// Reads one line of the groups file: `name<TAB>member,member,...`. The name
/// is sanitized and must not be empty; members are sanitized, kept only when
/// they name an account, and kept once.
pub fn parse_group_line(line: &str, accounts: &[Account]) -> (r: Option<Group>)
    ensures
        opt_group_view(r) == parse_group_line_spec(line@, account_views(accounts@)),
{
    let cs = chars_of(line);
    parse_group_line_chars(&cs, accounts)
}

/// Whether some group's name is the same name as `name`.
pub fn has_group_chars(list: &Vec<Group>, name: &Vec<char>) -> (r: bool)
    ensures
        r == lists::has_key(group_views(list@), group_key(), name@),
{
    let ghost lv = group_views(list@);
    for i in 0..list.len()
        invariant
            lv == group_views(list@),
            forall|k: int| 0 <= k < i ==> !text::same_name_spec(#[trigger] lv[k].name, name@),
    {
        let other = chars_of(list[i].name.as_str());
        if same_name_chars(&other, name) {
            assert(text::same_name_spec(group_key()(lv[i as int]), name@));
            return true;
        }
    }
    assert forall|k: int| 0 <= k < lv.len() implies !text::same_name_spec(
        group_key()(#[trigger] lv[k]),
        name@,
    ) by {}
    false
}

/// Reads a groups file against the accounts: one group per line, lines that
/// do not parse skipped, the first group of each name kept.
pub fn parse_groups_file(content: &str, accounts: &[Account]) -> (out: Vec<Group>)
    ensures
        group_views(out@) == parse_groups_spec(content@, account_views(accounts@)),
{
    let cs = chars_of(content);
    let ls = lines_of(&cs);
    let ghost lv = text::views(ls@);
    let ghost accs = account_views(accounts@);
    let mut out: Vec<Group> = Vec::new();
    for i in 0..ls.len()
        invariant
            lv == text::views(ls@),
            lv == text::lines(content@),
            accs == account_views(accounts@),
            group_views(out@) == lists::dedup_by(
                lists::parse_lines(lv.take(i as int), group_parser(accs)),
                group_key(),
            ),
    {
        assert(lv.take(i + 1).drop_last() == lv.take(i as int));
        assert(lv.take(i + 1).last() == ls@[i as int]@);
        let ghost prev = lists::parse_lines(lv.take(i as int), group_parser(accs));
        match parse_group_line_chars(&ls[i], accounts) {
            Some(g) => {
                assert(lists::parse_lines(lv.take(i + 1), group_parser(accs)) == prev.push(g@));
                assert(prev.push(g@).drop_last() == prev);
                let name = chars_of(g.name.as_str());
                if !has_group_chars(&out, &name) {
                    out.push(g);
                    assert(group_views(out@) == lists::dedup_by(prev, group_key()).push(g@));
                }
            },
            None => {},
        }
    }
    assert(lv.take(ls.len() as int) == lv);
    out
}

pub fn group_line_chars(g: &Group) -> (out: Vec<char>)
    ensures
        out@ == group_line(g@),
{
    let mut out = chars_of(g.name.as_str());
    out.push('\t');
    let ms = chars_of_strings(g.members.as_slice());
    let comma: Vec<char> = vec![','];
    assert(comma@ == seq![',']);
    let joined = join_pieces(&ms, &comma);
    append_chars(&mut out, &joined);
    out
}

/// The text of the groups file: one `name<TAB>members` line per group.
pub fn groups_file_text(groups: &[Group]) -> (out: String)
    ensures
        out@ == groups_file_spec(group_views(groups@)),
{
    let ghost want = group_views(groups@).map_values(|g: GroupView| group_line(g));
    let mut ls: Vec<Vec<char>> = Vec::new();
    for i in 0..groups.len()
        invariant
            want == group_views(groups@).map_values(|g: GroupView| group_line(g)),
            text::views(ls@) == want.take(i as int),
    {
        ls.push(group_line_chars(&groups[i]));
        assert(want.take(i + 1) == want.take(i as int).push(want[i as int]));
    }
    assert(want.take(groups.len() as int) == want);
    let t = file_text_of(&ls);
    string_of(&t)
}

/// The JSON object of one group.
pub open spec fn group_json(g: GroupView) -> Seq<char> {
    "{\"name\":"@ + json::json_string(g.name) + ",\"members\":"@ + json::string_array_json_spec(
        g.members,
    ) + "}"@
}

/// The JSON array of the groups with their members.
pub open spec fn groups_json_spec(groups: Seq<GroupView>) -> Seq<char> {
    json::json_array(groups.map_values(|g: GroupView| group_json(g)))
}

pub fn push_group_json(out: &mut Vec<char>, g: &Group)
    ensures
        final(out)@ == old(out)@ + group_json(g@),
{
    append_str(out, "{\"name\":");
    let name = chars_of(g.name.as_str());
    push_json_string(out, &name);
    append_str(out, ",\"members\":");
    push_string_array(out, g.members.as_slice());
    append_str(out, "}");
}

/// Renders the groups as a JSON array of `{"name":..,"members":[..]}`.
pub fn groups_json(groups: &[Group]) -> (out: String)
    ensures
        out@ == groups_json_spec(group_views(groups@)),
{
    let ghost items = group_views(groups@).map_values(|g: GroupView| group_json(g));
    let mut out: Vec<char> = Vec::new();
    out.push('[');
    for i in 0..groups.len()
        invariant
            items == group_views(groups@).map_values(|g: GroupView| group_json(g)),
            items.len() == groups@.len(),
            out@ == seq!['['] + text::join(items.take(i as int), seq![',']),
    {
        assert(items.take(i + 1).drop_last() == items.take(i as int));
        assert(items.take(i + 1).last() == group_json(groups@[i as int]@));
        if i > 0 {
            out.push(',');
        }
        push_group_json(&mut out, &groups[i]);
        if i == 0 {
            assert(out@ == seq!['['] + text::join(items.take(1), seq![',']));
        }
    }
    assert(items.take(groups.len() as int) == items);
    out.push(']');
    string_of(&out)
}

// ------------------------------------------------------------------
// Copies and removals
// ------------------------------------------------------------------

/// A copy of a list of strings.
pub fn copy_strings(v: &[String]) -> (out: Vec<String>)
    ensures
        text::string_views(out@) == text::string_views(v@),
{
    let mut out: Vec<String> = Vec::new();
    for i in 0..v.len()
        invariant
            out@.len() == i,
            forall|k: int| 0 <= k < i ==> (#[trigger] out@[k])@ == v@[k]@,
    {
        out.push(v[i].clone());
    }
    assert(text::string_views(out@) =~= text::string_views(v@));
    out
}

pub fn copy_account(a: &Account) -> (out: Account)
    ensures
        out@ == a@,
{
    Account { name: a.name.clone(), pin_hash: a.pin_hash.clone() }
}

pub fn copy_group(g: &Group) -> (out: Group)
    ensures
        out@ == g@,
{
    Group { name: g.name.clone(), members: copy_strings(g.members.as_slice()) }
}

/// The account is named `n`, ignoring ASCII case.
pub open spec fn account_named(n: Seq<char>) -> spec_fn(AccountView) -> bool {
    |a: AccountView| text::same_name_spec(a.name, n)
}

/// The group is named `n`, ignoring ASCII case.
pub open spec fn group_named(n: Seq<char>) -> spec_fn(GroupView) -> bool {
    |g: GroupView| text::same_name_spec(g.name, n)
}

/// The entry is the name `n`, ignoring ASCII case.
pub open spec fn is_name(n: Seq<char>) -> spec_fn(Seq<char>) -> bool {
    |m: Seq<char>| text::same_name_spec(m, n)
}

/// The accounts not named `name`.
pub fn accounts_without(accounts: &[Account], name: &Vec<char>) -> (out: Vec<Account>)
    ensures
        account_views(out@) == lists::drop_where(account_views(accounts@), account_named(name@)),
{
    let ghost av = account_views(accounts@);
    let mut out: Vec<Account> = Vec::new();
    for i in 0..accounts.len()
        invariant
            av == account_views(accounts@),
            account_views(out@) == lists::drop_where(av.take(i as int), account_named(name@)),
    {
        assert(av.take(i + 1).drop_last() == av.take(i as int));
        assert(av.take(i + 1).last() == accounts@[i as int]@);
        let n = chars_of(accounts[i].name.as_str());
        if !same_name_chars(&n, name) {
            out.push(copy_account(&accounts[i]));
        }
    }
    assert(av.take(accounts.len() as int) == av);
    out
}

/// The groups not named `name`.
pub fn groups_without(groups: &[Group], name: &Vec<char>) -> (out: Vec<Group>)
    ensures
        group_views(out@) == lists::drop_where(group_views(groups@), group_named(name@)),
{
    let ghost gv = group_views(groups@);
    let mut out: Vec<Group> = Vec::new();
    for i in 0..groups.len()
        invariant
            gv == group_views(groups@),
            group_views(out@) == lists::drop_where(gv.take(i as int), group_named(name@)),
    {
        assert(gv.take(i + 1).drop_last() == gv.take(i as int));
        assert(gv.take(i + 1).last() == groups@[i as int]@);
        let n = chars_of(groups[i].name.as_str());
        if !same_name_chars(&n, name) {
            out.push(copy_group(&groups[i]));
        }
    }
    assert(gv.take(groups.len() as int) == gv);
    out
}

/// The names other than `name`, ignoring ASCII case.
pub fn names_without(names: &[String], name: &Vec<char>) -> (out: Vec<String>)
    ensures
        text::string_views(out@) == lists::drop_where(text::string_views(names@), is_name(name@)),
{
    let ghost nv = text::string_views(names@);
    let mut out: Vec<String> = Vec::new();
    for i in 0..names.len()
        invariant
            nv == text::string_views(names@),
            text::string_views(out@) == lists::drop_where(nv.take(i as int), is_name(name@)),
    {
        assert(nv.take(i + 1).drop_last() == nv.take(i as int));
        assert(nv.take(i + 1).last() == names@[i as int]@);
        let n = chars_of(names[i].as_str());
        if !same_name_chars(&n, name) {
            out.push(names[i].clone());
        }
    }
    assert(nv.take(names.len() as int) == nv);
    out
}

/// The index of the first account named `name`.
pub fn find_account(accounts: &[Account], name: &Vec<char>) -> (r: Option<usize>)
    ensures
        match r {
            Some(i) => i < accounts.len() && lists::first_index(account_views(accounts@), account_named(name@)) == Some(i as int),
            None => lists::first_index(account_views(accounts@), account_named(name@)) is None,
        },
{
    let ghost av = account_views(accounts@);
    for i in 0..accounts.len()
        invariant
            av == account_views(accounts@),
            forall|j: int| 0 <= j < i ==> !account_named(name@)(#[trigger] av[j]),
    {
        let n = chars_of(accounts[i].name.as_str());
        if same_name_chars(&n, name) {
            proof {
                lists::lemma_first_index(av, account_named(name@), i as int);
            }
            return Some(i);
        }
    }
    proof {
        lists::lemma_first_index(av, account_named(name@), av.len() as int);
    }
    None
}

/// The index of the first group named `name`.
pub fn find_group(groups: &[Group], name: &Vec<char>) -> (r: Option<usize>)
    ensures
        match r {
            Some(i) => i < groups.len() && lists::first_index(group_views(groups@), group_named(name@)) == Some(i as int),
            None => lists::first_index(group_views(groups@), group_named(name@)) is None,
        },
{
    let ghost gv = group_views(groups@);
    for i in 0..groups.len()
        invariant
            gv == group_views(groups@),
            forall|j: int| 0 <= j < i ==> !group_named(name@)(#[trigger] gv[j]),
    {
        let n = chars_of(groups[i].name.as_str());
        if same_name_chars(&n, name) {
            proof {
                lists::lemma_first_index(gv, group_named(name@), i as int);
            }
            return Some(i);
        }
    }
    proof {
        lists::lemma_first_index(gv, group_named(name@), gv.len() as int);
    }
    None
}

/// Reading the `name` member of a rendered group back with `json_field`
/// gives the group's own name, whatever the group holds.
pub proof fn lemma_group_json_reads_name(g: GroupView)
    ensures
        json::json_field_spec(group_json(g), "name"@) == Some(g.name),
{
    reveal_strlit("{\"name\":");
    reveal_strlit("name");
    let f = "name"@;
    assert(json::key_name(f)) by {
        assert forall|j: int| 0 <= j < f.len() implies (65 <= (#[trigger] f[j] as u32) <= 90) || (97 <= (f[j] as u32) <= 122) by {}
    }
    let l = json::key_needle(f) + seq![':'];
    assert("{\"name\":"@ =~= seq!['{'] + l);
    let x0 = seq!['{'];
    json::lemma_absent_short(x0, f);
    let rest = ",\"members\":"@ + json::string_array_json_spec(g.members) + "}"@;
    json::lemma_json_field_after(x0, l, f, g.name, rest);
    assert(group_json(g) =~= x0 + (l + json::json_string(g.name)) + rest);
}

} // verus!
