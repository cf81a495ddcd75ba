use vstd::prelude::*;
use crate::access::has_account_in;
use crate::auth::{self, opt_str_view, password_hash, verify_admin_password};
use crate::fields::{self, is_overview_account, is_valid_pin, sanitize_account_name, OVERVIEW_ACCOUNT};
use crate::json::{self, escape_json, field_or_empty, json_response, Reply, ReplyView};
use crate::lists;
use crate::people::{
    self, accounts_json, accounts_without, copy_account, copy_group, copy_strings, find_account,
    find_group, groups_json, groups_without, names_without, Account, AccountView, Group,
    GroupView,
};
use crate::text::{self, append_str, chars_of, string_of};

verus! {

// ------------------------------------------------------------------
// Replies
// ------------------------------------------------------------------

pub open spec fn wrong_password() -> ReplyView {
    json::json_reply("401 Unauthorized"@, "{\"ok\":false,\"error\":\"Wrong password\"}"@)
}

pub open spec fn name_required() -> ReplyView {
    json::json_reply("400 Bad Request"@, "{\"ok\":false,\"error\":\"Name required\"}"@)
}

/// `{"ok":true,"accounts":[..]}` listing the accounts, overview first.
pub open spec fn accounts_reply(accs: Seq<AccountView>) -> ReplyView {
    json::json_reply(
        "200 OK"@,
        "{\"ok\":true,\"accounts\":"@ + json::string_array_json_spec(people::account_names(accs))
            + "}"@,
    )
}

/// `{"ok":true,"groups":[..]}` listing the groups.
pub open spec fn groups_reply(groups: Seq<GroupView>) -> ReplyView {
    json::json_reply(
        "200 OK"@,
        "{\"ok\":true,\"groups\":"@ + people::groups_json_spec(groups) + "}"@,
    )
}

fn wrong_password_reply() -> (r: Reply)
    ensures
        json::reply_view(r) == wrong_password(),
{
    json_response("401 Unauthorized", "{\"ok\":false,\"error\":\"Wrong password\"}")
}

fn name_required_reply() -> (r: Reply)
    ensures
        json::reply_view(r) == name_required(),
{
    json_response("400 Bad Request", "{\"ok\":false,\"error\":\"Name required\"}")
}

/// The reply that lists the accounts.
pub fn accounts_reply_of(accounts: &[Account]) -> (r: Reply)
    ensures
        json::reply_view(r) == accounts_reply(people::account_views(accounts@)),
{
    let mut out: Vec<char> = Vec::new();
    append_str(&mut out, "{\"ok\":true,\"accounts\":");
    let list = accounts_json(accounts);
    append_str(&mut out, list.as_str());
    append_str(&mut out, "}");
    let body = string_of(&out);
    json_response("200 OK", body.as_str())
}

/// The reply that lists the groups.
pub fn groups_reply_of(groups: &[Group]) -> (r: Reply)
    ensures
        json::reply_view(r) == groups_reply(people::group_views(groups@)),
{
    let mut out: Vec<char> = Vec::new();
    append_str(&mut out, "{\"ok\":true,\"groups\":");
    let list = groups_json(groups);
    append_str(&mut out, list.as_str());
    append_str(&mut out, "}");
    let body = string_of(&out);
    json_response("200 OK", body.as_str())
}

pub open spec fn opt_accounts_view(o: Option<Vec<Account>>) -> Option<Seq<AccountView>> {
    match o {
        Some(v) => Some(people::account_views(v@)),
        None => None,
    }
}

pub open spec fn opt_groups_view(o: Option<Vec<Group>>) -> Option<Seq<GroupView>> {
    match o {
        Some(v) => Some(people::group_views(v@)),
        None => None,
    }
}

/// The admin password sent in the body matches the stored hash.
pub open spec fn admin_ok(body: Seq<char>, saved: Option<Seq<char>>) -> bool {
    auth::admin_password_ok(saved, json::field_text(body, "password"@))
}

// ------------------------------------------------------------------
// Sign-in
// ------------------------------------------------------------------

pub open spec fn admin_login_spec(body: Seq<char>, saved: Option<Seq<char>>) -> ReplyView {
    if admin_ok(body, saved) {
        json::json_reply("200 OK"@, "{\"ok\":true}"@)
    } else {
        wrong_password()
    }
}

/// Checks the admin password in the body against the stored hash.
pub fn handle_admin_login(body: &str, saved: Option<&str>) -> (r: Reply)
    ensures
        json::reply_view(r) == admin_login_spec(body@, opt_str_view(saved)),
{
    let password = field_or_empty(body, "password");
    if verify_admin_password(password.as_str(), saved) {
        json_response("200 OK", "{\"ok\":true}")
    } else {
        wrong_password_reply()
    }
}

pub open spec fn wrong_name_or_pin() -> ReplyView {
    json::json_reply("401 Unauthorized"@, "{\"ok\":false,\"error\":\"Wrong name or PIN\"}"@)
}

/// Some account has the name (ignoring ASCII case) and the PIN's hash.
pub open spec fn pin_matches(accs: Seq<AccountView>, name: Seq<char>, pin: Seq<char>) -> bool {
    exists|i: int|
        0 <= i < accs.len() && text::same_name_spec(#[trigger] accs[i].name, name) && accs[i].pin_hash
            == auth::password_hash_spec(pin)
}

pub open spec fn user_login_spec(
    body: Seq<char>,
    saved: Option<Seq<char>>,
    accs: Seq<AccountView>,
) -> ReplyView {
    let name = fields::sanitize_name(json::field_text(body, "name"@));
    let pin = json::field_text(body, "pin"@);
    if fields::is_overview(name) {
        if auth::admin_password_ok(saved, pin) {
            json::json_reply(
                "200 OK"@,
                "{\"ok\":true,\"name\":\""@ + OVERVIEW_ACCOUNT@ + "\"}"@,
            )
        } else {
            wrong_name_or_pin()
        }
    } else if pin_matches(accs, name, pin) {
        json::json_reply("200 OK"@, "{\"ok\":true,\"name\":\""@ + json::escape(name) + "\"}"@)
    } else {
        wrong_name_or_pin()
    }
}

fn wrong_name_or_pin_reply() -> (r: Reply)
    ensures
        json::reply_view(r) == wrong_name_or_pin(),
{
    json_response("401 Unauthorized", "{\"ok\":false,\"error\":\"Wrong name or PIN\"}")
}

/// Signs a person in by name and PIN. The overview account signs in with
/// the admin password in place of a PIN.
pub fn handle_user_login(body: &str, saved: Option<&str>, accounts: &[Account]) -> (r: Reply)
    ensures
        json::reply_view(r) == user_login_spec(body@, opt_str_view(saved), people::account_views(accounts@)),
{
    let name = sanitize_account_name(field_or_empty(body, "name").as_str());
    let pin = field_or_empty(body, "pin");
    if is_overview_account(name.as_str()) {
        if verify_admin_password(pin.as_str(), saved) {
            let mut out: Vec<char> = Vec::new();
            append_str(&mut out, "{\"ok\":true,\"name\":\"");
            append_str(&mut out, OVERVIEW_ACCOUNT);
            append_str(&mut out, "\"}");
            let b = string_of(&out);
            return json_response("200 OK", b.as_str());
        }
        return wrong_name_or_pin_reply();
    }
    let hash = password_hash(pin.as_str());
    let n = chars_of(name.as_str());
    let h = chars_of(hash.as_str());
    let ghost accs = people::account_views(accounts@);
    let mut valid = false;
    for i in 0..accounts.len()
        invariant
            accs == people::account_views(accounts@),
            n@ == name@,
            h@ == auth::password_hash_spec(pin@),
            valid == exists|k: int|
                0 <= k < i && text::same_name_spec(#[trigger] accs[k].name, n@) && accs[k].pin_hash
                    == h@,
    {
        let an = chars_of(accounts[i].name.as_str());
        let ah = chars_of(accounts[i].pin_hash.as_str());
        if text::same_name_chars(&an, &n) && crate::http::eq_chars(&ah, &h) {
            assert(text::same_name_spec(accs[i as int].name, n@) && accs[i as int].pin_hash == h@);
            valid = true;
        }
    }
    if valid {
        let mut out: Vec<char> = Vec::new();
        append_str(&mut out, "{\"ok\":true,\"name\":\"");
        let e = escape_json(name.as_str());
        append_str(&mut out, e.as_str());
        append_str(&mut out, "\"}");
        let b = string_of(&out);
        json_response("200 OK", b.as_str())
    } else {
        wrong_name_or_pin_reply()
    }
}

// ------------------------------------------------------------------
// Accounts
// ------------------------------------------------------------------

/// The accounts after setting the PIN hash of `name`: the first account of
/// that name keeps its name and gets the hash; without one, a new account
/// is added at the end.
pub open spec fn set_pin(accs: Seq<AccountView>, name: Seq<char>, hash: Seq<char>) -> Seq<AccountView> {
    match lists::first_index(accs, people::account_named(name)) {
        Some(i) => accs.update(i, AccountView { name: accs[i].name, pin_hash: hash }),
        None => accs.push(AccountView { name, pin_hash: hash }),
    }
}

pub open spec fn add_account_spec(
    body: Seq<char>,
    saved: Option<Seq<char>>,
    accs: Seq<AccountView>,
) -> (ReplyView, Option<Seq<AccountView>>) {
    if !admin_ok(body, saved) {
        (wrong_password(), None)
    } else {
        let name = fields::sanitize_name(json::field_text(body, "name"@));
        let pin = json::field_text(body, "pin"@);
        if name.len() == 0 {
            (name_required(), None)
        } else if fields::is_overview(name) {
            (
                json::json_reply(
                    "400 Bad Request"@,
                    "{\"ok\":false,\"error\":\"Overview is a built-in account\"}"@,
                ),
                None,
            )
        } else if !fields::valid_pin(pin) {
            (
                json::json_reply(
                    "400 Bad Request"@,
                    "{\"ok\":false,\"error\":\"Use a 4 digit PIN\"}"@,
                ),
                None,
            )
        } else {
            let updated = set_pin(accs, name, auth::password_hash_spec(pin));
            (accounts_reply(updated), Some(updated))
        }
    }
}

/// Adds an account or sets the PIN of an existing one (admin password
/// required). Returns the reply for a successful save and the accounts to
/// save, if any.
pub fn handle_add_account(body: &str, saved: Option<&str>, accounts: Vec<Account>) -> (out: (
    Reply,
    Option<Vec<Account>>,
))
    ensures
        json::reply_view(out.0) == add_account_spec(body@, opt_str_view(saved), people::account_views(accounts@)).0,
        opt_accounts_view(out.1) == add_account_spec(body@, opt_str_view(saved), people::account_views(accounts@)).1,
{
    let password = field_or_empty(body, "password");
    if !verify_admin_password(password.as_str(), saved) {
        return (wrong_password_reply(), None);
    }
    let name = sanitize_account_name(field_or_empty(body, "name").as_str());
    let pin = field_or_empty(body, "pin");
    if name.as_str().is_empty() {
        return (name_required_reply(), None);
    }
    if is_overview_account(name.as_str()) {
        return (
            json_response(
                "400 Bad Request",
                "{\"ok\":false,\"error\":\"Overview is a built-in account\"}",
            ),
            None,
        );
    }
    if !is_valid_pin(pin.as_str()) {
        return (
            json_response("400 Bad Request", "{\"ok\":false,\"error\":\"Use a 4 digit PIN\"}"),
            None,
        );
    }
    let hash = password_hash(pin.as_str());
    let mut accounts = accounts;
    let n = chars_of(name.as_str());
    let ghost before = people::account_views(accounts@);
    match find_account(accounts.as_slice(), &n) {
        Some(i) => {
            let updated = Account { name: accounts[i].name.clone(), pin_hash: hash };
            accounts.set(i, updated);
            assert(people::account_views(accounts@) =~= before.update(
                i as int,
                AccountView { name: before[i as int].name, pin_hash: auth::password_hash_spec(pin@) },
            ));
        },
        None => {
            accounts.push(Account { name, pin_hash: hash });
            assert(people::account_views(accounts@) =~= before.push(
                AccountView { name: n@, pin_hash: auth::password_hash_spec(pin@) },
            ));
        },
    }
    let reply = accounts_reply_of(accounts.as_slice());
    (reply, Some(accounts))
}

/// The groups with `name` taken out of every member list.
pub open spec fn without_member(groups: Seq<GroupView>, name: Seq<char>) -> Seq<GroupView> {
    groups.map_values(
        |g: GroupView|
            GroupView { name: g.name, members: lists::drop_where(g.members, people::is_name(name)) },
    )
}

/// What deleting an account replies and saves: the groups to save first
/// (with the name taken out of every member list), then the accounts.
pub open spec fn delete_account_spec(
    body: Seq<char>,
    saved: Option<Seq<char>>,
    accs: Seq<AccountView>,
    groups: Seq<GroupView>,
) -> (ReplyView, Option<Seq<GroupView>>, Option<Seq<AccountView>>) {
    if !admin_ok(body, saved) {
        (wrong_password(), None, None)
    } else {
        let name = fields::sanitize_name(json::field_text(body, "name"@));
        if fields::is_overview(name) {
            (accounts_reply(accs), None, None)
        } else {
            let remaining = lists::drop_where(accs, people::account_named(name));
            (accounts_reply(remaining), Some(without_member(groups, name)), Some(remaining))
        }
    }
}

/// Every group with the name taken out of its member list.
pub fn remove_member_from_groups(groups: &[Group], name: &Vec<char>) -> (out: Vec<Group>)
    ensures
        people::group_views(out@) == without_member(people::group_views(groups@), name@),
{
    let ghost want = without_member(people::group_views(groups@), name@);
    let mut out: Vec<Group> = Vec::new();
    for i in 0..groups.len()
        invariant
            want == without_member(people::group_views(groups@), name@),
            out@.len() == i,
            forall|k: int| 0 <= k < i ==> (#[trigger] out@[k])@ == want[k],
    {
        let members = names_without(groups[i].members.as_slice(), name);
        out.push(Group { name: groups[i].name.clone(), members });
    }
    assert(people::group_views(out@) =~= want);
    out
}

/// Deletes an account and takes it out of every group (admin password
/// required). The overview account cannot be deleted: the reply then lists
/// the accounts unchanged. Returns the reply for a successful save, the
/// groups to save, and the accounts to save.
pub fn handle_delete_account(
    body: &str,
    saved: Option<&str>,
    accounts: Vec<Account>,
    groups: Vec<Group>,
) -> (out: (Reply, Option<Vec<Group>>, Option<Vec<Account>>))
    ensures
        json::reply_view(out.0) == delete_account_spec(
            body@,
            opt_str_view(saved),
            people::account_views(accounts@),
            people::group_views(groups@),
        ).0,
        opt_groups_view(out.1) == delete_account_spec(
            body@,
            opt_str_view(saved),
            people::account_views(accounts@),
            people::group_views(groups@),
        ).1,
        opt_accounts_view(out.2) == delete_account_spec(
            body@,
            opt_str_view(saved),
            people::account_views(accounts@),
            people::group_views(groups@),
        ).2,
{
    let password = field_or_empty(body, "password");
    if !verify_admin_password(password.as_str(), saved) {
        return (wrong_password_reply(), None, None);
    }
    let name = sanitize_account_name(field_or_empty(body, "name").as_str());
    if is_overview_account(name.as_str()) {
        return (accounts_reply_of(accounts.as_slice()), None, None);
    }
    let n = chars_of(name.as_str());
    let remaining = accounts_without(accounts.as_slice(), &n);
    let new_groups = remove_member_from_groups(groups.as_slice(), &n);
    let reply = accounts_reply_of(remaining.as_slice());
    (reply, Some(new_groups), Some(remaining))
}

// ------------------------------------------------------------------
// Groups
// ------------------------------------------------------------------

pub open spec fn add_group_spec(body: Seq<char>, saved: Option<Seq<char>>, groups: Seq<GroupView>) -> (
    ReplyView,
    Option<Seq<GroupView>>,
) {
    if !admin_ok(body, saved) {
        (wrong_password(), None)
    } else {
        let name = fields::sanitize_name(json::field_text(body, "name"@));
        if name.len() == 0 {
            (name_required(), None)
        } else if lists::has_key(groups, people::group_key(), name) {
            (groups_reply(groups), None)
        } else {
            let updated = groups.push(GroupView { name, members: Seq::empty() });
            (groups_reply(updated), Some(updated))
        }
    }
}

/// Adds an empty group unless one of that name exists (admin password
/// required). Returns the reply and the groups to save, if they changed.
pub fn handle_add_group(body: &str, saved: Option<&str>, groups: Vec<Group>) -> (out: (
    Reply,
    Option<Vec<Group>>,
))
    ensures
        json::reply_view(out.0) == add_group_spec(body@, opt_str_view(saved), people::group_views(groups@)).0,
        opt_groups_view(out.1) == add_group_spec(body@, opt_str_view(saved), people::group_views(groups@)).1,
{
    let password = field_or_empty(body, "password");
    if !verify_admin_password(password.as_str(), saved) {
        return (wrong_password_reply(), None);
    }
    let name = sanitize_account_name(field_or_empty(body, "name").as_str());
    if name.as_str().is_empty() {
        return (name_required_reply(), None);
    }
    let n = chars_of(name.as_str());
    let mut groups = groups;
    if people::has_group_chars(&groups, &n) {
        return (groups_reply_of(groups.as_slice()), None);
    }
    let ghost before = people::group_views(groups@);
    let members: Vec<String> = Vec::new();
    assert(text::string_views(members@) =~= Seq::<Seq<char>>::empty());
    groups.push(Group { name, members });
    assert(people::group_views(groups@) =~= before.push(GroupView { name: n@, members: Seq::empty() }));
    let reply = groups_reply_of(groups.as_slice());
    (reply, Some(groups))
}

pub open spec fn delete_group_spec(
    body: Seq<char>,
    saved: Option<Seq<char>>,
    groups: Seq<GroupView>,
) -> (ReplyView, Option<Seq<GroupView>>) {
    if !admin_ok(body, saved) {
        (wrong_password(), None)
    } else {
        let name = fields::sanitize_name(json::field_text(body, "name"@));
        let remaining = lists::drop_where(groups, people::group_named(name));
        (groups_reply(remaining), Some(remaining))
    }
}

/// Deletes every group of the name (admin password required). Returns the
/// reply and the groups to save.
pub fn handle_delete_group(body: &str, saved: Option<&str>, groups: Vec<Group>) -> (out: (
    Reply,
    Option<Vec<Group>>,
))
    ensures
        json::reply_view(out.0) == delete_group_spec(body@, opt_str_view(saved), people::group_views(groups@)).0,
        opt_groups_view(out.1) == delete_group_spec(body@, opt_str_view(saved), people::group_views(groups@)).1,
{
    let password = field_or_empty(body, "password");
    if !verify_admin_password(password.as_str(), saved) {
        return (wrong_password_reply(), None);
    }
    let name = sanitize_account_name(field_or_empty(body, "name").as_str());
    let n = chars_of(name.as_str());
    let remaining = groups_without(groups.as_slice(), &n);
    let reply = groups_reply_of(remaining.as_slice());
    (reply, Some(remaining))
}

/// A member list after adding or removing `member`.
pub open spec fn changed_members(members: Seq<Seq<char>>, member: Seq<char>, remove: bool) -> Seq<
    Seq<char>,
> {
    if remove {
        lists::drop_where(members, people::is_name(member))
    } else if fields::has_name(members, member) {
        members
    } else {
        members.push(member)
    }
}

pub open spec fn group_member_spec(
    body: Seq<char>,
    saved: Option<Seq<char>>,
    accs: Seq<AccountView>,
    groups: Seq<GroupView>,
) -> (ReplyView, Option<Seq<GroupView>>) {
    if !admin_ok(body, saved) {
        (wrong_password(), None)
    } else {
        let group_name = fields::sanitize_name(json::field_text(body, "group"@));
        let member = fields::sanitize_name(json::field_text(body, "member"@));
        let remove = json::field_text(body, "action"@) == "remove"@;
        if group_name.len() == 0 || member.len() == 0 {
            (
                json::json_reply(
                    "400 Bad Request"@,
                    "{\"ok\":false,\"error\":\"Group and member required\"}"@,
                ),
                None,
            )
        } else if !lists::has_key(accs, people::account_key(), member) {
            (
                json::json_reply("400 Bad Request"@, "{\"ok\":false,\"error\":\"Unknown account\"}"@),
                None,
            )
        } else {
            match lists::first_index(groups, people::group_named(group_name)) {
                None => (
                    json::json_reply("404 Not Found"@, "{\"ok\":false,\"error\":\"Unknown group\"}"@),
                    None,
                ),
                Some(i) => {
                    let updated = groups.update(
                        i,
                        GroupView {
                            name: groups[i].name,
                            members: changed_members(groups[i].members, member, remove),
                        },
                    );
                    (groups_reply(updated), Some(updated))
                },
            }
        }
    }
}

/// Adds a known account to a group, or takes it out when the action is
/// `remove` (admin password required). Returns the reply and the groups to
/// save, if any.
pub fn handle_group_member(
    body: &str,
    saved: Option<&str>,
    accounts: &[Account],
    groups: Vec<Group>,
) -> (out: (Reply, Option<Vec<Group>>))
    ensures
        json::reply_view(out.0) == group_member_spec(
            body@,
            opt_str_view(saved),
            people::account_views(accounts@),
            people::group_views(groups@),
        ).0,
        opt_groups_view(out.1) == group_member_spec(
            body@,
            opt_str_view(saved),
            people::account_views(accounts@),
            people::group_views(groups@),
        ).1,
{
    let password = field_or_empty(body, "password");
    if !verify_admin_password(password.as_str(), saved) {
        return (wrong_password_reply(), None);
    }
    let group_name = sanitize_account_name(field_or_empty(body, "group").as_str());
    let member = sanitize_account_name(field_or_empty(body, "member").as_str());
    let action = field_or_empty(body, "action");
    if group_name.as_str().is_empty() || member.as_str().is_empty() {
        return (
            json_response(
                "400 Bad Request",
                "{\"ok\":false,\"error\":\"Group and member required\"}",
            ),
            None,
        );
    }
    let m = chars_of(member.as_str());
    if !has_account_in(accounts, &m) {
        return (
            json_response("400 Bad Request", "{\"ok\":false,\"error\":\"Unknown account\"}"),
            None,
        );
    }
    let g = chars_of(group_name.as_str());
    let mut groups = groups;
    let i = match find_group(groups.as_slice(), &g) {
        Some(i) => i,
        None => {
            return (
                json_response("404 Not Found", "{\"ok\":false,\"error\":\"Unknown group\"}"),
                None,
            );
        },
    };
    let a = chars_of(action.as_str());
    let remove = crate::http::eq_str(&a, "remove");
    let ghost before = people::group_views(groups@);
    let members = if remove {
        names_without(groups[i].members.as_slice(), &m)
    } else {
        let ms = fields::chars_of_strings(groups[i].members.as_slice());
        if fields::has_name_chars(&ms, &m) {
            copy_strings(groups[i].members.as_slice())
        } else {
            let mut ms2 = copy_strings(groups[i].members.as_slice());
            let ghost prev = text::string_views(ms2@);
            ms2.push(member);
            assert(text::string_views(ms2@) =~= prev.push(m@));
            ms2
        }
    };
    let updated = Group { name: groups[i].name.clone(), members };
    groups.set(i, updated);
    assert(people::group_views(groups@) =~= before.update(
        i as int,
        GroupView {
            name: before[i as int].name,
            members: changed_members(before[i as int].members, m@, remove),
        },
    ));
    let reply = groups_reply_of(groups.as_slice());
    (reply, Some(groups))
}

// ------------------------------------------------------------------
// Laws
// ------------------------------------------------------------------

/// After an account is added (or its PIN set), signing in with the same
/// name and PIN succeeds and names the account.
pub proof fn lemma_sign_in_after_add_account(
    add_body: Seq<char>,
    login_body: Seq<char>,
    saved: Option<Seq<char>>,
    accs: Seq<AccountView>,
)
    requires
        add_account_spec(add_body, saved, accs).1 is Some,
        json::field_text(login_body, "name"@) == json::field_text(add_body, "name"@),
        json::field_text(login_body, "pin"@) == json::field_text(add_body, "pin"@),
    ensures
        user_login_spec(login_body, saved, add_account_spec(add_body, saved, accs).1.unwrap())
            == json::json_reply(
            "200 OK"@,
            "{\"ok\":true,\"name\":\""@ + json::escape(
                fields::sanitize_name(json::field_text(add_body, "name"@)),
            ) + "\"}"@,
        ),
{
    let name = fields::sanitize_name(json::field_text(add_body, "name"@));
    let pin = json::field_text(add_body, "pin"@);
    let hash = auth::password_hash_spec(pin);
    let updated = set_pin(accs, name, hash);
    lists::lemma_first_index_found(accs, people::account_named(name));
    match lists::first_index(accs, people::account_named(name)) {
        Some(i) => {
            assert(people::account_named(name)(accs[i]));
            assert(text::same_name_spec(updated[i].name, name) && updated[i].pin_hash == hash);
        },
        None => {
            let k = accs.len() as int;
            assert(updated[k].name == name && updated[k].pin_hash == hash);
            assert(text::same_name_spec(updated[k].name, name));
        },
    }
    assert(pin_matches(updated, name, pin));
}

/// After an account is deleted, signing in with its name is refused,
/// whatever the PIN.
pub proof fn lemma_sign_in_refused_after_delete(
    del_body: Seq<char>,
    login_body: Seq<char>,
    saved: Option<Seq<char>>,
    accs: Seq<AccountView>,
    groups: Seq<GroupView>,
)
    requires
        delete_account_spec(del_body, saved, accs, groups).2 is Some,
        json::field_text(login_body, "name"@) == json::field_text(del_body, "name"@),
    ensures
        user_login_spec(login_body, saved, delete_account_spec(del_body, saved, accs, groups).2.unwrap())
            == wrong_name_or_pin(),
{
    let name = fields::sanitize_name(json::field_text(del_body, "name"@));
    let remaining = lists::drop_where(accs, people::account_named(name));
    lists::lemma_drop_where_props(accs, people::account_named(name));
    let pin = json::field_text(login_body, "pin"@);
    assert(!pin_matches(remaining, name, pin)) by {
        assert forall|i: int| 0 <= i < remaining.len() implies !text::same_name_spec(
            #[trigger] remaining[i].name,
            name,
        ) by {
            assert(!people::account_named(name)(remaining[i]));
        }
    }
}

/// Adding a group that was just added saves nothing and lists the same
/// groups.
pub proof fn lemma_add_group_twice(body: Seq<char>, saved: Option<Seq<char>>, groups: Seq<GroupView>)
    requires
        add_group_spec(body, saved, groups).1 is Some,
    ensures
        add_group_spec(body, saved, add_group_spec(body, saved, groups).1.unwrap()) == (
            groups_reply(add_group_spec(body, saved, groups).1.unwrap()),
            None::<Seq<GroupView>>,
        ),
{
    let name = fields::sanitize_name(json::field_text(body, "name"@));
    let updated = add_group_spec(body, saved, groups).1.unwrap();
    let k = groups.len() as int;
    assert(updated[k].name == name);
    assert(text::same_name_spec(people::group_key()(updated[k]), name));
    assert(lists::has_key(updated, people::group_key(), name));
}

/// Adding a member and then removing it leaves the group without it.
pub proof fn lemma_member_add_then_remove(
    add_body: Seq<char>,
    remove_body: Seq<char>,
    saved: Option<Seq<char>>,
    accs: Seq<AccountView>,
    groups: Seq<GroupView>,
)
    requires
        group_member_spec(add_body, saved, accs, groups).1 is Some,
        json::field_text(add_body, "action"@) != "remove"@,
        json::field_text(remove_body, "action"@) == "remove"@,
        json::field_text(remove_body, "password"@) == json::field_text(add_body, "password"@),
        json::field_text(remove_body, "group"@) == json::field_text(add_body, "group"@),
        json::field_text(remove_body, "member"@) == json::field_text(add_body, "member"@),
    ensures
        ({
            let after_add = group_member_spec(add_body, saved, accs, groups).1.unwrap();
            let after_remove = group_member_spec(remove_body, saved, accs, after_add).1;
            let group_name = fields::sanitize_name(json::field_text(add_body, "group"@));
            let member = fields::sanitize_name(json::field_text(add_body, "member"@));
            &&& after_remove is Some
            &&& match lists::first_index(after_remove.unwrap(), people::group_named(group_name)) {
                Some(i) => !fields::has_name(after_remove.unwrap()[i].members, member),
                None => false,
            }
        }),
{
    let group_name = fields::sanitize_name(json::field_text(add_body, "group"@));
    let member = fields::sanitize_name(json::field_text(add_body, "member"@));
    let after_add = group_member_spec(add_body, saved, accs, groups).1.unwrap();
    let i = lists::first_index(groups, people::group_named(group_name)).unwrap();
    lists::lemma_first_index_found(groups, people::group_named(group_name));
    let g = groups[i];
    let added = GroupView { name: g.name, members: changed_members(g.members, member, false) };
    assert(people::group_named(group_name)(added));
    lists::lemma_first_index_update(groups, people::group_named(group_name), i, added);
    let removed_members = lists::drop_where(added.members, people::is_name(member));
    lists::lemma_drop_where_props(added.members, people::is_name(member));
    let removed = GroupView { name: g.name, members: removed_members };
    assert(people::group_named(group_name)(removed));
    lists::lemma_first_index_update(after_add, people::group_named(group_name), i, removed);
    assert(!fields::has_name(removed_members, member)) by {
        assert forall|k: int| 0 <= k < removed_members.len() implies !text::same_name_spec(
            #[trigger] removed_members[k],
            member,
        ) by {
            assert(!people::is_name(member)(removed_members[k]));
        }
    }
}

/// After an account is deleted, no group that is saved lists it as a
/// member.
pub proof fn lemma_delete_account_leaves_groups(
    body: Seq<char>,
    saved: Option<Seq<char>>,
    accs: Seq<AccountView>,
    groups: Seq<GroupView>,
)
    requires
        delete_account_spec(body, saved, accs, groups).1 is Some,
    ensures
        ({
            let gs = delete_account_spec(body, saved, accs, groups).1.unwrap();
            let name = fields::sanitize_name(json::field_text(body, "name"@));
            &&& gs.len() == groups.len()
            &&& forall|i: int| 0 <= i < gs.len() ==> (#[trigger] gs[i]).name == groups[i].name
                && !fields::has_name(gs[i].members, name)
        }),
{
    let gs = delete_account_spec(body, saved, accs, groups).1.unwrap();
    let name = fields::sanitize_name(json::field_text(body, "name"@));
    assert forall|i: int| 0 <= i < gs.len() implies (#[trigger] gs[i]).name == groups[i].name
        && !fields::has_name(gs[i].members, name) by {
        let ms = gs[i].members;
        lists::lemma_drop_where_props(groups[i].members, people::is_name(name));
        assert forall|k: int| 0 <= k < ms.len() implies !text::same_name_spec(#[trigger] ms[k], name) by {
            assert(!people::is_name(name)(ms[k]));
        }
    }
}

/// The built-in overview account cannot be deleted: a request to delete it
/// saves nothing, whatever the password.
pub proof fn lemma_overview_undeletable(
    body: Seq<char>,
    saved: Option<Seq<char>>,
    accs: Seq<AccountView>,
    groups: Seq<GroupView>,
)
    requires
        fields::is_overview(fields::sanitize_name(json::field_text(body, "name"@))),
    ensures
        delete_account_spec(body, saved, accs, groups).1 is None,
        delete_account_spec(body, saved, accs, groups).2 is None,
{
}

/// Adding an account with the admin password, a non-empty name other than
/// the overview account's and a 4-digit PIN saves the accounts with that
/// name's PIN set: an existing account of the name (ignoring ASCII case)
/// keeps its place and name, otherwise a new account is appended; every
/// other account stays as it was. Nothing is saved otherwise.
pub proof fn lemma_add_account_sets_pin(body: Seq<char>, saved: Option<Seq<char>>, accs: Seq<AccountView>)
    ensures
        ({
            let name = fields::sanitize_name(json::field_text(body, "name"@));
            let pin = json::field_text(body, "pin"@);
            &&& add_account_spec(body, saved, accs).1 is Some <==> (auth::admin_password_ok(
                saved,
                json::field_text(body, "password"@),
            ) && name.len() > 0 && !fields::is_overview(name) && pin.len() == 4 && text::all_digits(pin))
            &&& add_account_spec(body, saved, accs).1 matches Some(out) ==> {
                &&& out.len() as int == (if lists::has_key(accs, people::account_key(), name) {
                    accs.len() as int
                } else {
                    accs.len() as int + 1
                })
                &&& forall|i: int|
                    0 <= i < accs.len() ==> (#[trigger] out[i]).name == accs[i].name && (!text::same_name_spec(
                        accs[i].name,
                        name,
                    ) ==> out[i] == accs[i])
                &&& exists|i: int|
                    0 <= i < out.len() && text::same_name_spec(#[trigger] out[i].name, name) && out[i].pin_hash
                        == auth::password_hash_spec(pin)
                &&& !lists::has_key(accs, people::account_key(), name) ==> out.last() == AccountView {
                    name,
                    pin_hash: auth::password_hash_spec(pin),
                }
            }
        }),
{
    let name = fields::sanitize_name(json::field_text(body, "name"@));
    let pin = json::field_text(body, "pin"@);
    let p = people::account_named(name);
    lists::lemma_first_index_found(accs, p);
    if let Some(out) = add_account_spec(body, saved, accs).1 {
        match lists::first_index(accs, p) {
            Some(i) => {
                assert(p(accs[i]));
                assert(lists::has_key(accs, people::account_key(), name)) by {
                    assert(text::same_name_spec(people::account_key()(accs[i]), name));
                }
                assert(text::same_name_spec(out[i].name, name));
            },
            None => {
                assert(!lists::has_key(accs, people::account_key(), name)) by {
                    if lists::has_key(accs, people::account_key(), name) {
                        let j = choose|j: int| 0 <= j < accs.len() && text::same_name_spec(
                            people::account_key()(#[trigger] accs[j]),
                            name,
                        );
                        assert(!p(accs[j]));
                    }
                }
                let k = accs.len() as int;
                assert(out[k].name == name);
                assert(text::same_name_spec(out[k].name, name));
            },
        }
    }
}

/// Adding a known account to a group (or removing it, for the action
/// `remove`) with the admin password changes only the first group of that
/// name: afterwards it lists the member exactly when the action was not a
/// removal, and every other group stays as it was.
pub proof fn lemma_group_member_changes_one_group(
    body: Seq<char>,
    saved: Option<Seq<char>>,
    accs: Seq<AccountView>,
    groups: Seq<GroupView>,
)
    ensures
        ({
            let group_name = fields::sanitize_name(json::field_text(body, "group"@));
            let member = fields::sanitize_name(json::field_text(body, "member"@));
            let remove = json::field_text(body, "action"@) == "remove"@;
            &&& group_member_spec(body, saved, accs, groups).1 is Some <==> (auth::admin_password_ok(
                saved,
                json::field_text(body, "password"@),
            ) && group_name.len() > 0 && member.len() > 0 && lists::has_key(
                accs,
                people::account_key(),
                member,
            ) && lists::has_key(groups, people::group_key(), group_name))
            &&& group_member_spec(body, saved, accs, groups).1 matches Some(out) ==> exists|k: int| {
                &&& 0 <= k < groups.len()
                &&& text::same_name_spec(groups[k].name, group_name)
                &&& (forall|j: int| 0 <= j < k ==> !text::same_name_spec(#[trigger] groups[j].name, group_name))
                &&& out.len() == groups.len()
                &&& (forall|j: int| 0 <= j < groups.len() && j != k ==> #[trigger] out[j] == groups[j])
                &&& out[k].name == groups[k].name
                &&& fields::has_name(out[k].members, member) == !remove
                &&& forall|j: int| 0 <= j < groups[k].members.len() && !text::same_name_spec(
                    #[trigger] groups[k].members[j],
                    member,
                ) ==> out[k].members.contains(groups[k].members[j])
            }
        }),
{
    let group_name = fields::sanitize_name(json::field_text(body, "group"@));
    let member = fields::sanitize_name(json::field_text(body, "member"@));
    let remove = json::field_text(body, "action"@) == "remove"@;
    let p = people::group_named(group_name);
    lists::lemma_first_index_found(groups, p);
    match lists::first_index(groups, p) {
        Some(k) => {
            assert(p(groups[k]));
            assert(lists::has_key(groups, people::group_key(), group_name)) by {
                assert(text::same_name_spec(people::group_key()(groups[k]), group_name));
            }
            assert forall|j: int| 0 <= j < k implies !text::same_name_spec(#[trigger] groups[j].name, group_name) by {
                assert(!p(groups[j]));
            }
            if let Some(out) = group_member_spec(body, saved, accs, groups).1 {
                let ms = groups[k].members;
                let nm = changed_members(ms, member, remove);
                assert(out[k].members == nm);
                if remove {
                    lists::lemma_drop_where_props(ms, people::is_name(member));
                    assert(!fields::has_name(nm, member)) by {
                        assert forall|j: int| 0 <= j < nm.len() implies !text::same_name_spec(#[trigger] nm[j], member) by {
                            assert(!people::is_name(member)(nm[j]));
                        }
                    }
                    assert forall|j: int| 0 <= j < ms.len() && !text::same_name_spec(#[trigger] ms[j], member)
                        implies nm.contains(ms[j]) by {
                        lists::lemma_drop_where_keeps(ms, people::is_name(member), j);
                    }
                } else {
                    if !fields::has_name(ms, member) {
                        assert(nm[ms.len() as int] == member);
                        text::lemma_same_name_equivalence(member, member, member);
                    }
                    assert forall|j: int| 0 <= j < ms.len() && !text::same_name_spec(#[trigger] ms[j], member)
                        implies nm.contains(ms[j]) by {
                        assert(nm[j] == ms[j]);
                    }
                }
            }
        },
        None => {
            assert(!lists::has_key(groups, people::group_key(), group_name)) by {
                if lists::has_key(groups, people::group_key(), group_name) {
                    let j = choose|j: int| 0 <= j < groups.len() && text::same_name_spec(
                        people::group_key()(#[trigger] groups[j]),
                        group_name,
                    );
                    assert(!p(groups[j]));
                }
            }
        },
    }
}

/// Deleting a group with the admin password saves exactly the groups of
/// other names, all of them, in order.
pub proof fn lemma_delete_group_keeps_the_rest(body: Seq<char>, saved: Option<Seq<char>>, groups: Seq<GroupView>)
    ensures
        ({
            let name = fields::sanitize_name(json::field_text(body, "name"@));
            &&& delete_group_spec(body, saved, groups).1 is Some <==> auth::admin_password_ok(
                saved,
                json::field_text(body, "password"@),
            )
            &&& delete_group_spec(body, saved, groups).1 matches Some(out) ==> {
                &&& forall|i: int| 0 <= i < out.len() ==> !text::same_name_spec(#[trigger] out[i].name, name)
                    && groups.contains(out[i])
                &&& forall|j: int| 0 <= j < groups.len() && !text::same_name_spec(#[trigger] groups[j].name, name)
                    ==> out.contains(groups[j])
            }
        }),
{
    let name = fields::sanitize_name(json::field_text(body, "name"@));
    let p = people::group_named(name);
    lists::lemma_drop_where_props(groups, p);
    if let Some(out) = delete_group_spec(body, saved, groups).1 {
        assert forall|i: int| 0 <= i < out.len() implies !text::same_name_spec(#[trigger] out[i].name, name)
            && groups.contains(out[i]) by {
            assert(!p(out[i]));
        }
        assert forall|j: int| 0 <= j < groups.len() && !text::same_name_spec(#[trigger] groups[j].name, name)
            implies out.contains(groups[j]) by {
            lists::lemma_drop_where_keeps(groups, p, j);
        }
    }
}

/// The overview account signs in with the admin password in place of a
/// PIN, and with nothing else.
pub proof fn lemma_overview_signs_in_with_admin_password(
    body: Seq<char>,
    saved: Option<Seq<char>>,
    accs: Seq<AccountView>,
)
    requires
        fields::is_overview(fields::sanitize_name(json::field_text(body, "name"@))),
    ensures
        (user_login_spec(body, saved, accs) == wrong_name_or_pin()) == !auth::admin_password_ok(
            saved,
            json::field_text(body, "pin"@),
        ),
{
    reveal_strlit("401 Unauthorized");
    reveal_strlit("200 OK");
    assert("200 OK"@[0] != "401 Unauthorized"@[0]);
}

} // verus!
