use vstd::prelude::*;
use crate::fields::{self, has_name_chars, chars_of_strings};
use crate::lists;
use crate::people::{self, Account, Group};
use crate::plans::{EventPlan, Task};
use crate::text::{self, chars_of, same_name_chars};

verus! {

/// The first group named `group_name` (ignoring ASCII case) lists a member
/// named `account` (ignoring ASCII case).
pub open spec fn member_of(account: Seq<char>, group_name: Seq<char>, groups: Seq<people::GroupView>) -> bool
    decreases groups.len(),
{
    if groups.len() == 0 {
        false
    } else if text::same_name_spec(groups[0].name, group_name) {
        fields::has_name(groups[0].members, account)
    } else {
        member_of(account, group_name, groups.drop_first())
    }
}

/// An assignee entry lets `requester` act: an `@group` entry whose group
/// lists the requester, or the requester's own name.
pub open spec fn assignee_allows(entry: Seq<char>, requester: Seq<char>, groups: Seq<people::GroupView>) -> bool {
    if entry.len() > 0 && entry[0] == '@' {
        member_of(requester, entry.drop_first(), groups)
    } else {
        text::same_name_spec(entry, requester)
    }
}

/// Who may delete an item: its creator, anyone when nobody is assigned, or
/// anyone an assignee entry lets act.
pub open spec fn may_delete(
    creator: Seq<char>,
    assignees: Seq<Seq<char>>,
    requester: Seq<char>,
    groups: Seq<people::GroupView>,
) -> bool {
    text::same_name_spec(creator, requester) || assignees.len() == 0 || exists|i: int|
        0 <= i < assignees.len() && assignee_allows(#[trigger] assignees[i], requester, groups)
}

/// A requester that may add items: the overview account or a known account.
pub open spec fn valid_requester(name: Seq<char>, accounts: Seq<people::AccountView>) -> bool {
    fields::is_overview(name) || lists::has_key(accounts, people::account_key(), name)
}

pub fn member_of_chars(account: &Vec<char>, group_name: &Vec<char>, groups: &[Group]) -> (r: bool)
    ensures
        r == member_of(account@, group_name@, people::group_views(groups@)),
{
    let ghost gv = people::group_views(groups@);
    assert(gv.skip(0) == gv);
    for i in 0..groups.len()
        invariant
            gv == people::group_views(groups@),
            member_of(account@, group_name@, gv) == member_of(
                account@,
                group_name@,
                gv.skip(i as int),
            ),
    {
        assert(gv.skip(i as int)[0] == groups@[i as int]@);
        assert(gv.skip(i as int).drop_first() == gv.skip(i + 1));
        let name = chars_of(groups[i].name.as_str());
        if same_name_chars(&name, group_name) {
            let members = chars_of_strings(groups[i].members.as_slice());
            return has_name_chars(&members, account);
        }
    }
    false
}

/// Whether the first group named `group_name` lists `account_name`, names
/// compared ignoring ASCII case.
pub fn is_member_of_group(account_name: &str, group_name: &str, groups: &[Group]) -> (r: bool)
    ensures
        r == member_of(account_name@, group_name@, people::group_views(groups@)),
{
    let a = chars_of(account_name);
    let g = chars_of(group_name);
    member_of_chars(&a, &g, groups)
}

pub fn may_delete_chars(creator: &String, assignees: &[String], requester: &str, groups: &[Group]) -> (r: bool)
    ensures
        r == may_delete(creator@, text::string_views(assignees@), requester@, people::group_views(groups@)),
{
    let ghost av = text::string_views(assignees@);
    let req = chars_of(requester);
    let c = chars_of(creator.as_str());
    if same_name_chars(&c, &req) {
        return true;
    }
    if assignees.len() == 0 {
        return true;
    }
    for i in 0..assignees.len()
        invariant
            av == text::string_views(assignees@),
            req@ == requester@,
            forall|k: int| 0 <= k < i ==> !assignee_allows(#[trigger] av[k], req@, people::group_views(groups@)),
    {
        let a = chars_of(assignees[i].as_str());
        let allows = if a.len() > 0 && a[0] == '@' {
            let mut rest: Vec<char> = Vec::new();
            for k in 1..a.len()
                invariant
                    a.len() > 0,
                    rest@ == a@.subrange(1, k as int),
            {
                rest.push(a[k]);
                assert(a@.subrange(1, k + 1) == a@.subrange(1, k as int).push(a@[k as int]));
            }
            assert(rest@ == a@.drop_first());
            member_of_chars(&req, &rest, groups)
        } else {
            same_name_chars(&a, &req)
        };
        assert(allows == assignee_allows(av[i as int], req@, people::group_views(groups@)));
        if allows {
            return true;
        }
    }
    false
}

/// Whether `requester` may delete the task: its creator, anyone when the
/// task has no assignees, a named assignee, or a member of an assigned group.
pub fn can_delete_task(task: &Task, requester: &str, groups: &[Group]) -> (r: bool)
    ensures
        r == may_delete(task@.requester, task@.assignees, requester@, people::group_views(groups@)),
{
    may_delete_chars(&task.requester, task.assignees.as_slice(), requester, groups)
}

/// Whether `requester` may delete the event, by the same rule as for tasks.
pub fn can_delete_event(event: &EventPlan, requester: &str, groups: &[Group]) -> (r: bool)
    ensures
        r == may_delete(event@.requester, event@.assignees, requester@, people::group_views(groups@)),
{
    may_delete_chars(&event.requester, event.assignees.as_slice(), requester, groups)
}

/// Whether the name may add items: the overview account or a known account.
pub fn is_valid_task_requester(name: &str, accounts: &[Account]) -> (r: bool)
    ensures
        r == valid_requester(name@, people::account_views(accounts@)),
{
    if fields::is_overview_account(name) {
        return true;
    }
    let n = chars_of(name);
    has_account_in(accounts, &n)
}

/// Whether some account's name is the same name as `name`.
pub fn has_account_in(accounts: &[Account], name: &Vec<char>) -> (r: bool)
    ensures
        r == lists::has_key(people::account_views(accounts@), people::account_key(), name@),
{
    let ghost lv = people::account_views(accounts@);
    for i in 0..accounts.len()
        invariant
            lv == people::account_views(accounts@),
            forall|k: int| 0 <= k < i ==> !text::same_name_spec(#[trigger] lv[k].name, name@),
    {
        let other = chars_of(accounts[i].name.as_str());
        if same_name_chars(&other, name) {
            assert(text::same_name_spec(people::account_key()(lv[i as int]), name@));
            return true;
        }
    }
    assert forall|k: int| 0 <= k < lv.len() implies !text::same_name_spec(
        people::account_key()(#[trigger] lv[k]),
        name@,
    ) by {}
    false
}

// ------------------------------------------------------------------
// Laws
// ------------------------------------------------------------------

/// Group membership is decided by the first group whose name is the given
/// one (ignoring ASCII case): the account is a member exactly when that
/// group lists it, and nobody is a member of a group that does not exist.
pub proof fn lemma_member_of_first_group(account: Seq<char>, group_name: Seq<char>, groups: Seq<people::GroupView>)
    ensures
        member_of(account, group_name, groups) == match lists::first_index(groups, people::group_named(group_name)) {
            Some(j) => fields::has_name(groups[j].members, account),
            None => false,
        },
    decreases groups.len(),
{
    if groups.len() > 0 {
        let rest = groups.drop_first();
        lemma_member_of_first_group(account, group_name, rest);
        lists::lemma_first_index_found(rest, people::group_named(group_name));
        if !text::same_name_spec(groups[0].name, group_name) {
            match lists::first_index(rest, people::group_named(group_name)) {
                Some(j) => {
                    assert(rest[j] == groups[j + 1]);
                },
                None => {},
            }
        }
    }
}

/// Who may delete an item. Its creator may (names compared ignoring ASCII
/// case); anyone may when nobody is assigned; a requester named by a plain
/// (non-`@`) assignee entry may; a member of a group named by an `@group`
/// entry may. Nobody else may.
pub proof fn lemma_who_may_delete(
    creator: Seq<char>,
    assignees: Seq<Seq<char>>,
    requester: Seq<char>,
    groups: Seq<people::GroupView>,
)
    ensures
        text::same_name_spec(creator, requester) ==> may_delete(creator, assignees, requester, groups),
        assignees.len() == 0 ==> may_delete(creator, assignees, requester, groups),
        forall|i: int|
            0 <= i < assignees.len() && !(assignees[i].len() > 0 && assignees[i][0] == '@')
                && text::same_name_spec(#[trigger] assignees[i], requester) ==> may_delete(
                creator,
                assignees,
                requester,
                groups,
            ),
        forall|i: int, j: int|
            #![trigger assignees[i], groups[j]]
            0 <= i < assignees.len() && assignees[i].len() > 0 && assignees[i][0] == '@'
                && lists::first_index(groups, people::group_named(assignees[i].drop_first())) == Some(j)
                && fields::has_name(groups[j].members, requester)
                ==> may_delete(creator, assignees, requester, groups),
        may_delete(creator, assignees, requester, groups) ==> text::same_name_spec(creator, requester)
            || assignees.len() == 0 || exists|i: int|
            0 <= i < assignees.len() && ((!(assignees[i].len() > 0 && assignees[i][0] == '@')
                && text::same_name_spec(#[trigger] assignees[i], requester)) || (assignees[i].len() > 0
                && assignees[i][0] == '@' && match lists::first_index(
                groups,
                people::group_named(assignees[i].drop_first()),
            ) {
                Some(j) => fields::has_name(groups[j].members, requester),
                None => false,
            })),
{
    assert forall|i: int|
        0 <= i < assignees.len() && !(assignees[i].len() > 0 && assignees[i][0] == '@')
            && text::same_name_spec(#[trigger] assignees[i], requester) implies may_delete(
        creator,
        assignees,
        requester,
        groups,
    ) by {
        assert(assignee_allows(assignees[i], requester, groups));
    }
    assert forall|i: int, j: int|
        #![trigger assignees[i], groups[j]]
        0 <= i < assignees.len() && assignees[i].len() > 0 && assignees[i][0] == '@'
            && lists::first_index(groups, people::group_named(assignees[i].drop_first())) == Some(j)
            && fields::has_name(groups[j].members, requester)
            implies may_delete(creator, assignees, requester, groups) by {
        lemma_member_of_first_group(requester, assignees[i].drop_first(), groups);
        assert(assignee_allows(assignees[i], requester, groups));
    }
    if may_delete(creator, assignees, requester, groups) && !text::same_name_spec(creator, requester)
        && assignees.len() != 0 {
        let i = choose|i: int| 0 <= i < assignees.len() && assignee_allows(#[trigger] assignees[i], requester, groups);
        lemma_member_of_first_group(requester, assignees[i].drop_first(), groups);
        assert(0 <= i < assignees.len() && assignee_allows(assignees[i], requester, groups));
    }
}

} // verus!
