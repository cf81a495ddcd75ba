use vstd::prelude::*;
use crate::admin_api;
use crate::auth;
use crate::fields;
use crate::json;
use crate::lists;
use crate::planner_api;
use crate::people::{self, AccountView, GroupView};
use crate::plans::{self, BroadcastView, EventView, TaskView};
use crate::text;

verus! {

// ------------------------------------------------------------------
// Splitting a stored line at its first tab
// ------------------------------------------------------------------

/// A line made of a tab-free head, a tab and a tail splits at that tab.
pub proof fn lemma_split_once_after(head: Seq<char>, tail: Seq<char>)
    requires
        text::free_of(head, text::is_char('\t')),
    ensures
        json::split_once(head + seq!['\t'] + tail, seq!['\t']) == Some((head, tail)),
{
    let line = head + seq!['\t'] + tail;
    let n = head.len() as int;
    assert(line.subrange(n, n + 1) =~= seq!['\t']);
    assert forall|j: int| 0 <= j < n implies !json::occurs_at(line, seq!['\t'], j) by {
        assert(line[j] == head[j]);
        assert(!text::is_char('\t')(head[j]));
        if json::occurs_at(line, seq!['\t'], j) {
            assert(line.subrange(j, j + 1)[0] == line[j]);
        }
    }
    json::lemma_split_once_at(line, seq!['\t'], n);
    assert(line.take(n) =~= head);
    assert(line.skip(n + 1) =~= tail);
}

/// A clean field holds no tab.
pub proof fn lemma_clean_no_tab(s: Seq<char>)
    requires
        text::clean_field(s),
    ensures
        text::free_of(s, text::is_char('\t')),
        text::free_of(s, text::is_char('\n')),
{
    assert forall|i: int| 0 <= i < s.len() implies !text::is_char('\t')(#[trigger] s[i]) by {
        assert(!text::is_line_break_or_tab(s[i]));
    }
    assert forall|i: int| 0 <= i < s.len() implies !text::is_char('\n')(#[trigger] s[i]) by {
        assert(!text::is_line_break_or_tab(s[i]));
    }
}

// ------------------------------------------------------------------
// Accounts
// ------------------------------------------------------------------

/// An account as reading stores it: its name is what sanitizing makes of
/// it, and its hash is trimmed; neither is empty, and the hash holds no
/// line feed.
pub open spec fn account_wf(a: AccountView) -> bool {
    &&& a.name == fields::sanitize_name(a.name)
    &&& a.name.len() > 0
    &&& a.pin_hash == text::trim(a.pin_hash)
    &&& a.pin_hash.len() > 0
    &&& text::free_of(a.pin_hash, text::is_char('\n'))
}

/// Well-formed accounts with names that differ ignoring ASCII case.
pub open spec fn accounts_wf(accs: Seq<AccountView>) -> bool {
    &&& forall|i: int| 0 <= i < accs.len() ==> account_wf(#[trigger] accs[i])
    &&& lists::distinct_keys(accs, people::account_key())
}

pub proof fn lemma_account_line(a: AccountView)
    requires
        account_wf(a),
    ensures
        people::parse_account_line_spec(people::account_line(a)) == Some(a),
        text::storable_line(people::account_line(a)),
{
    fields::lemma_sanitize_name_safe(a.name);
    lemma_clean_no_tab(a.name);
    lemma_split_once_after(a.name, a.pin_hash);
    text::lemma_trim_shape(a.pin_hash);
    let line = people::account_line(a);
    assert(line.last() == a.pin_hash.last());
    assert(text::free_of(line, text::is_char('\n'))) by {
        assert forall|i: int| 0 <= i < line.len() implies !text::is_char('\n')(#[trigger] line[i]) by {
            if i < a.name.len() {
                assert(line[i] == a.name[i]);
            } else if i > a.name.len() {
                assert(line[i] == a.pin_hash[i - a.name.len() - 1]);
            }
        }
    }
}

/// Reading back the accounts file that was written from well-formed accounts
/// gives those accounts.
pub proof fn lemma_accounts_roundtrip(accs: Seq<AccountView>)
    requires
        accounts_wf(accs),
    ensures
        people::parse_accounts_spec(people::accounts_file_spec(accs)) == accs,
{
    let ls = accs.map_values(|a: AccountView| people::account_line(a));
    assert forall|i: int| 0 <= i < ls.len() implies text::storable_line(#[trigger] ls[i]) && people::account_parser()(ls[i]) == Some(accs[i]) by {
        assert(account_wf(accs[i]));
        lemma_account_line(accs[i]);
    }
    text::lemma_lines_file_text(ls);
    lists::lemma_parse_lines_all(ls, accs, people::account_parser());
    lists::lemma_dedup_distinct(accs, people::account_key());
}

// ------------------------------------------------------------------
// Lines made of fields
// ------------------------------------------------------------------

/// Neither a line feed nor a carriage return.
pub open spec fn no_line_end() -> spec_fn(char) -> bool {
    |c: char| c != '\n' && c != '\r'
}

pub proof fn lemma_clean_no_line_end(s: Seq<char>)
    requires
        text::clean_field(s),
    ensures
        text::all_chars(s, no_line_end()),
{
    assert forall|i: int| 0 <= i < s.len() implies no_line_end()(#[trigger] s[i]) by {
        assert(!text::is_line_break_or_tab(s[i]));
    }
}

/// A non-empty line without line feeds or carriage returns can be stored.
pub proof fn lemma_storable(line: Seq<char>)
    requires
        line.len() > 0,
        text::all_chars(line, no_line_end()),
    ensures
        text::storable_line(line),
{
    assert(no_line_end()(line[line.len() - 1]));
    assert forall|i: int| 0 <= i < line.len() implies !text::is_char('\n')(#[trigger] line[i]) by {
        assert(no_line_end()(line[i]));
    }
}

/// Clean entries joined by commas make a clean field.
pub proof fn lemma_comma_list_clean(names: Seq<Seq<char>>)
    requires
        fields::all_seqs(names, fields::clean_pred()),
    ensures
        text::clean_field(plans::comma_list(names)),
{
    let q = |c: char| !text::is_line_break_or_tab(c);
    assert forall|i: int| 0 <= i < names.len() implies text::all_chars(#[trigger] names[i], q) by {
        assert(fields::clean_pred()(names[i]));
    }
    text::lemma_join_all_chars(names, seq![','], q);
    let j = plans::comma_list(names);
    assert forall|i: int| 0 <= i < j.len() implies !text::is_line_break_or_tab(#[trigger] j[i]) by {
        assert(q(j[i]));
    }
}

/// Clean fields joined by tabs make a storable line that splits back into
/// the fields.
pub proof fn lemma_tab_line(parts: Seq<Seq<char>>)
    requires
        parts.len() >= 2,
        forall|i: int| 0 <= i < parts.len() ==> text::clean_field(#[trigger] parts[i]),
    ensures
        plans::line_parts(plans::tab_line(parts)) == parts,
        text::storable_line(plans::tab_line(parts)),
{
    assert forall|i: int| 0 <= i < parts.len() implies text::free_of(#[trigger] parts[i], text::is_char('\t')) && text::all_chars(parts[i], no_line_end()) by {
        lemma_clean_no_tab(parts[i]);
        lemma_clean_no_line_end(parts[i]);
    }
    text::lemma_split_join(parts, '\t', text::is_char('\t'));
    text::lemma_join_all_chars(parts, seq!['\t'], no_line_end());
    text::lemma_join_len(parts, seq!['\t']);
    lemma_storable(plans::tab_line(parts));
}

// ------------------------------------------------------------------
// Groups
// ------------------------------------------------------------------

/// A group as reading stores it against the given accounts: its name and
/// members are what sanitizing makes of them, the name is not empty, every
/// member is a non-empty account name, and no member appears twice.
pub open spec fn group_wf(g: GroupView, accs: Seq<AccountView>) -> bool {
    &&& g.name == fields::sanitize_name(g.name)
    &&& g.name.len() > 0
    &&& forall|i: int|
        0 <= i < g.members.len() ==> #[trigger] g.members[i] == fields::sanitize_name(g.members[i])
            && g.members[i].len() > 0 && lists::has_key(accs, people::account_key(), g.members[i])
    &&& fields::distinct_names(g.members)
}

/// Well-formed groups with names that differ ignoring ASCII case.
pub open spec fn groups_wf(gs: Seq<GroupView>, accs: Seq<AccountView>) -> bool {
    &&& forall|i: int| 0 <= i < gs.len() ==> group_wf(#[trigger] gs[i], accs)
    &&& lists::distinct_keys(gs, people::group_key())
}

pub proof fn lemma_members_roundtrip(members: Seq<Seq<char>>, accs: Seq<AccountView>)
    requires
        forall|i: int|
            0 <= i < members.len() ==> #[trigger] members[i] == fields::sanitize_name(members[i])
                && members[i].len() > 0 && lists::has_key(accs, people::account_key(), members[i]),
        fields::distinct_names(members),
    ensures
        people::parse_members(plans::comma_list(members), accs) == members,
        text::clean_field(plans::comma_list(members)),
{
    assert forall|i: int| 0 <= i < members.len() implies fields::clean_pred()(#[trigger] members[i]) && text::free_of(members[i], text::is_char(',')) by {
        fields::lemma_sanitize_name_safe(members[i]);
        assert forall|k: int| 0 <= k < members[i].len() implies !text::is_char(',')(#[trigger] members[i][k]) by {
            assert(fields::list_safe()(fields::sanitize_name(members[i])[k]));
        }
    }
    lemma_comma_list_clean(members);
    let known = people::known_member(accs);
    if members.len() == 0 {
        let e = Seq::<char>::empty();
        assert(plans::comma_list(members) == e);
        assert(text::split_by(e, text::is_char(',')) == seq![e]);
        fields::lemma_sanitize_empty();
        let mapped = seq![e].map_values(|p: Seq<char>| fields::sanitize_name(p));
        assert(mapped.len() == 1 && mapped[0].len() == 0);
        let none = Seq::<Seq<char>>::empty();
        assert(mapped.drop_last() =~= none);
        assert(mapped.last() == mapped[0]);
        assert(!known(mapped.last()));
        assert(fields::keep_seqs(none, known) == none);
        assert(fields::keep_seqs(mapped, known) == none);
        assert(fields::dedup_names(none) == none);
        assert(members == Seq::<Seq<char>>::empty());
    } else {
        text::lemma_split_join(members, ',', text::is_char(','));
        let mapped = members.map_values(|p: Seq<char>| fields::sanitize_name(p));
        assert(mapped =~= members);
        assert(fields::all_seqs(members, known));
        fields::lemma_keep_seqs_all(members, known);
        fields::lemma_dedup_names_distinct(members);
    }
}

pub proof fn lemma_group_line(g: GroupView, accs: Seq<AccountView>)
    requires
        group_wf(g, accs),
    ensures
        people::parse_group_line_spec(people::group_line(g), accs) == Some(g),
        text::storable_line(people::group_line(g)),
{
    fields::lemma_sanitize_name_safe(g.name);
    lemma_clean_no_tab(g.name);
    lemma_members_roundtrip(g.members, accs);
    let joined = plans::comma_list(g.members);
    lemma_split_once_after(g.name, joined);
    let line = people::group_line(g);
    lemma_clean_no_line_end(g.name);
    lemma_clean_no_line_end(joined);
    assert forall|i: int| 0 <= i < line.len() implies no_line_end()(#[trigger] line[i]) by {
        if i < g.name.len() {
            assert(line[i] == g.name[i]);
        } else if i > g.name.len() {
            assert(line[i] == joined[i - g.name.len() - 1]);
        }
    }
    lemma_storable(line);
}

/// Reading back the groups file that was written from groups well-formed
/// against the accounts gives those groups.
pub proof fn lemma_groups_roundtrip(gs: Seq<GroupView>, accs: Seq<AccountView>)
    requires
        groups_wf(gs, accs),
    ensures
        people::parse_groups_spec(people::groups_file_spec(gs), accs) == gs,
{
    let ls = gs.map_values(|g: GroupView| people::group_line(g));
    assert forall|i: int| 0 <= i < ls.len() implies text::storable_line(#[trigger] ls[i]) && people::group_parser(accs)(ls[i]) == Some(gs[i]) by {
        assert(group_wf(gs[i], accs));
        lemma_group_line(gs[i], accs);
    }
    text::lemma_lines_file_text(ls);
    lists::lemma_parse_lines_all(ls, gs, people::group_parser(accs));
    lists::lemma_dedup_distinct(gs, people::group_key());
}

// ------------------------------------------------------------------
// Tasks, broadcasts and events
// ------------------------------------------------------------------

/// A task as reading stores it: every field is what its reader makes of it,
/// the id and title are not empty, the date is a date key and the time is
/// empty or valid.
pub open spec fn task_wf(t: TaskView) -> bool {
    &&& t.id == fields::sanitize_text(t.id, 100)
    &&& t.id.len() > 0
    &&& t.title == fields::sanitize_text(t.title, 100)
    &&& t.title.len() > 0
    &&& fields::valid_date_key(t.date)
    &&& fields::valid_time(t.time)
    &&& fields::parse_assignees(plans::comma_list(t.assignees)) == t.assignees
    &&& t.requester == fields::sanitize_name(t.requester)
    &&& t.created_at == fields::sanitize_text(t.created_at, 40)
    &&& t.note == fields::sanitize_note(t.note, 2000)
}

/// An assignee list that reads back as itself is a clean field when joined.
pub proof fn lemma_assignees_clean(names: Seq<Seq<char>>)
    requires
        fields::parse_assignees(plans::comma_list(names)) == names,
    ensures
        text::clean_field(plans::comma_list(names)),
{
    fields::lemma_parse_assignees_clean(plans::comma_list(names));
    lemma_comma_list_clean(names);
}

pub proof fn lemma_task_line(t: TaskView)
    requires
        task_wf(t),
    ensures
        plans::parse_task_line_spec(plans::task_line(t)) == Some(t),
        text::storable_line(plans::task_line(t)),
{
    let parts = plans::task_parts(t);
    fields::lemma_sanitize_text_clean(t.id, 100);
    fields::lemma_sanitize_text_clean(t.title, 100);
    fields::lemma_date_key_clean(t.date);
    fields::lemma_time_clean(t.time);
    lemma_assignees_clean(t.assignees);
    fields::lemma_sanitize_name_safe(t.requester);
    fields::lemma_sanitize_text_clean(t.created_at, 40);
    fields::lemma_sanitize_note_clean(t.note, 2000);
    assert forall|i: int| 0 <= i < parts.len() implies text::clean_field(#[trigger] parts[i]) by {}
    lemma_tab_line(parts);
}

/// Reading back the tasks file that was written from well-formed tasks
/// gives those tasks, in order.
pub proof fn lemma_tasks_roundtrip(ts: Seq<TaskView>)
    requires
        forall|i: int| 0 <= i < ts.len() ==> task_wf(#[trigger] ts[i]),
    ensures
        plans::parse_tasks_spec(plans::tasks_file_spec(ts)) == ts,
{
    let ls = ts.map_values(|t: TaskView| plans::task_line(t));
    assert forall|i: int| 0 <= i < ls.len() implies text::storable_line(#[trigger] ls[i]) && plans::task_parser()(ls[i]) == Some(ts[i]) by {
        assert(task_wf(ts[i]));
        lemma_task_line(ts[i]);
    }
    text::lemma_lines_file_text(ls);
    lists::lemma_parse_lines_all(ls, ts, plans::task_parser());
}

/// A broadcast as reading stores it: every field is what its reader makes
/// of it, and the id and message are not empty.
pub open spec fn broadcast_wf(b: BroadcastView) -> bool {
    &&& b.id == fields::sanitize_text(b.id, 100)
    &&& b.id.len() > 0
    &&& b.message == fields::sanitize_note(b.message, 500)
    &&& b.message.len() > 0
    &&& fields::parse_assignees(plans::comma_list(b.targets)) == b.targets
    &&& b.requester == fields::sanitize_name(b.requester)
    &&& b.created_at == fields::sanitize_text(b.created_at, 40)
    &&& fields::parse_name_list(plans::comma_list(b.seen_by)) == b.seen_by
}

pub proof fn lemma_broadcast_line(b: BroadcastView)
    requires
        broadcast_wf(b),
    ensures
        plans::parse_broadcast_line_spec(plans::broadcast_line(b)) == Some(b),
        text::storable_line(plans::broadcast_line(b)),
{
    let parts = plans::broadcast_parts(b);
    fields::lemma_sanitize_text_clean(b.id, 100);
    fields::lemma_sanitize_note_clean(b.message, 500);
    lemma_assignees_clean(b.targets);
    fields::lemma_sanitize_name_safe(b.requester);
    fields::lemma_sanitize_text_clean(b.created_at, 40);
    fields::lemma_parse_name_list_clean(plans::comma_list(b.seen_by));
    lemma_comma_list_clean(b.seen_by);
    assert forall|i: int| 0 <= i < parts.len() implies text::clean_field(#[trigger] parts[i]) by {}
    lemma_tab_line(parts);
}

/// Reading back the broadcasts file that was written from well-formed
/// broadcasts gives those broadcasts, in order.
pub proof fn lemma_broadcasts_roundtrip(bs: Seq<BroadcastView>)
    requires
        forall|i: int| 0 <= i < bs.len() ==> broadcast_wf(#[trigger] bs[i]),
    ensures
        plans::parse_broadcasts_spec(plans::broadcasts_file_spec(bs)) == bs,
{
    let ls = bs.map_values(|b: BroadcastView| plans::broadcast_line(b));
    assert forall|i: int| 0 <= i < ls.len() implies text::storable_line(#[trigger] ls[i]) && plans::broadcast_parser()(ls[i]) == Some(bs[i]) by {
        assert(broadcast_wf(bs[i]));
        lemma_broadcast_line(bs[i]);
    }
    text::lemma_lines_file_text(ls);
    lists::lemma_parse_lines_all(ls, bs, plans::broadcast_parser());
}

/// An event as reading stores it: every field is what its reader makes of
/// it, the id and title are not empty, both dates are date keys and both
/// times are valid and not empty.
pub open spec fn event_wf(e: EventView) -> bool {
    &&& e.id == fields::sanitize_text(e.id, 100)
    &&& e.id.len() > 0
    &&& e.title == fields::sanitize_text(e.title, 100)
    &&& e.title.len() > 0
    &&& fields::valid_date_key(e.start_date)
    &&& fields::valid_time(e.start_time)
    &&& e.start_time.len() > 0
    &&& fields::valid_date_key(e.end_date)
    &&& fields::valid_time(e.end_time)
    &&& e.end_time.len() > 0
    &&& fields::parse_assignees(plans::comma_list(e.assignees)) == e.assignees
    &&& e.requester == fields::sanitize_name(e.requester)
    &&& e.created_at == fields::sanitize_text(e.created_at, 40)
    &&& e.note == fields::sanitize_note(e.note, 2000)
}

pub proof fn lemma_event_line(e: EventView)
    requires
        event_wf(e),
    ensures
        plans::parse_event_line_spec(plans::event_line(e)) == Some(e),
        text::storable_line(plans::event_line(e)),
{
    let parts = plans::event_parts(e);
    fields::lemma_sanitize_text_clean(e.id, 100);
    fields::lemma_sanitize_text_clean(e.title, 100);
    fields::lemma_date_key_clean(e.start_date);
    fields::lemma_time_clean(e.start_time);
    fields::lemma_date_key_clean(e.end_date);
    fields::lemma_time_clean(e.end_time);
    lemma_assignees_clean(e.assignees);
    fields::lemma_sanitize_name_safe(e.requester);
    fields::lemma_sanitize_text_clean(e.created_at, 40);
    fields::lemma_sanitize_note_clean(e.note, 2000);
    assert forall|i: int| 0 <= i < parts.len() implies text::clean_field(#[trigger] parts[i]) by {}
    lemma_tab_line(parts);
}

/// Reading back the events file that was written from well-formed events
/// gives those events, in order.
pub proof fn lemma_events_roundtrip(es: Seq<EventView>)
    requires
        forall|i: int| 0 <= i < es.len() ==> event_wf(#[trigger] es[i]),
    ensures
        plans::parse_events_spec(plans::events_file_spec(es)) == es,
{
    let ls = es.map_values(|e: EventView| plans::event_line(e));
    assert forall|i: int| 0 <= i < ls.len() implies text::storable_line(#[trigger] ls[i]) && plans::event_parser()(ls[i]) == Some(es[i]) by {
        assert(event_wf(es[i]));
        lemma_event_line(es[i]);
    }
    text::lemma_lines_file_text(ls);
    lists::lemma_parse_lines_all(ls, es, plans::event_parser());
}

// ------------------------------------------------------------------
// What the account and group handlers save reads back unchanged
// ------------------------------------------------------------------

/// A PIN hash is a well-formed stored hash: 16 hexadecimal digits.
pub proof fn lemma_hash_wf(pin: Seq<char>)
    ensures
        auth::password_hash_spec(pin) == text::trim(auth::password_hash_spec(pin)),
        auth::password_hash_spec(pin).len() == 16,
        text::free_of(auth::password_hash_spec(pin), text::is_char('\n')),
{
    let h = auth::password_hash_spec(pin);
    text::lemma_hex_fixed(
        auth::fnv(
            auth::FNV_OFFSET,
            vstd::utf8::encode_utf8(auth::HASH_SALT@) + vstd::utf8::encode_utf8(pin),
        ) as nat,
        16,
    );
    assert(text::is_hex_char(h[0]));
    assert(text::is_hex_char(h[15]));
    text::lemma_trim_fixed(h);
    assert forall|i: int| 0 <= i < h.len() implies !text::is_char('\n')(#[trigger] h[i]) by {
        assert(text::is_hex_char(h[i]));
    }
}

/// Once a password's hash is stored as the admin password, checking that
/// same password succeeds.
pub proof fn lemma_stored_password_accepted(password: Seq<char>)
    ensures
        auth::admin_password_ok(Some(auth::password_hash_spec(password)), password),
{
    lemma_hash_wf(password);
}

/// Adding an account or setting a PIN keeps well-formed accounts
/// well-formed, so the saved accounts file reads back as the saved accounts.
pub proof fn lemma_add_account_stores(body: Seq<char>, saved: Option<Seq<char>>, accs: Seq<AccountView>)
    requires
        accounts_wf(accs),
        admin_api::add_account_spec(body, saved, accs).1 is Some,
    ensures
        accounts_wf(admin_api::add_account_spec(body, saved, accs).1.unwrap()),
        people::parse_accounts_spec(
            people::accounts_file_spec(admin_api::add_account_spec(body, saved, accs).1.unwrap()),
        ) == admin_api::add_account_spec(body, saved, accs).1.unwrap(),
{
    let raw = json::field_text(body, "name"@);
    let name = fields::sanitize_name(raw);
    let pin = json::field_text(body, "pin"@);
    let hash = auth::password_hash_spec(pin);
    let updated = admin_api::set_pin(accs, name, hash);
    fields::lemma_sanitize_name_idempotent(raw);
    lemma_hash_wf(pin);
    lists::lemma_first_index_found(accs, people::account_named(name));
    match lists::first_index(accs, people::account_named(name)) {
        Some(i) => {
            assert forall|j: int| 0 <= j < updated.len() implies account_wf(#[trigger] updated[j]) by {
                assert(account_wf(accs[j]));
            }
            assert forall|a: int, b: int| 0 <= a < b < updated.len() implies !text::same_name_spec(
                people::account_key()(#[trigger] updated[a]),
                people::account_key()(#[trigger] updated[b]),
            ) by {
                assert(updated[a].name == accs[a].name && updated[b].name == accs[b].name);
                assert(!text::same_name_spec(people::account_key()(accs[a]), people::account_key()(accs[b])));
            }
        },
        None => {
            assert forall|j: int| 0 <= j < updated.len() implies account_wf(#[trigger] updated[j]) by {
                if j < accs.len() {
                    assert(account_wf(accs[j]));
                }
            }
            assert forall|a: int, b: int| 0 <= a < b < updated.len() implies !text::same_name_spec(
                people::account_key()(#[trigger] updated[a]),
                people::account_key()(#[trigger] updated[b]),
            ) by {
                if b < accs.len() {
                    assert(!text::same_name_spec(people::account_key()(accs[a]), people::account_key()(accs[b])));
                } else {
                    assert(!people::account_named(name)(accs[a]));
                }
            }
        },
    }
    lemma_accounts_roundtrip(updated);
}

/// Members that survive taking a name out of a group still name accounts
/// that survive deleting that name.
proof fn lemma_member_survives(
    m: Seq<char>,
    name: Seq<char>,
    accs: Seq<AccountView>,
)
    requires
        lists::has_key(accs, people::account_key(), m),
        !text::same_name_spec(m, name),
    ensures
        lists::has_key(
            lists::drop_where(accs, people::account_named(name)),
            people::account_key(),
            m,
        ),
{
    let t = choose|t: int|
        0 <= t < accs.len() && text::same_name_spec(people::account_key()(#[trigger] accs[t]), m);
    assert(!people::account_named(name)(accs[t]));
    lists::lemma_drop_where_keeps(accs, people::account_named(name), t);
    let rem = lists::drop_where(accs, people::account_named(name));
    let k = choose|k: int| 0 <= k < rem.len() && #[trigger] rem[k] == accs[t];
    assert(text::same_name_spec(people::account_key()(rem[k]), m));
}

/// Deleting an account keeps well-formed accounts and groups well-formed,
/// so both saved files read back as what was saved.
pub proof fn lemma_delete_account_stores(
    body: Seq<char>,
    saved: Option<Seq<char>>,
    accs: Seq<AccountView>,
    groups: Seq<GroupView>,
)
    requires
        accounts_wf(accs),
        groups_wf(groups, accs),
        admin_api::delete_account_spec(body, saved, accs, groups).2 is Some,
    ensures
        ({
            let out = admin_api::delete_account_spec(body, saved, accs, groups);
            &&& accounts_wf(out.2.unwrap())
            &&& groups_wf(out.1.unwrap(), out.2.unwrap())
            &&& people::parse_accounts_spec(people::accounts_file_spec(out.2.unwrap())) == out.2.unwrap()
            &&& people::parse_groups_spec(people::groups_file_spec(out.1.unwrap()), out.2.unwrap())
                == out.1.unwrap()
        }),
{
    let name = fields::sanitize_name(json::field_text(body, "name"@));
    let rem = lists::drop_where(accs, people::account_named(name));
    let gs = admin_api::without_member(groups, name);
    lists::lemma_drop_where_props(accs, people::account_named(name));
    lists::lemma_drop_where_distinct(accs, people::account_named(name), people::account_key());
    assert forall|j: int| 0 <= j < rem.len() implies account_wf(#[trigger] rem[j]) by {
        let m = choose|m: int| 0 <= m < accs.len() && accs[m] == rem[j];
        assert(account_wf(accs[m]));
    }
    assert forall|gi: int| 0 <= gi < gs.len() implies group_wf(#[trigger] gs[gi], rem) by {
        let g = groups[gi];
        assert(group_wf(g, accs));
        let ms = lists::drop_where(g.members, people::is_name(name));
        assert(gs[gi].members == ms);
        lists::lemma_drop_where_props(g.members, people::is_name(name));
        assert forall|i: int| 0 <= i < ms.len() implies #[trigger] ms[i] == fields::sanitize_name(ms[i])
            && ms[i].len() > 0 && lists::has_key(rem, people::account_key(), ms[i]) by {
            let m = choose|m: int| 0 <= m < g.members.len() && g.members[m] == ms[i];
            assert(g.members[m] == fields::sanitize_name(g.members[m]));
            assert(!people::is_name(name)(ms[i]));
            lemma_member_survives(ms[i], name, accs);
        }
        fields::lemma_distinct_names_keys(g.members);
        fields::lemma_distinct_names_keys(ms);
        lists::lemma_drop_where_distinct(g.members, people::is_name(name), fields::name_key());
    }
    assert forall|a: int, b: int| 0 <= a < b < gs.len() implies !text::same_name_spec(
        people::group_key()(#[trigger] gs[a]),
        people::group_key()(#[trigger] gs[b]),
    ) by {
        assert(!text::same_name_spec(people::group_key()(groups[a]), people::group_key()(groups[b])));
    }
    lemma_accounts_roundtrip(rem);
    lemma_groups_roundtrip(gs, rem);
}

/// Adding a group keeps well-formed groups well-formed, so the saved groups
/// file reads back as the saved groups.
pub proof fn lemma_add_group_stores(
    body: Seq<char>,
    saved: Option<Seq<char>>,
    accs: Seq<AccountView>,
    groups: Seq<GroupView>,
)
    requires
        groups_wf(groups, accs),
        admin_api::add_group_spec(body, saved, groups).1 is Some,
    ensures
        groups_wf(admin_api::add_group_spec(body, saved, groups).1.unwrap(), accs),
        people::parse_groups_spec(
            people::groups_file_spec(admin_api::add_group_spec(body, saved, groups).1.unwrap()),
            accs,
        ) == admin_api::add_group_spec(body, saved, groups).1.unwrap(),
{
    let raw = json::field_text(body, "name"@);
    let name = fields::sanitize_name(raw);
    let updated = groups.push(GroupView { name, members: Seq::empty() });
    fields::lemma_sanitize_name_idempotent(raw);
    assert(fields::distinct_names(Seq::<Seq<char>>::empty()));
    assert forall|j: int| 0 <= j < updated.len() implies group_wf(#[trigger] updated[j], accs) by {
        if j < groups.len() {
            assert(group_wf(groups[j], accs));
        }
    }
    assert forall|a: int, b: int| 0 <= a < b < updated.len() implies !text::same_name_spec(
        people::group_key()(#[trigger] updated[a]),
        people::group_key()(#[trigger] updated[b]),
    ) by {
        if b < groups.len() {
            assert(!text::same_name_spec(people::group_key()(groups[a]), people::group_key()(groups[b])));
        } else {
            assert(!lists::has_key(groups, people::group_key(), name));
            assert(!text::same_name_spec(people::group_key()(groups[a]), name));
        }
    }
    lemma_groups_roundtrip(updated, accs);
}

/// Deleting a group keeps well-formed groups well-formed, so the saved
/// groups file reads back as the saved groups.
pub proof fn lemma_delete_group_stores(
    body: Seq<char>,
    saved: Option<Seq<char>>,
    accs: Seq<AccountView>,
    groups: Seq<GroupView>,
)
    requires
        groups_wf(groups, accs),
        admin_api::delete_group_spec(body, saved, groups).1 is Some,
    ensures
        groups_wf(admin_api::delete_group_spec(body, saved, groups).1.unwrap(), accs),
        people::parse_groups_spec(
            people::groups_file_spec(admin_api::delete_group_spec(body, saved, groups).1.unwrap()),
            accs,
        ) == admin_api::delete_group_spec(body, saved, groups).1.unwrap(),
{
    let name = fields::sanitize_name(json::field_text(body, "name"@));
    let rem = lists::drop_where(groups, people::group_named(name));
    lists::lemma_drop_where_props(groups, people::group_named(name));
    lists::lemma_drop_where_distinct(groups, people::group_named(name), people::group_key());
    assert forall|j: int| 0 <= j < rem.len() implies group_wf(#[trigger] rem[j], accs) by {
        let m = choose|m: int| 0 <= m < groups.len() && groups[m] == rem[j];
        assert(group_wf(groups[m], accs));
    }
    lemma_groups_roundtrip(rem, accs);
}

/// Adding or removing a group member keeps well-formed groups well-formed,
/// so the saved groups file reads back as the saved groups.
pub proof fn lemma_group_member_stores(
    body: Seq<char>,
    saved: Option<Seq<char>>,
    accs: Seq<AccountView>,
    groups: Seq<GroupView>,
)
    requires
        groups_wf(groups, accs),
        admin_api::group_member_spec(body, saved, accs, groups).1 is Some,
    ensures
        groups_wf(admin_api::group_member_spec(body, saved, accs, groups).1.unwrap(), accs),
        people::parse_groups_spec(
            people::groups_file_spec(admin_api::group_member_spec(body, saved, accs, groups).1.unwrap()),
            accs,
        ) == admin_api::group_member_spec(body, saved, accs, groups).1.unwrap(),
{
    let group_name = fields::sanitize_name(json::field_text(body, "group"@));
    let raw = json::field_text(body, "member"@);
    let member = fields::sanitize_name(raw);
    let remove = json::field_text(body, "action"@) == "remove"@;
    fields::lemma_sanitize_name_idempotent(raw);
    let i = lists::first_index(groups, people::group_named(group_name)).unwrap();
    lists::lemma_first_index_found(groups, people::group_named(group_name));
    let g = groups[i];
    assert(group_wf(g, accs));
    let ms = admin_api::changed_members(g.members, member, remove);
    let ng = GroupView { name: g.name, members: ms };
    let updated = groups.update(i, ng);
    assert(group_wf(ng, accs)) by {
        if remove {
            lists::lemma_drop_where_props(g.members, people::is_name(member));
            assert forall|k: int| 0 <= k < ms.len() implies #[trigger] ms[k] == fields::sanitize_name(ms[k])
                && ms[k].len() > 0 && lists::has_key(accs, people::account_key(), ms[k]) by {
                let m = choose|m: int| 0 <= m < g.members.len() && g.members[m] == ms[k];
                assert(g.members[m] == fields::sanitize_name(g.members[m]));
            }
            fields::lemma_distinct_names_keys(g.members);
            fields::lemma_distinct_names_keys(ms);
            lists::lemma_drop_where_distinct(g.members, people::is_name(member), fields::name_key());
        } else if !fields::has_name(g.members, member) {
            assert forall|k: int| 0 <= k < ms.len() implies #[trigger] ms[k] == fields::sanitize_name(ms[k])
                && ms[k].len() > 0 && lists::has_key(accs, people::account_key(), ms[k]) by {
                if k < g.members.len() {
                    assert(g.members[k] == fields::sanitize_name(g.members[k]));
                }
            }
            assert forall|a: int, b: int| 0 <= a < b < ms.len() implies !text::same_name_spec(
                #[trigger] ms[a],
                #[trigger] ms[b],
            ) by {
                if b < g.members.len() {
                    assert(!text::same_name_spec(g.members[a], g.members[b]));
                } else {
                    assert(!text::same_name_spec(g.members[a], member));
                }
            }
        }
    }
    assert forall|j: int| 0 <= j < updated.len() implies group_wf(#[trigger] updated[j], accs) by {
        if j != i {
            assert(group_wf(groups[j], accs));
        }
    }
    assert forall|a: int, b: int| 0 <= a < b < updated.len() implies !text::same_name_spec(
        people::group_key()(#[trigger] updated[a]),
        people::group_key()(#[trigger] updated[b]),
    ) by {
        assert(updated[a].name == groups[a].name && updated[b].name == groups[b].name);
        assert(!text::same_name_spec(people::group_key()(groups[a]), people::group_key()(groups[b])));
    }
    lemma_groups_roundtrip(updated, accs);
}

// ------------------------------------------------------------------
// What reading gives is well-formed
// ------------------------------------------------------------------

/// The text after the first tab of a line holds only characters of the line.
proof fn lemma_split_once_parts_free(line: Seq<char>, p: spec_fn(char) -> bool)
    requires
        text::free_of(line, p),
    ensures
        json::split_once(line, seq!['\t']) matches Some((a, b)) ==> text::free_of(a, p)
            && text::free_of(b, p),
{
    if exists|i: int| json::is_first_match(line, seq!['\t'], i) {
        let i = choose|i: int| json::is_first_match(line, seq!['\t'], i);
        json::lemma_split_once_at(line, seq!['\t'], i);
        let a = line.take(i);
        let b = line.skip(i + 1);
        assert forall|k: int| 0 <= k < a.len() implies !p(#[trigger] a[k]) by {
            assert(a[k] == line[k]);
        }
        assert forall|k: int| 0 <= k < b.len() implies !p(#[trigger] b[k]) by {
            assert(b[k] == line[k + i + 1]);
        }
    }
}

proof fn lemma_parsed_account_wf(line: Seq<char>)
    requires
        text::free_of(line, text::is_char('\n')),
    ensures
        people::parse_account_line_spec(line) matches Some(a) ==> account_wf(a),
{
    lemma_split_once_parts_free(line, text::is_char('\n'));
    match json::split_once(line, seq!['\t']) {
        Some((n, p)) => {
            fields::lemma_sanitize_name_idempotent(n);
            text::lemma_trim_shape(p);
            text::lemma_trim_free(p, text::is_char('\n'));
        },
        None => {},
    }
}

/// Reading an accounts file, whatever it holds, gives well-formed accounts;
/// so writing them and reading again gives the same accounts.
pub proof fn lemma_read_accounts_wf(content: Seq<char>)
    ensures
        accounts_wf(people::parse_accounts_spec(content)),
        people::parse_accounts_spec(people::accounts_file_spec(people::parse_accounts_spec(content)))
            == people::parse_accounts_spec(content),
{
    let ls = text::lines(content);
    text::lemma_lines_free(content);
    let q = |a: AccountView| account_wf(a);
    assert forall|i: int| 0 <= i < ls.len() implies (#[trigger] people::account_parser()(ls[i]) matches Some(x) ==> q(x)) by {
        lemma_parsed_account_wf(ls[i]);
    }
    lists::lemma_parse_lines_sub(ls, people::account_parser(), q);
    let parsed = lists::parse_lines(ls, people::account_parser());
    lists::lemma_dedup_by_sub(parsed, people::account_key(), q);
    lists::lemma_dedup_by_distinct(parsed, people::account_key());
    let out = people::parse_accounts_spec(content);
    assert forall|i: int| 0 <= i < out.len() implies account_wf(#[trigger] out[i]) by {
        assert(q(out[i]));
    }
    lemma_accounts_roundtrip(out);
}

proof fn lemma_parsed_members_wf(m: Seq<char>, accs: Seq<AccountView>)
    ensures
        ({
            let ms = people::parse_members(m, accs);
            &&& forall|i: int|
                0 <= i < ms.len() ==> #[trigger] ms[i] == fields::sanitize_name(ms[i]) && ms[i].len() > 0
                    && lists::has_key(accs, people::account_key(), ms[i])
            &&& fields::distinct_names(ms)
        }),
{
    let pieces = text::split_by(m, text::is_char(','));
    let mapped = pieces.map_values(|p: Seq<char>| fields::sanitize_name(p));
    let fixed = |x: Seq<char>| x == fields::sanitize_name(x);
    assert forall|i: int| 0 <= i < mapped.len() implies fixed(#[trigger] mapped[i]) by {
        fields::lemma_sanitize_name_idempotent(pieces[i]);
    }
    let known = people::known_member(accs);
    let kept = fields::keep_seqs(mapped, known);
    fields::lemma_keep_seqs_sub(mapped, known, fixed);
    fields::lemma_keep_seqs_sat(mapped, known);
    let good = |x: Seq<char>| x == fields::sanitize_name(x) && x.len() > 0 && lists::has_key(accs, people::account_key(), x);
    assert forall|i: int| 0 <= i < kept.len() implies good(#[trigger] kept[i]) by {
        assert(fixed(kept[i]) && known(kept[i]));
    }
    fields::lemma_dedup_sub(kept, good);
    fields::lemma_dedup_names_is_distinct(kept);
    let ms = people::parse_members(m, accs);
    assert forall|i: int| 0 <= i < ms.len() implies #[trigger] ms[i] == fields::sanitize_name(ms[i])
        && ms[i].len() > 0 && lists::has_key(accs, people::account_key(), ms[i]) by {
        assert(good(ms[i]));
    }
}

proof fn lemma_parsed_group_wf(line: Seq<char>, accs: Seq<AccountView>)
    ensures
        people::parse_group_line_spec(line, accs) matches Some(g) ==> group_wf(g, accs),
{
    let (n, m) = match json::split_once(line, seq!['\t']) {
        Some(p) => p,
        None => (line, Seq::<char>::empty()),
    };
    fields::lemma_sanitize_name_idempotent(n);
    lemma_parsed_members_wf(m, accs);
}

/// Reading a groups file against some accounts, whatever the file holds,
/// gives well-formed groups; so writing them and reading again against the
/// same accounts gives the same groups.
pub proof fn lemma_read_groups_wf(content: Seq<char>, accs: Seq<AccountView>)
    ensures
        groups_wf(people::parse_groups_spec(content, accs), accs),
        people::parse_groups_spec(
            people::groups_file_spec(people::parse_groups_spec(content, accs)),
            accs,
        ) == people::parse_groups_spec(content, accs),
{
    let ls = text::lines(content);
    let q = |g: GroupView| group_wf(g, accs);
    assert forall|i: int| 0 <= i < ls.len() implies (#[trigger] people::group_parser(accs)(ls[i]) matches Some(x) ==> q(x)) by {
        lemma_parsed_group_wf(ls[i], accs);
    }
    lists::lemma_parse_lines_sub(ls, people::group_parser(accs), q);
    let parsed = lists::parse_lines(ls, people::group_parser(accs));
    lists::lemma_dedup_by_sub(parsed, people::group_key(), q);
    lists::lemma_dedup_by_distinct(parsed, people::group_key());
    let out = people::parse_groups_spec(content, accs);
    assert forall|i: int| 0 <= i < out.len() implies group_wf(#[trigger] out[i], accs) by {
        assert(q(out[i]));
    }
    lemma_groups_roundtrip(out, accs);
}

// ------------------------------------------------------------------
// What the planner handlers save reads back unchanged
// ------------------------------------------------------------------

/// No whitespace at either end. A text cut at its length limit right
/// after whitespace is the one kind of new text that does not read back as
/// itself.
pub open spec fn ends_clean(s: Seq<char>) -> bool {
    text::trim(s) == s
}

/// An id made of a short prefix and a timestamp reads back as itself.
proof fn lemma_id_wf(prefix: Seq<char>, now_ms: u128)
    requires
        0 < prefix.len() <= 60,
        !text::is_ws(prefix[0]),
        text::all_chars(prefix, fields::not_tnr_pred()),
    ensures
        fields::sanitize_text(auth::id_text(prefix, now_ms), 100) == auth::id_text(prefix, now_ms),
        auth::id_text(prefix, now_ms).len() > 0,
{
    let d = text::decimal(now_ms as nat);
    text::lemma_decimal_digits(now_ms as nat);
    text::lemma_decimal_u128(now_ms);
    let id = auth::id_text(prefix, now_ms);
    assert(id == prefix + d);
    assert(id[0] == prefix[0]);
    assert(id.last() == d[d.len() - 1]);
    assert(text::is_digit(d[d.len() - 1]));
    text::lemma_trim_fixed(id);
    assert forall|i: int| 0 <= i < id.len() implies fields::not_tnr_pred()(#[trigger] id[i]) by {
        if i < prefix.len() {
            assert(id[i] == prefix[i]);
        } else {
            assert(id[i] == d[i - prefix.len()]);
            assert(text::is_digit(d[i - prefix.len()]));
        }
    }
    fields::lemma_sanitize_text_of_clean(id, 100);
}

/// A name the same as a non-empty name is not empty.
proof fn lemma_same_name_len(a: Seq<char>, b: Seq<char>)
    requires
        text::same_name_spec(a, b),
    ensures
        a.len() == b.len(),
{
    assert(text::fold_case(a).len() == a.len());
    assert(text::fold_case(b).len() == b.len());
}

/// What adding a task saves reads back unchanged: the saved tasks are
/// well-formed, and the file written from them reads back as them. This
/// holds when the tasks it was given were well-formed and none of the new
/// task's texts was cut right after whitespace.
pub proof fn lemma_add_task_stores(body: Seq<char>, accs: Seq<AccountView>, ts: Seq<TaskView>, now_ms: u128)
    requires
        forall|i: int| 0 <= i < ts.len() ==> task_wf(#[trigger] ts[i]),
        ends_clean(planner_api::new_task(body, planner_api::requester_of(body), now_ms).title),
        ends_clean(planner_api::new_task(body, planner_api::requester_of(body), now_ms).created_at),
        ends_clean(planner_api::new_task(body, planner_api::requester_of(body), now_ms).note),
    ensures
        planner_api::add_task_spec(body, accs, ts, now_ms).1 matches Some(saved) ==> {
            &&& forall|i: int| 0 <= i < saved.len() ==> task_wf(#[trigger] saved[i])
            &&& plans::parse_tasks_spec(plans::tasks_file_spec(saved)) == saved
        },
{
    if let Some(saved) = planner_api::add_task_spec(body, accs, ts, now_ms).1 {
        let t = planner_api::new_task(body, planner_api::requester_of(body), now_ms);
        reveal_strlit("task-");
        lemma_id_wf("task-"@, now_ms);
        fields::lemma_sanitize_text_fixed(json::field_text(body, "title"@), 100);
        fields::lemma_sanitize_text_fixed(json::field_text(body, "createdAt"@), 40);
        fields::lemma_sanitize_note_fixed(json::field_text(body, "note"@), 2000);
        fields::lemma_parse_assignees_idempotent(json::field_text(body, "assignees"@));
        fields::lemma_sanitize_name_idempotent(json::field_text(body, "requester"@));
        assert(task_wf(t));
        assert(saved == ts.push(t));
        assert forall|i: int| 0 <= i < saved.len() implies task_wf(#[trigger] saved[i]) by {
            if i < ts.len() {
                assert(saved[i] == ts[i]);
            }
        }
        lemma_tasks_roundtrip(saved);
    }
}

/// What deleting a task saves reads back unchanged, when the tasks it was
/// given were well-formed.
pub proof fn lemma_delete_task_stores(
    body: Seq<char>,
    accs: Seq<AccountView>,
    groups: Seq<GroupView>,
    ts: Seq<TaskView>,
)
    requires
        forall|i: int| 0 <= i < ts.len() ==> task_wf(#[trigger] ts[i]),
    ensures
        planner_api::delete_task_spec(body, accs, groups, ts).1 matches Some(saved) ==> {
            &&& forall|i: int| 0 <= i < saved.len() ==> task_wf(#[trigger] saved[i])
            &&& plans::parse_tasks_spec(plans::tasks_file_spec(saved)) == saved
        },
{
    if let Some(saved) = planner_api::delete_task_spec(body, accs, groups, ts).1 {
        let id = fields::sanitize_text(json::field_text(body, "id"@), 100);
        let p = plans::task_id_is(id);
        assert(saved == lists::drop_where(ts, p));
        lists::lemma_drop_where_props(ts, p);
        assert forall|i: int| 0 <= i < saved.len() implies task_wf(#[trigger] saved[i]) by {
            let j = choose|j: int| 0 <= j < ts.len() && ts[j] == saved[i];
            assert(task_wf(ts[j]));
        }
        lemma_tasks_roundtrip(saved);
    }
}

/// What sending a broadcast saves reads back unchanged, when the
/// broadcasts it was given were well-formed and neither the new message
/// nor its creation time was cut right after whitespace.
pub proof fn lemma_add_broadcast_stores(
    body: Seq<char>,
    accs: Seq<AccountView>,
    bs: Seq<BroadcastView>,
    now_ms: u128,
)
    requires
        forall|i: int| 0 <= i < bs.len() ==> broadcast_wf(#[trigger] bs[i]),
        ends_clean(planner_api::new_broadcast(body, planner_api::requester_of(body), now_ms).message),
        ends_clean(planner_api::new_broadcast(body, planner_api::requester_of(body), now_ms).created_at),
    ensures
        planner_api::add_broadcast_spec(body, accs, bs, now_ms).1 matches Some(saved) ==> {
            &&& forall|i: int| 0 <= i < saved.len() ==> broadcast_wf(#[trigger] saved[i])
            &&& plans::parse_broadcasts_spec(plans::broadcasts_file_spec(saved)) == saved
        },
{
    if let Some(saved) = planner_api::add_broadcast_spec(body, accs, bs, now_ms).1 {
        let b = planner_api::new_broadcast(body, planner_api::requester_of(body), now_ms);
        reveal_strlit("broadcast-");
        lemma_id_wf("broadcast-"@, now_ms);
        fields::lemma_sanitize_note_fixed(json::field_text(body, "message"@), 500);
        fields::lemma_sanitize_text_fixed(json::field_text(body, "createdAt"@), 40);
        fields::lemma_parse_assignees_idempotent(json::field_text(body, "targets"@));
        fields::lemma_sanitize_name_idempotent(json::field_text(body, "requester"@));
        fields::lemma_name_list_roundtrip(Seq::<Seq<char>>::empty());
        assert(broadcast_wf(b));
        assert(saved == bs.push(b));
        assert forall|i: int| 0 <= i < saved.len() implies broadcast_wf(#[trigger] saved[i]) by {
            if i < bs.len() {
                assert(saved[i] == bs[i]);
            }
        }
        lemma_broadcasts_roundtrip(saved);
    }
}

/// What marking a broadcast seen saves reads back unchanged, when the
/// accounts and the broadcasts it was given were well-formed.
pub proof fn lemma_mark_seen_stores(body: Seq<char>, accs: Seq<AccountView>, bs: Seq<BroadcastView>)
    requires
        accounts_wf(accs),
        forall|i: int| 0 <= i < bs.len() ==> broadcast_wf(#[trigger] bs[i]),
    ensures
        planner_api::mark_seen_spec(body, accs, bs).1 matches Some(saved) ==> {
            &&& forall|i: int| 0 <= i < saved.len() ==> broadcast_wf(#[trigger] saved[i])
            &&& plans::parse_broadcasts_spec(plans::broadcasts_file_spec(saved)) == saved
        },
{
    if let Some(saved) = planner_api::mark_seen_spec(body, accs, bs).1 {
        let id = fields::sanitize_text(json::field_text(body, "id"@), 100);
        let r = planner_api::requester_of(body);
        let k = lists::first_index(bs, plans::broadcast_id_is(id)).unwrap();
        lists::lemma_first_index_found(bs, plans::broadcast_id_is(id));
        let b = bs[k];
        assert(broadcast_wf(b));
        let seen = if fields::has_name(b.seen_by, r) {
            b.seen_by
        } else {
            b.seen_by.push(r)
        };
        let nb = plans::BroadcastView { seen_by: seen, ..b };
        assert(saved == bs.update(k, nb));
        if !fields::has_name(b.seen_by, r) {
            fields::lemma_parse_name_list_wf(plans::comma_list(b.seen_by));
            fields::lemma_sanitize_name_idempotent(json::field_text(body, "requester"@));
            let j = choose|j: int| 0 <= j < accs.len() && text::same_name_spec(
                people::account_key()(#[trigger] accs[j]),
                r,
            );
            assert(account_wf(accs[j]));
            lemma_same_name_len(accs[j].name, r);
            fields::lemma_name_list_push(b.seen_by, r);
            fields::lemma_name_list_roundtrip(seen);
        }
        assert(broadcast_wf(nb));
        assert forall|i: int| 0 <= i < saved.len() implies broadcast_wf(#[trigger] saved[i]) by {
            if i != k {
                assert(saved[i] == bs[i]);
            }
        }
        lemma_broadcasts_roundtrip(saved);
    }
}

/// What adding an event saves reads back unchanged, when the events it was
/// given were well-formed and none of the new event's texts was cut right
/// after whitespace.
pub proof fn lemma_add_event_stores(body: Seq<char>, accs: Seq<AccountView>, es: Seq<EventView>, now_ms: u128)
    requires
        forall|i: int| 0 <= i < es.len() ==> event_wf(#[trigger] es[i]),
        ends_clean(planner_api::new_event(body, planner_api::requester_of(body), now_ms).title),
        ends_clean(planner_api::new_event(body, planner_api::requester_of(body), now_ms).created_at),
        ends_clean(planner_api::new_event(body, planner_api::requester_of(body), now_ms).note),
    ensures
        planner_api::add_event_spec(body, accs, es, now_ms).1 matches Some(saved) ==> {
            &&& forall|i: int| 0 <= i < saved.len() ==> event_wf(#[trigger] saved[i])
            &&& plans::parse_events_spec(plans::events_file_spec(saved)) == saved
        },
{
    if let Some(saved) = planner_api::add_event_spec(body, accs, es, now_ms).1 {
        let e = planner_api::new_event(body, planner_api::requester_of(body), now_ms);
        reveal_strlit("event-");
        lemma_id_wf("event-"@, now_ms);
        fields::lemma_sanitize_text_fixed(json::field_text(body, "title"@), 100);
        fields::lemma_sanitize_text_fixed(json::field_text(body, "createdAt"@), 40);
        fields::lemma_sanitize_note_fixed(json::field_text(body, "note"@), 2000);
        fields::lemma_parse_assignees_idempotent(json::field_text(body, "assignees"@));
        fields::lemma_sanitize_name_idempotent(json::field_text(body, "requester"@));
        assert(event_wf(e));
        assert(saved == es.push(e));
        assert forall|i: int| 0 <= i < saved.len() implies event_wf(#[trigger] saved[i]) by {
            if i < es.len() {
                assert(saved[i] == es[i]);
            }
        }
        lemma_events_roundtrip(saved);
    }
}

/// What deleting an event saves reads back unchanged, when the events it
/// was given were well-formed.
pub proof fn lemma_delete_event_stores(
    body: Seq<char>,
    accs: Seq<AccountView>,
    groups: Seq<GroupView>,
    es: Seq<EventView>,
)
    requires
        forall|i: int| 0 <= i < es.len() ==> event_wf(#[trigger] es[i]),
    ensures
        planner_api::delete_event_spec(body, accs, groups, es) matches Ok(saved) ==> {
            &&& forall|i: int| 0 <= i < saved.len() ==> event_wf(#[trigger] saved[i])
            &&& plans::parse_events_spec(plans::events_file_spec(saved)) == saved
        },
{
    if let Ok(saved) = planner_api::delete_event_spec(body, accs, groups, es) {
        let id = fields::sanitize_text(json::field_text(body, "id"@), 100);
        let p = plans::event_id_is(id);
        assert(saved == lists::drop_where(es, p));
        lists::lemma_drop_where_props(es, p);
        assert forall|i: int| 0 <= i < saved.len() implies event_wf(#[trigger] saved[i]) by {
            let j = choose|j: int| 0 <= j < es.len() && es[j] == saved[i];
            assert(event_wf(es[j]));
        }
        lemma_events_roundtrip(saved);
    }
}

// ------------------------------------------------------------------
// Reading the planner files and writing them back
// ------------------------------------------------------------------

/// None of the task's texts has whitespace at either end.
pub open spec fn task_texts_clean(t: TaskView) -> bool {
    ends_clean(t.id) && ends_clean(t.title) && ends_clean(t.created_at) && ends_clean(t.note)
}

/// None of the broadcast's texts has whitespace at either end.
pub open spec fn broadcast_texts_clean(b: BroadcastView) -> bool {
    ends_clean(b.id) && ends_clean(b.message) && ends_clean(b.created_at)
}

/// None of the event's texts has whitespace at either end.
pub open spec fn event_texts_clean(e: EventView) -> bool {
    ends_clean(e.id) && ends_clean(e.title) && ends_clean(e.created_at) && ends_clean(e.note)
}

proof fn lemma_empty_note()
    ensures
        fields::sanitize_note(Seq::<char>::empty(), 2000) == Seq::<char>::empty(),
{
    let e = Seq::<char>::empty();
    assert(text::trim_start(e) == e);
    assert(text::trim_end(e) == e);
    assert(e.map_values(|c: char| fields::blank_tnr(c)) =~= e);
}

proof fn lemma_parsed_task_wf(line: Seq<char>)
    ensures
        plans::parse_task_line_spec(line) matches Some(t) ==> (task_texts_clean(t) ==> task_wf(t)),
{
    if let Some(t) = plans::parse_task_line_spec(line) {
        if task_texts_clean(t) {
            let parts = plans::line_parts(line);
            fields::lemma_sanitize_text_fixed(parts[0], 100);
            fields::lemma_sanitize_text_fixed(parts[1], 100);
            fields::lemma_parse_assignees_idempotent(parts[4]);
            fields::lemma_sanitize_name_idempotent(parts[5]);
            fields::lemma_sanitize_text_fixed(parts[6], 40);
            if parts.len() == 8 {
                fields::lemma_sanitize_note_fixed(parts[7], 2000);
            } else {
                lemma_empty_note();
            }
        }
    }
}

/// Writing back the tasks read from a file and reading again gives the same
/// tasks, when no text of them ends in whitespace (a text cut at its length
/// limit right after whitespace loses that whitespace on the next read).
pub proof fn lemma_read_tasks_stable(content: Seq<char>)
    requires
        forall|i: int|
            0 <= i < plans::parse_tasks_spec(content).len() ==> task_texts_clean(
                #[trigger] plans::parse_tasks_spec(content)[i],
            ),
    ensures
        forall|i: int|
            0 <= i < plans::parse_tasks_spec(content).len() ==> task_wf(
                #[trigger] plans::parse_tasks_spec(content)[i],
            ),
        plans::parse_tasks_spec(plans::tasks_file_spec(plans::parse_tasks_spec(content)))
            == plans::parse_tasks_spec(content),
{
    let ls = text::lines(content);
    let q = |t: TaskView| task_texts_clean(t) ==> task_wf(t);
    assert forall|i: int| 0 <= i < ls.len() implies (#[trigger] plans::task_parser()(ls[i]) matches Some(x) ==> q(x)) by {
        lemma_parsed_task_wf(ls[i]);
    }
    lists::lemma_parse_lines_sub(ls, plans::task_parser(), q);
    let out = plans::parse_tasks_spec(content);
    assert forall|i: int| 0 <= i < out.len() implies task_wf(#[trigger] out[i]) by {
        assert(q(out[i]));
        assert(task_texts_clean(out[i]));
    }
    lemma_tasks_roundtrip(out);
}

proof fn lemma_parsed_broadcast_wf(line: Seq<char>)
    ensures
        plans::parse_broadcast_line_spec(line) matches Some(b) ==> (broadcast_texts_clean(b) ==> broadcast_wf(b)),
{
    if let Some(b) = plans::parse_broadcast_line_spec(line) {
        if broadcast_texts_clean(b) {
            let parts = plans::line_parts(line);
            fields::lemma_sanitize_text_fixed(parts[0], 100);
            fields::lemma_sanitize_note_fixed(parts[1], 500);
            fields::lemma_parse_assignees_idempotent(parts[2]);
            fields::lemma_sanitize_name_idempotent(parts[3]);
            fields::lemma_sanitize_text_fixed(parts[4], 40);
            fields::lemma_parse_name_list_idempotent(parts[5]);
        }
    }
}

/// Writing back the broadcasts read from a file and reading again gives
/// the same broadcasts, when no text of them ends in whitespace.
pub proof fn lemma_read_broadcasts_stable(content: Seq<char>)
    requires
        forall|i: int|
            0 <= i < plans::parse_broadcasts_spec(content).len() ==> broadcast_texts_clean(
                #[trigger] plans::parse_broadcasts_spec(content)[i],
            ),
    ensures
        forall|i: int|
            0 <= i < plans::parse_broadcasts_spec(content).len() ==> broadcast_wf(
                #[trigger] plans::parse_broadcasts_spec(content)[i],
            ),
        plans::parse_broadcasts_spec(plans::broadcasts_file_spec(plans::parse_broadcasts_spec(content)))
            == plans::parse_broadcasts_spec(content),
{
    let ls = text::lines(content);
    let q = |b: BroadcastView| broadcast_texts_clean(b) ==> broadcast_wf(b);
    assert forall|i: int| 0 <= i < ls.len() implies (#[trigger] plans::broadcast_parser()(ls[i]) matches Some(x) ==> q(x)) by {
        lemma_parsed_broadcast_wf(ls[i]);
    }
    lists::lemma_parse_lines_sub(ls, plans::broadcast_parser(), q);
    let out = plans::parse_broadcasts_spec(content);
    assert forall|i: int| 0 <= i < out.len() implies broadcast_wf(#[trigger] out[i]) by {
        assert(q(out[i]));
        assert(broadcast_texts_clean(out[i]));
    }
    lemma_broadcasts_roundtrip(out);
}

proof fn lemma_parsed_event_wf(line: Seq<char>)
    ensures
        plans::parse_event_line_spec(line) matches Some(e) ==> (event_texts_clean(e) ==> event_wf(e)),
{
    if let Some(e) = plans::parse_event_line_spec(line) {
        if event_texts_clean(e) {
            let parts = plans::line_parts(line);
            fields::lemma_sanitize_text_fixed(parts[0], 100);
            fields::lemma_sanitize_text_fixed(parts[1], 100);
            fields::lemma_parse_assignees_idempotent(parts[6]);
            fields::lemma_sanitize_name_idempotent(parts[7]);
            fields::lemma_sanitize_text_fixed(parts[8], 40);
            fields::lemma_sanitize_note_fixed(parts[9], 2000);
        }
    }
}

/// Writing back the events read from a file and reading again gives the
/// same events, when no text of them ends in whitespace.
pub proof fn lemma_read_events_stable(content: Seq<char>)
    requires
        forall|i: int|
            0 <= i < plans::parse_events_spec(content).len() ==> event_texts_clean(
                #[trigger] plans::parse_events_spec(content)[i],
            ),
    ensures
        forall|i: int|
            0 <= i < plans::parse_events_spec(content).len() ==> event_wf(
                #[trigger] plans::parse_events_spec(content)[i],
            ),
        plans::parse_events_spec(plans::events_file_spec(plans::parse_events_spec(content)))
            == plans::parse_events_spec(content),
{
    let ls = text::lines(content);
    let q = |e: EventView| event_texts_clean(e) ==> event_wf(e);
    assert forall|i: int| 0 <= i < ls.len() implies (#[trigger] plans::event_parser()(ls[i]) matches Some(x) ==> q(x)) by {
        lemma_parsed_event_wf(ls[i]);
    }
    lists::lemma_parse_lines_sub(ls, plans::event_parser(), q);
    let out = plans::parse_events_spec(content);
    assert forall|i: int| 0 <= i < out.len() implies event_wf(#[trigger] out[i]) by {
        assert(q(out[i]));
        assert(event_texts_clean(out[i]));
    }
    lemma_events_roundtrip(out);
}

} // verus!
