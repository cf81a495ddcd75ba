use vstd::prelude::*;
use crate::access::{self, can_delete_event, can_delete_task, is_valid_task_requester};
use crate::auth::{self, create_broadcast_id, create_event_id, create_server_id};
use crate::fields::{
    self, is_overview_account, is_valid_date_key, is_valid_time_value, parse_assignees_field,
    sanitize_account_name, sanitize_broadcast_text, sanitize_note_text, sanitize_task_text,
};
use crate::json::{self, field_or_empty, json_response, Reply, ReplyView};
use crate::lists;
use crate::people::{self, copy_strings, AccountView, GroupView, Account, Group};
use crate::plans::{
    self, broadcasts_json, copy_broadcast, events_json, events_without_id, find_broadcast,
    find_event, find_task, tasks_json, tasks_without_id, Broadcast, BroadcastView, EventPlan,
    EventView, Task, TaskView,
};
use crate::text::{self, append_str, chars_of, string_of};

verus! {

// ------------------------------------------------------------------
// Replies
// ------------------------------------------------------------------

pub open spec fn unknown_user() -> ReplyView {
    json::json_reply("401 Unauthorized"@, "{\"ok\":false,\"error\":\"Unknown user\"}"@)
}

/// `{"ok":true,"tasks":[..]}`.
pub open spec fn tasks_reply(ts: Seq<TaskView>) -> ReplyView {
    json::json_reply("200 OK"@, "{\"ok\":true,\"tasks\":"@ + plans::tasks_json_spec(ts) + "}"@)
}

/// `{"ok":true,"broadcasts":[..]}`.
pub open spec fn broadcasts_reply(bs: Seq<BroadcastView>) -> ReplyView {
    json::json_reply(
        "200 OK"@,
        "{\"ok\":true,\"broadcasts\":"@ + plans::broadcasts_json_spec(bs) + "}"@,
    )
}

/// `{"ok":true,"events":[..]}`.
pub open spec fn events_reply(es: Seq<EventView>) -> ReplyView {
    json::json_reply("200 OK"@, "{\"ok\":true,\"events\":"@ + plans::events_json_spec(es) + "}"@)
}

/// `403 Forbidden`: the requester may not delete this kind of item.
pub open spec fn forbidden(kind: Seq<char>) -> ReplyView {
    json::json_reply(
        "403 Forbidden"@,
        "{\"ok\":false,\"error\":\"Not allowed to delete this "@ + kind + "\"}"@,
    )
}

fn forbidden_reply(kind: &str) -> (r: Reply)
    ensures
        json::reply_view(r) == forbidden(kind@),
{
    let mut out: Vec<char> = Vec::new();
    append_str(&mut out, "{\"ok\":false,\"error\":\"Not allowed to delete this ");
    append_str(&mut out, kind);
    append_str(&mut out, "\"}");
    let body = string_of(&out);
    json_response("403 Forbidden", body.as_str())
}

fn unknown_user_reply() -> (r: Reply)
    ensures
        json::reply_view(r) == unknown_user(),
{
    json_response("401 Unauthorized", "{\"ok\":false,\"error\":\"Unknown user\"}")
}

/// The reply that lists the tasks.
pub fn tasks_reply_of(tasks: &[Task]) -> (r: Reply)
    ensures
        json::reply_view(r) == tasks_reply(plans::task_views(tasks@)),
{
    let mut out: Vec<char> = Vec::new();
    append_str(&mut out, "{\"ok\":true,\"tasks\":");
    let list = tasks_json(tasks);
    append_str(&mut out, list.as_str());
    append_str(&mut out, "}");
    let body = string_of(&out);
    json_response("200 OK", body.as_str())
}

/// The reply that lists the broadcasts.
pub fn broadcasts_reply_of(broadcasts: &[Broadcast]) -> (r: Reply)
    ensures
        json::reply_view(r) == broadcasts_reply(plans::broadcast_views(broadcasts@)),
{
    let mut out: Vec<char> = Vec::new();
    append_str(&mut out, "{\"ok\":true,\"broadcasts\":");
    let list = broadcasts_json(broadcasts);
    append_str(&mut out, list.as_str());
    append_str(&mut out, "}");
    let body = string_of(&out);
    json_response("200 OK", body.as_str())
}

/// The reply that lists the events.
pub fn events_reply_of(events: &[EventPlan]) -> (r: Reply)
    ensures
        json::reply_view(r) == events_reply(plans::event_views(events@)),
{
    let mut out: Vec<char> = Vec::new();
    append_str(&mut out, "{\"ok\":true,\"events\":");
    let list = events_json(events);
    append_str(&mut out, list.as_str());
    append_str(&mut out, "}");
    let body = string_of(&out);
    json_response("200 OK", body.as_str())
}

pub open spec fn opt_tasks_view(o: Option<Vec<Task>>) -> Option<Seq<TaskView>> {
    match o {
        Some(v) => Some(plans::task_views(v@)),
        None => None,
    }
}

pub open spec fn opt_broadcasts_view(o: Option<Vec<Broadcast>>) -> Option<Seq<BroadcastView>> {
    match o {
        Some(v) => Some(plans::broadcast_views(v@)),
        None => None,
    }
}

/// The requester named in the body, sanitized.
pub open spec fn requester_of(body: Seq<char>) -> Seq<char> {
    fields::sanitize_name(json::field_text(body, "requester"@))
}

/// The requester is a known account other than the overview account.
pub open spec fn requester_ok(body: Seq<char>, accs: Seq<AccountView>) -> bool {
    access::valid_requester(requester_of(body), accs) && !fields::is_overview(requester_of(body))
}

/// Reads the requester and checks it may change the planner.
fn checked_requester(body: &str, accounts: &[Account]) -> (r: Option<String>)
    ensures
        match r {
            Some(n) => requester_ok(body@, people::account_views(accounts@)) && n@ == requester_of(body@),
            None => !requester_ok(body@, people::account_views(accounts@)),
        },
{
    let requester = sanitize_account_name(field_or_empty(body, "requester").as_str());
    if !is_valid_task_requester(requester.as_str(), accounts) || is_overview_account(requester.as_str()) {
        None
    } else {
        Some(requester)
    }
}

// ------------------------------------------------------------------
// Tasks
// ------------------------------------------------------------------

/// The task a request describes.
pub open spec fn new_task(body: Seq<char>, requester: Seq<char>, now_ms: u128) -> TaskView {
    TaskView {
        id: auth::id_text("task-"@, now_ms),
        title: fields::sanitize_text(json::field_text(body, "title"@), 100),
        date: json::field_text(body, "date"@),
        time: json::field_text(body, "time"@),
        assignees: fields::parse_assignees(json::field_text(body, "assignees"@)),
        requester,
        created_at: fields::sanitize_text(json::field_text(body, "createdAt"@), 40),
        note: fields::sanitize_note(json::field_text(body, "note"@), 2000),
    }
}

pub open spec fn add_task_spec(
    body: Seq<char>,
    accs: Seq<AccountView>,
    tasks: Seq<TaskView>,
    now_ms: u128,
) -> (ReplyView, Option<Seq<TaskView>>) {
    if !requester_ok(body, accs) {
        (unknown_user(), None)
    } else {
        let t = new_task(body, requester_of(body), now_ms);
        if t.title.len() == 0 || !fields::valid_date_key(t.date) || !fields::valid_time(t.time) {
            (json::json_reply("400 Bad Request"@, "{\"ok\":false,\"error\":\"Invalid task\"}"@), None)
        } else {
            (tasks_reply(tasks.push(t)), Some(tasks.push(t)))
        }
    }
}

/// Adds a task for a known requester, with the id made from `now_ms`.
/// Returns the reply for a successful save and the tasks to save, if any.
pub fn handle_add_task(body: &str, accounts: &[Account], tasks: Vec<Task>, now_ms: u128) -> (out: (
    Reply,
    Option<Vec<Task>>,
))
    ensures
        json::reply_view(out.0) == add_task_spec(body@, people::account_views(accounts@), plans::task_views(tasks@), now_ms).0,
        opt_tasks_view(out.1) == add_task_spec(body@, people::account_views(accounts@), plans::task_views(tasks@), now_ms).1,
{
    let requester = match checked_requester(body, accounts) {
        Some(r) => r,
        None => {
            return (unknown_user_reply(), None);
        },
    };
    let title = sanitize_task_text(field_or_empty(body, "title").as_str(), 100);
    let date = field_or_empty(body, "date");
    let time = field_or_empty(body, "time");
    let created_at = sanitize_task_text(field_or_empty(body, "createdAt").as_str(), 40);
    let note = sanitize_note_text(field_or_empty(body, "note").as_str(), 2000);
    let assignees = parse_assignees_field(field_or_empty(body, "assignees").as_str());
    if title.as_str().is_empty() || !is_valid_date_key(date.as_str()) || !is_valid_time_value(
        time.as_str(),
    ) {
        return (
            json_response("400 Bad Request", "{\"ok\":false,\"error\":\"Invalid task\"}"),
            None,
        );
    }
    let mut tasks = tasks;
    let ghost before = plans::task_views(tasks@);
    let task = Task {
        id: create_server_id(now_ms),
        title,
        date,
        time,
        assignees,
        requester,
        created_at,
        note,
    };
    assert(task@ == new_task(body@, requester_of(body@), now_ms));
    tasks.push(task);
    assert(plans::task_views(tasks@) =~= before.push(new_task(body@, requester_of(body@), now_ms)));
    let reply = tasks_reply_of(tasks.as_slice());
    (reply, Some(tasks))
}

pub open spec fn delete_task_spec(
    body: Seq<char>,
    accs: Seq<AccountView>,
    groups: Seq<GroupView>,
    tasks: Seq<TaskView>,
) -> (ReplyView, Option<Seq<TaskView>>) {
    if !requester_ok(body, accs) {
        (unknown_user(), None)
    } else {
        let id = fields::sanitize_text(json::field_text(body, "id"@), 100);
        match lists::first_index(tasks, plans::task_id_is(id)) {
            None => (
                json::json_reply("404 Not Found"@, "{\"ok\":false,\"error\":\"Unknown task\"}"@),
                None,
            ),
            Some(i) => if !access::may_delete(
                tasks[i].requester,
                tasks[i].assignees,
                requester_of(body),
                groups,
            ) {
                (forbidden("task"@), None)
            } else {
                let remaining = lists::drop_where(tasks, plans::task_id_is(id));
                (tasks_reply(remaining), Some(remaining))
            },
        }
    }
}

/// Deletes the task with the id when the requester may. Returns the reply
/// for a successful save and the tasks to save, if any.
pub fn handle_delete_task(body: &str, accounts: &[Account], groups: &[Group], tasks: Vec<Task>) -> (out: (
    Reply,
    Option<Vec<Task>>,
))
    ensures
        json::reply_view(out.0) == delete_task_spec(body@, people::account_views(accounts@), people::group_views(groups@), plans::task_views(tasks@)).0,
        opt_tasks_view(out.1) == delete_task_spec(body@, people::account_views(accounts@), people::group_views(groups@), plans::task_views(tasks@)).1,
{
    let requester = match checked_requester(body, accounts) {
        Some(r) => r,
        None => {
            return (unknown_user_reply(), None);
        },
    };
    let id = sanitize_task_text(field_or_empty(body, "id").as_str(), 100);
    let idc = chars_of(id.as_str());
    let i = match find_task(tasks.as_slice(), &idc) {
        Some(i) => i,
        None => {
            return (
                json_response("404 Not Found", "{\"ok\":false,\"error\":\"Unknown task\"}"),
                None,
            );
        },
    };
    if !can_delete_task(&tasks[i], requester.as_str(), groups) {
        return (forbidden_reply("task"), None);
    }
    let remaining = tasks_without_id(tasks.as_slice(), &idc);
    let reply = tasks_reply_of(remaining.as_slice());
    (reply, Some(remaining))
}

// ------------------------------------------------------------------
// Broadcasts
// ------------------------------------------------------------------

/// The broadcast a request describes.
pub open spec fn new_broadcast(body: Seq<char>, requester: Seq<char>, now_ms: u128) -> BroadcastView {
    BroadcastView {
        id: auth::id_text("broadcast-"@, now_ms),
        message: fields::sanitize_note(json::field_text(body, "message"@), 500),
        targets: fields::parse_assignees(json::field_text(body, "targets"@)),
        requester,
        created_at: fields::sanitize_text(json::field_text(body, "createdAt"@), 40),
        seen_by: Seq::empty(),
    }
}

pub open spec fn add_broadcast_spec(
    body: Seq<char>,
    accs: Seq<AccountView>,
    bs: Seq<BroadcastView>,
    now_ms: u128,
) -> (ReplyView, Option<Seq<BroadcastView>>) {
    if !requester_ok(body, accs) {
        (unknown_user(), None)
    } else {
        let b = new_broadcast(body, requester_of(body), now_ms);
        if b.message.len() == 0 {
            (
                json::json_reply("400 Bad Request"@, "{\"ok\":false,\"error\":\"Message required\"}"@),
                None,
            )
        } else {
            (broadcasts_reply(bs.push(b)), Some(bs.push(b)))
        }
    }
}

/// Sends a broadcast from a known requester, with the id made from
/// `now_ms`. Returns the reply for a successful save and the broadcasts to
/// save, if any.
pub fn handle_add_broadcast(body: &str, accounts: &[Account], broadcasts: Vec<Broadcast>, now_ms: u128) -> (out: (
    Reply,
    Option<Vec<Broadcast>>,
))
    ensures
        json::reply_view(out.0) == add_broadcast_spec(body@, people::account_views(accounts@), plans::broadcast_views(broadcasts@), now_ms).0,
        opt_broadcasts_view(out.1) == add_broadcast_spec(body@, people::account_views(accounts@), plans::broadcast_views(broadcasts@), now_ms).1,
{
    let requester = match checked_requester(body, accounts) {
        Some(r) => r,
        None => {
            return (unknown_user_reply(), None);
        },
    };
    let message = sanitize_broadcast_text(field_or_empty(body, "message").as_str(), 500);
    let created_at = sanitize_task_text(field_or_empty(body, "createdAt").as_str(), 40);
    let targets = parse_assignees_field(field_or_empty(body, "targets").as_str());
    if message.as_str().is_empty() {
        return (
            json_response("400 Bad Request", "{\"ok\":false,\"error\":\"Message required\"}"),
            None,
        );
    }
    let mut broadcasts = broadcasts;
    let ghost before = plans::broadcast_views(broadcasts@);
    let seen_by: Vec<String> = Vec::new();
    assert(text::string_views(seen_by@) =~= Seq::<Seq<char>>::empty());
    let b = Broadcast {
        id: create_broadcast_id(now_ms),
        message,
        targets,
        requester,
        created_at,
        seen_by,
    };
    assert(b@ == new_broadcast(body@, requester_of(body@), now_ms));
    broadcasts.push(b);
    assert(plans::broadcast_views(broadcasts@) =~= before.push(new_broadcast(body@, requester_of(body@), now_ms)));
    let reply = broadcasts_reply_of(broadcasts.as_slice());
    (reply, Some(broadcasts))
}

pub open spec fn mark_seen_spec(body: Seq<char>, accs: Seq<AccountView>, bs: Seq<BroadcastView>) -> (
    ReplyView,
    Option<Seq<BroadcastView>>,
) {
    if !requester_ok(body, accs) {
        (unknown_user(), None)
    } else {
        let id = fields::sanitize_text(json::field_text(body, "id"@), 100);
        let requester = requester_of(body);
        match lists::first_index(bs, plans::broadcast_id_is(id)) {
            None => (
                json::json_reply(
                    "404 Not Found"@,
                    "{\"ok\":false,\"error\":\"Unknown broadcast\"}"@,
                ),
                None,
            ),
            Some(i) => {
                let b = bs[i];
                let seen = if fields::has_name(b.seen_by, requester) {
                    b.seen_by
                } else {
                    b.seen_by.push(requester)
                };
                let updated = bs.update(i, BroadcastView { seen_by: seen, ..b });
                (broadcasts_reply(updated), Some(updated))
            },
        }
    }
}

/// Records that the requester has seen the broadcast with the id. Returns
/// the reply for a successful save and the broadcasts to save, if any.
pub fn handle_mark_broadcast_seen(body: &str, accounts: &[Account], broadcasts: Vec<Broadcast>) -> (out: (
    Reply,
    Option<Vec<Broadcast>>,
))
    ensures
        json::reply_view(out.0) == mark_seen_spec(body@, people::account_views(accounts@), plans::broadcast_views(broadcasts@)).0,
        opt_broadcasts_view(out.1) == mark_seen_spec(body@, people::account_views(accounts@), plans::broadcast_views(broadcasts@)).1,
{
    let requester = match checked_requester(body, accounts) {
        Some(r) => r,
        None => {
            return (unknown_user_reply(), None);
        },
    };
    let id = sanitize_task_text(field_or_empty(body, "id").as_str(), 100);
    let idc = chars_of(id.as_str());
    let mut broadcasts = broadcasts;
    let i = match find_broadcast(broadcasts.as_slice(), &idc) {
        Some(i) => i,
        None => {
            return (
                json_response("404 Not Found", "{\"ok\":false,\"error\":\"Unknown broadcast\"}"),
                None,
            );
        },
    };
    let ghost before = plans::broadcast_views(broadcasts@);
    let rc = chars_of(requester.as_str());
    let seen = fields::chars_of_strings(broadcasts[i].seen_by.as_slice());
    let mut updated = copy_broadcast(&broadcasts[i]);
    if !fields::has_name_chars(&seen, &rc) {
        let ghost prev = text::string_views(updated.seen_by@);
        updated.seen_by.push(requester);
        assert(text::string_views(updated.seen_by@) =~= prev.push(rc@));
    }
    broadcasts.set(i, updated);
    assert(plans::broadcast_views(broadcasts@) =~= mark_seen_spec(body@, people::account_views(accounts@), before).1.unwrap());
    let reply = broadcasts_reply_of(broadcasts.as_slice());
    (reply, Some(broadcasts))
}

// ------------------------------------------------------------------
// Events
// ------------------------------------------------------------------

/// The event a request describes.
pub open spec fn new_event(body: Seq<char>, requester: Seq<char>, now_ms: u128) -> EventView {
    EventView {
        id: auth::id_text("event-"@, now_ms),
        title: fields::sanitize_text(json::field_text(body, "title"@), 100),
        start_date: json::field_text(body, "startDate"@),
        start_time: json::field_text(body, "startTime"@),
        end_date: json::field_text(body, "endDate"@),
        end_time: json::field_text(body, "endTime"@),
        assignees: fields::parse_assignees(json::field_text(body, "assignees"@)),
        requester,
        created_at: fields::sanitize_text(json::field_text(body, "createdAt"@), 40),
        note: fields::sanitize_note(json::field_text(body, "note"@), 2000),
    }
}

/// An event with a title, valid dates and non-empty valid times.
pub open spec fn event_ok(e: EventView) -> bool {
    e.title.len() > 0 && fields::valid_date_key(e.start_date) && fields::valid_time(e.start_time)
        && fields::valid_date_key(e.end_date) && fields::valid_time(e.end_time)
        && e.start_time.len() > 0 && e.end_time.len() > 0
}

pub open spec fn opt_events_view(o: Option<Vec<EventPlan>>) -> Option<Seq<EventView>> {
    match o {
        Some(v) => Some(plans::event_views(v@)),
        None => None,
    }
}

pub open spec fn add_event_spec(
    body: Seq<char>,
    accs: Seq<AccountView>,
    es: Seq<EventView>,
    now_ms: u128,
) -> (ReplyView, Option<Seq<EventView>>) {
    if !requester_ok(body, accs) {
        (unknown_user(), None)
    } else {
        let e = new_event(body, requester_of(body), now_ms);
        if !event_ok(e) {
            (json::json_reply("400 Bad Request"@, "{\"ok\":false,\"error\":\"Invalid event\"}"@), None)
        } else {
            (events_reply(es.push(e)), Some(es.push(e)))
        }
    }
}

/// Adds an event for a known requester, with the id made from `now_ms`.
/// Returns the reply for a successful save and the events to save, if any.
pub fn handle_add_event(body: &str, accounts: &[Account], events: Vec<EventPlan>, now_ms: u128) -> (out: (
    Reply,
    Option<Vec<EventPlan>>,
))
    ensures
        json::reply_view(out.0) == add_event_spec(body@, people::account_views(accounts@), plans::event_views(events@), now_ms).0,
        opt_events_view(out.1) == add_event_spec(body@, people::account_views(accounts@), plans::event_views(events@), now_ms).1,
{
    let requester = match checked_requester(body, accounts) {
        Some(r) => r,
        None => {
            return (unknown_user_reply(), None);
        },
    };
    let title = sanitize_task_text(field_or_empty(body, "title").as_str(), 100);
    let start_date = field_or_empty(body, "startDate");
    let start_time = field_or_empty(body, "startTime");
    let end_date = field_or_empty(body, "endDate");
    let end_time = field_or_empty(body, "endTime");
    let created_at = sanitize_task_text(field_or_empty(body, "createdAt").as_str(), 40);
    let note = sanitize_note_text(field_or_empty(body, "note").as_str(), 2000);
    let assignees = parse_assignees_field(field_or_empty(body, "assignees").as_str());
    if title.as_str().is_empty() || !is_valid_date_key(start_date.as_str()) || !is_valid_time_value(
        start_time.as_str(),
    ) || !is_valid_date_key(end_date.as_str()) || !is_valid_time_value(end_time.as_str())
        || start_time.as_str().is_empty() || end_time.as_str().is_empty() {
        return (
            json_response("400 Bad Request", "{\"ok\":false,\"error\":\"Invalid event\"}"),
            None,
        );
    }
    let mut events = events;
    let ghost before = plans::event_views(events@);
    let e = EventPlan {
        id: create_event_id(now_ms),
        title,
        start_date,
        start_time,
        end_date,
        end_time,
        assignees,
        requester,
        created_at,
        note,
    };
    assert(e@ == new_event(body@, requester_of(body@), now_ms));
    events.push(e);
    assert(plans::event_views(events@) =~= before.push(new_event(body@, requester_of(body@), now_ms)));
    let reply = events_reply_of(events.as_slice());
    (reply, Some(events))
}

/// What deleting an event does: an error reply, or the events to save (the
/// reply then lists the events read back after saving).
pub open spec fn delete_event_spec(
    body: Seq<char>,
    accs: Seq<AccountView>,
    groups: Seq<GroupView>,
    es: Seq<EventView>,
) -> Result<Seq<EventView>, ReplyView> {
    if !requester_ok(body, accs) {
        Err(unknown_user())
    } else {
        let id = fields::sanitize_text(json::field_text(body, "id"@), 100);
        match lists::first_index(es, plans::event_id_is(id)) {
            None => Err(
                json::json_reply("404 Not Found"@, "{\"ok\":false,\"error\":\"Unknown event\"}"@),
            ),
            Some(i) => if !access::may_delete(es[i].requester, es[i].assignees, requester_of(body), groups) {
                Err(forbidden("event"@))
            } else {
                Ok(lists::drop_where(es, plans::event_id_is(id)))
            },
        }
    }
}

pub open spec fn delete_event_view(r: Result<Vec<EventPlan>, Reply>) -> Result<Seq<EventView>, ReplyView> {
    match r {
        Ok(v) => Ok(plans::event_views(v@)),
        Err(reply) => Err(json::reply_view(reply)),
    }
}

/// Deletes the event with the id when the requester may: either an error
/// reply, or the events to save. After saving, the reply lists the events
/// read back from the file (`events_reply_of`).
pub fn handle_delete_event(body: &str, accounts: &[Account], groups: &[Group], events: Vec<EventPlan>) -> (out: Result<
    Vec<EventPlan>,
    Reply,
>)
    ensures
        delete_event_view(out) == delete_event_spec(body@, people::account_views(accounts@), people::group_views(groups@), plans::event_views(events@)),
{
    let requester = match checked_requester(body, accounts) {
        Some(r) => r,
        None => {
            return Err(unknown_user_reply());
        },
    };
    let id = sanitize_task_text(field_or_empty(body, "id").as_str(), 100);
    let idc = chars_of(id.as_str());
    let i = match find_event(events.as_slice(), &idc) {
        Some(i) => i,
        None => {
            return Err(json_response("404 Not Found", "{\"ok\":false,\"error\":\"Unknown event\"}"));
        },
    };
    if !can_delete_event(&events[i], requester.as_str(), groups) {
        return Err(forbidden_reply("event"));
    }
    Ok(events_without_id(events.as_slice(), &idc))
}

// ------------------------------------------------------------------
// Laws
// ------------------------------------------------------------------

/// Marking a broadcast seen a second time changes nothing: the same
/// broadcasts are saved and listed.
pub proof fn lemma_mark_seen_twice(body: Seq<char>, accs: Seq<AccountView>, bs: Seq<BroadcastView>)
    requires
        mark_seen_spec(body, accs, bs).1 is Some,
    ensures
        mark_seen_spec(body, accs, mark_seen_spec(body, accs, bs).1.unwrap()) == mark_seen_spec(
            body,
            accs,
            bs,
        ),
{
    let id = fields::sanitize_text(json::field_text(body, "id"@), 100);
    let requester = requester_of(body);
    let i = lists::first_index(bs, plans::broadcast_id_is(id)).unwrap();
    lists::lemma_first_index_found(bs, plans::broadcast_id_is(id));
    let b = bs[i];
    let seen = if fields::has_name(b.seen_by, requester) {
        b.seen_by
    } else {
        b.seen_by.push(requester)
    };
    let nb = BroadcastView { seen_by: seen, ..b };
    let updated = bs.update(i, nb);
    assert(plans::broadcast_id_is(id)(nb));
    lists::lemma_first_index_update(bs, plans::broadcast_id_is(id), i, nb);
    assert(fields::has_name(seen, requester)) by {
        if !fields::has_name(b.seen_by, requester) {
            assert(text::same_name_spec(seen[seen.len() - 1], requester));
        }
    }
    assert(updated[i] == nb);
    assert(updated.update(i, BroadcastView { seen_by: nb.seen_by, ..nb }) =~= updated);
}

/// Once deleted, a task id is found no more: deleting it again answers that
/// the task is unknown.
pub proof fn lemma_delete_task_twice(
    body: Seq<char>,
    accs: Seq<AccountView>,
    groups: Seq<GroupView>,
    tasks: Seq<TaskView>,
)
    requires
        delete_task_spec(body, accs, groups, tasks).1 is Some,
    ensures
        delete_task_spec(body, accs, groups, delete_task_spec(body, accs, groups, tasks).1.unwrap()).0
            == json::json_reply("404 Not Found"@, "{\"ok\":false,\"error\":\"Unknown task\"}"@),
{
    let id = fields::sanitize_text(json::field_text(body, "id"@), 100);
    let remaining = lists::drop_where(tasks, plans::task_id_is(id));
    lists::lemma_drop_where_props(tasks, plans::task_id_is(id));
    lists::lemma_first_index(remaining, plans::task_id_is(id), remaining.len() as int);
}

/// Once deleted, an event id is found no more: deleting it again answers
/// that the event is unknown.
pub proof fn lemma_delete_event_twice(
    body: Seq<char>,
    accs: Seq<AccountView>,
    groups: Seq<GroupView>,
    events: Seq<EventView>,
)
    requires
        delete_event_spec(body, accs, groups, events) is Ok,
    ensures
        delete_event_spec(body, accs, groups, delete_event_spec(body, accs, groups, events)->Ok_0)
            == Err::<Seq<EventView>, ReplyView>(
            json::json_reply("404 Not Found"@, "{\"ok\":false,\"error\":\"Unknown event\"}"@),
        ),
{
    let id = fields::sanitize_text(json::field_text(body, "id"@), 100);
    let remaining = lists::drop_where(events, plans::event_id_is(id));
    lists::lemma_drop_where_props(events, plans::event_id_is(id));
    lists::lemma_first_index(remaining, plans::event_id_is(id), remaining.len() as int);
}

/// What adding a task saves: the tasks it was given, then one task made
/// from the request's fields: `task-` and the time as its id, the sanitized
/// title, the date and time as sent, the parsed assignees, the sanitized
/// requester, creation time and note. It saves exactly when the requester
/// is a known account other than the overview account, the title is not
/// empty, the date is a date key and the time is empty or valid.
pub proof fn lemma_add_task_saves_request(body: Seq<char>, accs: Seq<AccountView>, ts: Seq<TaskView>, now_ms: u128)
    ensures
        add_task_spec(body, accs, ts, now_ms).1 matches Some(saved) ==> {
            &&& saved.len() == ts.len() + 1
            &&& saved.take(ts.len() as int) == ts
            &&& saved.last().id == "task-"@ + text::decimal(now_ms as nat)
            &&& saved.last().title == fields::sanitize_text(json::field_text(body, "title"@), 100)
            &&& saved.last().date == json::field_text(body, "date"@)
            &&& saved.last().time == json::field_text(body, "time"@)
            &&& saved.last().assignees == fields::parse_assignees(json::field_text(body, "assignees"@))
            &&& saved.last().requester == fields::sanitize_name(json::field_text(body, "requester"@))
            &&& saved.last().created_at == fields::sanitize_text(json::field_text(body, "createdAt"@), 40)
            &&& saved.last().note == fields::sanitize_note(json::field_text(body, "note"@), 2000)
        },
        add_task_spec(body, accs, ts, now_ms).1 is Some <==> (requester_ok(body, accs)
            && fields::sanitize_text(json::field_text(body, "title"@), 100).len() > 0
            && fields::valid_date_key(json::field_text(body, "date"@))
            && fields::valid_time(json::field_text(body, "time"@))),
{
    if let Some(saved) = add_task_spec(body, accs, ts, now_ms).1 {
        assert(saved == ts.push(new_task(body, requester_of(body), now_ms)));
        assert(saved.take(ts.len() as int) =~= ts);
    }
}

/// What sending a broadcast saves: the broadcasts it was given, then one
/// made from the request's fields: `broadcast-` and the time as its id, the
/// sanitized message, the parsed targets, the sanitized requester and
/// creation time, and nobody who has seen it yet. It saves exactly when the
/// requester is a known account other than the overview account and the
/// message is not empty.
pub proof fn lemma_add_broadcast_saves_request(
    body: Seq<char>,
    accs: Seq<AccountView>,
    bs: Seq<BroadcastView>,
    now_ms: u128,
)
    ensures
        add_broadcast_spec(body, accs, bs, now_ms).1 matches Some(saved) ==> {
            &&& saved.len() == bs.len() + 1
            &&& saved.take(bs.len() as int) == bs
            &&& saved.last().id == "broadcast-"@ + text::decimal(now_ms as nat)
            &&& saved.last().message == fields::sanitize_note(json::field_text(body, "message"@), 500)
            &&& saved.last().targets == fields::parse_assignees(json::field_text(body, "targets"@))
            &&& saved.last().requester == fields::sanitize_name(json::field_text(body, "requester"@))
            &&& saved.last().created_at == fields::sanitize_text(json::field_text(body, "createdAt"@), 40)
            &&& saved.last().seen_by.len() == 0
        },
        add_broadcast_spec(body, accs, bs, now_ms).1 is Some <==> (requester_ok(body, accs)
            && fields::sanitize_note(json::field_text(body, "message"@), 500).len() > 0),
{
    if let Some(saved) = add_broadcast_spec(body, accs, bs, now_ms).1 {
        assert(saved.take(bs.len() as int) =~= bs);
    }
}

/// What adding an event saves: the events it was given, then one event made
/// from the request's fields: `event-` and the time as its id, the sanitized
/// title, the start and end dates and times as sent, the parsed assignees,
/// the sanitized requester, creation time and note. It saves exactly when
/// the requester is a known account other than the overview account, the
/// title is not empty, both dates are date keys and both times are valid
/// and not empty.
pub proof fn lemma_add_event_saves_request(body: Seq<char>, accs: Seq<AccountView>, es: Seq<EventView>, now_ms: u128)
    ensures
        add_event_spec(body, accs, es, now_ms).1 matches Some(saved) ==> {
            &&& saved.len() == es.len() + 1
            &&& saved.take(es.len() as int) == es
            &&& saved.last().id == "event-"@ + text::decimal(now_ms as nat)
            &&& saved.last().title == fields::sanitize_text(json::field_text(body, "title"@), 100)
            &&& saved.last().start_date == json::field_text(body, "startDate"@)
            &&& saved.last().start_time == json::field_text(body, "startTime"@)
            &&& saved.last().end_date == json::field_text(body, "endDate"@)
            &&& saved.last().end_time == json::field_text(body, "endTime"@)
            &&& saved.last().assignees == fields::parse_assignees(json::field_text(body, "assignees"@))
            &&& saved.last().requester == fields::sanitize_name(json::field_text(body, "requester"@))
            &&& saved.last().created_at == fields::sanitize_text(json::field_text(body, "createdAt"@), 40)
            &&& saved.last().note == fields::sanitize_note(json::field_text(body, "note"@), 2000)
        },
        add_event_spec(body, accs, es, now_ms).1 is Some <==> (requester_ok(body, accs)
            && fields::sanitize_text(json::field_text(body, "title"@), 100).len() > 0
            && fields::valid_date_key(json::field_text(body, "startDate"@))
            && fields::valid_time(json::field_text(body, "startTime"@))
            && json::field_text(body, "startTime"@).len() > 0
            && fields::valid_date_key(json::field_text(body, "endDate"@))
            && fields::valid_time(json::field_text(body, "endTime"@))
            && json::field_text(body, "endTime"@).len() > 0),
{
    if let Some(saved) = add_event_spec(body, accs, es, now_ms).1 {
        assert(saved.take(es.len() as int) =~= es);
    }
}

/// What deleting a task saves: exactly the tasks whose id is not the
/// requested (sanitized) id, every one of them, in their order. It saves
/// exactly when the requester is a known account other than the overview
/// account, some task has that id, and the requester may delete the first
/// such task.
pub proof fn lemma_delete_task_keeps_the_rest(
    body: Seq<char>,
    accs: Seq<AccountView>,
    groups: Seq<GroupView>,
    ts: Seq<TaskView>,
)
    ensures
        ({
            let id = fields::sanitize_text(json::field_text(body, "id"@), 100);
            &&& delete_task_spec(body, accs, groups, ts).1 matches Some(saved) ==> {
                &&& forall|i: int| 0 <= i < saved.len() ==> (#[trigger] saved[i]).id != id
                    && exists|j: int| 0 <= j < ts.len() && ts[j] == saved[i]
                &&& forall|j: int| 0 <= j < ts.len() && (#[trigger] ts[j]).id != id ==> exists|k: int|
                    0 <= k < saved.len() && saved[k] == ts[j]
                &&& saved.len() < ts.len()
            }
            &&& delete_task_spec(body, accs, groups, ts).1 is Some <==> (requester_ok(body, accs)
                && exists|j: int|
                0 <= j < ts.len() && (#[trigger] ts[j]).id == id && (forall|k: int|
                    0 <= k < j ==> (#[trigger] ts[k]).id != id) && access::may_delete(
                    ts[j].requester,
                    ts[j].assignees,
                    requester_of(body),
                    groups,
                ))
        }),
{
    let id = fields::sanitize_text(json::field_text(body, "id"@), 100);
    let p = plans::task_id_is(id);
    lists::lemma_first_index_found(ts, p);
    lists::lemma_drop_where_props(ts, p);
    assert forall|j: int| 0 <= j < ts.len() && (#[trigger] ts[j]).id != id implies exists|k: int|
        0 <= k < lists::drop_where(ts, p).len() && lists::drop_where(ts, p)[k] == ts[j] by {
        lists::lemma_drop_where_keeps(ts, p, j);
    }
    if let Some(j) = lists::first_index(ts, p) {
        lemma_drop_where_shorter(ts, p, j);
        assert forall|k: int| 0 <= k < j implies (#[trigger] ts[k]).id != id by {
            assert(!p(ts[k]));
        }
        assert(ts[j].id == id);
    }
    if requester_ok(body, accs) && exists|j: int|
        0 <= j < ts.len() && (#[trigger] ts[j]).id == id && (forall|k: int| 0 <= k < j ==> (#[trigger] ts[k]).id != id)
            && access::may_delete(ts[j].requester, ts[j].assignees, requester_of(body), groups) {
        let j = choose|j: int|
            0 <= j < ts.len() && (#[trigger] ts[j]).id == id && (forall|k: int| 0 <= k < j ==> (#[trigger] ts[k]).id != id)
                && access::may_delete(ts[j].requester, ts[j].assignees, requester_of(body), groups);
        lists::lemma_first_index(ts, p, j);
    }
    assert(delete_task_spec(body, accs, groups, ts).1 matches Some(saved) ==> forall|i: int| 0 <= i < saved.len() ==> (#[trigger] saved[i]).id != id);
    assert(delete_task_spec(body, accs, groups, ts).1 matches Some(saved) ==> forall|i: int| 0 <= i < saved.len() ==> exists|j: int| 0 <= j < ts.len() && ts[j] == #[trigger] saved[i]);
    assert(delete_task_spec(body, accs, groups, ts).1 matches Some(saved) ==> saved.len() < ts.len());
    assert(delete_task_spec(body, accs, groups, ts).1 is Some ==> requester_ok(body, accs));
}

/// Dropping the elements that satisfy `p` from a list that has one makes it
/// shorter.
proof fn lemma_drop_where_shorter<T>(list: Seq<T>, p: spec_fn(T) -> bool, j: int)
    requires
        0 <= j < list.len(),
        p(list[j]),
    ensures
        lists::drop_where(list, p).len() < list.len(),
    decreases list.len(),
{
    lists::lemma_drop_where_props(list.drop_last(), p);
    if j < list.len() - 1 {
        assert(list.drop_last()[j] == list[j]);
        lemma_drop_where_shorter(list.drop_last(), p, j);
    }
}

/// What deleting an event saves: exactly the events whose id is not the
/// requested (sanitized) id, every one of them, in their order. It saves
/// exactly when the requester is a known account other than the overview
/// account, some event has that id, and the requester may delete the first
/// such event.
pub proof fn lemma_delete_event_keeps_the_rest(
    body: Seq<char>,
    accs: Seq<AccountView>,
    groups: Seq<GroupView>,
    es: Seq<EventView>,
)
    ensures
        ({
            let id = fields::sanitize_text(json::field_text(body, "id"@), 100);
            &&& delete_event_spec(body, accs, groups, es) matches Ok(saved) ==> {
                &&& forall|i: int| 0 <= i < saved.len() ==> (#[trigger] saved[i]).id != id
                    && exists|j: int| 0 <= j < es.len() && es[j] == saved[i]
                &&& forall|j: int| 0 <= j < es.len() && (#[trigger] es[j]).id != id ==> exists|k: int|
                    0 <= k < saved.len() && saved[k] == es[j]
                &&& saved.len() < es.len()
            }
            &&& delete_event_spec(body, accs, groups, es) is Ok <==> (requester_ok(body, accs)
                && exists|j: int|
                0 <= j < es.len() && (#[trigger] es[j]).id == id && (forall|k: int|
                    0 <= k < j ==> (#[trigger] es[k]).id != id) && access::may_delete(
                    es[j].requester,
                    es[j].assignees,
                    requester_of(body),
                    groups,
                ))
        }),
{
    let id = fields::sanitize_text(json::field_text(body, "id"@), 100);
    let p = plans::event_id_is(id);
    lists::lemma_first_index_found(es, p);
    lists::lemma_drop_where_props(es, p);
    assert forall|j: int| 0 <= j < es.len() && (#[trigger] es[j]).id != id implies exists|k: int|
        0 <= k < lists::drop_where(es, p).len() && lists::drop_where(es, p)[k] == es[j] by {
        lists::lemma_drop_where_keeps(es, p, j);
    }
    if let Some(j) = lists::first_index(es, p) {
        lemma_drop_where_shorter(es, p, j);
        assert forall|k: int| 0 <= k < j implies (#[trigger] es[k]).id != id by {
            assert(!p(es[k]));
        }
        assert(es[j].id == id);
    }
    if requester_ok(body, accs) && exists|j: int|
        0 <= j < es.len() && (#[trigger] es[j]).id == id && (forall|k: int| 0 <= k < j ==> (#[trigger] es[k]).id != id)
            && access::may_delete(es[j].requester, es[j].assignees, requester_of(body), groups) {
        let j = choose|j: int|
            0 <= j < es.len() && (#[trigger] es[j]).id == id && (forall|k: int| 0 <= k < j ==> (#[trigger] es[k]).id != id)
                && access::may_delete(es[j].requester, es[j].assignees, requester_of(body), groups);
        lists::lemma_first_index(es, p, j);
    }
    assert(delete_event_spec(body, accs, groups, es) matches Ok(saved) ==> forall|i: int| 0 <= i < saved.len() ==> (#[trigger] saved[i]).id != id);
    assert(delete_event_spec(body, accs, groups, es) matches Ok(saved) ==> forall|i: int| 0 <= i < saved.len() ==> exists|j: int| 0 <= j < es.len() && es[j] == #[trigger] saved[i]);
    assert(delete_event_spec(body, accs, groups, es) matches Ok(saved) ==> saved.len() < es.len());
    assert(delete_event_spec(body, accs, groups, es) is Ok ==> requester_ok(body, accs));
}

/// What marking a broadcast seen saves: the same broadcasts, where the first
/// one with the requested (sanitized) id now lists the requester among those
/// who have seen it, adding the requester at the end only if not listed
/// yet; nothing else changes. It saves exactly when the requester is a known
/// account other than the overview account and some broadcast has that id.
pub proof fn lemma_mark_seen_records_requester(body: Seq<char>, accs: Seq<AccountView>, bs: Seq<BroadcastView>)
    ensures
        ({
            let id = fields::sanitize_text(json::field_text(body, "id"@), 100);
            let r = fields::sanitize_name(json::field_text(body, "requester"@));
            &&& mark_seen_spec(body, accs, bs).1 matches Some(saved) ==> exists|k: int| {
                &&& 0 <= k < bs.len()
                &&& bs[k].id == id
                &&& (forall|i: int| 0 <= i < k ==> (#[trigger] bs[i]).id != id)
                &&& saved.len() == bs.len()
                &&& (forall|i: int| 0 <= i < bs.len() && i != k ==> #[trigger] saved[i] == bs[i])
                &&& saved[k].id == bs[k].id && saved[k].message == bs[k].message
                &&& saved[k].targets == bs[k].targets && saved[k].requester == bs[k].requester
                &&& saved[k].created_at == bs[k].created_at
                &&& fields::has_name(saved[k].seen_by, r)
                &&& saved[k].seen_by == (if fields::has_name(bs[k].seen_by, r) {
                    bs[k].seen_by
                } else {
                    bs[k].seen_by.push(r)
                })
            }
            &&& mark_seen_spec(body, accs, bs).1 is Some <==> (requester_ok(body, accs) && exists|j: int|
                0 <= j < bs.len() && (#[trigger] bs[j]).id == id)
        }),
{
    let id = fields::sanitize_text(json::field_text(body, "id"@), 100);
    let r = fields::sanitize_name(json::field_text(body, "requester"@));
    lists::lemma_first_index_found(bs, plans::broadcast_id_is(id));
    if let Some(saved) = mark_seen_spec(body, accs, bs).1 {
        let k = lists::first_index(bs, plans::broadcast_id_is(id)).unwrap();
        if !fields::has_name(bs[k].seen_by, r) {
            let s = bs[k].seen_by.push(r);
            assert(s[s.len() - 1] == r);
            text::lemma_same_name_equivalence(r, r, r);
        }
        assert(bs[k].id == id);
    }
    if requester_ok(body, accs) && exists|j: int| 0 <= j < bs.len() && (#[trigger] bs[j]).id == id {
        let j = choose|j: int| 0 <= j < bs.len() && (#[trigger] bs[j]).id == id;
        assert(plans::broadcast_id_is(id)(bs[j]));
    }
}

} // verus!
