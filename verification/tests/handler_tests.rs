use lib::access::{can_delete_task, is_member_of_group, is_valid_task_requester};
use lib::admin_api::{
    handle_add_account, handle_add_group, handle_admin_login, handle_delete_account,
    handle_delete_group, handle_group_member, handle_user_login,
};
use lib::auth::{
    create_broadcast_id, create_event_id, create_server_id, host_time_json, password_hash,
    trim_line_endings, verify_admin_password,
};
use lib::people::{Account, Group};
use lib::planner_api::{
    events_reply_of, handle_add_broadcast, handle_add_event, handle_add_task,
    handle_delete_event, handle_delete_task, handle_mark_broadcast_seen,
};
use lib::plans::Task;

const ADMIN: &str = "99583af7d65ae9a8";

fn s(v: &str) -> String {
    v.to_string()
}

fn accounts() -> Vec<Account> {
    vec![
        Account { name: s("Anna"), pin_hash: password_hash("1234") },
        Account { name: s("Bob"), pin_hash: password_hash("0000") },
    ]
}

fn groups() -> Vec<Group> {
    vec![Group { name: s("Kids"), members: vec![s("Bob")] }]
}

fn admin() -> Option<&'static str> {
    Some("53c8f1defd41bc94\n")
}

#[test]
fn password_hash_values() {
    assert_eq!(password_hash("1234"), "5b4c47ddfae9c814");
    assert_eq!(password_hash("secret"), "53c8f1defd41bc94");
    assert_eq!(password_hash(""), ADMIN);
    assert_eq!(password_hash("é"), "369c2a79c45eabe8");
    assert_eq!(password_hash("0000").len(), 16);
}

#[test]
fn admin_password_check() {
    assert!(verify_admin_password("secret", admin()));
    assert!(!verify_admin_password("Secret", admin()));
    assert!(!verify_admin_password("secret", None));
}

#[test]
fn ids_and_clock() {
    assert_eq!(create_server_id(1717000000123), "task-1717000000123");
    assert_eq!(create_broadcast_id(0), "broadcast-0");
    assert_eq!(create_event_id(42), "event-42");
    assert_eq!(host_time_json(5), r#"{"nowMs":5}"#);
}

#[test]
fn command_line_password_loses_line_endings() {
    assert_eq!(trim_line_endings("pw\r\n\n"), "pw");
    assert_eq!(trim_line_endings("p\nw"), "p\nw");
    assert_eq!(trim_line_endings("\r\n"), "");
}

#[test]
fn admin_login_replies() {
    let ok = handle_admin_login(r#"{"password":"secret"}"#, admin());
    assert_eq!(ok.0, "200 OK");
    assert_eq!(ok.2, r#"{"ok":true}"#);
    let bad = handle_admin_login(r#"{"password":"nope"}"#, admin());
    assert_eq!(bad.0, "401 Unauthorized");
    assert_eq!(bad.2, r#"{"ok":false,"error":"Wrong password"}"#);
}

#[test]
fn user_login_replies() {
    let ok = handle_user_login(r#"{"name":"anna","pin":"1234"}"#, admin(), &accounts());
    assert_eq!(ok.0, "200 OK");
    assert_eq!(ok.2, r#"{"ok":true,"name":"anna"}"#);
    let wrong = handle_user_login(r#"{"name":"anna","pin":"0000"}"#, admin(), &accounts());
    assert_eq!(wrong.0, "401 Unauthorized");
    assert_eq!(wrong.2, r#"{"ok":false,"error":"Wrong name or PIN"}"#);
    let overview = handle_user_login(r#"{"name":"Overview","pin":"secret"}"#, admin(), &accounts());
    assert_eq!(overview.2, r#"{"ok":true,"name":"overview"}"#);
    let overview_pin = handle_user_login(r#"{"name":"overview","pin":"1234"}"#, admin(), &accounts());
    assert_eq!(overview_pin.0, "401 Unauthorized");
}

#[test]
fn add_account_new_and_existing() {
    let (reply, save) = handle_add_account(
        r#"{"password":"secret","name":" Carl ","pin":"4321"}"#,
        admin(),
        accounts(),
    );
    assert_eq!(reply.0, "200 OK");
    assert_eq!(reply.2, r#"{"ok":true,"accounts":["overview","Anna","Bob","Carl"]}"#);
    let saved = save.unwrap();
    assert_eq!(saved[2].pin_hash, password_hash("4321"));
    let (reply, save) = handle_add_account(
        r#"{"password":"secret","name":"ANNA","pin":"9999"}"#,
        admin(),
        accounts(),
    );
    assert_eq!(reply.2, r#"{"ok":true,"accounts":["overview","Anna","Bob"]}"#);
    let saved = save.unwrap();
    assert_eq!(saved[0].name, "Anna");
    assert_eq!(saved[0].pin_hash, password_hash("9999"));
}

#[test]
fn add_account_errors() {
    let r = handle_add_account(r#"{"password":"x","name":"Carl","pin":"4321"}"#, admin(), accounts());
    assert_eq!(r.0 .0, "401 Unauthorized");
    assert!(r.1.is_none());
    let r = handle_add_account(r#"{"password":"secret","name":"!!","pin":"4321"}"#, admin(), accounts());
    assert_eq!(r.0 .2, r#"{"ok":false,"error":"Name required"}"#);
    let r = handle_add_account(r#"{"password":"secret","name":"overview","pin":"4321"}"#, admin(), accounts());
    assert_eq!(r.0 .2, r#"{"ok":false,"error":"Overview is a built-in account"}"#);
    let r = handle_add_account(r#"{"password":"secret","name":"Carl","pin":"43a1"}"#, admin(), accounts());
    assert_eq!(r.0 .0, "400 Bad Request");
    assert_eq!(r.0 .2, r#"{"ok":false,"error":"Use a 4 digit PIN"}"#);
    assert!(r.1.is_none());
}

#[test]
fn sign_in_after_adding_an_account() {
    let (_, save) = handle_add_account(
        r#"{"password":"secret","name":"Carl","pin":"4321"}"#,
        admin(),
        accounts(),
    );
    let reply = handle_user_login(r#"{"name":"Carl","pin":"4321"}"#, admin(), &save.unwrap());
    assert_eq!(reply.2, r#"{"ok":true,"name":"Carl"}"#);
}

#[test]
fn delete_account_and_its_memberships() {
    let (reply, groups_save, accounts_save) =
        handle_delete_account(r#"{"password":"secret","name":"bob"}"#, admin(), accounts(), groups());
    assert_eq!(reply.2, r#"{"ok":true,"accounts":["overview","Anna"]}"#);
    assert!(groups_save.unwrap()[0].members.is_empty());
    let remaining = accounts_save.unwrap();
    assert_eq!(remaining.len(), 1);
    let login = handle_user_login(r#"{"name":"Bob","pin":"0000"}"#, admin(), &remaining);
    assert_eq!(login.0, "401 Unauthorized");
}

#[test]
fn overview_account_cannot_be_deleted() {
    let (reply, g, a) =
        handle_delete_account(r#"{"password":"secret","name":"OVERVIEW"}"#, admin(), accounts(), groups());
    assert_eq!(reply.0, "200 OK");
    assert_eq!(reply.2, r#"{"ok":true,"accounts":["overview","Anna","Bob"]}"#);
    assert!(g.is_none() && a.is_none());
    let (reply, _, _) =
        handle_delete_account(r#"{"password":"bad","name":"Bob"}"#, admin(), accounts(), groups());
    assert_eq!(reply.0, "401 Unauthorized");
}

#[test]
fn groups_add_delete_and_members() {
    let (reply, save) = handle_add_group(r#"{"password":"secret","name":"Parents"}"#, admin(), groups());
    assert_eq!(
        reply.2,
        r#"{"ok":true,"groups":[{"name":"Kids","members":["Bob"]},{"name":"Parents","members":[]}]}"#
    );
    let added = save.unwrap();
    let (again, none) = handle_add_group(r#"{"password":"secret","name":"parents"}"#, admin(), added);
    assert!(none.is_none());
    assert_eq!(again.0, "200 OK");
    let (reply, save) = handle_add_group(r#"{"password":"secret","name":" "}"#, admin(), groups());
    assert_eq!(reply.2, r#"{"ok":false,"error":"Name required"}"#);
    assert!(save.is_none());
    let (reply, save) = handle_delete_group(r#"{"password":"secret","name":"KIDS"}"#, admin(), groups());
    assert_eq!(reply.2, r#"{"ok":true,"groups":[]}"#);
    assert!(save.unwrap().is_empty());
}

#[test]
fn group_member_add_and_remove() {
    let (reply, save) = handle_group_member(
        r#"{"password":"secret","group":"kids","member":"anna","action":"add"}"#,
        admin(),
        &accounts(),
        groups(),
    );
    assert_eq!(reply.2, r#"{"ok":true,"groups":[{"name":"Kids","members":["Bob","anna"]}]}"#);
    let (reply, save) = handle_group_member(
        r#"{"password":"secret","group":"Kids","member":"ANNA","action":"remove"}"#,
        admin(),
        &accounts(),
        save.unwrap(),
    );
    assert_eq!(reply.2, r#"{"ok":true,"groups":[{"name":"Kids","members":["Bob"]}]}"#);
    assert_eq!(save.unwrap()[0].members, vec![s("Bob")]);
}

#[test]
fn group_member_errors() {
    let body = |g: &str, m: &str| format!(r#"{{"password":"secret","group":"{g}","member":"{m}"}}"#);
    let r = handle_group_member(&body("", "Anna"), admin(), &accounts(), groups());
    assert_eq!(r.0 .2, r#"{"ok":false,"error":"Group and member required"}"#);
    let r = handle_group_member(&body("Kids", "Zed"), admin(), &accounts(), groups());
    assert_eq!(r.0 .2, r#"{"ok":false,"error":"Unknown account"}"#);
    let r = handle_group_member(&body("Nope", "Anna"), admin(), &accounts(), groups());
    assert_eq!(r.0 .0, "404 Not Found");
    assert_eq!(r.0 .2, r#"{"ok":false,"error":"Unknown group"}"#);
}

#[test]
fn requesters_and_permissions() {
    assert!(is_valid_task_requester("overview", &accounts()));
    assert!(is_valid_task_requester("ANNA", &accounts()));
    assert!(!is_valid_task_requester("Zed", &accounts()));
    assert!(is_member_of_group("bob", "KIDS", &groups()));
    assert!(!is_member_of_group("Anna", "Kids", &groups()));
    assert!(!is_member_of_group("Bob", "Parents", &groups()));
    let t = Task {
        id: s("task-1"),
        title: s("T"),
        date: s("2024-05-31"),
        time: s(""),
        assignees: vec![s("@Kids")],
        requester: s("Anna"),
        created_at: s(""),
        note: s(""),
    };
    assert!(can_delete_task(&t, "anna", &groups()));
    assert!(can_delete_task(&t, "Bob", &groups()));
    assert!(!can_delete_task(&t, "Carl", &groups()));
}

#[test]
fn add_and_delete_tasks() {
    let body = r#"{"requester":"Anna","title":" Buy milk ","date":"2024-05-31","time":"9:30","assignees":"@Kids","createdAt":"now","note":"two\nlitres"}"#;
    let (reply, save) = handle_add_task(body, &accounts(), Vec::new(), 7);
    assert_eq!(
        reply.2,
        r#"{"ok":true,"tasks":[{"id":"task-7","title":"Buy milk","date":"2024-05-31","time":"9:30","assignees":["@Kids"],"requester":"Anna","createdAt":"now","note":"two litres"}]}"#
    );
    let tasks = save.unwrap();
    let (reply, _) = handle_delete_task(r#"{"requester":"Carl","id":"task-7"}"#, &accounts(), &groups(), tasks);
    assert_eq!(reply.0, "401 Unauthorized");
    let (_, save) = handle_add_task(body, &accounts(), Vec::new(), 7);
    let (reply, save) = handle_delete_task(r#"{"requester":"Bob","id":"task-7"}"#, &accounts(), &groups(), save.unwrap());
    assert_eq!(reply.2, r#"{"ok":true,"tasks":[]}"#);
    let (reply, none) = handle_delete_task(r#"{"requester":"Bob","id":"task-7"}"#, &accounts(), &groups(), save.unwrap());
    assert_eq!(reply.2, r#"{"ok":false,"error":"Unknown task"}"#);
    assert!(none.is_none());
}

#[test]
fn task_errors() {
    let r = handle_add_task(r#"{"requester":"overview","title":"x","date":"2024-05-31"}"#, &accounts(), Vec::new(), 1);
    assert_eq!(r.0 .2, r#"{"ok":false,"error":"Unknown user"}"#);
    let r = handle_add_task(r#"{"requester":"Anna","title":"x","date":"2024-5-31"}"#, &accounts(), Vec::new(), 1);
    assert_eq!(r.0 .2, r#"{"ok":false,"error":"Invalid task"}"#);
    let (_, save) = handle_add_task(r#"{"requester":"Anna","title":"x","date":"2024-05-31","assignees":"Anna"}"#, &accounts(), Vec::new(), 1);
    let r = handle_delete_task(r#"{"requester":"Bob","id":"task-1"}"#, &accounts(), &groups(), save.unwrap());
    assert_eq!(r.0 .0, "403 Forbidden");
    let expected = format!(r#"{{"ok":false,"error":"Not allowed to delete this {}"}}"#, "task");
    assert_eq!(r.0 .2, expected);
}

#[test]
fn broadcasts_send_and_mark_seen() {
    let (reply, save) = handle_add_broadcast(
        r#"{"requester":"Anna","message":" Dinner\nat 6 ","targets":"@Kids","createdAt":"now"}"#,
        &accounts(),
        Vec::new(),
        3,
    );
    assert_eq!(
        reply.2,
        r#"{"ok":true,"broadcasts":[{"id":"broadcast-3","message":"Dinner at 6","targets":["@Kids"],"requester":"Anna","createdAt":"now","seenBy":[]}]}"#
    );
    let (_, save) = handle_mark_broadcast_seen(r#"{"requester":"Bob","id":"broadcast-3"}"#, &accounts(), save.unwrap());
    let once = save.unwrap();
    assert_eq!(once[0].seen_by, vec![s("Bob")]);
    let (_, save) = handle_mark_broadcast_seen(r#"{"requester":"bob","id":"broadcast-3"}"#, &accounts(), once);
    assert_eq!(save.unwrap()[0].seen_by, vec![s("Bob")]);
    let r = handle_add_broadcast(r#"{"requester":"Anna","message":"  "}"#, &accounts(), Vec::new(), 3);
    assert_eq!(r.0 .2, r#"{"ok":false,"error":"Message required"}"#);
    let r = handle_mark_broadcast_seen(r#"{"requester":"Bob","id":"nope"}"#, &accounts(), Vec::new());
    assert_eq!(r.0 .2, r#"{"ok":false,"error":"Unknown broadcast"}"#);
}

#[test]
fn events_add_and_delete() {
    let body = r#"{"requester":"Anna","title":"Party","startDate":"2024-06-01","startTime":"18:00","endDate":"2024-06-01","endTime":"23:00","assignees":"","note":"cake"}"#;
    let (reply, save) = handle_add_event(body, &accounts(), Vec::new(), 9);
    assert_eq!(reply.0, "200 OK");
    let events = save.unwrap();
    assert_eq!(events[0].id, "event-9");
    let listed = events_reply_of(&events);
    assert_eq!(
        listed.2,
        r#"{"ok":true,"events":[{"id":"event-9","title":"Party","startDate":"2024-06-01","startTime":"18:00","endDate":"2024-06-01","endTime":"23:00","assignees":[],"requester":"Anna","createdAt":"","note":"cake"}]}"#
    );
    let remaining = handle_delete_event(r#"{"requester":"Bob","id":"event-9"}"#, &accounts(), &groups(), events).unwrap();
    assert!(remaining.is_empty());
    let missing = handle_delete_event(r#"{"requester":"Bob","id":"event-9"}"#, &accounts(), &groups(), remaining);
    assert_eq!(missing.err().unwrap().2, r#"{"ok":false,"error":"Unknown event"}"#);
    let no_time = body.replace("\"18:00\"", "\"\"");
    let r = handle_add_event(&no_time, &accounts(), Vec::new(), 9);
    assert_eq!(r.0 .2, r#"{"ok":false,"error":"Invalid event"}"#);
}
