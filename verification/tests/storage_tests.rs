use lib::people::{
    accounts_file_text, accounts_json, groups_file_text, groups_json, parse_account_line,
    parse_accounts_file, parse_group_line, parse_groups_file, Account, Group,
};
use lib::plans::{
    broadcasts_file_text, broadcasts_json, events_file_text, events_json, parse_broadcast_line,
    parse_broadcasts_file, parse_event_line, parse_events_file, parse_task_line, parse_tasks_file,
    tasks_file_text, tasks_json, Broadcast, EventPlan, Task,
};

fn s(v: &str) -> String {
    v.to_string()
}

fn account(name: &str, hash: &str) -> Account {
    Account { name: s(name), pin_hash: s(hash) }
}

fn task(id: &str, title: &str, assignees: &[&str], note: &str) -> Task {
    Task {
        id: s(id),
        title: s(title),
        date: s("2024-05-31"),
        time: s("09:30"),
        assignees: assignees.iter().map(|a| s(a)).collect(),
        requester: s("Anna"),
        created_at: s("2024-05-30T10:00"),
        note: s(note),
    }
}

#[test]
fn account_line_parses() {
    let a = parse_account_line(" Anna \t 5b4c47ddfae9c814 ").unwrap();
    assert_eq!(a.name, "Anna");
    assert_eq!(a.pin_hash, "5b4c47ddfae9c814");
}

#[test]
fn account_line_needs_name_tab_and_hash() {
    assert!(parse_account_line("Anna 5b4c47ddfae9c814").is_none());
    assert!(parse_account_line("!!!\tabc").is_none());
    assert!(parse_account_line("Anna\t   ").is_none());
}

#[test]
fn accounts_file_keeps_first_of_each_name() {
    let accounts = parse_accounts_file("Anna\th1\nbad line\nANNA\th2\r\nBob\th3\n");
    assert_eq!(accounts.len(), 2);
    assert_eq!(accounts[0].name, "Anna");
    assert_eq!(accounts[0].pin_hash, "h1");
    assert_eq!(accounts[1].name, "Bob");
}

#[test]
fn accounts_file_text_and_back() {
    let accounts = vec![account("Anna", "h1"), account("Bob", "h2")];
    let text = accounts_file_text(&accounts);
    assert_eq!(text, "Anna\th1\nBob\th2\n");
    let back = parse_accounts_file(&text);
    assert_eq!(back.len(), 2);
    assert_eq!(back[1].name, "Bob");
    assert_eq!(back[1].pin_hash, "h2");
    assert_eq!(accounts_file_text(&[]), "");
}

#[test]
fn accounts_json_lists_overview_first() {
    let accounts = vec![account("Anna", "h1"), account("B\"ob", "h2")];
    assert_eq!(accounts_json(&accounts), r#"["overview","Anna","B\"ob"]"#);
    assert_eq!(accounts_json(&[]), r#"["overview"]"#);
}

#[test]
fn group_line_keeps_known_members_once() {
    let accounts = vec![account("Anna", "h1"), account("Bob", "h2")];
    let g = parse_group_line("Kids\tanna, Bob ,Zed,ANNA,", &accounts).unwrap();
    assert_eq!(g.name, "Kids");
    assert_eq!(g.members, vec![s("anna"), s("Bob")]);
    let empty = parse_group_line("Parents", &accounts).unwrap();
    assert!(empty.members.is_empty());
    assert!(parse_group_line("\tAnna", &accounts).is_none());
}

#[test]
fn groups_file_text_and_back() {
    let accounts = vec![account("Anna", "h1"), account("Bob", "h2")];
    let groups = vec![
        Group { name: s("Kids"), members: vec![s("Anna"), s("Bob")] },
        Group { name: s("Empty"), members: vec![] },
    ];
    let text = groups_file_text(&groups);
    assert_eq!(text, "Kids\tAnna,Bob\nEmpty\t\n");
    let back = parse_groups_file(&text, &accounts);
    assert_eq!(back.len(), 2);
    assert_eq!(back[0].members, vec![s("Anna"), s("Bob")]);
    assert!(back[1].members.is_empty());
    assert_eq!(
        groups_json(&groups),
        r#"[{"name":"Kids","members":["Anna","Bob"]},{"name":"Empty","members":[]}]"#
    );
}

#[test]
fn task_line_parses_with_and_without_note() {
    let t = parse_task_line("task-1\tBuy milk\t2024-05-31\t09:30\tAnna,@Kids\tAnna\tnow\tnote text")
        .unwrap();
    assert_eq!(t.id, "task-1");
    assert_eq!(t.assignees, vec![s("Anna"), s("@Kids")]);
    assert_eq!(t.note, "note text");
    let short = parse_task_line("task-2\tWalk\t2024-05-31\t\t\tBob\tnow").unwrap();
    assert_eq!(short.note, "");
    assert_eq!(short.time, "");
    assert!(short.assignees.is_empty());
}

#[test]
fn task_line_rejects_bad_lines() {
    assert!(parse_task_line("task-1\tBuy\t2024-05-31\t09:30\t\tAnna").is_none());
    assert!(parse_task_line("task-1\t\t2024-05-31\t09:30\t\tAnna\tnow").is_none());
    assert!(parse_task_line("task-1\tBuy\t31-05-2024\t09:30\t\tAnna\tnow").is_none());
    assert!(parse_task_line("task-1\tBuy\t2024-05-31\t25:00\t\tAnna\tnow").is_none());
}

#[test]
fn tasks_file_text_and_back() {
    let tasks = vec![task("task-1", "Buy milk", &["Anna", "@Kids"], "two litres"), task("task-2", "Walk", &[], "")];
    let text = tasks_file_text(&tasks);
    assert_eq!(
        text,
        "task-1\tBuy milk\t2024-05-31\t09:30\tAnna,@Kids\tAnna\t2024-05-30T10:00\ttwo litres\ntask-2\tWalk\t2024-05-31\t09:30\t\tAnna\t2024-05-30T10:00\t\n"
    );
    let back = parse_tasks_file(&text);
    assert_eq!(back.len(), 2);
    assert_eq!(back[0].title, "Buy milk");
    assert_eq!(back[0].assignees, vec![s("Anna"), s("@Kids")]);
    assert_eq!(back[1].note, "");
}

#[test]
fn tasks_json_renders_objects() {
    let tasks = vec![task("task-1", "Say \"hi\"", &["Anna"], "")];
    assert_eq!(
        tasks_json(&tasks),
        r#"[{"id":"task-1","title":"Say \"hi\"","date":"2024-05-31","time":"09:30","assignees":["Anna"],"requester":"Anna","createdAt":"2024-05-30T10:00","note":""}]"#
    );
    assert_eq!(tasks_json(&[]), "[]");
}

#[test]
fn broadcast_line_and_file() {
    let b = parse_broadcast_line("broadcast-7\tHello\tAnna,@Kids\tBob\tnow\tanna,ANNA,,Bob").unwrap();
    assert_eq!(b.seen_by, vec![s("anna"), s("Bob")]);
    assert!(parse_broadcast_line("broadcast-7\t \tAnna\tBob\tnow\t").is_none());
    assert!(parse_broadcast_line("broadcast-7\tHello\tAnna\tBob\tnow").is_none());
    let list = vec![Broadcast {
        id: s("broadcast-7"),
        message: s("Hello"),
        targets: vec![s("@Kids")],
        requester: s("Bob"),
        created_at: s("now"),
        seen_by: vec![s("Anna")],
    }];
    let text = broadcasts_file_text(&list);
    assert_eq!(text, "broadcast-7\tHello\t@Kids\tBob\tnow\tAnna\n");
    let back = parse_broadcasts_file(&text);
    assert_eq!(back.len(), 1);
    assert_eq!(back[0].seen_by, vec![s("Anna")]);
    assert_eq!(
        broadcasts_json(&list),
        r#"[{"id":"broadcast-7","message":"Hello","targets":["@Kids"],"requester":"Bob","createdAt":"now","seenBy":["Anna"]}]"#
    );
}

#[test]
fn event_line_and_file() {
    let line = "event-3\tParty\t2024-06-01\t18:00\t2024-06-01\t23:00\t@Kids\tAnna\tnow\tBring cake";
    let e = parse_event_line(line).unwrap();
    assert_eq!(e.start_time, "18:00");
    assert_eq!(e.note, "Bring cake");
    assert!(parse_event_line("event-3\tParty\t2024-06-01\t\t2024-06-01\t23:00\t\tAnna\tnow\t").is_none());
    let list = vec![e];
    let text = events_file_text(&list);
    assert_eq!(text, format!("{line}\n"));
    let back = parse_events_file(&text);
    assert_eq!(back.len(), 1);
    assert_eq!(back[0].title, "Party");
    assert_eq!(
        events_json(&back),
        r#"[{"id":"event-3","title":"Party","startDate":"2024-06-01","startTime":"18:00","endDate":"2024-06-01","endTime":"23:00","assignees":["@Kids"],"requester":"Anna","createdAt":"now","note":"Bring cake"}]"#
    );
}

#[test]
fn empty_files_hold_nothing() {
    assert!(parse_accounts_file("").is_empty());
    assert!(parse_tasks_file("\n\n").is_empty());
    assert!(parse_events_file("").is_empty());
    assert_eq!(events_file_text(&Vec::<EventPlan>::new()), "");
}
