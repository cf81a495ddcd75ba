use lib::auth::{password_hash, verify_admin_password};
use lib::fields::{parse_assignees_field, sanitize_note_text, sanitize_task_text};
use lib::people::Account;
use lib::planner_api::{
    handle_add_broadcast, handle_add_event, handle_add_task, handle_delete_task,
    handle_mark_broadcast_seen,
};
use lib::plans::{
    broadcasts_file_text, events_file_text, parse_broadcasts_file, parse_events_file,
    parse_tasks_file, tasks_file_text, Broadcast, EventPlan, Task,
};

fn s(v: &str) -> String {
    v.to_string()
}

fn accounts() -> Vec<Account> {
    vec![
        Account { name: s("Anna"), pin_hash: password_hash("1234") },
        Account { name: s("Bob"), pin_hash: password_hash("0000") },
    ]
}

fn same_task(a: &Task, b: &Task) -> bool {
    a.id == b.id
        && a.title == b.title
        && a.date == b.date
        && a.time == b.time
        && a.assignees == b.assignees
        && a.requester == b.requester
        && a.created_at == b.created_at
        && a.note == b.note
}

fn same_tasks(a: &[Task], b: &[Task]) -> bool {
    a.len() == b.len() && a.iter().zip(b.iter()).all(|(x, y)| same_task(x, y))
}

fn same_broadcasts(a: &[Broadcast], b: &[Broadcast]) -> bool {
    a.len() == b.len()
        && a.iter().zip(b.iter()).all(|(x, y)| {
            x.id == y.id
                && x.message == y.message
                && x.targets == y.targets
                && x.requester == y.requester
                && x.created_at == y.created_at
                && x.seen_by == y.seen_by
        })
}

fn same_events(a: &[EventPlan], b: &[EventPlan]) -> bool {
    a.len() == b.len()
        && a.iter().zip(b.iter()).all(|(x, y)| {
            x.id == y.id
                && x.title == y.title
                && x.start_date == y.start_date
                && x.start_time == y.start_time
                && x.end_date == y.end_date
                && x.end_time == y.end_time
                && x.assignees == y.assignees
                && x.requester == y.requester
                && x.created_at == y.created_at
                && x.note == y.note
        })
}

#[test]
fn added_tasks_read_back_unchanged() {
    let body = r#"{"requester":" anna  ","title":"\tBuy\tmilk ","date":"2024-05-31","time":"9:30","assignees":"bob, @ kids ,Bob,@,","createdAt":"now","note":" two\r\nlitres "}"#;
    let (_, save) = handle_add_task(body, &accounts(), Vec::new(), 1717000000000);
    let tasks = save.unwrap();
    assert_eq!(tasks[0].title, "Buymilk");
    assert_eq!(tasks[0].assignees, vec![s("bob"), s("@kids")]);
    let back = parse_tasks_file(&tasks_file_text(&tasks));
    assert!(same_tasks(&back, &tasks));
    let (_, save) = handle_add_task(body, &accounts(), back, 1717000000001);
    let two = save.unwrap();
    assert!(same_tasks(&parse_tasks_file(&tasks_file_text(&two)), &two));
    let (_, save) = handle_delete_task(r#"{"requester":"anna","id":"task-1717000000000"}"#, &accounts(), &[], two);
    let one = save.unwrap();
    assert_eq!(one.len(), 1);
    assert!(same_tasks(&parse_tasks_file(&tasks_file_text(&one)), &one));
}

#[test]
fn a_title_cut_after_a_space_does_not_read_back() {
    let title = format!("{} b", "a".repeat(99));
    let body = format!(r#"{{"requester":"Anna","title":"{}","date":"2024-05-31"}}"#, title);
    let (_, save) = handle_add_task(&body, &accounts(), Vec::new(), 5);
    let tasks = save.unwrap();
    assert_eq!(tasks[0].title.len(), 100);
    assert!(tasks[0].title.ends_with(' '));
    let back = parse_tasks_file(&tasks_file_text(&tasks));
    assert_eq!(back[0].title, "a".repeat(99));
}

#[test]
fn broadcasts_sent_and_seen_read_back_unchanged() {
    let (_, save) = handle_add_broadcast(
        r#"{"requester":"Anna","message":"Dinner\tat 6","targets":"@Kids,anna","createdAt":"now"}"#,
        &accounts(),
        Vec::new(),
        3,
    );
    let sent = save.unwrap();
    assert!(same_broadcasts(&parse_broadcasts_file(&broadcasts_file_text(&sent)), &sent));
    let (_, save) = handle_mark_broadcast_seen(r#"{"requester":" bob ","id":"broadcast-3"}"#, &accounts(), sent);
    let seen = save.unwrap();
    assert_eq!(seen[0].seen_by, vec![s("bob")]);
    let (_, save) = handle_mark_broadcast_seen(r#"{"requester":"Anna","id":"broadcast-3"}"#, &accounts(), seen);
    let seen = save.unwrap();
    assert_eq!(seen[0].seen_by, vec![s("bob"), s("Anna")]);
    let text = broadcasts_file_text(&seen);
    assert_eq!(text, "broadcast-3\tDinner at 6\t@Kids,anna\tAnna\tnow\tbob,Anna\n");
    assert!(same_broadcasts(&parse_broadcasts_file(&text), &seen));
}

#[test]
fn added_events_read_back_unchanged() {
    let body = r#"{"requester":"Bob","title":"Party","startDate":"2024-06-01","startTime":"18:00","endDate":"2024-06-02","endTime":"1:00","assignees":"@Kids","note":"cake\nand tea"}"#;
    let (_, save) = handle_add_event(body, &accounts(), Vec::new(), 42);
    let events = save.unwrap();
    assert_eq!(events[0].note, "cake and tea");
    assert!(same_events(&parse_events_file(&events_file_text(&events)), &events));
}

#[test]
fn sanitizing_twice_changes_nothing() {
    let once = sanitize_task_text("  Buy\tmilk\n ", 100);
    assert_eq!(once, "Buymilk");
    assert_eq!(sanitize_task_text(&once, 100), once);
    let note = sanitize_note_text(" two\r\nlitres ", 2000);
    assert_eq!(note, "two  litres");
    assert_eq!(sanitize_note_text(&note, 2000), note);
    let cut = sanitize_task_text("ab cd", 3);
    assert_eq!(cut, "ab ");
    assert_eq!(sanitize_task_text(&cut, 3), "ab");
}

#[test]
fn parsing_assignees_twice_changes_nothing() {
    let list = parse_assignees_field(" anna ,@ kids, ANNA,@,, bob  smith ");
    assert_eq!(list, vec![s("anna"), s("@kids"), s("bob smith")]);
    assert_eq!(parse_assignees_field(&list.join(",")), list);
}

#[test]
fn files_read_written_and_read_again_are_unchanged() {
    let tasks = parse_tasks_file(" task-1 \t Buy \t2024-05-31\t\tanna,,ANNA, @kids\t  bob \tnow\r\nbroken line\ntask-2\tWalk\t2024-06-01\t7:05\t\tAnna\tlater\t note \n");
    assert_eq!(tasks.len(), 2);
    assert_eq!(tasks[0].assignees, vec![s("anna"), s("@kids")]);
    assert!(same_tasks(&parse_tasks_file(&tasks_file_text(&tasks)), &tasks));
    let broadcasts = parse_broadcasts_file("b-1\t hi\tAnna\t Bob \tnow\tanna, Anna ,bob\n");
    assert_eq!(broadcasts[0].seen_by, vec![s("anna"), s("bob")]);
    assert!(same_broadcasts(&parse_broadcasts_file(&broadcasts_file_text(&broadcasts)), &broadcasts));
    let events = parse_events_file("e-1\tParty \t2024-06-01\t18:00\t2024-06-01\t23:00\t@Kids\tAnna\tnow\tcake\n");
    assert!(same_events(&parse_events_file(&events_file_text(&events)), &events));
}

#[test]
fn a_stored_password_is_accepted() {
    let stored = password_hash("hunter2");
    assert!(verify_admin_password("hunter2", Some(stored.as_str())));
    assert!(!verify_admin_password("hunter3", Some(stored.as_str())));
}
