use vstd::prelude::*;
use crate::fields::{
    self, chars_of_strings, date_key_ok_chars, parse_assignees_chars, parse_name_list_chars,
    sanitize_name_chars, sanitize_note_chars, sanitize_text_chars, strings_of, time_ok_chars,
};
use crate::json::{self, push_json_string, push_string_array};
use crate::lists;
use crate::people;
use crate::text::{
    self, append_str, chars_of, copy_chars, file_text_of, join_pieces, lines_of, split_chars,
    string_of,
};

verus! {

/// A task on the planner.
pub struct Task {
    pub id: String,
    pub title: String,
    pub date: String,
    pub time: String,
    pub assignees: Vec<String>,
    pub requester: String,
    pub created_at: String,
    pub note: String,
}

/// What a task holds, as text.
pub struct TaskView {
    pub id: Seq<char>,
    pub title: Seq<char>,
    pub date: Seq<char>,
    pub time: Seq<char>,
    pub assignees: Seq<Seq<char>>,
    pub requester: Seq<char>,
    pub created_at: Seq<char>,
    pub note: Seq<char>,
}

impl View for Task {
    type V = TaskView;

    open spec fn view(&self) -> TaskView {
        TaskView {
            id: self.id@,
            title: self.title@,
            date: self.date@,
            time: self.time@,
            assignees: text::string_views(self.assignees@),
            requester: self.requester@,
            created_at: self.created_at@,
            note: self.note@,
        }
    }
}

/// A message sent to people or groups.
pub struct Broadcast {
    pub id: String,
    pub message: String,
    pub targets: Vec<String>,
    pub requester: String,
    pub created_at: String,
    pub seen_by: Vec<String>,
}

/// What a broadcast holds, as text.
pub struct BroadcastView {
    pub id: Seq<char>,
    pub message: Seq<char>,
    pub targets: Seq<Seq<char>>,
    pub requester: Seq<char>,
    pub created_at: Seq<char>,
    pub seen_by: Seq<Seq<char>>,
}

impl View for Broadcast {
    type V = BroadcastView;

    open spec fn view(&self) -> BroadcastView {
        BroadcastView {
            id: self.id@,
            message: self.message@,
            targets: text::string_views(self.targets@),
            requester: self.requester@,
            created_at: self.created_at@,
            seen_by: text::string_views(self.seen_by@),
        }
    }
}

/// An event with a start and an end.
pub struct EventPlan {
    pub id: String,
    pub title: String,
    pub start_date: String,
    pub start_time: String,
    pub end_date: String,
    pub end_time: String,
    pub assignees: Vec<String>,
    pub requester: String,
    pub created_at: String,
    pub note: String,
}

/// What an event holds, as text.
pub struct EventView {
    pub id: Seq<char>,
    pub title: Seq<char>,
    pub start_date: Seq<char>,
    pub start_time: Seq<char>,
    pub end_date: Seq<char>,
    pub end_time: Seq<char>,
    pub assignees: Seq<Seq<char>>,
    pub requester: Seq<char>,
    pub created_at: Seq<char>,
    pub note: Seq<char>,
}

impl View for EventPlan {
    type V = EventView;

    open spec fn view(&self) -> EventView {
        EventView {
            id: self.id@,
            title: self.title@,
            start_date: self.start_date@,
            start_time: self.start_time@,
            end_date: self.end_date@,
            end_time: self.end_time@,
            assignees: text::string_views(self.assignees@),
            requester: self.requester@,
            created_at: self.created_at@,
            note: self.note@,
        }
    }
}

pub open spec fn task_views(s: Seq<Task>) -> Seq<TaskView> {
    s.map_values(|t: Task| t@)
}

pub open spec fn broadcast_views(s: Seq<Broadcast>) -> Seq<BroadcastView> {
    s.map_values(|b: Broadcast| b@)
}

pub open spec fn event_views(s: Seq<EventPlan>) -> Seq<EventView> {
    s.map_values(|e: EventPlan| e@)
}

/// Names joined by commas, as a list field is stored.
pub open spec fn comma_list(names: Seq<Seq<char>>) -> Seq<char> {
    text::join(names, seq![','])
}

/// Fields joined by tabs, as a line is stored.
pub open spec fn tab_line(parts: Seq<Seq<char>>) -> Seq<char> {
    text::join(parts, seq!['\t'])
}

/// The fields of a stored line.
pub open spec fn line_parts(line: Seq<char>) -> Seq<Seq<char>> {
    text::split_by(line, text::is_char('\t'))
}

// ------------------------------------------------------------------
// Tasks
// ------------------------------------------------------------------

pub open spec fn task_parts(t: TaskView) -> Seq<Seq<char>> {
    seq![t.id, t.title, t.date, t.time, comma_list(t.assignees), t.requester, t.created_at, t.note]
}

/// The stored line of a task: its eight fields joined by tabs.
pub open spec fn task_line(t: TaskView) -> Seq<char> {
    tab_line(task_parts(t))
}

/// `parse_task_line`: seven or eight tab-separated fields, each cleaned; the
/// id and title must not be empty, the date must be a date key and the time
/// empty or valid.
pub open spec fn parse_task_line_spec(line: Seq<char>) -> Option<TaskView> {
    let parts = line_parts(line);
    if parts.len() != 7 && parts.len() != 8 {
        None
    } else {
        let t = TaskView {
            id: fields::sanitize_text(parts[0], 100),
            title: fields::sanitize_text(parts[1], 100),
            date: parts[2],
            time: parts[3],
            assignees: fields::parse_assignees(parts[4]),
            requester: fields::sanitize_name(parts[5]),
            created_at: fields::sanitize_text(parts[6], 40),
            note: if parts.len() == 8 {
                fields::sanitize_note(parts[7], 2000)
            } else {
                Seq::empty()
            },
        };
        if t.id.len() == 0 || t.title.len() == 0 || !fields::valid_date_key(t.date)
            || !fields::valid_time(t.time) {
            None
        } else {
            Some(t)
        }
    }
}

pub open spec fn task_parser() -> spec_fn(Seq<char>) -> Option<TaskView> {
    |l: Seq<char>| parse_task_line_spec(l)
}

/// The tasks of a tasks file: the lines that parse, in order.
pub open spec fn parse_tasks_spec(content: Seq<char>) -> Seq<TaskView> {
    lists::parse_lines(text::lines(content), task_parser())
}

/// The text of a tasks file.
pub open spec fn tasks_file_spec(tasks: Seq<TaskView>) -> Seq<char> {
    text::file_text(tasks.map_values(|t: TaskView| task_line(t)))
}

pub open spec fn opt_task_view(o: Option<Task>) -> Option<TaskView> {
    match o {
        Some(t) => Some(t@),
        None => None,
    }
}

/// A copy of the `i`-th field.
fn part(parts: &Vec<Vec<char>>, i: usize) -> (out: Vec<char>)
    requires
        i < parts.len(),
    ensures
        out@ == parts@[i as int]@,
{
    copy_chars(&parts[i])
}

pub fn parse_task_line_chars(line: &Vec<char>) -> (r: Option<Task>)
    ensures
        opt_task_view(r) == parse_task_line_spec(line@),
{
    let parts = split_chars(line, '\t');
    let ghost pv = text::views(parts@);
    if parts.len() != 7 && parts.len() != 8 {
        return None;
    }
    assert(pv[0] == parts@[0]@);
    let id = sanitize_text_chars(&parts[0], 100);
    let title = sanitize_text_chars(&parts[1], 100);
    let date = part(&parts, 2);
    let time = part(&parts, 3);
    let assignees = parse_assignees_chars(&parts[4]);
    let requester = sanitize_name_chars(&parts[5]);
    let created_at = sanitize_text_chars(&parts[6], 40);
    let note = if parts.len() == 8 {
        sanitize_note_chars(&parts[7], 2000)
    } else {
        Vec::new()
    };
    if id.len() == 0 || title.len() == 0 || !date_key_ok_chars(&date) || !time_ok_chars(&time) {
        return None;
    }
    Some(
        Task {
            id: string_of(&id),
            title: string_of(&title),
            date: string_of(&date),
            time: string_of(&time),
            assignees: strings_of(&assignees),
            requester: string_of(&requester),
            created_at: string_of(&created_at),
            note: string_of(&note),
        },
    )
}

/// Reads one line of the tasks file; `None` for a malformed line.
pub fn parse_task_line(line: &str) -> (r: Option<Task>)
    ensures
        opt_task_view(r) == parse_task_line_spec(line@),
{
    let cs = chars_of(line);
    parse_task_line_chars(&cs)
}

/// Reads a tasks file: one task per line, malformed lines skipped.
pub fn parse_tasks_file(content: &str) -> (out: Vec<Task>)
    ensures
        task_views(out@) == parse_tasks_spec(content@),
{
    let cs = chars_of(content);
    let ls = lines_of(&cs);
    let ghost lv = text::views(ls@);
    let mut out: Vec<Task> = Vec::new();
    for i in 0..ls.len()
        invariant
            lv == text::views(ls@),
            lv == text::lines(content@),
            task_views(out@) == lists::parse_lines(lv.take(i as int), task_parser()),
    {
        assert(lv.take(i + 1).drop_last() == lv.take(i as int));
        assert(lv.take(i + 1).last() == ls@[i as int]@);
        match parse_task_line_chars(&ls[i]) {
            Some(t) => {
                out.push(t);
            },
            None => {},
        }
        assert(task_views(out@) == lists::parse_lines(lv.take(i + 1), task_parser()));
    }
    assert(lv.take(ls.len() as int) == lv);
    out
}

/// The characters of a list field: the names joined by commas.
pub fn comma_list_chars(names: &[String]) -> (out: Vec<char>)
    ensures
        out@ == comma_list(text::string_views(names@)),
{
    let ms = chars_of_strings(names);
    let comma: Vec<char> = vec![','];
    assert(comma@ == seq![',']);
    join_pieces(&ms, &comma)
}

/// The fields joined by tabs.
pub fn tab_line_chars(parts: &Vec<Vec<char>>) -> (out: Vec<char>)
    ensures
        out@ == tab_line(text::views(parts@)),
{
    let tab: Vec<char> = vec!['\t'];
    assert(tab@ == seq!['\t']);
    join_pieces(parts, &tab)
}

pub fn task_line_chars(t: &Task) -> (out: Vec<char>)
    ensures
        out@ == task_line(t@),
{
    let mut parts: Vec<Vec<char>> = Vec::new();
    parts.push(chars_of(t.id.as_str()));
    parts.push(chars_of(t.title.as_str()));
    parts.push(chars_of(t.date.as_str()));
    parts.push(chars_of(t.time.as_str()));
    parts.push(comma_list_chars(t.assignees.as_slice()));
    parts.push(chars_of(t.requester.as_str()));
    parts.push(chars_of(t.created_at.as_str()));
    parts.push(chars_of(t.note.as_str()));
    assert(text::views(parts@) =~= task_parts(t@));
    tab_line_chars(&parts)
}

/// The text of the tasks file: one tab-separated line per task.
pub fn tasks_file_text(tasks: &[Task]) -> (out: String)
    ensures
        out@ == tasks_file_spec(task_views(tasks@)),
{
    let ghost want = task_views(tasks@).map_values(|t: TaskView| task_line(t));
    let mut ls: Vec<Vec<char>> = Vec::new();
    for i in 0..tasks.len()
        invariant
            want == task_views(tasks@).map_values(|t: TaskView| task_line(t)),
            text::views(ls@) == want.take(i as int),
    {
        ls.push(task_line_chars(&tasks[i]));
        assert(want.take(i + 1) == want.take(i as int).push(want[i as int]));
    }
    assert(want.take(tasks.len() as int) == want);
    let t = file_text_of(&ls);
    string_of(&t)
}

/// `"key"` followed by a JSON string literal of the value.
pub open spec fn str_field(key: Seq<char>, v: Seq<char>) -> Seq<char> {
    key + json::json_string(v)
}

/// The JSON object of one task.
pub open spec fn task_json(t: TaskView) -> Seq<char> {
    str_field("{\"id\":"@, t.id) + str_field(",\"title\":"@, t.title) + str_field(
        ",\"date\":"@,
        t.date,
    ) + str_field(",\"time\":"@, t.time) + ",\"assignees\":"@ + json::string_array_json_spec(
        t.assignees,
    ) + str_field(",\"requester\":"@, t.requester) + str_field(",\"createdAt\":"@, t.created_at)
        + str_field(",\"note\":"@, t.note) + "}"@
}

/// The JSON array of tasks.
pub open spec fn tasks_json_spec(tasks: Seq<TaskView>) -> Seq<char> {
    json::json_array(tasks.map_values(|t: TaskView| task_json(t)))
}

/// Appends a key and a JSON string literal of the value.
pub fn push_str_field(out: &mut Vec<char>, key: &str, value: &String)
    ensures
        final(out)@ == old(out)@ + str_field(key@, value@),
{
    append_str(out, key);
    let cs = chars_of(value.as_str());
    push_json_string(out, &cs);
}

pub fn push_task_json(out: &mut Vec<char>, t: &Task)
    ensures
        final(out)@ == old(out)@ + task_json(t@),
{
    push_str_field(out, "{\"id\":", &t.id);
    push_str_field(out, ",\"title\":", &t.title);
    push_str_field(out, ",\"date\":", &t.date);
    push_str_field(out, ",\"time\":", &t.time);
    append_str(out, ",\"assignees\":");
    push_string_array(out, t.assignees.as_slice());
    push_str_field(out, ",\"requester\":", &t.requester);
    push_str_field(out, ",\"createdAt\":", &t.created_at);
    push_str_field(out, ",\"note\":", &t.note);
    append_str(out, "}");
}

/// Renders the tasks as a JSON array of objects.
pub fn tasks_json(tasks: &[Task]) -> (out: String)
    ensures
        out@ == tasks_json_spec(task_views(tasks@)),
{
    let ghost items = task_views(tasks@).map_values(|t: TaskView| task_json(t));
    let mut out: Vec<char> = Vec::new();
    out.push('[');
    for i in 0..tasks.len()
        invariant
            items == task_views(tasks@).map_values(|t: TaskView| task_json(t)),
            items.len() == tasks@.len(),
            out@ == seq!['['] + text::join(items.take(i as int), seq![',']),
    {
        assert(items.take(i + 1).drop_last() == items.take(i as int));
        assert(items.take(i + 1).last() == task_json(tasks@[i as int]@));
        if i > 0 {
            out.push(',');
        }
        push_task_json(&mut out, &tasks[i]);
        if i == 0 {
            assert(out@ == seq!['['] + text::join(items.take(1), seq![',']));
        }
    }
    assert(items.take(tasks.len() as int) == items);
    out.push(']');
    string_of(&out)
}

// ------------------------------------------------------------------
// Broadcasts
// ------------------------------------------------------------------

pub open spec fn broadcast_parts(b: BroadcastView) -> Seq<Seq<char>> {
    seq![b.id, b.message, comma_list(b.targets), b.requester, b.created_at, comma_list(b.seen_by)]
}

/// The stored line of a broadcast: its six fields joined by tabs.
pub open spec fn broadcast_line(b: BroadcastView) -> Seq<char> {
    tab_line(broadcast_parts(b))
}

/// `parse_broadcast_line`: six tab-separated fields, each cleaned; the id and
/// the message must not be empty.
pub open spec fn parse_broadcast_line_spec(line: Seq<char>) -> Option<BroadcastView> {
    let parts = line_parts(line);
    if parts.len() != 6 {
        None
    } else {
        let b = BroadcastView {
            id: fields::sanitize_text(parts[0], 100),
            message: fields::sanitize_note(parts[1], 500),
            targets: fields::parse_assignees(parts[2]),
            requester: fields::sanitize_name(parts[3]),
            created_at: fields::sanitize_text(parts[4], 40),
            seen_by: fields::parse_name_list(parts[5]),
        };
        if b.id.len() == 0 || b.message.len() == 0 {
            None
        } else {
            Some(b)
        }
    }
}

pub open spec fn broadcast_parser() -> spec_fn(Seq<char>) -> Option<BroadcastView> {
    |l: Seq<char>| parse_broadcast_line_spec(l)
}

/// The broadcasts of a broadcasts file: the lines that parse, in order.
pub open spec fn parse_broadcasts_spec(content: Seq<char>) -> Seq<BroadcastView> {
    lists::parse_lines(text::lines(content), broadcast_parser())
}

/// The text of a broadcasts file.
pub open spec fn broadcasts_file_spec(bs: Seq<BroadcastView>) -> Seq<char> {
    text::file_text(bs.map_values(|b: BroadcastView| broadcast_line(b)))
}

pub open spec fn opt_broadcast_view(o: Option<Broadcast>) -> Option<BroadcastView> {
    match o {
        Some(b) => Some(b@),
        None => None,
    }
}

pub fn parse_broadcast_line_chars(line: &Vec<char>) -> (r: Option<Broadcast>)
    ensures
        opt_broadcast_view(r) == parse_broadcast_line_spec(line@),
{
    let parts = split_chars(line, '\t');
    if parts.len() != 6 {
        return None;
    }
    let id = sanitize_text_chars(&parts[0], 100);
    let message = sanitize_note_chars(&parts[1], 500);
    let targets = parse_assignees_chars(&parts[2]);
    let requester = sanitize_name_chars(&parts[3]);
    let created_at = sanitize_text_chars(&parts[4], 40);
    let seen_by = parse_name_list_chars(&parts[5]);
    if id.len() == 0 || message.len() == 0 {
        return None;
    }
    Some(
        Broadcast {
            id: string_of(&id),
            message: string_of(&message),
            targets: strings_of(&targets),
            requester: string_of(&requester),
            created_at: string_of(&created_at),
            seen_by: strings_of(&seen_by),
        },
    )
}

/// Reads one line of the broadcasts file; `None` for a malformed line.
pub fn parse_broadcast_line(line: &str) -> (r: Option<Broadcast>)
    ensures
        opt_broadcast_view(r) == parse_broadcast_line_spec(line@),
{
    let cs = chars_of(line);
    parse_broadcast_line_chars(&cs)
}

/// Reads a broadcasts file: one broadcast per line, malformed lines skipped.
pub fn parse_broadcasts_file(content: &str) -> (out: Vec<Broadcast>)
    ensures
        broadcast_views(out@) == parse_broadcasts_spec(content@),
{
    let cs = chars_of(content);
    let ls = lines_of(&cs);
    let ghost lv = text::views(ls@);
    let mut out: Vec<Broadcast> = Vec::new();
    for i in 0..ls.len()
        invariant
            lv == text::views(ls@),
            lv == text::lines(content@),
            broadcast_views(out@) == lists::parse_lines(lv.take(i as int), broadcast_parser()),
    {
        assert(lv.take(i + 1).drop_last() == lv.take(i as int));
        assert(lv.take(i + 1).last() == ls@[i as int]@);
        match parse_broadcast_line_chars(&ls[i]) {
            Some(b) => {
                out.push(b);
            },
            None => {},
        }
        assert(broadcast_views(out@) == lists::parse_lines(lv.take(i + 1), broadcast_parser()));
    }
    assert(lv.take(ls.len() as int) == lv);
    out
}

pub fn broadcast_line_chars(b: &Broadcast) -> (out: Vec<char>)
    ensures
        out@ == broadcast_line(b@),
{
    let mut parts: Vec<Vec<char>> = Vec::new();
    parts.push(chars_of(b.id.as_str()));
    parts.push(chars_of(b.message.as_str()));
    parts.push(comma_list_chars(b.targets.as_slice()));
    parts.push(chars_of(b.requester.as_str()));
    parts.push(chars_of(b.created_at.as_str()));
    parts.push(comma_list_chars(b.seen_by.as_slice()));
    assert(text::views(parts@) =~= broadcast_parts(b@));
    tab_line_chars(&parts)
}

/// The text of the broadcasts file: one tab-separated line per broadcast.
pub fn broadcasts_file_text(broadcasts: &[Broadcast]) -> (out: String)
    ensures
        out@ == broadcasts_file_spec(broadcast_views(broadcasts@)),
{
    let ghost want = broadcast_views(broadcasts@).map_values(|b: BroadcastView| broadcast_line(b));
    let mut ls: Vec<Vec<char>> = Vec::new();
    for i in 0..broadcasts.len()
        invariant
            want == broadcast_views(broadcasts@).map_values(|b: BroadcastView| broadcast_line(b)),
            text::views(ls@) == want.take(i as int),
    {
        ls.push(broadcast_line_chars(&broadcasts[i]));
        assert(want.take(i + 1) == want.take(i as int).push(want[i as int]));
    }
    assert(want.take(broadcasts.len() as int) == want);
    let t = file_text_of(&ls);
    string_of(&t)
}

/// The JSON object of one broadcast.
pub open spec fn broadcast_json(b: BroadcastView) -> Seq<char> {
    str_field("{\"id\":"@, b.id) + str_field(",\"message\":"@, b.message) + ",\"targets\":"@
        + json::string_array_json_spec(b.targets) + str_field(",\"requester\":"@, b.requester)
        + str_field(",\"createdAt\":"@, b.created_at) + ",\"seenBy\":"@
        + json::string_array_json_spec(b.seen_by) + "}"@
}

/// The JSON array of broadcasts.
pub open spec fn broadcasts_json_spec(bs: Seq<BroadcastView>) -> Seq<char> {
    json::json_array(bs.map_values(|b: BroadcastView| broadcast_json(b)))
}

pub fn push_broadcast_json(out: &mut Vec<char>, b: &Broadcast)
    ensures
        final(out)@ == old(out)@ + broadcast_json(b@),
{
    push_str_field(out, "{\"id\":", &b.id);
    push_str_field(out, ",\"message\":", &b.message);
    append_str(out, ",\"targets\":");
    push_string_array(out, b.targets.as_slice());
    push_str_field(out, ",\"requester\":", &b.requester);
    push_str_field(out, ",\"createdAt\":", &b.created_at);
    append_str(out, ",\"seenBy\":");
    push_string_array(out, b.seen_by.as_slice());
    append_str(out, "}");
}

/// Renders the broadcasts as a JSON array of objects.
pub fn broadcasts_json(broadcasts: &[Broadcast]) -> (out: String)
    ensures
        out@ == broadcasts_json_spec(broadcast_views(broadcasts@)),
{
    let ghost items = broadcast_views(broadcasts@).map_values(|b: BroadcastView| broadcast_json(b));
    let mut out: Vec<char> = Vec::new();
    out.push('[');
    for i in 0..broadcasts.len()
        invariant
            items == broadcast_views(broadcasts@).map_values(|b: BroadcastView| broadcast_json(b)),
            items.len() == broadcasts@.len(),
            out@ == seq!['['] + text::join(items.take(i as int), seq![',']),
    {
        assert(items.take(i + 1).drop_last() == items.take(i as int));
        assert(items.take(i + 1).last() == broadcast_json(broadcasts@[i as int]@));
        if i > 0 {
            out.push(',');
        }
        push_broadcast_json(&mut out, &broadcasts[i]);
        if i == 0 {
            assert(out@ == seq!['['] + text::join(items.take(1), seq![',']));
        }
    }
    assert(items.take(broadcasts.len() as int) == items);
    out.push(']');
    string_of(&out)
}

// ------------------------------------------------------------------
// Events
// ------------------------------------------------------------------

pub open spec fn event_parts(e: EventView) -> Seq<Seq<char>> {
    seq![
        e.id,
        e.title,
        e.start_date,
        e.start_time,
        e.end_date,
        e.end_time,
        comma_list(e.assignees),
        e.requester,
        e.created_at,
        e.note,
    ]
}

/// The stored line of an event: its ten fields joined by tabs.
pub open spec fn event_line(e: EventView) -> Seq<char> {
    tab_line(event_parts(e))
}

/// `parse_event_line`: ten tab-separated fields, each cleaned; the id and
/// title must not be empty, both dates must be date keys and both times
/// valid and not empty.
pub open spec fn parse_event_line_spec(line: Seq<char>) -> Option<EventView> {
    let parts = line_parts(line);
    if parts.len() != 10 {
        None
    } else {
        let e = EventView {
            id: fields::sanitize_text(parts[0], 100),
            title: fields::sanitize_text(parts[1], 100),
            start_date: parts[2],
            start_time: parts[3],
            end_date: parts[4],
            end_time: parts[5],
            assignees: fields::parse_assignees(parts[6]),
            requester: fields::sanitize_name(parts[7]),
            created_at: fields::sanitize_text(parts[8], 40),
            note: fields::sanitize_note(parts[9], 2000),
        };
        if e.id.len() == 0 || e.title.len() == 0 || !fields::valid_date_key(e.start_date)
            || !fields::valid_time(e.start_time) || !fields::valid_date_key(e.end_date)
            || !fields::valid_time(e.end_time) || e.start_time.len() == 0 || e.end_time.len()
            == 0 {
            None
        } else {
            Some(e)
        }
    }
}

pub open spec fn event_parser() -> spec_fn(Seq<char>) -> Option<EventView> {
    |l: Seq<char>| parse_event_line_spec(l)
}

/// The events of an events file: the lines that parse, in order.
pub open spec fn parse_events_spec(content: Seq<char>) -> Seq<EventView> {
    lists::parse_lines(text::lines(content), event_parser())
}

/// The text of an events file.
pub open spec fn events_file_spec(es: Seq<EventView>) -> Seq<char> {
    text::file_text(es.map_values(|e: EventView| event_line(e)))
}

pub open spec fn opt_event_view(o: Option<EventPlan>) -> Option<EventView> {
    match o {
        Some(e) => Some(e@),
        None => None,
    }
}

pub fn parse_event_line_chars(line: &Vec<char>) -> (r: Option<EventPlan>)
    ensures
        opt_event_view(r) == parse_event_line_spec(line@),
{
    let parts = split_chars(line, '\t');
    if parts.len() != 10 {
        return None;
    }
    let id = sanitize_text_chars(&parts[0], 100);
    let title = sanitize_text_chars(&parts[1], 100);
    let start_date = part(&parts, 2);
    let start_time = part(&parts, 3);
    let end_date = part(&parts, 4);
    let end_time = part(&parts, 5);
    let assignees = parse_assignees_chars(&parts[6]);
    let requester = sanitize_name_chars(&parts[7]);
    let created_at = sanitize_text_chars(&parts[8], 40);
    let note = sanitize_note_chars(&parts[9], 2000);
    if id.len() == 0 || title.len() == 0 || !date_key_ok_chars(&start_date) || !time_ok_chars(
        &start_time,
    ) || !date_key_ok_chars(&end_date) || !time_ok_chars(&end_time) || start_time.len() == 0
        || end_time.len() == 0 {
        return None;
    }
    Some(
        EventPlan {
            id: string_of(&id),
            title: string_of(&title),
            start_date: string_of(&start_date),
            start_time: string_of(&start_time),
            end_date: string_of(&end_date),
            end_time: string_of(&end_time),
            assignees: strings_of(&assignees),
            requester: string_of(&requester),
            created_at: string_of(&created_at),
            note: string_of(&note),
        },
    )
}

/// Reads one line of the events file; `None` for a malformed line.
pub fn parse_event_line(line: &str) -> (r: Option<EventPlan>)
    ensures
        opt_event_view(r) == parse_event_line_spec(line@),
{
    let cs = chars_of(line);
    parse_event_line_chars(&cs)
}

/// Reads an events file: one event per line, malformed lines skipped.
pub fn parse_events_file(content: &str) -> (out: Vec<EventPlan>)
    ensures
        event_views(out@) == parse_events_spec(content@),
{
    let cs = chars_of(content);
    let ls = lines_of(&cs);
    let ghost lv = text::views(ls@);
    let mut out: Vec<EventPlan> = Vec::new();
    for i in 0..ls.len()
        invariant
            lv == text::views(ls@),
            lv == text::lines(content@),
            event_views(out@) == lists::parse_lines(lv.take(i as int), event_parser()),
    {
        assert(lv.take(i + 1).drop_last() == lv.take(i as int));
        assert(lv.take(i + 1).last() == ls@[i as int]@);
        match parse_event_line_chars(&ls[i]) {
            Some(e) => {
                out.push(e);
            },
            None => {},
        }
        assert(event_views(out@) == lists::parse_lines(lv.take(i + 1), event_parser()));
    }
    assert(lv.take(ls.len() as int) == lv);
    out
}

pub fn event_line_chars(e: &EventPlan) -> (out: Vec<char>)
    ensures
        out@ == event_line(e@),
{
    let mut parts: Vec<Vec<char>> = Vec::new();
    parts.push(chars_of(e.id.as_str()));
    parts.push(chars_of(e.title.as_str()));
    parts.push(chars_of(e.start_date.as_str()));
    parts.push(chars_of(e.start_time.as_str()));
    parts.push(chars_of(e.end_date.as_str()));
    parts.push(chars_of(e.end_time.as_str()));
    parts.push(comma_list_chars(e.assignees.as_slice()));
    parts.push(chars_of(e.requester.as_str()));
    parts.push(chars_of(e.created_at.as_str()));
    parts.push(chars_of(e.note.as_str()));
    assert(text::views(parts@) =~= event_parts(e@));
    tab_line_chars(&parts)
}

/// The text of the events file: one tab-separated line per event.
pub fn events_file_text(events: &[EventPlan]) -> (out: String)
    ensures
        out@ == events_file_spec(event_views(events@)),
{
    let ghost want = event_views(events@).map_values(|e: EventView| event_line(e));
    let mut ls: Vec<Vec<char>> = Vec::new();
    for i in 0..events.len()
        invariant
            want == event_views(events@).map_values(|e: EventView| event_line(e)),
            text::views(ls@) == want.take(i as int),
    {
        ls.push(event_line_chars(&events[i]));
        assert(want.take(i + 1) == want.take(i as int).push(want[i as int]));
    }
    assert(want.take(events.len() as int) == want);
    let t = file_text_of(&ls);
    string_of(&t)
}

/// The JSON object of one event.
pub open spec fn event_json(e: EventView) -> Seq<char> {
    str_field("{\"id\":"@, e.id) + str_field(",\"title\":"@, e.title) + str_field(
        ",\"startDate\":"@,
        e.start_date,
    ) + str_field(",\"startTime\":"@, e.start_time) + str_field(",\"endDate\":"@, e.end_date)
        + str_field(",\"endTime\":"@, e.end_time) + ",\"assignees\":"@
        + json::string_array_json_spec(e.assignees) + str_field(",\"requester\":"@, e.requester)
        + str_field(",\"createdAt\":"@, e.created_at) + str_field(",\"note\":"@, e.note) + "}"@
}

/// The JSON array of events.
pub open spec fn events_json_spec(es: Seq<EventView>) -> Seq<char> {
    json::json_array(es.map_values(|e: EventView| event_json(e)))
}

pub fn push_event_json(out: &mut Vec<char>, e: &EventPlan)
    ensures
        final(out)@ == old(out)@ + event_json(e@),
{
    push_str_field(out, "{\"id\":", &e.id);
    push_str_field(out, ",\"title\":", &e.title);
    push_str_field(out, ",\"startDate\":", &e.start_date);
    push_str_field(out, ",\"startTime\":", &e.start_time);
    push_str_field(out, ",\"endDate\":", &e.end_date);
    push_str_field(out, ",\"endTime\":", &e.end_time);
    append_str(out, ",\"assignees\":");
    push_string_array(out, e.assignees.as_slice());
    push_str_field(out, ",\"requester\":", &e.requester);
    push_str_field(out, ",\"createdAt\":", &e.created_at);
    push_str_field(out, ",\"note\":", &e.note);
    append_str(out, "}");
}

/// Renders the events as a JSON array of objects.
pub fn events_json(events: &[EventPlan]) -> (out: String)
    ensures
        out@ == events_json_spec(event_views(events@)),
{
    let ghost items = event_views(events@).map_values(|e: EventView| event_json(e));
    let mut out: Vec<char> = Vec::new();
    out.push('[');
    for i in 0..events.len()
        invariant
            items == event_views(events@).map_values(|e: EventView| event_json(e)),
            items.len() == events@.len(),
            out@ == seq!['['] + text::join(items.take(i as int), seq![',']),
    {
        assert(items.take(i + 1).drop_last() == items.take(i as int));
        assert(items.take(i + 1).last() == event_json(events@[i as int]@));
        if i > 0 {
            out.push(',');
        }
        push_event_json(&mut out, &events[i]);
        if i == 0 {
            assert(out@ == seq!['['] + text::join(items.take(1), seq![',']));
        }
    }
    assert(items.take(events.len() as int) == items);
    out.push(']');
    string_of(&out)
}

// ------------------------------------------------------------------
// Copies, lookups and removals by id
// ------------------------------------------------------------------

pub fn copy_task(t: &Task) -> (out: Task)
    ensures
        out@ == t@,
{
    Task {
        id: t.id.clone(),
        title: t.title.clone(),
        date: t.date.clone(),
        time: t.time.clone(),
        assignees: people::copy_strings(t.assignees.as_slice()),
        requester: t.requester.clone(),
        created_at: t.created_at.clone(),
        note: t.note.clone(),
    }
}

pub fn copy_broadcast(b: &Broadcast) -> (out: Broadcast)
    ensures
        out@ == b@,
{
    Broadcast {
        id: b.id.clone(),
        message: b.message.clone(),
        targets: people::copy_strings(b.targets.as_slice()),
        requester: b.requester.clone(),
        created_at: b.created_at.clone(),
        seen_by: people::copy_strings(b.seen_by.as_slice()),
    }
}

pub fn copy_event(e: &EventPlan) -> (out: EventPlan)
    ensures
        out@ == e@,
{
    EventPlan {
        id: e.id.clone(),
        title: e.title.clone(),
        start_date: e.start_date.clone(),
        start_time: e.start_time.clone(),
        end_date: e.end_date.clone(),
        end_time: e.end_time.clone(),
        assignees: people::copy_strings(e.assignees.as_slice()),
        requester: e.requester.clone(),
        created_at: e.created_at.clone(),
        note: e.note.clone(),
    }
}

/// The task has exactly this id.
pub open spec fn task_id_is(id: Seq<char>) -> spec_fn(TaskView) -> bool {
    |t: TaskView| t.id == id
}

/// The broadcast has exactly this id.
pub open spec fn broadcast_id_is(id: Seq<char>) -> spec_fn(BroadcastView) -> bool {
    |b: BroadcastView| b.id == id
}

/// The event has exactly this id.
pub open spec fn event_id_is(id: Seq<char>) -> spec_fn(EventView) -> bool {
    |e: EventView| e.id == id
}

/// Whether the string holds exactly these characters.
fn string_is(s: &String, cs: &Vec<char>) -> (r: bool)
    ensures
        r == (s@ == cs@),
{
    let a = chars_of(s.as_str());
    crate::http::eq_chars(&a, cs)
}

/// The index of the first task with the id.
pub fn find_task(tasks: &[Task], id: &Vec<char>) -> (r: Option<usize>)
    ensures
        match r {
            Some(i) => i < tasks.len() && lists::first_index(task_views(tasks@), task_id_is(id@))
                == Some(i as int),
            None => lists::first_index(task_views(tasks@), task_id_is(id@)) is None,
        },
{
    let ghost v = task_views(tasks@);
    for i in 0..tasks.len()
        invariant
            v == task_views(tasks@),
            forall|j: int| 0 <= j < i ==> !task_id_is(id@)(#[trigger] v[j]),
    {
        if string_is(&tasks[i].id, id) {
            proof {
                lists::lemma_first_index(v, task_id_is(id@), i as int);
            }
            return Some(i);
        }
    }
    proof {
        lists::lemma_first_index(v, task_id_is(id@), v.len() as int);
    }
    None
}

/// The index of the first broadcast with the id.
pub fn find_broadcast(broadcasts: &[Broadcast], id: &Vec<char>) -> (r: Option<usize>)
    ensures
        match r {
            Some(i) => i < broadcasts.len() && lists::first_index(
                broadcast_views(broadcasts@),
                broadcast_id_is(id@),
            ) == Some(i as int),
            None => lists::first_index(broadcast_views(broadcasts@), broadcast_id_is(id@)) is None,
        },
{
    let ghost v = broadcast_views(broadcasts@);
    for i in 0..broadcasts.len()
        invariant
            v == broadcast_views(broadcasts@),
            forall|j: int| 0 <= j < i ==> !broadcast_id_is(id@)(#[trigger] v[j]),
    {
        if string_is(&broadcasts[i].id, id) {
            proof {
                lists::lemma_first_index(v, broadcast_id_is(id@), i as int);
            }
            return Some(i);
        }
    }
    proof {
        lists::lemma_first_index(v, broadcast_id_is(id@), v.len() as int);
    }
    None
}

/// The index of the first event with the id.
pub fn find_event(events: &[EventPlan], id: &Vec<char>) -> (r: Option<usize>)
    ensures
        match r {
            Some(i) => i < events.len() && lists::first_index(event_views(events@), event_id_is(id@))
                == Some(i as int),
            None => lists::first_index(event_views(events@), event_id_is(id@)) is None,
        },
{
    let ghost v = event_views(events@);
    for i in 0..events.len()
        invariant
            v == event_views(events@),
            forall|j: int| 0 <= j < i ==> !event_id_is(id@)(#[trigger] v[j]),
    {
        if string_is(&events[i].id, id) {
            proof {
                lists::lemma_first_index(v, event_id_is(id@), i as int);
            }
            return Some(i);
        }
    }
    proof {
        lists::lemma_first_index(v, event_id_is(id@), v.len() as int);
    }
    None
}

/// The tasks whose id is not `id`.
pub fn tasks_without_id(tasks: &[Task], id: &Vec<char>) -> (out: Vec<Task>)
    ensures
        task_views(out@) == lists::drop_where(task_views(tasks@), task_id_is(id@)),
{
    let ghost v = task_views(tasks@);
    let mut out: Vec<Task> = Vec::new();
    for i in 0..tasks.len()
        invariant
            v == task_views(tasks@),
            task_views(out@) == lists::drop_where(v.take(i as int), task_id_is(id@)),
    {
        assert(v.take(i + 1).drop_last() == v.take(i as int));
        assert(v.take(i + 1).last() == tasks@[i as int]@);
        if !string_is(&tasks[i].id, id) {
            out.push(copy_task(&tasks[i]));
        }
    }
    assert(v.take(tasks.len() as int) == v);
    out
}

/// The events whose id is not `id`.
pub fn events_without_id(events: &[EventPlan], id: &Vec<char>) -> (out: Vec<EventPlan>)
    ensures
        event_views(out@) == lists::drop_where(event_views(events@), event_id_is(id@)),
{
    let ghost v = event_views(events@);
    let mut out: Vec<EventPlan> = Vec::new();
    for i in 0..events.len()
        invariant
            v == event_views(events@),
            event_views(out@) == lists::drop_where(v.take(i as int), event_id_is(id@)),
    {
        assert(v.take(i + 1).drop_last() == v.take(i as int));
        assert(v.take(i + 1).last() == events@[i as int]@);
        if !string_is(&events[i].id, id) {
            out.push(copy_event(&events[i]));
        }
    }
    assert(v.take(events.len() as int) == v);
    out
}

// ------------------------------------------------------------------
// Reading rendered members back
// ------------------------------------------------------------------

/// The member names of a rendered event.
pub open spec fn event_member_names() -> Seq<Seq<char>> {
    seq!["id"@, "title"@, "startDate"@, "startTime"@, "endDate"@, "endTime"@, "assignees"@, "requester"@, "createdAt"@, "note"@]
}

/// Every text of the event renders as itself (no quote, backslash or
/// line break) and none is one of the member names.
pub open spec fn event_renders_plainly(e: EventView) -> bool {
    &&& json::plain_value(e.id, event_member_names())
    &&& json::plain_value(e.title, event_member_names())
    &&& json::plain_value(e.start_date, event_member_names())
    &&& json::plain_value(e.start_time, event_member_names())
    &&& json::plain_value(e.end_date, event_member_names())
    &&& json::plain_value(e.end_time, event_member_names())
    &&& forall|i: int| 0 <= i < e.assignees.len() ==> json::plain_value(#[trigger] e.assignees[i], event_member_names())
    &&& json::plain_value(e.requester, event_member_names())
    &&& json::plain_value(e.created_at, event_member_names())
    &&& json::plain_value(e.note, event_member_names())
}

proof fn lemma_event_member_keys()
    ensures
        json::key_name("id"@),
        "{\"id\":"@ == seq!['{'] + (json::key_needle("id"@) + seq![':']),
        json::key_name("title"@),
        ",\"title\":"@ == seq![','] + (json::key_needle("title"@) + seq![':']),
        json::key_name("startDate"@),
        ",\"startDate\":"@ == seq![','] + (json::key_needle("startDate"@) + seq![':']),
        json::key_name("startTime"@),
        ",\"startTime\":"@ == seq![','] + (json::key_needle("startTime"@) + seq![':']),
        json::key_name("endDate"@),
        ",\"endDate\":"@ == seq![','] + (json::key_needle("endDate"@) + seq![':']),
        json::key_name("endTime"@),
        ",\"endTime\":"@ == seq![','] + (json::key_needle("endTime"@) + seq![':']),
        json::key_name("assignees"@),
        ",\"assignees\":"@ == seq![','] + (json::key_needle("assignees"@) + seq![':']),
        json::key_name("requester"@),
        ",\"requester\":"@ == seq![','] + (json::key_needle("requester"@) + seq![':']),
        json::key_name("createdAt"@),
        ",\"createdAt\":"@ == seq![','] + (json::key_needle("createdAt"@) + seq![':']),
        json::key_name("note"@),
        ",\"note\":"@ == seq![','] + (json::key_needle("note"@) + seq![':']),
        "id"@ != "title"@,
        "id"@ != "startDate"@,
        "id"@ != "startTime"@,
        "id"@ != "endDate"@,
        "id"@ != "endTime"@,
        "id"@ != "assignees"@,
        "id"@ != "requester"@,
        "id"@ != "createdAt"@,
        "id"@ != "note"@,
        "title"@ != "startDate"@,
        "title"@ != "startTime"@,
        "title"@ != "endDate"@,
        "title"@ != "endTime"@,
        "title"@ != "assignees"@,
        "title"@ != "requester"@,
        "title"@ != "createdAt"@,
        "title"@ != "note"@,
        "startDate"@ != "startTime"@,
        "startDate"@ != "endDate"@,
        "startDate"@ != "endTime"@,
        "startDate"@ != "assignees"@,
        "startDate"@ != "requester"@,
        "startDate"@ != "createdAt"@,
        "startDate"@ != "note"@,
        "startTime"@ != "endDate"@,
        "startTime"@ != "endTime"@,
        "startTime"@ != "assignees"@,
        "startTime"@ != "requester"@,
        "startTime"@ != "createdAt"@,
        "startTime"@ != "note"@,
        "endDate"@ != "endTime"@,
        "endDate"@ != "assignees"@,
        "endDate"@ != "requester"@,
        "endDate"@ != "createdAt"@,
        "endDate"@ != "note"@,
        "endTime"@ != "assignees"@,
        "endTime"@ != "requester"@,
        "endTime"@ != "createdAt"@,
        "endTime"@ != "note"@,
        "assignees"@ != "requester"@,
        "assignees"@ != "createdAt"@,
        "assignees"@ != "note"@,
        "requester"@ != "createdAt"@,
        "requester"@ != "note"@,
        "createdAt"@ != "note"@,
        event_member_names()[0] == "id"@,
        event_member_names()[1] == "title"@,
        event_member_names()[2] == "startDate"@,
        event_member_names()[3] == "startTime"@,
        event_member_names()[4] == "endDate"@,
        event_member_names()[5] == "endTime"@,
        event_member_names()[6] == "assignees"@,
        event_member_names()[7] == "requester"@,
        event_member_names()[8] == "createdAt"@,
        event_member_names()[9] == "note"@,
        "}"@ == seq!['}'],
{
    reveal_strlit("{\"id\":");
    reveal_strlit("id");
    reveal_strlit(",\"title\":");
    reveal_strlit("title");
    reveal_strlit(",\"startDate\":");
    reveal_strlit("startDate");
    reveal_strlit(",\"startTime\":");
    reveal_strlit("startTime");
    reveal_strlit(",\"endDate\":");
    reveal_strlit("endDate");
    reveal_strlit(",\"endTime\":");
    reveal_strlit("endTime");
    reveal_strlit(",\"assignees\":");
    reveal_strlit("assignees");
    reveal_strlit(",\"requester\":");
    reveal_strlit("requester");
    reveal_strlit(",\"createdAt\":");
    reveal_strlit("createdAt");
    reveal_strlit(",\"note\":");
    reveal_strlit("note");
    reveal_strlit("}");
    assert(json::key_name("id"@)) by {
        assert forall|j: int| 0 <= j < "id"@.len() implies (65 <= (#[trigger] "id"@[j] as u32) <= 90) || (97 <= ("id"@[j] as u32) <= 122) by {}
    }
    assert("{\"id\":"@ =~= seq!['{'] + (json::key_needle("id"@) + seq![':']));
    assert(json::key_name("title"@)) by {
        assert forall|j: int| 0 <= j < "title"@.len() implies (65 <= (#[trigger] "title"@[j] as u32) <= 90) || (97 <= ("title"@[j] as u32) <= 122) by {}
    }
    assert(",\"title\":"@ =~= seq![','] + (json::key_needle("title"@) + seq![':']));
    assert(json::key_name("startDate"@)) by {
        assert forall|j: int| 0 <= j < "startDate"@.len() implies (65 <= (#[trigger] "startDate"@[j] as u32) <= 90) || (97 <= ("startDate"@[j] as u32) <= 122) by {}
    }
    assert(",\"startDate\":"@ =~= seq![','] + (json::key_needle("startDate"@) + seq![':']));
    assert(json::key_name("startTime"@)) by {
        assert forall|j: int| 0 <= j < "startTime"@.len() implies (65 <= (#[trigger] "startTime"@[j] as u32) <= 90) || (97 <= ("startTime"@[j] as u32) <= 122) by {}
    }
    assert(",\"startTime\":"@ =~= seq![','] + (json::key_needle("startTime"@) + seq![':']));
    assert(json::key_name("endDate"@)) by {
        assert forall|j: int| 0 <= j < "endDate"@.len() implies (65 <= (#[trigger] "endDate"@[j] as u32) <= 90) || (97 <= ("endDate"@[j] as u32) <= 122) by {}
    }
    assert(",\"endDate\":"@ =~= seq![','] + (json::key_needle("endDate"@) + seq![':']));
    assert(json::key_name("endTime"@)) by {
        assert forall|j: int| 0 <= j < "endTime"@.len() implies (65 <= (#[trigger] "endTime"@[j] as u32) <= 90) || (97 <= ("endTime"@[j] as u32) <= 122) by {}
    }
    assert(",\"endTime\":"@ =~= seq![','] + (json::key_needle("endTime"@) + seq![':']));
    assert(json::key_name("assignees"@)) by {
        assert forall|j: int| 0 <= j < "assignees"@.len() implies (65 <= (#[trigger] "assignees"@[j] as u32) <= 90) || (97 <= ("assignees"@[j] as u32) <= 122) by {}
    }
    assert(",\"assignees\":"@ =~= seq![','] + (json::key_needle("assignees"@) + seq![':']));
    assert(json::key_name("requester"@)) by {
        assert forall|j: int| 0 <= j < "requester"@.len() implies (65 <= (#[trigger] "requester"@[j] as u32) <= 90) || (97 <= ("requester"@[j] as u32) <= 122) by {}
    }
    assert(",\"requester\":"@ =~= seq![','] + (json::key_needle("requester"@) + seq![':']));
    assert(json::key_name("createdAt"@)) by {
        assert forall|j: int| 0 <= j < "createdAt"@.len() implies (65 <= (#[trigger] "createdAt"@[j] as u32) <= 90) || (97 <= ("createdAt"@[j] as u32) <= 122) by {}
    }
    assert(",\"createdAt\":"@ =~= seq![','] + (json::key_needle("createdAt"@) + seq![':']));
    assert(json::key_name("note"@)) by {
        assert forall|j: int| 0 <= j < "note"@.len() implies (65 <= (#[trigger] "note"@[j] as u32) <= 90) || (97 <= ("note"@[j] as u32) <= 122) by {}
    }
    assert(",\"note\":"@ =~= seq![','] + (json::key_needle("note"@) + seq![':']));
    assert("id"@.len() != "title"@.len());
    assert("id"@.len() != "startDate"@.len());
    assert("id"@.len() != "startTime"@.len());
    assert("id"@.len() != "endDate"@.len());
    assert("id"@.len() != "endTime"@.len());
    assert("id"@.len() != "assignees"@.len());
    assert("id"@.len() != "requester"@.len());
    assert("id"@.len() != "createdAt"@.len());
    assert("id"@.len() != "note"@.len());
    assert("title"@.len() != "startDate"@.len());
    assert("title"@.len() != "startTime"@.len());
    assert("title"@.len() != "endDate"@.len());
    assert("title"@.len() != "endTime"@.len());
    assert("title"@.len() != "assignees"@.len());
    assert("title"@.len() != "requester"@.len());
    assert("title"@.len() != "createdAt"@.len());
    assert("title"@.len() != "note"@.len());
    assert("startDate"@[5] != "startTime"@[5]);
    assert("startDate"@.len() != "endDate"@.len());
    assert("startDate"@.len() != "endTime"@.len());
    assert("startDate"@[0] != "assignees"@[0]);
    assert("startDate"@[0] != "requester"@[0]);
    assert("startDate"@[0] != "createdAt"@[0]);
    assert("startDate"@.len() != "note"@.len());
    assert("startTime"@.len() != "endDate"@.len());
    assert("startTime"@.len() != "endTime"@.len());
    assert("startTime"@[0] != "assignees"@[0]);
    assert("startTime"@[0] != "requester"@[0]);
    assert("startTime"@[0] != "createdAt"@[0]);
    assert("startTime"@.len() != "note"@.len());
    assert("endDate"@[3] != "endTime"@[3]);
    assert("endDate"@.len() != "assignees"@.len());
    assert("endDate"@.len() != "requester"@.len());
    assert("endDate"@.len() != "createdAt"@.len());
    assert("endDate"@.len() != "note"@.len());
    assert("endTime"@.len() != "assignees"@.len());
    assert("endTime"@.len() != "requester"@.len());
    assert("endTime"@.len() != "createdAt"@.len());
    assert("endTime"@.len() != "note"@.len());
    assert("assignees"@[0] != "requester"@[0]);
    assert("assignees"@[0] != "createdAt"@[0]);
    assert("assignees"@.len() != "note"@.len());
    assert("requester"@[0] != "createdAt"@[0]);
    assert("requester"@.len() != "note"@.len());
    assert("createdAt"@.len() != "note"@.len());
    assert("}"@ =~= seq!['}']);
}

#[verifier::rlimit(50)]
#[verifier::spinoff_prover]
proof fn lemma_event_reads_id(e: EventView)
    requires
        event_renders_plainly(e),
    ensures
        json::json_field_spec(event_json(e), "id"@) == Some(e.id),
{
    lemma_event_member_keys();
    let f = "id"@;
    let x0 = seq!['{'];
    json::lemma_absent_short(x0, f);
    let a0 = str_field("{\"id\":"@, e.id);
    assert(x0 + ((json::key_needle("id"@) + seq![':']) + json::json_string(e.id)) =~= a0);
    let r1 = str_field(",\"title\":"@, e.title);
    let r2 = r1 + str_field(",\"startDate\":"@, e.start_date);
    let r3 = r2 + str_field(",\"startTime\":"@, e.start_time);
    let r4 = r3 + str_field(",\"endDate\":"@, e.end_date);
    let r5 = r4 + str_field(",\"endTime\":"@, e.end_time);
    let r6 = r5 + ",\"assignees\":"@;
    let r7 = r6 + json::string_array_json_spec(e.assignees);
    let r8 = r7 + str_field(",\"requester\":"@, e.requester);
    let r9 = r8 + str_field(",\"createdAt\":"@, e.created_at);
    let r10 = r9 + str_field(",\"note\":"@, e.note);
    let r11 = r10 + "}"@;
    let b1 = a0 + str_field(",\"title\":"@, e.title);
    let b2 = b1 + str_field(",\"startDate\":"@, e.start_date);
    assert(a0 + r1 + str_field(",\"startDate\":"@, e.start_date) =~= a0 + r2);
    let b3 = b2 + str_field(",\"startTime\":"@, e.start_time);
    assert(a0 + r2 + str_field(",\"startTime\":"@, e.start_time) =~= a0 + r3);
    let b4 = b3 + str_field(",\"endDate\":"@, e.end_date);
    assert(a0 + r3 + str_field(",\"endDate\":"@, e.end_date) =~= a0 + r4);
    let b5 = b4 + str_field(",\"endTime\":"@, e.end_time);
    assert(a0 + r4 + str_field(",\"endTime\":"@, e.end_time) =~= a0 + r5);
    let b6 = b5 + ",\"assignees\":"@;
    assert(a0 + r5 + ",\"assignees\":"@ =~= a0 + r6);
    let b7 = b6 + json::string_array_json_spec(e.assignees);
    assert(a0 + r6 + json::string_array_json_spec(e.assignees) =~= a0 + r7);
    let b8 = b7 + str_field(",\"requester\":"@, e.requester);
    assert(a0 + r7 + str_field(",\"requester\":"@, e.requester) =~= a0 + r8);
    let b9 = b8 + str_field(",\"createdAt\":"@, e.created_at);
    assert(a0 + r8 + str_field(",\"createdAt\":"@, e.created_at) =~= a0 + r9);
    let b10 = b9 + str_field(",\"note\":"@, e.note);
    assert(a0 + r9 + str_field(",\"note\":"@, e.note) =~= a0 + r10);
    let b11 = b10 + "}"@;
    assert(a0 + r10 + "}"@ =~= a0 + r11);
    assert(event_json(e) == b11);
    assert(b11 == a0 + r11);
    json::lemma_json_field_after(x0, (json::key_needle("id"@) + seq![':']), f, e.id, r11);
}

#[verifier::rlimit(50)]
#[verifier::spinoff_prover]
proof fn lemma_event_reads_title(e: EventView)
    requires
        event_renders_plainly(e),
    ensures
        json::json_field_spec(event_json(e), "title"@) == Some(e.title),
{
    lemma_event_member_keys();
    let f = "title"@;
    let x0 = seq!['{'];
    json::lemma_absent_short(x0, f);
    let a0 = str_field("{\"id\":"@, e.id);
    let a1 = a0 + str_field(",\"title\":"@, e.title);
    assert(x0 + ((json::key_needle("id"@) + seq![':']) + json::json_string(e.id)) =~= a0);
    json::lemma_absent_member(x0, (json::key_needle("id"@) + seq![':']), "id"@, e.id, ',', f);
    let x1 = x0 + ((json::key_needle("id"@) + seq![':']) + json::json_string(e.id)) + seq![','];
    assert(a0 + seq![','] + ((json::key_needle("title"@) + seq![':']) + json::json_string(e.title)) =~= a0 + ((seq![','] + (json::key_needle("title"@) + seq![':'])) + json::json_string(e.title)));
    assert(x1 + ((json::key_needle("title"@) + seq![':']) + json::json_string(e.title)) == a1);
    let r2 = str_field(",\"startDate\":"@, e.start_date);
    let r3 = r2 + str_field(",\"startTime\":"@, e.start_time);
    let r4 = r3 + str_field(",\"endDate\":"@, e.end_date);
    let r5 = r4 + str_field(",\"endTime\":"@, e.end_time);
    let r6 = r5 + ",\"assignees\":"@;
    let r7 = r6 + json::string_array_json_spec(e.assignees);
    let r8 = r7 + str_field(",\"requester\":"@, e.requester);
    let r9 = r8 + str_field(",\"createdAt\":"@, e.created_at);
    let r10 = r9 + str_field(",\"note\":"@, e.note);
    let r11 = r10 + "}"@;
    let b2 = a1 + str_field(",\"startDate\":"@, e.start_date);
    let b3 = b2 + str_field(",\"startTime\":"@, e.start_time);
    assert(a1 + r2 + str_field(",\"startTime\":"@, e.start_time) =~= a1 + r3);
    let b4 = b3 + str_field(",\"endDate\":"@, e.end_date);
    assert(a1 + r3 + str_field(",\"endDate\":"@, e.end_date) =~= a1 + r4);
    let b5 = b4 + str_field(",\"endTime\":"@, e.end_time);
    assert(a1 + r4 + str_field(",\"endTime\":"@, e.end_time) =~= a1 + r5);
    let b6 = b5 + ",\"assignees\":"@;
    assert(a1 + r5 + ",\"assignees\":"@ =~= a1 + r6);
    let b7 = b6 + json::string_array_json_spec(e.assignees);
    assert(a1 + r6 + json::string_array_json_spec(e.assignees) =~= a1 + r7);
    let b8 = b7 + str_field(",\"requester\":"@, e.requester);
    assert(a1 + r7 + str_field(",\"requester\":"@, e.requester) =~= a1 + r8);
    let b9 = b8 + str_field(",\"createdAt\":"@, e.created_at);
    assert(a1 + r8 + str_field(",\"createdAt\":"@, e.created_at) =~= a1 + r9);
    let b10 = b9 + str_field(",\"note\":"@, e.note);
    assert(a1 + r9 + str_field(",\"note\":"@, e.note) =~= a1 + r10);
    let b11 = b10 + "}"@;
    assert(a1 + r10 + "}"@ =~= a1 + r11);
    assert(event_json(e) == b11);
    assert(b11 == a1 + r11);
    json::lemma_json_field_after(x1, (json::key_needle("title"@) + seq![':']), f, e.title, r11);
}

#[verifier::rlimit(50)]
#[verifier::spinoff_prover]
proof fn lemma_event_reads_startDate(e: EventView)
    requires
        event_renders_plainly(e),
    ensures
        json::json_field_spec(event_json(e), "startDate"@) == Some(e.start_date),
{
    lemma_event_member_keys();
    let f = "startDate"@;
    let x0 = seq!['{'];
    json::lemma_absent_short(x0, f);
    let a0 = str_field("{\"id\":"@, e.id);
    let a1 = a0 + str_field(",\"title\":"@, e.title);
    let a2 = a1 + str_field(",\"startDate\":"@, e.start_date);
    assert(x0 + ((json::key_needle("id"@) + seq![':']) + json::json_string(e.id)) =~= a0);
    json::lemma_absent_member(x0, (json::key_needle("id"@) + seq![':']), "id"@, e.id, ',', f);
    let x1 = x0 + ((json::key_needle("id"@) + seq![':']) + json::json_string(e.id)) + seq![','];
    assert(a0 + seq![','] + ((json::key_needle("title"@) + seq![':']) + json::json_string(e.title)) =~= a0 + ((seq![','] + (json::key_needle("title"@) + seq![':'])) + json::json_string(e.title)));
    assert(x1 + ((json::key_needle("title"@) + seq![':']) + json::json_string(e.title)) == a1);
    json::lemma_absent_member(x1, (json::key_needle("title"@) + seq![':']), "title"@, e.title, ',', f);
    let x2 = x1 + ((json::key_needle("title"@) + seq![':']) + json::json_string(e.title)) + seq![','];
    assert(a1 + seq![','] + ((json::key_needle("startDate"@) + seq![':']) + json::json_string(e.start_date)) =~= a1 + ((seq![','] + (json::key_needle("startDate"@) + seq![':'])) + json::json_string(e.start_date)));
    assert(x2 + ((json::key_needle("startDate"@) + seq![':']) + json::json_string(e.start_date)) == a2);
    let r3 = str_field(",\"startTime\":"@, e.start_time);
    let r4 = r3 + str_field(",\"endDate\":"@, e.end_date);
    let r5 = r4 + str_field(",\"endTime\":"@, e.end_time);
    let r6 = r5 + ",\"assignees\":"@;
    let r7 = r6 + json::string_array_json_spec(e.assignees);
    let r8 = r7 + str_field(",\"requester\":"@, e.requester);
    let r9 = r8 + str_field(",\"createdAt\":"@, e.created_at);
    let r10 = r9 + str_field(",\"note\":"@, e.note);
    let r11 = r10 + "}"@;
    let b3 = a2 + str_field(",\"startTime\":"@, e.start_time);
    let b4 = b3 + str_field(",\"endDate\":"@, e.end_date);
    assert(a2 + r3 + str_field(",\"endDate\":"@, e.end_date) =~= a2 + r4);
    let b5 = b4 + str_field(",\"endTime\":"@, e.end_time);
    assert(a2 + r4 + str_field(",\"endTime\":"@, e.end_time) =~= a2 + r5);
    let b6 = b5 + ",\"assignees\":"@;
    assert(a2 + r5 + ",\"assignees\":"@ =~= a2 + r6);
    let b7 = b6 + json::string_array_json_spec(e.assignees);
    assert(a2 + r6 + json::string_array_json_spec(e.assignees) =~= a2 + r7);
    let b8 = b7 + str_field(",\"requester\":"@, e.requester);
    assert(a2 + r7 + str_field(",\"requester\":"@, e.requester) =~= a2 + r8);
    let b9 = b8 + str_field(",\"createdAt\":"@, e.created_at);
    assert(a2 + r8 + str_field(",\"createdAt\":"@, e.created_at) =~= a2 + r9);
    let b10 = b9 + str_field(",\"note\":"@, e.note);
    assert(a2 + r9 + str_field(",\"note\":"@, e.note) =~= a2 + r10);
    let b11 = b10 + "}"@;
    assert(a2 + r10 + "}"@ =~= a2 + r11);
    assert(event_json(e) == b11);
    assert(b11 == a2 + r11);
    json::lemma_json_field_after(x2, (json::key_needle("startDate"@) + seq![':']), f, e.start_date, r11);
}

#[verifier::rlimit(50)]
#[verifier::spinoff_prover]
proof fn lemma_event_reads_startTime(e: EventView)
    requires
        event_renders_plainly(e),
    ensures
        json::json_field_spec(event_json(e), "startTime"@) == Some(e.start_time),
{
    lemma_event_member_keys();
    let f = "startTime"@;
    let x0 = seq!['{'];
    json::lemma_absent_short(x0, f);
    let a0 = str_field("{\"id\":"@, e.id);
    let a1 = a0 + str_field(",\"title\":"@, e.title);
    let a2 = a1 + str_field(",\"startDate\":"@, e.start_date);
    let a3 = a2 + str_field(",\"startTime\":"@, e.start_time);
    assert(x0 + ((json::key_needle("id"@) + seq![':']) + json::json_string(e.id)) =~= a0);
    json::lemma_absent_member(x0, (json::key_needle("id"@) + seq![':']), "id"@, e.id, ',', f);
    let x1 = x0 + ((json::key_needle("id"@) + seq![':']) + json::json_string(e.id)) + seq![','];
    assert(a0 + seq![','] + ((json::key_needle("title"@) + seq![':']) + json::json_string(e.title)) =~= a0 + ((seq![','] + (json::key_needle("title"@) + seq![':'])) + json::json_string(e.title)));
    assert(x1 + ((json::key_needle("title"@) + seq![':']) + json::json_string(e.title)) == a1);
    json::lemma_absent_member(x1, (json::key_needle("title"@) + seq![':']), "title"@, e.title, ',', f);
    let x2 = x1 + ((json::key_needle("title"@) + seq![':']) + json::json_string(e.title)) + seq![','];
    assert(a1 + seq![','] + ((json::key_needle("startDate"@) + seq![':']) + json::json_string(e.start_date)) =~= a1 + ((seq![','] + (json::key_needle("startDate"@) + seq![':'])) + json::json_string(e.start_date)));
    assert(x2 + ((json::key_needle("startDate"@) + seq![':']) + json::json_string(e.start_date)) == a2);
    json::lemma_absent_member(x2, (json::key_needle("startDate"@) + seq![':']), "startDate"@, e.start_date, ',', f);
    let x3 = x2 + ((json::key_needle("startDate"@) + seq![':']) + json::json_string(e.start_date)) + seq![','];
    assert(a2 + seq![','] + ((json::key_needle("startTime"@) + seq![':']) + json::json_string(e.start_time)) =~= a2 + ((seq![','] + (json::key_needle("startTime"@) + seq![':'])) + json::json_string(e.start_time)));
    assert(x3 + ((json::key_needle("startTime"@) + seq![':']) + json::json_string(e.start_time)) == a3);
    let r4 = str_field(",\"endDate\":"@, e.end_date);
    let r5 = r4 + str_field(",\"endTime\":"@, e.end_time);
    let r6 = r5 + ",\"assignees\":"@;
    let r7 = r6 + json::string_array_json_spec(e.assignees);
    let r8 = r7 + str_field(",\"requester\":"@, e.requester);
    let r9 = r8 + str_field(",\"createdAt\":"@, e.created_at);
    let r10 = r9 + str_field(",\"note\":"@, e.note);
    let r11 = r10 + "}"@;
    let b4 = a3 + str_field(",\"endDate\":"@, e.end_date);
    let b5 = b4 + str_field(",\"endTime\":"@, e.end_time);
    assert(a3 + r4 + str_field(",\"endTime\":"@, e.end_time) =~= a3 + r5);
    let b6 = b5 + ",\"assignees\":"@;
    assert(a3 + r5 + ",\"assignees\":"@ =~= a3 + r6);
    let b7 = b6 + json::string_array_json_spec(e.assignees);
    assert(a3 + r6 + json::string_array_json_spec(e.assignees) =~= a3 + r7);
    let b8 = b7 + str_field(",\"requester\":"@, e.requester);
    assert(a3 + r7 + str_field(",\"requester\":"@, e.requester) =~= a3 + r8);
    let b9 = b8 + str_field(",\"createdAt\":"@, e.created_at);
    assert(a3 + r8 + str_field(",\"createdAt\":"@, e.created_at) =~= a3 + r9);
    let b10 = b9 + str_field(",\"note\":"@, e.note);
    assert(a3 + r9 + str_field(",\"note\":"@, e.note) =~= a3 + r10);
    let b11 = b10 + "}"@;
    assert(a3 + r10 + "}"@ =~= a3 + r11);
    assert(event_json(e) == b11);
    assert(b11 == a3 + r11);
    json::lemma_json_field_after(x3, (json::key_needle("startTime"@) + seq![':']), f, e.start_time, r11);
}

#[verifier::rlimit(50)]
#[verifier::spinoff_prover]
proof fn lemma_event_reads_endDate(e: EventView)
    requires
        event_renders_plainly(e),
    ensures
        json::json_field_spec(event_json(e), "endDate"@) == Some(e.end_date),
{
    lemma_event_member_keys();
    let f = "endDate"@;
    let x0 = seq!['{'];
    json::lemma_absent_short(x0, f);
    let a0 = str_field("{\"id\":"@, e.id);
    let a1 = a0 + str_field(",\"title\":"@, e.title);
    let a2 = a1 + str_field(",\"startDate\":"@, e.start_date);
    let a3 = a2 + str_field(",\"startTime\":"@, e.start_time);
    let a4 = a3 + str_field(",\"endDate\":"@, e.end_date);
    assert(x0 + ((json::key_needle("id"@) + seq![':']) + json::json_string(e.id)) =~= a0);
    json::lemma_absent_member(x0, (json::key_needle("id"@) + seq![':']), "id"@, e.id, ',', f);
    let x1 = x0 + ((json::key_needle("id"@) + seq![':']) + json::json_string(e.id)) + seq![','];
    assert(a0 + seq![','] + ((json::key_needle("title"@) + seq![':']) + json::json_string(e.title)) =~= a0 + ((seq![','] + (json::key_needle("title"@) + seq![':'])) + json::json_string(e.title)));
    assert(x1 + ((json::key_needle("title"@) + seq![':']) + json::json_string(e.title)) == a1);
    json::lemma_absent_member(x1, (json::key_needle("title"@) + seq![':']), "title"@, e.title, ',', f);
    let x2 = x1 + ((json::key_needle("title"@) + seq![':']) + json::json_string(e.title)) + seq![','];
    assert(a1 + seq![','] + ((json::key_needle("startDate"@) + seq![':']) + json::json_string(e.start_date)) =~= a1 + ((seq![','] + (json::key_needle("startDate"@) + seq![':'])) + json::json_string(e.start_date)));
    assert(x2 + ((json::key_needle("startDate"@) + seq![':']) + json::json_string(e.start_date)) == a2);
    json::lemma_absent_member(x2, (json::key_needle("startDate"@) + seq![':']), "startDate"@, e.start_date, ',', f);
    let x3 = x2 + ((json::key_needle("startDate"@) + seq![':']) + json::json_string(e.start_date)) + seq![','];
    assert(a2 + seq![','] + ((json::key_needle("startTime"@) + seq![':']) + json::json_string(e.start_time)) =~= a2 + ((seq![','] + (json::key_needle("startTime"@) + seq![':'])) + json::json_string(e.start_time)));
    assert(x3 + ((json::key_needle("startTime"@) + seq![':']) + json::json_string(e.start_time)) == a3);
    json::lemma_absent_member(x3, (json::key_needle("startTime"@) + seq![':']), "startTime"@, e.start_time, ',', f);
    let x4 = x3 + ((json::key_needle("startTime"@) + seq![':']) + json::json_string(e.start_time)) + seq![','];
    assert(a3 + seq![','] + ((json::key_needle("endDate"@) + seq![':']) + json::json_string(e.end_date)) =~= a3 + ((seq![','] + (json::key_needle("endDate"@) + seq![':'])) + json::json_string(e.end_date)));
    assert(x4 + ((json::key_needle("endDate"@) + seq![':']) + json::json_string(e.end_date)) == a4);
    let r5 = str_field(",\"endTime\":"@, e.end_time);
    let r6 = r5 + ",\"assignees\":"@;
    let r7 = r6 + json::string_array_json_spec(e.assignees);
    let r8 = r7 + str_field(",\"requester\":"@, e.requester);
    let r9 = r8 + str_field(",\"createdAt\":"@, e.created_at);
    let r10 = r9 + str_field(",\"note\":"@, e.note);
    let r11 = r10 + "}"@;
    let b5 = a4 + str_field(",\"endTime\":"@, e.end_time);
    let b6 = b5 + ",\"assignees\":"@;
    assert(a4 + r5 + ",\"assignees\":"@ =~= a4 + r6);
    let b7 = b6 + json::string_array_json_spec(e.assignees);
    assert(a4 + r6 + json::string_array_json_spec(e.assignees) =~= a4 + r7);
    let b8 = b7 + str_field(",\"requester\":"@, e.requester);
    assert(a4 + r7 + str_field(",\"requester\":"@, e.requester) =~= a4 + r8);
    let b9 = b8 + str_field(",\"createdAt\":"@, e.created_at);
    assert(a4 + r8 + str_field(",\"createdAt\":"@, e.created_at) =~= a4 + r9);
    let b10 = b9 + str_field(",\"note\":"@, e.note);
    assert(a4 + r9 + str_field(",\"note\":"@, e.note) =~= a4 + r10);
    let b11 = b10 + "}"@;
    assert(a4 + r10 + "}"@ =~= a4 + r11);
    assert(event_json(e) == b11);
    assert(b11 == a4 + r11);
    json::lemma_json_field_after(x4, (json::key_needle("endDate"@) + seq![':']), f, e.end_date, r11);
}

#[verifier::rlimit(50)]
#[verifier::spinoff_prover]
proof fn lemma_event_reads_endTime(e: EventView)
    requires
        event_renders_plainly(e),
    ensures
        json::json_field_spec(event_json(e), "endTime"@) == Some(e.end_time),
{
    lemma_event_member_keys();
    let f = "endTime"@;
    let x0 = seq!['{'];
    json::lemma_absent_short(x0, f);
    let a0 = str_field("{\"id\":"@, e.id);
    let a1 = a0 + str_field(",\"title\":"@, e.title);
    let a2 = a1 + str_field(",\"startDate\":"@, e.start_date);
    let a3 = a2 + str_field(",\"startTime\":"@, e.start_time);
    let a4 = a3 + str_field(",\"endDate\":"@, e.end_date);
    let a5 = a4 + str_field(",\"endTime\":"@, e.end_time);
    assert(x0 + ((json::key_needle("id"@) + seq![':']) + json::json_string(e.id)) =~= a0);
    json::lemma_absent_member(x0, (json::key_needle("id"@) + seq![':']), "id"@, e.id, ',', f);
    let x1 = x0 + ((json::key_needle("id"@) + seq![':']) + json::json_string(e.id)) + seq![','];
    assert(a0 + seq![','] + ((json::key_needle("title"@) + seq![':']) + json::json_string(e.title)) =~= a0 + ((seq![','] + (json::key_needle("title"@) + seq![':'])) + json::json_string(e.title)));
    assert(x1 + ((json::key_needle("title"@) + seq![':']) + json::json_string(e.title)) == a1);
    json::lemma_absent_member(x1, (json::key_needle("title"@) + seq![':']), "title"@, e.title, ',', f);
    let x2 = x1 + ((json::key_needle("title"@) + seq![':']) + json::json_string(e.title)) + seq![','];
    assert(a1 + seq![','] + ((json::key_needle("startDate"@) + seq![':']) + json::json_string(e.start_date)) =~= a1 + ((seq![','] + (json::key_needle("startDate"@) + seq![':'])) + json::json_string(e.start_date)));
    assert(x2 + ((json::key_needle("startDate"@) + seq![':']) + json::json_string(e.start_date)) == a2);
    json::lemma_absent_member(x2, (json::key_needle("startDate"@) + seq![':']), "startDate"@, e.start_date, ',', f);
    let x3 = x2 + ((json::key_needle("startDate"@) + seq![':']) + json::json_string(e.start_date)) + seq![','];
    assert(a2 + seq![','] + ((json::key_needle("startTime"@) + seq![':']) + json::json_string(e.start_time)) =~= a2 + ((seq![','] + (json::key_needle("startTime"@) + seq![':'])) + json::json_string(e.start_time)));
    assert(x3 + ((json::key_needle("startTime"@) + seq![':']) + json::json_string(e.start_time)) == a3);
    json::lemma_absent_member(x3, (json::key_needle("startTime"@) + seq![':']), "startTime"@, e.start_time, ',', f);
    let x4 = x3 + ((json::key_needle("startTime"@) + seq![':']) + json::json_string(e.start_time)) + seq![','];
    assert(a3 + seq![','] + ((json::key_needle("endDate"@) + seq![':']) + json::json_string(e.end_date)) =~= a3 + ((seq![','] + (json::key_needle("endDate"@) + seq![':'])) + json::json_string(e.end_date)));
    assert(x4 + ((json::key_needle("endDate"@) + seq![':']) + json::json_string(e.end_date)) == a4);
    json::lemma_absent_member(x4, (json::key_needle("endDate"@) + seq![':']), "endDate"@, e.end_date, ',', f);
    let x5 = x4 + ((json::key_needle("endDate"@) + seq![':']) + json::json_string(e.end_date)) + seq![','];
    assert(a4 + seq![','] + ((json::key_needle("endTime"@) + seq![':']) + json::json_string(e.end_time)) =~= a4 + ((seq![','] + (json::key_needle("endTime"@) + seq![':'])) + json::json_string(e.end_time)));
    assert(x5 + ((json::key_needle("endTime"@) + seq![':']) + json::json_string(e.end_time)) == a5);
    let r6 = ",\"assignees\":"@;
    let r7 = r6 + json::string_array_json_spec(e.assignees);
    let r8 = r7 + str_field(",\"requester\":"@, e.requester);
    let r9 = r8 + str_field(",\"createdAt\":"@, e.created_at);
    let r10 = r9 + str_field(",\"note\":"@, e.note);
    let r11 = r10 + "}"@;
    let b6 = a5 + ",\"assignees\":"@;
    let b7 = b6 + json::string_array_json_spec(e.assignees);
    assert(a5 + r6 + json::string_array_json_spec(e.assignees) =~= a5 + r7);
    let b8 = b7 + str_field(",\"requester\":"@, e.requester);
    assert(a5 + r7 + str_field(",\"requester\":"@, e.requester) =~= a5 + r8);
    let b9 = b8 + str_field(",\"createdAt\":"@, e.created_at);
    assert(a5 + r8 + str_field(",\"createdAt\":"@, e.created_at) =~= a5 + r9);
    let b10 = b9 + str_field(",\"note\":"@, e.note);
    assert(a5 + r9 + str_field(",\"note\":"@, e.note) =~= a5 + r10);
    let b11 = b10 + "}"@;
    assert(a5 + r10 + "}"@ =~= a5 + r11);
    assert(event_json(e) == b11);
    assert(b11 == a5 + r11);
    json::lemma_json_field_after(x5, (json::key_needle("endTime"@) + seq![':']), f, e.end_time, r11);
}

#[verifier::rlimit(50)]
#[verifier::spinoff_prover]
proof fn lemma_event_reads_requester(e: EventView)
    requires
        event_renders_plainly(e),
    ensures
        json::json_field_spec(event_json(e), "requester"@) == Some(e.requester),
{
    lemma_event_member_keys();
    let f = "requester"@;
    let x0 = seq!['{'];
    json::lemma_absent_short(x0, f);
    let a0 = str_field("{\"id\":"@, e.id);
    let a1 = a0 + str_field(",\"title\":"@, e.title);
    let a2 = a1 + str_field(",\"startDate\":"@, e.start_date);
    let a3 = a2 + str_field(",\"startTime\":"@, e.start_time);
    let a4 = a3 + str_field(",\"endDate\":"@, e.end_date);
    let a5 = a4 + str_field(",\"endTime\":"@, e.end_time);
    let a6 = a5 + ",\"assignees\":"@;
    let a7 = a6 + json::string_array_json_spec(e.assignees);
    let a8 = a7 + str_field(",\"requester\":"@, e.requester);
    assert(x0 + ((json::key_needle("id"@) + seq![':']) + json::json_string(e.id)) =~= a0);
    json::lemma_absent_member(x0, (json::key_needle("id"@) + seq![':']), "id"@, e.id, ',', f);
    let x1 = x0 + ((json::key_needle("id"@) + seq![':']) + json::json_string(e.id)) + seq![','];
    assert(a0 + seq![','] + ((json::key_needle("title"@) + seq![':']) + json::json_string(e.title)) =~= a0 + ((seq![','] + (json::key_needle("title"@) + seq![':'])) + json::json_string(e.title)));
    assert(x1 + ((json::key_needle("title"@) + seq![':']) + json::json_string(e.title)) == a1);
    json::lemma_absent_member(x1, (json::key_needle("title"@) + seq![':']), "title"@, e.title, ',', f);
    let x2 = x1 + ((json::key_needle("title"@) + seq![':']) + json::json_string(e.title)) + seq![','];
    assert(a1 + seq![','] + ((json::key_needle("startDate"@) + seq![':']) + json::json_string(e.start_date)) =~= a1 + ((seq![','] + (json::key_needle("startDate"@) + seq![':'])) + json::json_string(e.start_date)));
    assert(x2 + ((json::key_needle("startDate"@) + seq![':']) + json::json_string(e.start_date)) == a2);
    json::lemma_absent_member(x2, (json::key_needle("startDate"@) + seq![':']), "startDate"@, e.start_date, ',', f);
    let x3 = x2 + ((json::key_needle("startDate"@) + seq![':']) + json::json_string(e.start_date)) + seq![','];
    assert(a2 + seq![','] + ((json::key_needle("startTime"@) + seq![':']) + json::json_string(e.start_time)) =~= a2 + ((seq![','] + (json::key_needle("startTime"@) + seq![':'])) + json::json_string(e.start_time)));
    assert(x3 + ((json::key_needle("startTime"@) + seq![':']) + json::json_string(e.start_time)) == a3);
    json::lemma_absent_member(x3, (json::key_needle("startTime"@) + seq![':']), "startTime"@, e.start_time, ',', f);
    let x4 = x3 + ((json::key_needle("startTime"@) + seq![':']) + json::json_string(e.start_time)) + seq![','];
    assert(a3 + seq![','] + ((json::key_needle("endDate"@) + seq![':']) + json::json_string(e.end_date)) =~= a3 + ((seq![','] + (json::key_needle("endDate"@) + seq![':'])) + json::json_string(e.end_date)));
    assert(x4 + ((json::key_needle("endDate"@) + seq![':']) + json::json_string(e.end_date)) == a4);
    json::lemma_absent_member(x4, (json::key_needle("endDate"@) + seq![':']), "endDate"@, e.end_date, ',', f);
    let x5 = x4 + ((json::key_needle("endDate"@) + seq![':']) + json::json_string(e.end_date)) + seq![','];
    assert(a4 + seq![','] + ((json::key_needle("endTime"@) + seq![':']) + json::json_string(e.end_time)) =~= a4 + ((seq![','] + (json::key_needle("endTime"@) + seq![':'])) + json::json_string(e.end_time)));
    assert(x5 + ((json::key_needle("endTime"@) + seq![':']) + json::json_string(e.end_time)) == a5);
    json::lemma_absent_member(x5, (json::key_needle("endTime"@) + seq![':']), "endTime"@, e.end_time, ',', f);
    let x6 = x5 + ((json::key_needle("endTime"@) + seq![':']) + json::json_string(e.end_time)) + seq![','];
    assert(a5 + seq![','] + ((json::key_needle("assignees"@) + seq![':']) + json::string_array_json_spec(e.assignees)) =~= (a5 + (seq![','] + (json::key_needle("assignees"@) + seq![':']))) + json::string_array_json_spec(e.assignees));
    assert(x6 + ((json::key_needle("assignees"@) + seq![':']) + json::string_array_json_spec(e.assignees)) == a7);
    assert forall|k: int| 0 <= k < e.assignees.len() implies json::plain(#[trigger] e.assignees[k]) && e.assignees[k] != f by {
        assert(json::plain_value(e.assignees[k], event_member_names()));
    }
    json::lemma_absent_array_member(x6, (json::key_needle("assignees"@) + seq![':']), "assignees"@, e.assignees, ',', f);
    let x7 = x6 + ((json::key_needle("assignees"@) + seq![':']) + json::string_array_json_spec(e.assignees)) + seq![','];
    assert(a7 + seq![','] + ((json::key_needle("requester"@) + seq![':']) + json::json_string(e.requester)) =~= a7 + ((seq![','] + (json::key_needle("requester"@) + seq![':'])) + json::json_string(e.requester)));
    assert(x7 + ((json::key_needle("requester"@) + seq![':']) + json::json_string(e.requester)) == a8);
    let r9 = str_field(",\"createdAt\":"@, e.created_at);
    let r10 = r9 + str_field(",\"note\":"@, e.note);
    let r11 = r10 + "}"@;
    let b9 = a8 + str_field(",\"createdAt\":"@, e.created_at);
    let b10 = b9 + str_field(",\"note\":"@, e.note);
    assert(a8 + r9 + str_field(",\"note\":"@, e.note) =~= a8 + r10);
    let b11 = b10 + "}"@;
    assert(a8 + r10 + "}"@ =~= a8 + r11);
    assert(event_json(e) == b11);
    assert(b11 == a8 + r11);
    json::lemma_json_field_after(x7, (json::key_needle("requester"@) + seq![':']), f, e.requester, r11);
}

#[verifier::rlimit(50)]
#[verifier::spinoff_prover]
proof fn lemma_event_reads_createdAt(e: EventView)
    requires
        event_renders_plainly(e),
    ensures
        json::json_field_spec(event_json(e), "createdAt"@) == Some(e.created_at),
{
    lemma_event_member_keys();
    let f = "createdAt"@;
    let x0 = seq!['{'];
    json::lemma_absent_short(x0, f);
    let a0 = str_field("{\"id\":"@, e.id);
    let a1 = a0 + str_field(",\"title\":"@, e.title);
    let a2 = a1 + str_field(",\"startDate\":"@, e.start_date);
    let a3 = a2 + str_field(",\"startTime\":"@, e.start_time);
    let a4 = a3 + str_field(",\"endDate\":"@, e.end_date);
    let a5 = a4 + str_field(",\"endTime\":"@, e.end_time);
    let a6 = a5 + ",\"assignees\":"@;
    let a7 = a6 + json::string_array_json_spec(e.assignees);
    let a8 = a7 + str_field(",\"requester\":"@, e.requester);
    let a9 = a8 + str_field(",\"createdAt\":"@, e.created_at);
    assert(x0 + ((json::key_needle("id"@) + seq![':']) + json::json_string(e.id)) =~= a0);
    json::lemma_absent_member(x0, (json::key_needle("id"@) + seq![':']), "id"@, e.id, ',', f);
    let x1 = x0 + ((json::key_needle("id"@) + seq![':']) + json::json_string(e.id)) + seq![','];
    assert(a0 + seq![','] + ((json::key_needle("title"@) + seq![':']) + json::json_string(e.title)) =~= a0 + ((seq![','] + (json::key_needle("title"@) + seq![':'])) + json::json_string(e.title)));
    assert(x1 + ((json::key_needle("title"@) + seq![':']) + json::json_string(e.title)) == a1);
    json::lemma_absent_member(x1, (json::key_needle("title"@) + seq![':']), "title"@, e.title, ',', f);
    let x2 = x1 + ((json::key_needle("title"@) + seq![':']) + json::json_string(e.title)) + seq![','];
    assert(a1 + seq![','] + ((json::key_needle("startDate"@) + seq![':']) + json::json_string(e.start_date)) =~= a1 + ((seq![','] + (json::key_needle("startDate"@) + seq![':'])) + json::json_string(e.start_date)));
    assert(x2 + ((json::key_needle("startDate"@) + seq![':']) + json::json_string(e.start_date)) == a2);
    json::lemma_absent_member(x2, (json::key_needle("startDate"@) + seq![':']), "startDate"@, e.start_date, ',', f);
    let x3 = x2 + ((json::key_needle("startDate"@) + seq![':']) + json::json_string(e.start_date)) + seq![','];
    assert(a2 + seq![','] + ((json::key_needle("startTime"@) + seq![':']) + json::json_string(e.start_time)) =~= a2 + ((seq![','] + (json::key_needle("startTime"@) + seq![':'])) + json::json_string(e.start_time)));
    assert(x3 + ((json::key_needle("startTime"@) + seq![':']) + json::json_string(e.start_time)) == a3);
    json::lemma_absent_member(x3, (json::key_needle("startTime"@) + seq![':']), "startTime"@, e.start_time, ',', f);
    let x4 = x3 + ((json::key_needle("startTime"@) + seq![':']) + json::json_string(e.start_time)) + seq![','];
    assert(a3 + seq![','] + ((json::key_needle("endDate"@) + seq![':']) + json::json_string(e.end_date)) =~= a3 + ((seq![','] + (json::key_needle("endDate"@) + seq![':'])) + json::json_string(e.end_date)));
    assert(x4 + ((json::key_needle("endDate"@) + seq![':']) + json::json_string(e.end_date)) == a4);
    json::lemma_absent_member(x4, (json::key_needle("endDate"@) + seq![':']), "endDate"@, e.end_date, ',', f);
    let x5 = x4 + ((json::key_needle("endDate"@) + seq![':']) + json::json_string(e.end_date)) + seq![','];
    assert(a4 + seq![','] + ((json::key_needle("endTime"@) + seq![':']) + json::json_string(e.end_time)) =~= a4 + ((seq![','] + (json::key_needle("endTime"@) + seq![':'])) + json::json_string(e.end_time)));
    assert(x5 + ((json::key_needle("endTime"@) + seq![':']) + json::json_string(e.end_time)) == a5);
    json::lemma_absent_member(x5, (json::key_needle("endTime"@) + seq![':']), "endTime"@, e.end_time, ',', f);
    let x6 = x5 + ((json::key_needle("endTime"@) + seq![':']) + json::json_string(e.end_time)) + seq![','];
    assert(a5 + seq![','] + ((json::key_needle("assignees"@) + seq![':']) + json::string_array_json_spec(e.assignees)) =~= (a5 + (seq![','] + (json::key_needle("assignees"@) + seq![':']))) + json::string_array_json_spec(e.assignees));
    assert(x6 + ((json::key_needle("assignees"@) + seq![':']) + json::string_array_json_spec(e.assignees)) == a7);
    assert forall|k: int| 0 <= k < e.assignees.len() implies json::plain(#[trigger] e.assignees[k]) && e.assignees[k] != f by {
        assert(json::plain_value(e.assignees[k], event_member_names()));
    }
    json::lemma_absent_array_member(x6, (json::key_needle("assignees"@) + seq![':']), "assignees"@, e.assignees, ',', f);
    let x7 = x6 + ((json::key_needle("assignees"@) + seq![':']) + json::string_array_json_spec(e.assignees)) + seq![','];
    assert(a7 + seq![','] + ((json::key_needle("requester"@) + seq![':']) + json::json_string(e.requester)) =~= a7 + ((seq![','] + (json::key_needle("requester"@) + seq![':'])) + json::json_string(e.requester)));
    assert(x7 + ((json::key_needle("requester"@) + seq![':']) + json::json_string(e.requester)) == a8);
    json::lemma_absent_member(x7, (json::key_needle("requester"@) + seq![':']), "requester"@, e.requester, ',', f);
    let x8 = x7 + ((json::key_needle("requester"@) + seq![':']) + json::json_string(e.requester)) + seq![','];
    assert(a8 + seq![','] + ((json::key_needle("createdAt"@) + seq![':']) + json::json_string(e.created_at)) =~= a8 + ((seq![','] + (json::key_needle("createdAt"@) + seq![':'])) + json::json_string(e.created_at)));
    assert(x8 + ((json::key_needle("createdAt"@) + seq![':']) + json::json_string(e.created_at)) == a9);
    let r10 = str_field(",\"note\":"@, e.note);
    let r11 = r10 + "}"@;
    let b10 = a9 + str_field(",\"note\":"@, e.note);
    let b11 = b10 + "}"@;
    assert(a9 + r10 + "}"@ =~= a9 + r11);
    assert(event_json(e) == b11);
    assert(b11 == a9 + r11);
    json::lemma_json_field_after(x8, (json::key_needle("createdAt"@) + seq![':']), f, e.created_at, r11);
}

#[verifier::rlimit(50)]
#[verifier::spinoff_prover]
proof fn lemma_event_reads_note(e: EventView)
    requires
        event_renders_plainly(e),
    ensures
        json::json_field_spec(event_json(e), "note"@) == Some(e.note),
{
    lemma_event_member_keys();
    let f = "note"@;
    let x0 = seq!['{'];
    json::lemma_absent_short(x0, f);
    let a0 = str_field("{\"id\":"@, e.id);
    let a1 = a0 + str_field(",\"title\":"@, e.title);
    let a2 = a1 + str_field(",\"startDate\":"@, e.start_date);
    let a3 = a2 + str_field(",\"startTime\":"@, e.start_time);
    let a4 = a3 + str_field(",\"endDate\":"@, e.end_date);
    let a5 = a4 + str_field(",\"endTime\":"@, e.end_time);
    let a6 = a5 + ",\"assignees\":"@;
    let a7 = a6 + json::string_array_json_spec(e.assignees);
    let a8 = a7 + str_field(",\"requester\":"@, e.requester);
    let a9 = a8 + str_field(",\"createdAt\":"@, e.created_at);
    let a10 = a9 + str_field(",\"note\":"@, e.note);
    assert(x0 + ((json::key_needle("id"@) + seq![':']) + json::json_string(e.id)) =~= a0);
    json::lemma_absent_member(x0, (json::key_needle("id"@) + seq![':']), "id"@, e.id, ',', f);
    let x1 = x0 + ((json::key_needle("id"@) + seq![':']) + json::json_string(e.id)) + seq![','];
    assert(a0 + seq![','] + ((json::key_needle("title"@) + seq![':']) + json::json_string(e.title)) =~= a0 + ((seq![','] + (json::key_needle("title"@) + seq![':'])) + json::json_string(e.title)));
    assert(x1 + ((json::key_needle("title"@) + seq![':']) + json::json_string(e.title)) == a1);
    json::lemma_absent_member(x1, (json::key_needle("title"@) + seq![':']), "title"@, e.title, ',', f);
    let x2 = x1 + ((json::key_needle("title"@) + seq![':']) + json::json_string(e.title)) + seq![','];
    assert(a1 + seq![','] + ((json::key_needle("startDate"@) + seq![':']) + json::json_string(e.start_date)) =~= a1 + ((seq![','] + (json::key_needle("startDate"@) + seq![':'])) + json::json_string(e.start_date)));
    assert(x2 + ((json::key_needle("startDate"@) + seq![':']) + json::json_string(e.start_date)) == a2);
    json::lemma_absent_member(x2, (json::key_needle("startDate"@) + seq![':']), "startDate"@, e.start_date, ',', f);
    let x3 = x2 + ((json::key_needle("startDate"@) + seq![':']) + json::json_string(e.start_date)) + seq![','];
    assert(a2 + seq![','] + ((json::key_needle("startTime"@) + seq![':']) + json::json_string(e.start_time)) =~= a2 + ((seq![','] + (json::key_needle("startTime"@) + seq![':'])) + json::json_string(e.start_time)));
    assert(x3 + ((json::key_needle("startTime"@) + seq![':']) + json::json_string(e.start_time)) == a3);
    json::lemma_absent_member(x3, (json::key_needle("startTime"@) + seq![':']), "startTime"@, e.start_time, ',', f);
    let x4 = x3 + ((json::key_needle("startTime"@) + seq![':']) + json::json_string(e.start_time)) + seq![','];
    assert(a3 + seq![','] + ((json::key_needle("endDate"@) + seq![':']) + json::json_string(e.end_date)) =~= a3 + ((seq![','] + (json::key_needle("endDate"@) + seq![':'])) + json::json_string(e.end_date)));
    assert(x4 + ((json::key_needle("endDate"@) + seq![':']) + json::json_string(e.end_date)) == a4);
    json::lemma_absent_member(x4, (json::key_needle("endDate"@) + seq![':']), "endDate"@, e.end_date, ',', f);
    let x5 = x4 + ((json::key_needle("endDate"@) + seq![':']) + json::json_string(e.end_date)) + seq![','];
    assert(a4 + seq![','] + ((json::key_needle("endTime"@) + seq![':']) + json::json_string(e.end_time)) =~= a4 + ((seq![','] + (json::key_needle("endTime"@) + seq![':'])) + json::json_string(e.end_time)));
    assert(x5 + ((json::key_needle("endTime"@) + seq![':']) + json::json_string(e.end_time)) == a5);
    json::lemma_absent_member(x5, (json::key_needle("endTime"@) + seq![':']), "endTime"@, e.end_time, ',', f);
    let x6 = x5 + ((json::key_needle("endTime"@) + seq![':']) + json::json_string(e.end_time)) + seq![','];
    assert(a5 + seq![','] + ((json::key_needle("assignees"@) + seq![':']) + json::string_array_json_spec(e.assignees)) =~= (a5 + (seq![','] + (json::key_needle("assignees"@) + seq![':']))) + json::string_array_json_spec(e.assignees));
    assert(x6 + ((json::key_needle("assignees"@) + seq![':']) + json::string_array_json_spec(e.assignees)) == a7);
    assert forall|k: int| 0 <= k < e.assignees.len() implies json::plain(#[trigger] e.assignees[k]) && e.assignees[k] != f by {
        assert(json::plain_value(e.assignees[k], event_member_names()));
    }
    json::lemma_absent_array_member(x6, (json::key_needle("assignees"@) + seq![':']), "assignees"@, e.assignees, ',', f);
    let x7 = x6 + ((json::key_needle("assignees"@) + seq![':']) + json::string_array_json_spec(e.assignees)) + seq![','];
    assert(a7 + seq![','] + ((json::key_needle("requester"@) + seq![':']) + json::json_string(e.requester)) =~= a7 + ((seq![','] + (json::key_needle("requester"@) + seq![':'])) + json::json_string(e.requester)));
    assert(x7 + ((json::key_needle("requester"@) + seq![':']) + json::json_string(e.requester)) == a8);
    json::lemma_absent_member(x7, (json::key_needle("requester"@) + seq![':']), "requester"@, e.requester, ',', f);
    let x8 = x7 + ((json::key_needle("requester"@) + seq![':']) + json::json_string(e.requester)) + seq![','];
    assert(a8 + seq![','] + ((json::key_needle("createdAt"@) + seq![':']) + json::json_string(e.created_at)) =~= a8 + ((seq![','] + (json::key_needle("createdAt"@) + seq![':'])) + json::json_string(e.created_at)));
    assert(x8 + ((json::key_needle("createdAt"@) + seq![':']) + json::json_string(e.created_at)) == a9);
    json::lemma_absent_member(x8, (json::key_needle("createdAt"@) + seq![':']), "createdAt"@, e.created_at, ',', f);
    let x9 = x8 + ((json::key_needle("createdAt"@) + seq![':']) + json::json_string(e.created_at)) + seq![','];
    assert(a9 + seq![','] + ((json::key_needle("note"@) + seq![':']) + json::json_string(e.note)) =~= a9 + ((seq![','] + (json::key_needle("note"@) + seq![':'])) + json::json_string(e.note)));
    assert(x9 + ((json::key_needle("note"@) + seq![':']) + json::json_string(e.note)) == a10);
    let r11 = "}"@;
    let b11 = a10 + "}"@;
    assert(event_json(e) == b11);
    assert(b11 == a10 + r11);
    json::lemma_json_field_after(x9, (json::key_needle("note"@) + seq![':']), f, e.note, r11);
}

/// Reading a member of a rendered event back with `json_field` gives the
/// event's own value, for every text member, when its texts render as
/// themselves and none is a member name (a text equal to a later member's
/// name would be found first).
pub proof fn lemma_event_json_reads_back(e: EventView)
    requires
        event_renders_plainly(e),
    ensures
        json::json_field_spec(event_json(e), "id"@) == Some(e.id),
        json::json_field_spec(event_json(e), "title"@) == Some(e.title),
        json::json_field_spec(event_json(e), "startDate"@) == Some(e.start_date),
        json::json_field_spec(event_json(e), "startTime"@) == Some(e.start_time),
        json::json_field_spec(event_json(e), "endDate"@) == Some(e.end_date),
        json::json_field_spec(event_json(e), "endTime"@) == Some(e.end_time),
        json::json_field_spec(event_json(e), "requester"@) == Some(e.requester),
        json::json_field_spec(event_json(e), "createdAt"@) == Some(e.created_at),
        json::json_field_spec(event_json(e), "note"@) == Some(e.note),
{
    lemma_event_reads_id(e);
    lemma_event_reads_title(e);
    lemma_event_reads_startDate(e);
    lemma_event_reads_startTime(e);
    lemma_event_reads_endDate(e);
    lemma_event_reads_endTime(e);
    lemma_event_reads_requester(e);
    lemma_event_reads_createdAt(e);
    lemma_event_reads_note(e);
}


/// The member names of a rendered task.
pub open spec fn task_member_names() -> Seq<Seq<char>> {
    seq!["id"@, "title"@, "date"@, "time"@, "assignees"@, "requester"@, "createdAt"@, "note"@]
}

/// Every text of the task renders as itself (no quote, backslash or
/// line break) and none is one of the member names.
pub open spec fn task_renders_plainly(t: TaskView) -> bool {
    &&& json::plain_value(t.id, task_member_names())
    &&& json::plain_value(t.title, task_member_names())
    &&& json::plain_value(t.date, task_member_names())
    &&& json::plain_value(t.time, task_member_names())
    &&& forall|i: int| 0 <= i < t.assignees.len() ==> json::plain_value(#[trigger] t.assignees[i], task_member_names())
    &&& json::plain_value(t.requester, task_member_names())
    &&& json::plain_value(t.created_at, task_member_names())
    &&& json::plain_value(t.note, task_member_names())
}

proof fn lemma_task_member_keys()
    ensures
        json::key_name("id"@),
        "{\"id\":"@ == seq!['{'] + (json::key_needle("id"@) + seq![':']),
        json::key_name("title"@),
        ",\"title\":"@ == seq![','] + (json::key_needle("title"@) + seq![':']),
        json::key_name("date"@),
        ",\"date\":"@ == seq![','] + (json::key_needle("date"@) + seq![':']),
        json::key_name("time"@),
        ",\"time\":"@ == seq![','] + (json::key_needle("time"@) + seq![':']),
        json::key_name("assignees"@),
        ",\"assignees\":"@ == seq![','] + (json::key_needle("assignees"@) + seq![':']),
        json::key_name("requester"@),
        ",\"requester\":"@ == seq![','] + (json::key_needle("requester"@) + seq![':']),
        json::key_name("createdAt"@),
        ",\"createdAt\":"@ == seq![','] + (json::key_needle("createdAt"@) + seq![':']),
        json::key_name("note"@),
        ",\"note\":"@ == seq![','] + (json::key_needle("note"@) + seq![':']),
        "id"@ != "title"@,
        "id"@ != "date"@,
        "id"@ != "time"@,
        "id"@ != "assignees"@,
        "id"@ != "requester"@,
        "id"@ != "createdAt"@,
        "id"@ != "note"@,
        "title"@ != "date"@,
        "title"@ != "time"@,
        "title"@ != "assignees"@,
        "title"@ != "requester"@,
        "title"@ != "createdAt"@,
        "title"@ != "note"@,
        "date"@ != "time"@,
        "date"@ != "assignees"@,
        "date"@ != "requester"@,
        "date"@ != "createdAt"@,
        "date"@ != "note"@,
        "time"@ != "assignees"@,
        "time"@ != "requester"@,
        "time"@ != "createdAt"@,
        "time"@ != "note"@,
        "assignees"@ != "requester"@,
        "assignees"@ != "createdAt"@,
        "assignees"@ != "note"@,
        "requester"@ != "createdAt"@,
        "requester"@ != "note"@,
        "createdAt"@ != "note"@,
        task_member_names()[0] == "id"@,
        task_member_names()[1] == "title"@,
        task_member_names()[2] == "date"@,
        task_member_names()[3] == "time"@,
        task_member_names()[4] == "assignees"@,
        task_member_names()[5] == "requester"@,
        task_member_names()[6] == "createdAt"@,
        task_member_names()[7] == "note"@,
        "}"@ == seq!['}'],
{
    reveal_strlit("{\"id\":");
    reveal_strlit("id");
    reveal_strlit(",\"title\":");
    reveal_strlit("title");
    reveal_strlit(",\"date\":");
    reveal_strlit("date");
    reveal_strlit(",\"time\":");
    reveal_strlit("time");
    reveal_strlit(",\"assignees\":");
    reveal_strlit("assignees");
    reveal_strlit(",\"requester\":");
    reveal_strlit("requester");
    reveal_strlit(",\"createdAt\":");
    reveal_strlit("createdAt");
    reveal_strlit(",\"note\":");
    reveal_strlit("note");
    reveal_strlit("}");
    assert(json::key_name("id"@)) by {
        assert forall|j: int| 0 <= j < "id"@.len() implies (65 <= (#[trigger] "id"@[j] as u32) <= 90) || (97 <= ("id"@[j] as u32) <= 122) by {}
    }
    assert("{\"id\":"@ =~= seq!['{'] + (json::key_needle("id"@) + seq![':']));
    assert(json::key_name("title"@)) by {
        assert forall|j: int| 0 <= j < "title"@.len() implies (65 <= (#[trigger] "title"@[j] as u32) <= 90) || (97 <= ("title"@[j] as u32) <= 122) by {}
    }
    assert(",\"title\":"@ =~= seq![','] + (json::key_needle("title"@) + seq![':']));
    assert(json::key_name("date"@)) by {
        assert forall|j: int| 0 <= j < "date"@.len() implies (65 <= (#[trigger] "date"@[j] as u32) <= 90) || (97 <= ("date"@[j] as u32) <= 122) by {}
    }
    assert(",\"date\":"@ =~= seq![','] + (json::key_needle("date"@) + seq![':']));
    assert(json::key_name("time"@)) by {
        assert forall|j: int| 0 <= j < "time"@.len() implies (65 <= (#[trigger] "time"@[j] as u32) <= 90) || (97 <= ("time"@[j] as u32) <= 122) by {}
    }
    assert(",\"time\":"@ =~= seq![','] + (json::key_needle("time"@) + seq![':']));
    assert(json::key_name("assignees"@)) by {
        assert forall|j: int| 0 <= j < "assignees"@.len() implies (65 <= (#[trigger] "assignees"@[j] as u32) <= 90) || (97 <= ("assignees"@[j] as u32) <= 122) by {}
    }
    assert(",\"assignees\":"@ =~= seq![','] + (json::key_needle("assignees"@) + seq![':']));
    assert(json::key_name("requester"@)) by {
        assert forall|j: int| 0 <= j < "requester"@.len() implies (65 <= (#[trigger] "requester"@[j] as u32) <= 90) || (97 <= ("requester"@[j] as u32) <= 122) by {}
    }
    assert(",\"requester\":"@ =~= seq![','] + (json::key_needle("requester"@) + seq![':']));
    assert(json::key_name("createdAt"@)) by {
        assert forall|j: int| 0 <= j < "createdAt"@.len() implies (65 <= (#[trigger] "createdAt"@[j] as u32) <= 90) || (97 <= ("createdAt"@[j] as u32) <= 122) by {}
    }
    assert(",\"createdAt\":"@ =~= seq![','] + (json::key_needle("createdAt"@) + seq![':']));
    assert(json::key_name("note"@)) by {
        assert forall|j: int| 0 <= j < "note"@.len() implies (65 <= (#[trigger] "note"@[j] as u32) <= 90) || (97 <= ("note"@[j] as u32) <= 122) by {}
    }
    assert(",\"note\":"@ =~= seq![','] + (json::key_needle("note"@) + seq![':']));
    assert("id"@.len() != "title"@.len());
    assert("id"@.len() != "date"@.len());
    assert("id"@.len() != "time"@.len());
    assert("id"@.len() != "assignees"@.len());
    assert("id"@.len() != "requester"@.len());
    assert("id"@.len() != "createdAt"@.len());
    assert("id"@.len() != "note"@.len());
    assert("title"@.len() != "date"@.len());
    assert("title"@.len() != "time"@.len());
    assert("title"@.len() != "assignees"@.len());
    assert("title"@.len() != "requester"@.len());
    assert("title"@.len() != "createdAt"@.len());
    assert("title"@.len() != "note"@.len());
    assert("date"@[0] != "time"@[0]);
    assert("date"@.len() != "assignees"@.len());
    assert("date"@.len() != "requester"@.len());
    assert("date"@.len() != "createdAt"@.len());
    assert("date"@[0] != "note"@[0]);
    assert("time"@.len() != "assignees"@.len());
    assert("time"@.len() != "requester"@.len());
    assert("time"@.len() != "createdAt"@.len());
    assert("time"@[0] != "note"@[0]);
    assert("assignees"@[0] != "requester"@[0]);
    assert("assignees"@[0] != "createdAt"@[0]);
    assert("assignees"@.len() != "note"@.len());
    assert("requester"@[0] != "createdAt"@[0]);
    assert("requester"@.len() != "note"@.len());
    assert("createdAt"@.len() != "note"@.len());
    assert("}"@ =~= seq!['}']);
}

#[verifier::rlimit(50)]
#[verifier::spinoff_prover]
proof fn lemma_task_reads_id(t: TaskView)
    requires
        task_renders_plainly(t),
    ensures
        json::json_field_spec(task_json(t), "id"@) == Some(t.id),
{
    lemma_task_member_keys();
    let f = "id"@;
    let x0 = seq!['{'];
    json::lemma_absent_short(x0, f);
    let a0 = str_field("{\"id\":"@, t.id);
    assert(x0 + ((json::key_needle("id"@) + seq![':']) + json::json_string(t.id)) =~= a0);
    let r1 = str_field(",\"title\":"@, t.title);
    let r2 = r1 + str_field(",\"date\":"@, t.date);
    let r3 = r2 + str_field(",\"time\":"@, t.time);
    let r4 = r3 + ",\"assignees\":"@;
    let r5 = r4 + json::string_array_json_spec(t.assignees);
    let r6 = r5 + str_field(",\"requester\":"@, t.requester);
    let r7 = r6 + str_field(",\"createdAt\":"@, t.created_at);
    let r8 = r7 + str_field(",\"note\":"@, t.note);
    let r9 = r8 + "}"@;
    let b1 = a0 + str_field(",\"title\":"@, t.title);
    let b2 = b1 + str_field(",\"date\":"@, t.date);
    assert(a0 + r1 + str_field(",\"date\":"@, t.date) =~= a0 + r2);
    let b3 = b2 + str_field(",\"time\":"@, t.time);
    assert(a0 + r2 + str_field(",\"time\":"@, t.time) =~= a0 + r3);
    let b4 = b3 + ",\"assignees\":"@;
    assert(a0 + r3 + ",\"assignees\":"@ =~= a0 + r4);
    let b5 = b4 + json::string_array_json_spec(t.assignees);
    assert(a0 + r4 + json::string_array_json_spec(t.assignees) =~= a0 + r5);
    let b6 = b5 + str_field(",\"requester\":"@, t.requester);
    assert(a0 + r5 + str_field(",\"requester\":"@, t.requester) =~= a0 + r6);
    let b7 = b6 + str_field(",\"createdAt\":"@, t.created_at);
    assert(a0 + r6 + str_field(",\"createdAt\":"@, t.created_at) =~= a0 + r7);
    let b8 = b7 + str_field(",\"note\":"@, t.note);
    assert(a0 + r7 + str_field(",\"note\":"@, t.note) =~= a0 + r8);
    let b9 = b8 + "}"@;
    assert(a0 + r8 + "}"@ =~= a0 + r9);
    assert(task_json(t) == b9);
    assert(b9 == a0 + r9);
    json::lemma_json_field_after(x0, (json::key_needle("id"@) + seq![':']), f, t.id, r9);
}

#[verifier::rlimit(50)]
#[verifier::spinoff_prover]
proof fn lemma_task_reads_title(t: TaskView)
    requires
        task_renders_plainly(t),
    ensures
        json::json_field_spec(task_json(t), "title"@) == Some(t.title),
{
    lemma_task_member_keys();
    let f = "title"@;
    let x0 = seq!['{'];
    json::lemma_absent_short(x0, f);
    let a0 = str_field("{\"id\":"@, t.id);
    let a1 = a0 + str_field(",\"title\":"@, t.title);
    assert(x0 + ((json::key_needle("id"@) + seq![':']) + json::json_string(t.id)) =~= a0);
    json::lemma_absent_member(x0, (json::key_needle("id"@) + seq![':']), "id"@, t.id, ',', f);
    let x1 = x0 + ((json::key_needle("id"@) + seq![':']) + json::json_string(t.id)) + seq![','];
    assert(a0 + seq![','] + ((json::key_needle("title"@) + seq![':']) + json::json_string(t.title)) =~= a0 + ((seq![','] + (json::key_needle("title"@) + seq![':'])) + json::json_string(t.title)));
    assert(x1 + ((json::key_needle("title"@) + seq![':']) + json::json_string(t.title)) == a1);
    let r2 = str_field(",\"date\":"@, t.date);
    let r3 = r2 + str_field(",\"time\":"@, t.time);
    let r4 = r3 + ",\"assignees\":"@;
    let r5 = r4 + json::string_array_json_spec(t.assignees);
    let r6 = r5 + str_field(",\"requester\":"@, t.requester);
    let r7 = r6 + str_field(",\"createdAt\":"@, t.created_at);
    let r8 = r7 + str_field(",\"note\":"@, t.note);
    let r9 = r8 + "}"@;
    let b2 = a1 + str_field(",\"date\":"@, t.date);
    let b3 = b2 + str_field(",\"time\":"@, t.time);
    assert(a1 + r2 + str_field(",\"time\":"@, t.time) =~= a1 + r3);
    let b4 = b3 + ",\"assignees\":"@;
    assert(a1 + r3 + ",\"assignees\":"@ =~= a1 + r4);
    let b5 = b4 + json::string_array_json_spec(t.assignees);
    assert(a1 + r4 + json::string_array_json_spec(t.assignees) =~= a1 + r5);
    let b6 = b5 + str_field(",\"requester\":"@, t.requester);
    assert(a1 + r5 + str_field(",\"requester\":"@, t.requester) =~= a1 + r6);
    let b7 = b6 + str_field(",\"createdAt\":"@, t.created_at);
    assert(a1 + r6 + str_field(",\"createdAt\":"@, t.created_at) =~= a1 + r7);
    let b8 = b7 + str_field(",\"note\":"@, t.note);
    assert(a1 + r7 + str_field(",\"note\":"@, t.note) =~= a1 + r8);
    let b9 = b8 + "}"@;
    assert(a1 + r8 + "}"@ =~= a1 + r9);
    assert(task_json(t) == b9);
    assert(b9 == a1 + r9);
    json::lemma_json_field_after(x1, (json::key_needle("title"@) + seq![':']), f, t.title, r9);
}

#[verifier::rlimit(50)]
#[verifier::spinoff_prover]
proof fn lemma_task_reads_date(t: TaskView)
    requires
        task_renders_plainly(t),
    ensures
        json::json_field_spec(task_json(t), "date"@) == Some(t.date),
{
    lemma_task_member_keys();
    let f = "date"@;
    let x0 = seq!['{'];
    json::lemma_absent_short(x0, f);
    let a0 = str_field("{\"id\":"@, t.id);
    let a1 = a0 + str_field(",\"title\":"@, t.title);
    let a2 = a1 + str_field(",\"date\":"@, t.date);
    assert(x0 + ((json::key_needle("id"@) + seq![':']) + json::json_string(t.id)) =~= a0);
    json::lemma_absent_member(x0, (json::key_needle("id"@) + seq![':']), "id"@, t.id, ',', f);
    let x1 = x0 + ((json::key_needle("id"@) + seq![':']) + json::json_string(t.id)) + seq![','];
    assert(a0 + seq![','] + ((json::key_needle("title"@) + seq![':']) + json::json_string(t.title)) =~= a0 + ((seq![','] + (json::key_needle("title"@) + seq![':'])) + json::json_string(t.title)));
    assert(x1 + ((json::key_needle("title"@) + seq![':']) + json::json_string(t.title)) == a1);
    json::lemma_absent_member(x1, (json::key_needle("title"@) + seq![':']), "title"@, t.title, ',', f);
    let x2 = x1 + ((json::key_needle("title"@) + seq![':']) + json::json_string(t.title)) + seq![','];
    assert(a1 + seq![','] + ((json::key_needle("date"@) + seq![':']) + json::json_string(t.date)) =~= a1 + ((seq![','] + (json::key_needle("date"@) + seq![':'])) + json::json_string(t.date)));
    assert(x2 + ((json::key_needle("date"@) + seq![':']) + json::json_string(t.date)) == a2);
    let r3 = str_field(",\"time\":"@, t.time);
    let r4 = r3 + ",\"assignees\":"@;
    let r5 = r4 + json::string_array_json_spec(t.assignees);
    let r6 = r5 + str_field(",\"requester\":"@, t.requester);
    let r7 = r6 + str_field(",\"createdAt\":"@, t.created_at);
    let r8 = r7 + str_field(",\"note\":"@, t.note);
    let r9 = r8 + "}"@;
    let b3 = a2 + str_field(",\"time\":"@, t.time);
    let b4 = b3 + ",\"assignees\":"@;
    assert(a2 + r3 + ",\"assignees\":"@ =~= a2 + r4);
    let b5 = b4 + json::string_array_json_spec(t.assignees);
    assert(a2 + r4 + json::string_array_json_spec(t.assignees) =~= a2 + r5);
    let b6 = b5 + str_field(",\"requester\":"@, t.requester);
    assert(a2 + r5 + str_field(",\"requester\":"@, t.requester) =~= a2 + r6);
    let b7 = b6 + str_field(",\"createdAt\":"@, t.created_at);
    assert(a2 + r6 + str_field(",\"createdAt\":"@, t.created_at) =~= a2 + r7);
    let b8 = b7 + str_field(",\"note\":"@, t.note);
    assert(a2 + r7 + str_field(",\"note\":"@, t.note) =~= a2 + r8);
    let b9 = b8 + "}"@;
    assert(a2 + r8 + "}"@ =~= a2 + r9);
    assert(task_json(t) == b9);
    assert(b9 == a2 + r9);
    json::lemma_json_field_after(x2, (json::key_needle("date"@) + seq![':']), f, t.date, r9);
}

#[verifier::rlimit(50)]
#[verifier::spinoff_prover]
proof fn lemma_task_reads_time(t: TaskView)
    requires
        task_renders_plainly(t),
    ensures
        json::json_field_spec(task_json(t), "time"@) == Some(t.time),
{
    lemma_task_member_keys();
    let f = "time"@;
    let x0 = seq!['{'];
    json::lemma_absent_short(x0, f);
    let a0 = str_field("{\"id\":"@, t.id);
    let a1 = a0 + str_field(",\"title\":"@, t.title);
    let a2 = a1 + str_field(",\"date\":"@, t.date);
    let a3 = a2 + str_field(",\"time\":"@, t.time);
    assert(x0 + ((json::key_needle("id"@) + seq![':']) + json::json_string(t.id)) =~= a0);
    json::lemma_absent_member(x0, (json::key_needle("id"@) + seq![':']), "id"@, t.id, ',', f);
    let x1 = x0 + ((json::key_needle("id"@) + seq![':']) + json::json_string(t.id)) + seq![','];
    assert(a0 + seq![','] + ((json::key_needle("title"@) + seq![':']) + json::json_string(t.title)) =~= a0 + ((seq![','] + (json::key_needle("title"@) + seq![':'])) + json::json_string(t.title)));
    assert(x1 + ((json::key_needle("title"@) + seq![':']) + json::json_string(t.title)) == a1);
    json::lemma_absent_member(x1, (json::key_needle("title"@) + seq![':']), "title"@, t.title, ',', f);
    let x2 = x1 + ((json::key_needle("title"@) + seq![':']) + json::json_string(t.title)) + seq![','];
    assert(a1 + seq![','] + ((json::key_needle("date"@) + seq![':']) + json::json_string(t.date)) =~= a1 + ((seq![','] + (json::key_needle("date"@) + seq![':'])) + json::json_string(t.date)));
    assert(x2 + ((json::key_needle("date"@) + seq![':']) + json::json_string(t.date)) == a2);
    json::lemma_absent_member(x2, (json::key_needle("date"@) + seq![':']), "date"@, t.date, ',', f);
    let x3 = x2 + ((json::key_needle("date"@) + seq![':']) + json::json_string(t.date)) + seq![','];
    assert(a2 + seq![','] + ((json::key_needle("time"@) + seq![':']) + json::json_string(t.time)) =~= a2 + ((seq![','] + (json::key_needle("time"@) + seq![':'])) + json::json_string(t.time)));
    assert(x3 + ((json::key_needle("time"@) + seq![':']) + json::json_string(t.time)) == a3);
    let r4 = ",\"assignees\":"@;
    let r5 = r4 + json::string_array_json_spec(t.assignees);
    let r6 = r5 + str_field(",\"requester\":"@, t.requester);
    let r7 = r6 + str_field(",\"createdAt\":"@, t.created_at);
    let r8 = r7 + str_field(",\"note\":"@, t.note);
    let r9 = r8 + "}"@;
    let b4 = a3 + ",\"assignees\":"@;
    let b5 = b4 + json::string_array_json_spec(t.assignees);
    assert(a3 + r4 + json::string_array_json_spec(t.assignees) =~= a3 + r5);
    let b6 = b5 + str_field(",\"requester\":"@, t.requester);
    assert(a3 + r5 + str_field(",\"requester\":"@, t.requester) =~= a3 + r6);
    let b7 = b6 + str_field(",\"createdAt\":"@, t.created_at);
    assert(a3 + r6 + str_field(",\"createdAt\":"@, t.created_at) =~= a3 + r7);
    let b8 = b7 + str_field(",\"note\":"@, t.note);
    assert(a3 + r7 + str_field(",\"note\":"@, t.note) =~= a3 + r8);
    let b9 = b8 + "}"@;
    assert(a3 + r8 + "}"@ =~= a3 + r9);
    assert(task_json(t) == b9);
    assert(b9 == a3 + r9);
    json::lemma_json_field_after(x3, (json::key_needle("time"@) + seq![':']), f, t.time, r9);
}

#[verifier::rlimit(50)]
#[verifier::spinoff_prover]
proof fn lemma_task_reads_requester(t: TaskView)
    requires
        task_renders_plainly(t),
    ensures
        json::json_field_spec(task_json(t), "requester"@) == Some(t.requester),
{
    lemma_task_member_keys();
    let f = "requester"@;
    let x0 = seq!['{'];
    json::lemma_absent_short(x0, f);
    let a0 = str_field("{\"id\":"@, t.id);
    let a1 = a0 + str_field(",\"title\":"@, t.title);
    let a2 = a1 + str_field(",\"date\":"@, t.date);
    let a3 = a2 + str_field(",\"time\":"@, t.time);
    let a4 = a3 + ",\"assignees\":"@;
    let a5 = a4 + json::string_array_json_spec(t.assignees);
    let a6 = a5 + str_field(",\"requester\":"@, t.requester);
    assert(x0 + ((json::key_needle("id"@) + seq![':']) + json::json_string(t.id)) =~= a0);
    json::lemma_absent_member(x0, (json::key_needle("id"@) + seq![':']), "id"@, t.id, ',', f);
    let x1 = x0 + ((json::key_needle("id"@) + seq![':']) + json::json_string(t.id)) + seq![','];
    assert(a0 + seq![','] + ((json::key_needle("title"@) + seq![':']) + json::json_string(t.title)) =~= a0 + ((seq![','] + (json::key_needle("title"@) + seq![':'])) + json::json_string(t.title)));
    assert(x1 + ((json::key_needle("title"@) + seq![':']) + json::json_string(t.title)) == a1);
    json::lemma_absent_member(x1, (json::key_needle("title"@) + seq![':']), "title"@, t.title, ',', f);
    let x2 = x1 + ((json::key_needle("title"@) + seq![':']) + json::json_string(t.title)) + seq![','];
    assert(a1 + seq![','] + ((json::key_needle("date"@) + seq![':']) + json::json_string(t.date)) =~= a1 + ((seq![','] + (json::key_needle("date"@) + seq![':'])) + json::json_string(t.date)));
    assert(x2 + ((json::key_needle("date"@) + seq![':']) + json::json_string(t.date)) == a2);
    json::lemma_absent_member(x2, (json::key_needle("date"@) + seq![':']), "date"@, t.date, ',', f);
    let x3 = x2 + ((json::key_needle("date"@) + seq![':']) + json::json_string(t.date)) + seq![','];
    assert(a2 + seq![','] + ((json::key_needle("time"@) + seq![':']) + json::json_string(t.time)) =~= a2 + ((seq![','] + (json::key_needle("time"@) + seq![':'])) + json::json_string(t.time)));
    assert(x3 + ((json::key_needle("time"@) + seq![':']) + json::json_string(t.time)) == a3);
    json::lemma_absent_member(x3, (json::key_needle("time"@) + seq![':']), "time"@, t.time, ',', f);
    let x4 = x3 + ((json::key_needle("time"@) + seq![':']) + json::json_string(t.time)) + seq![','];
    assert(a3 + seq![','] + ((json::key_needle("assignees"@) + seq![':']) + json::string_array_json_spec(t.assignees)) =~= (a3 + (seq![','] + (json::key_needle("assignees"@) + seq![':']))) + json::string_array_json_spec(t.assignees));
    assert(x4 + ((json::key_needle("assignees"@) + seq![':']) + json::string_array_json_spec(t.assignees)) == a5);
    assert forall|k: int| 0 <= k < t.assignees.len() implies json::plain(#[trigger] t.assignees[k]) && t.assignees[k] != f by {
        assert(json::plain_value(t.assignees[k], task_member_names()));
    }
    json::lemma_absent_array_member(x4, (json::key_needle("assignees"@) + seq![':']), "assignees"@, t.assignees, ',', f);
    let x5 = x4 + ((json::key_needle("assignees"@) + seq![':']) + json::string_array_json_spec(t.assignees)) + seq![','];
    assert(a5 + seq![','] + ((json::key_needle("requester"@) + seq![':']) + json::json_string(t.requester)) =~= a5 + ((seq![','] + (json::key_needle("requester"@) + seq![':'])) + json::json_string(t.requester)));
    assert(x5 + ((json::key_needle("requester"@) + seq![':']) + json::json_string(t.requester)) == a6);
    let r7 = str_field(",\"createdAt\":"@, t.created_at);
    let r8 = r7 + str_field(",\"note\":"@, t.note);
    let r9 = r8 + "}"@;
    let b7 = a6 + str_field(",\"createdAt\":"@, t.created_at);
    let b8 = b7 + str_field(",\"note\":"@, t.note);
    assert(a6 + r7 + str_field(",\"note\":"@, t.note) =~= a6 + r8);
    let b9 = b8 + "}"@;
    assert(a6 + r8 + "}"@ =~= a6 + r9);
    assert(task_json(t) == b9);
    assert(b9 == a6 + r9);
    json::lemma_json_field_after(x5, (json::key_needle("requester"@) + seq![':']), f, t.requester, r9);
}

#[verifier::rlimit(50)]
#[verifier::spinoff_prover]
proof fn lemma_task_reads_createdAt(t: TaskView)
    requires
        task_renders_plainly(t),
    ensures
        json::json_field_spec(task_json(t), "createdAt"@) == Some(t.created_at),
{
    lemma_task_member_keys();
    let f = "createdAt"@;
    let x0 = seq!['{'];
    json::lemma_absent_short(x0, f);
    let a0 = str_field("{\"id\":"@, t.id);
    let a1 = a0 + str_field(",\"title\":"@, t.title);
    let a2 = a1 + str_field(",\"date\":"@, t.date);
    let a3 = a2 + str_field(",\"time\":"@, t.time);
    let a4 = a3 + ",\"assignees\":"@;
    let a5 = a4 + json::string_array_json_spec(t.assignees);
    let a6 = a5 + str_field(",\"requester\":"@, t.requester);
    let a7 = a6 + str_field(",\"createdAt\":"@, t.created_at);
    assert(x0 + ((json::key_needle("id"@) + seq![':']) + json::json_string(t.id)) =~= a0);
    json::lemma_absent_member(x0, (json::key_needle("id"@) + seq![':']), "id"@, t.id, ',', f);
    let x1 = x0 + ((json::key_needle("id"@) + seq![':']) + json::json_string(t.id)) + seq![','];
    assert(a0 + seq![','] + ((json::key_needle("title"@) + seq![':']) + json::json_string(t.title)) =~= a0 + ((seq![','] + (json::key_needle("title"@) + seq![':'])) + json::json_string(t.title)));
    assert(x1 + ((json::key_needle("title"@) + seq![':']) + json::json_string(t.title)) == a1);
    json::lemma_absent_member(x1, (json::key_needle("title"@) + seq![':']), "title"@, t.title, ',', f);
    let x2 = x1 + ((json::key_needle("title"@) + seq![':']) + json::json_string(t.title)) + seq![','];
    assert(a1 + seq![','] + ((json::key_needle("date"@) + seq![':']) + json::json_string(t.date)) =~= a1 + ((seq![','] + (json::key_needle("date"@) + seq![':'])) + json::json_string(t.date)));
    assert(x2 + ((json::key_needle("date"@) + seq![':']) + json::json_string(t.date)) == a2);
    json::lemma_absent_member(x2, (json::key_needle("date"@) + seq![':']), "date"@, t.date, ',', f);
    let x3 = x2 + ((json::key_needle("date"@) + seq![':']) + json::json_string(t.date)) + seq![','];
    assert(a2 + seq![','] + ((json::key_needle("time"@) + seq![':']) + json::json_string(t.time)) =~= a2 + ((seq![','] + (json::key_needle("time"@) + seq![':'])) + json::json_string(t.time)));
    assert(x3 + ((json::key_needle("time"@) + seq![':']) + json::json_string(t.time)) == a3);
    json::lemma_absent_member(x3, (json::key_needle("time"@) + seq![':']), "time"@, t.time, ',', f);
    let x4 = x3 + ((json::key_needle("time"@) + seq![':']) + json::json_string(t.time)) + seq![','];
    assert(a3 + seq![','] + ((json::key_needle("assignees"@) + seq![':']) + json::string_array_json_spec(t.assignees)) =~= (a3 + (seq![','] + (json::key_needle("assignees"@) + seq![':']))) + json::string_array_json_spec(t.assignees));
    assert(x4 + ((json::key_needle("assignees"@) + seq![':']) + json::string_array_json_spec(t.assignees)) == a5);
    assert forall|k: int| 0 <= k < t.assignees.len() implies json::plain(#[trigger] t.assignees[k]) && t.assignees[k] != f by {
        assert(json::plain_value(t.assignees[k], task_member_names()));
    }
    json::lemma_absent_array_member(x4, (json::key_needle("assignees"@) + seq![':']), "assignees"@, t.assignees, ',', f);
    let x5 = x4 + ((json::key_needle("assignees"@) + seq![':']) + json::string_array_json_spec(t.assignees)) + seq![','];
    assert(a5 + seq![','] + ((json::key_needle("requester"@) + seq![':']) + json::json_string(t.requester)) =~= a5 + ((seq![','] + (json::key_needle("requester"@) + seq![':'])) + json::json_string(t.requester)));
    assert(x5 + ((json::key_needle("requester"@) + seq![':']) + json::json_string(t.requester)) == a6);
    json::lemma_absent_member(x5, (json::key_needle("requester"@) + seq![':']), "requester"@, t.requester, ',', f);
    let x6 = x5 + ((json::key_needle("requester"@) + seq![':']) + json::json_string(t.requester)) + seq![','];
    assert(a6 + seq![','] + ((json::key_needle("createdAt"@) + seq![':']) + json::json_string(t.created_at)) =~= a6 + ((seq![','] + (json::key_needle("createdAt"@) + seq![':'])) + json::json_string(t.created_at)));
    assert(x6 + ((json::key_needle("createdAt"@) + seq![':']) + json::json_string(t.created_at)) == a7);
    let r8 = str_field(",\"note\":"@, t.note);
    let r9 = r8 + "}"@;
    let b8 = a7 + str_field(",\"note\":"@, t.note);
    let b9 = b8 + "}"@;
    assert(a7 + r8 + "}"@ =~= a7 + r9);
    assert(task_json(t) == b9);
    assert(b9 == a7 + r9);
    json::lemma_json_field_after(x6, (json::key_needle("createdAt"@) + seq![':']), f, t.created_at, r9);
}

#[verifier::rlimit(50)]
#[verifier::spinoff_prover]
proof fn lemma_task_reads_note(t: TaskView)
    requires
        task_renders_plainly(t),
    ensures
        json::json_field_spec(task_json(t), "note"@) == Some(t.note),
{
    lemma_task_member_keys();
    let f = "note"@;
    let x0 = seq!['{'];
    json::lemma_absent_short(x0, f);
    let a0 = str_field("{\"id\":"@, t.id);
    let a1 = a0 + str_field(",\"title\":"@, t.title);
    let a2 = a1 + str_field(",\"date\":"@, t.date);
    let a3 = a2 + str_field(",\"time\":"@, t.time);
    let a4 = a3 + ",\"assignees\":"@;
    let a5 = a4 + json::string_array_json_spec(t.assignees);
    let a6 = a5 + str_field(",\"requester\":"@, t.requester);
    let a7 = a6 + str_field(",\"createdAt\":"@, t.created_at);
    let a8 = a7 + str_field(",\"note\":"@, t.note);
    assert(x0 + ((json::key_needle("id"@) + seq![':']) + json::json_string(t.id)) =~= a0);
    json::lemma_absent_member(x0, (json::key_needle("id"@) + seq![':']), "id"@, t.id, ',', f);
    let x1 = x0 + ((json::key_needle("id"@) + seq![':']) + json::json_string(t.id)) + seq![','];
    assert(a0 + seq![','] + ((json::key_needle("title"@) + seq![':']) + json::json_string(t.title)) =~= a0 + ((seq![','] + (json::key_needle("title"@) + seq![':'])) + json::json_string(t.title)));
    assert(x1 + ((json::key_needle("title"@) + seq![':']) + json::json_string(t.title)) == a1);
    json::lemma_absent_member(x1, (json::key_needle("title"@) + seq![':']), "title"@, t.title, ',', f);
    let x2 = x1 + ((json::key_needle("title"@) + seq![':']) + json::json_string(t.title)) + seq![','];
    assert(a1 + seq![','] + ((json::key_needle("date"@) + seq![':']) + json::json_string(t.date)) =~= a1 + ((seq![','] + (json::key_needle("date"@) + seq![':'])) + json::json_string(t.date)));
    assert(x2 + ((json::key_needle("date"@) + seq![':']) + json::json_string(t.date)) == a2);
    json::lemma_absent_member(x2, (json::key_needle("date"@) + seq![':']), "date"@, t.date, ',', f);
    let x3 = x2 + ((json::key_needle("date"@) + seq![':']) + json::json_string(t.date)) + seq![','];
    assert(a2 + seq![','] + ((json::key_needle("time"@) + seq![':']) + json::json_string(t.time)) =~= a2 + ((seq![','] + (json::key_needle("time"@) + seq![':'])) + json::json_string(t.time)));
    assert(x3 + ((json::key_needle("time"@) + seq![':']) + json::json_string(t.time)) == a3);
    json::lemma_absent_member(x3, (json::key_needle("time"@) + seq![':']), "time"@, t.time, ',', f);
    let x4 = x3 + ((json::key_needle("time"@) + seq![':']) + json::json_string(t.time)) + seq![','];
    assert(a3 + seq![','] + ((json::key_needle("assignees"@) + seq![':']) + json::string_array_json_spec(t.assignees)) =~= (a3 + (seq![','] + (json::key_needle("assignees"@) + seq![':']))) + json::string_array_json_spec(t.assignees));
    assert(x4 + ((json::key_needle("assignees"@) + seq![':']) + json::string_array_json_spec(t.assignees)) == a5);
    assert forall|k: int| 0 <= k < t.assignees.len() implies json::plain(#[trigger] t.assignees[k]) && t.assignees[k] != f by {
        assert(json::plain_value(t.assignees[k], task_member_names()));
    }
    json::lemma_absent_array_member(x4, (json::key_needle("assignees"@) + seq![':']), "assignees"@, t.assignees, ',', f);
    let x5 = x4 + ((json::key_needle("assignees"@) + seq![':']) + json::string_array_json_spec(t.assignees)) + seq![','];
    assert(a5 + seq![','] + ((json::key_needle("requester"@) + seq![':']) + json::json_string(t.requester)) =~= a5 + ((seq![','] + (json::key_needle("requester"@) + seq![':'])) + json::json_string(t.requester)));
    assert(x5 + ((json::key_needle("requester"@) + seq![':']) + json::json_string(t.requester)) == a6);
    json::lemma_absent_member(x5, (json::key_needle("requester"@) + seq![':']), "requester"@, t.requester, ',', f);
    let x6 = x5 + ((json::key_needle("requester"@) + seq![':']) + json::json_string(t.requester)) + seq![','];
    assert(a6 + seq![','] + ((json::key_needle("createdAt"@) + seq![':']) + json::json_string(t.created_at)) =~= a6 + ((seq![','] + (json::key_needle("createdAt"@) + seq![':'])) + json::json_string(t.created_at)));
    assert(x6 + ((json::key_needle("createdAt"@) + seq![':']) + json::json_string(t.created_at)) == a7);
    json::lemma_absent_member(x6, (json::key_needle("createdAt"@) + seq![':']), "createdAt"@, t.created_at, ',', f);
    let x7 = x6 + ((json::key_needle("createdAt"@) + seq![':']) + json::json_string(t.created_at)) + seq![','];
    assert(a7 + seq![','] + ((json::key_needle("note"@) + seq![':']) + json::json_string(t.note)) =~= a7 + ((seq![','] + (json::key_needle("note"@) + seq![':'])) + json::json_string(t.note)));
    assert(x7 + ((json::key_needle("note"@) + seq![':']) + json::json_string(t.note)) == a8);
    let r9 = "}"@;
    let b9 = a8 + "}"@;
    assert(task_json(t) == b9);
    assert(b9 == a8 + r9);
    json::lemma_json_field_after(x7, (json::key_needle("note"@) + seq![':']), f, t.note, r9);
}

/// Reading a member of a rendered task back with `json_field` gives the
/// task's own value, for every text member, when its texts render as
/// themselves and none is a member name (a text equal to a later member's
/// name would be found first).
pub proof fn lemma_task_json_reads_back(t: TaskView)
    requires
        task_renders_plainly(t),
    ensures
        json::json_field_spec(task_json(t), "id"@) == Some(t.id),
        json::json_field_spec(task_json(t), "title"@) == Some(t.title),
        json::json_field_spec(task_json(t), "date"@) == Some(t.date),
        json::json_field_spec(task_json(t), "time"@) == Some(t.time),
        json::json_field_spec(task_json(t), "requester"@) == Some(t.requester),
        json::json_field_spec(task_json(t), "createdAt"@) == Some(t.created_at),
        json::json_field_spec(task_json(t), "note"@) == Some(t.note),
{
    lemma_task_reads_id(t);
    lemma_task_reads_title(t);
    lemma_task_reads_date(t);
    lemma_task_reads_time(t);
    lemma_task_reads_requester(t);
    lemma_task_reads_createdAt(t);
    lemma_task_reads_note(t);
}


/// The member names of a rendered broadcast.
pub open spec fn broadcast_member_names() -> Seq<Seq<char>> {
    seq!["id"@, "message"@, "targets"@, "requester"@, "createdAt"@, "seenBy"@]
}

/// Every text of the broadcast renders as itself (no quote, backslash or
/// line break) and none is one of the member names.
pub open spec fn broadcast_renders_plainly(b: BroadcastView) -> bool {
    &&& json::plain_value(b.id, broadcast_member_names())
    &&& json::plain_value(b.message, broadcast_member_names())
    &&& forall|i: int| 0 <= i < b.targets.len() ==> json::plain_value(#[trigger] b.targets[i], broadcast_member_names())
    &&& json::plain_value(b.requester, broadcast_member_names())
    &&& json::plain_value(b.created_at, broadcast_member_names())
    &&& forall|i: int| 0 <= i < b.seen_by.len() ==> json::plain_value(#[trigger] b.seen_by[i], broadcast_member_names())
}

proof fn lemma_broadcast_member_keys()
    ensures
        json::key_name("id"@),
        "{\"id\":"@ == seq!['{'] + (json::key_needle("id"@) + seq![':']),
        json::key_name("message"@),
        ",\"message\":"@ == seq![','] + (json::key_needle("message"@) + seq![':']),
        json::key_name("targets"@),
        ",\"targets\":"@ == seq![','] + (json::key_needle("targets"@) + seq![':']),
        json::key_name("requester"@),
        ",\"requester\":"@ == seq![','] + (json::key_needle("requester"@) + seq![':']),
        json::key_name("createdAt"@),
        ",\"createdAt\":"@ == seq![','] + (json::key_needle("createdAt"@) + seq![':']),
        json::key_name("seenBy"@),
        ",\"seenBy\":"@ == seq![','] + (json::key_needle("seenBy"@) + seq![':']),
        "id"@ != "message"@,
        "id"@ != "targets"@,
        "id"@ != "requester"@,
        "id"@ != "createdAt"@,
        "id"@ != "seenBy"@,
        "message"@ != "targets"@,
        "message"@ != "requester"@,
        "message"@ != "createdAt"@,
        "message"@ != "seenBy"@,
        "targets"@ != "requester"@,
        "targets"@ != "createdAt"@,
        "targets"@ != "seenBy"@,
        "requester"@ != "createdAt"@,
        "requester"@ != "seenBy"@,
        "createdAt"@ != "seenBy"@,
        broadcast_member_names()[0] == "id"@,
        broadcast_member_names()[1] == "message"@,
        broadcast_member_names()[2] == "targets"@,
        broadcast_member_names()[3] == "requester"@,
        broadcast_member_names()[4] == "createdAt"@,
        broadcast_member_names()[5] == "seenBy"@,
        "}"@ == seq!['}'],
{
    reveal_strlit("{\"id\":");
    reveal_strlit("id");
    reveal_strlit(",\"message\":");
    reveal_strlit("message");
    reveal_strlit(",\"targets\":");
    reveal_strlit("targets");
    reveal_strlit(",\"requester\":");
    reveal_strlit("requester");
    reveal_strlit(",\"createdAt\":");
    reveal_strlit("createdAt");
    reveal_strlit(",\"seenBy\":");
    reveal_strlit("seenBy");
    reveal_strlit("}");
    assert(json::key_name("id"@)) by {
        assert forall|j: int| 0 <= j < "id"@.len() implies (65 <= (#[trigger] "id"@[j] as u32) <= 90) || (97 <= ("id"@[j] as u32) <= 122) by {}
    }
    assert("{\"id\":"@ =~= seq!['{'] + (json::key_needle("id"@) + seq![':']));
    assert(json::key_name("message"@)) by {
        assert forall|j: int| 0 <= j < "message"@.len() implies (65 <= (#[trigger] "message"@[j] as u32) <= 90) || (97 <= ("message"@[j] as u32) <= 122) by {}
    }
    assert(",\"message\":"@ =~= seq![','] + (json::key_needle("message"@) + seq![':']));
    assert(json::key_name("targets"@)) by {
        assert forall|j: int| 0 <= j < "targets"@.len() implies (65 <= (#[trigger] "targets"@[j] as u32) <= 90) || (97 <= ("targets"@[j] as u32) <= 122) by {}
    }
    assert(",\"targets\":"@ =~= seq![','] + (json::key_needle("targets"@) + seq![':']));
    assert(json::key_name("requester"@)) by {
        assert forall|j: int| 0 <= j < "requester"@.len() implies (65 <= (#[trigger] "requester"@[j] as u32) <= 90) || (97 <= ("requester"@[j] as u32) <= 122) by {}
    }
    assert(",\"requester\":"@ =~= seq![','] + (json::key_needle("requester"@) + seq![':']));
    assert(json::key_name("createdAt"@)) by {
        assert forall|j: int| 0 <= j < "createdAt"@.len() implies (65 <= (#[trigger] "createdAt"@[j] as u32) <= 90) || (97 <= ("createdAt"@[j] as u32) <= 122) by {}
    }
    assert(",\"createdAt\":"@ =~= seq![','] + (json::key_needle("createdAt"@) + seq![':']));
    assert(json::key_name("seenBy"@)) by {
        assert forall|j: int| 0 <= j < "seenBy"@.len() implies (65 <= (#[trigger] "seenBy"@[j] as u32) <= 90) || (97 <= ("seenBy"@[j] as u32) <= 122) by {}
    }
    assert(",\"seenBy\":"@ =~= seq![','] + (json::key_needle("seenBy"@) + seq![':']));
    assert("id"@.len() != "message"@.len());
    assert("id"@.len() != "targets"@.len());
    assert("id"@.len() != "requester"@.len());
    assert("id"@.len() != "createdAt"@.len());
    assert("id"@.len() != "seenBy"@.len());
    assert("message"@[0] != "targets"@[0]);
    assert("message"@.len() != "requester"@.len());
    assert("message"@.len() != "createdAt"@.len());
    assert("message"@.len() != "seenBy"@.len());
    assert("targets"@.len() != "requester"@.len());
    assert("targets"@.len() != "createdAt"@.len());
    assert("targets"@.len() != "seenBy"@.len());
    assert("requester"@[0] != "createdAt"@[0]);
    assert("requester"@.len() != "seenBy"@.len());
    assert("createdAt"@.len() != "seenBy"@.len());
    assert("}"@ =~= seq!['}']);
}

#[verifier::rlimit(50)]
#[verifier::spinoff_prover]
proof fn lemma_broadcast_reads_id(b: BroadcastView)
    requires
        broadcast_renders_plainly(b),
    ensures
        json::json_field_spec(broadcast_json(b), "id"@) == Some(b.id),
{
    lemma_broadcast_member_keys();
    let f = "id"@;
    let x0 = seq!['{'];
    json::lemma_absent_short(x0, f);
    let a0 = str_field("{\"id\":"@, b.id);
    assert(x0 + ((json::key_needle("id"@) + seq![':']) + json::json_string(b.id)) =~= a0);
    let r1 = str_field(",\"message\":"@, b.message);
    let r2 = r1 + ",\"targets\":"@;
    let r3 = r2 + json::string_array_json_spec(b.targets);
    let r4 = r3 + str_field(",\"requester\":"@, b.requester);
    let r5 = r4 + str_field(",\"createdAt\":"@, b.created_at);
    let r6 = r5 + ",\"seenBy\":"@;
    let r7 = r6 + json::string_array_json_spec(b.seen_by);
    let r8 = r7 + "}"@;
    let b1 = a0 + str_field(",\"message\":"@, b.message);
    let b2 = b1 + ",\"targets\":"@;
    assert(a0 + r1 + ",\"targets\":"@ =~= a0 + r2);
    let b3 = b2 + json::string_array_json_spec(b.targets);
    assert(a0 + r2 + json::string_array_json_spec(b.targets) =~= a0 + r3);
    let b4 = b3 + str_field(",\"requester\":"@, b.requester);
    assert(a0 + r3 + str_field(",\"requester\":"@, b.requester) =~= a0 + r4);
    let b5 = b4 + str_field(",\"createdAt\":"@, b.created_at);
    assert(a0 + r4 + str_field(",\"createdAt\":"@, b.created_at) =~= a0 + r5);
    let b6 = b5 + ",\"seenBy\":"@;
    assert(a0 + r5 + ",\"seenBy\":"@ =~= a0 + r6);
    let b7 = b6 + json::string_array_json_spec(b.seen_by);
    assert(a0 + r6 + json::string_array_json_spec(b.seen_by) =~= a0 + r7);
    let b8 = b7 + "}"@;
    assert(a0 + r7 + "}"@ =~= a0 + r8);
    assert(broadcast_json(b) == b8);
    assert(b8 == a0 + r8);
    json::lemma_json_field_after(x0, (json::key_needle("id"@) + seq![':']), f, b.id, r8);
}

#[verifier::rlimit(50)]
#[verifier::spinoff_prover]
proof fn lemma_broadcast_reads_message(b: BroadcastView)
    requires
        broadcast_renders_plainly(b),
    ensures
        json::json_field_spec(broadcast_json(b), "message"@) == Some(b.message),
{
    lemma_broadcast_member_keys();
    let f = "message"@;
    let x0 = seq!['{'];
    json::lemma_absent_short(x0, f);
    let a0 = str_field("{\"id\":"@, b.id);
    let a1 = a0 + str_field(",\"message\":"@, b.message);
    assert(x0 + ((json::key_needle("id"@) + seq![':']) + json::json_string(b.id)) =~= a0);
    json::lemma_absent_member(x0, (json::key_needle("id"@) + seq![':']), "id"@, b.id, ',', f);
    let x1 = x0 + ((json::key_needle("id"@) + seq![':']) + json::json_string(b.id)) + seq![','];
    assert(a0 + seq![','] + ((json::key_needle("message"@) + seq![':']) + json::json_string(b.message)) =~= a0 + ((seq![','] + (json::key_needle("message"@) + seq![':'])) + json::json_string(b.message)));
    assert(x1 + ((json::key_needle("message"@) + seq![':']) + json::json_string(b.message)) == a1);
    let r2 = ",\"targets\":"@;
    let r3 = r2 + json::string_array_json_spec(b.targets);
    let r4 = r3 + str_field(",\"requester\":"@, b.requester);
    let r5 = r4 + str_field(",\"createdAt\":"@, b.created_at);
    let r6 = r5 + ",\"seenBy\":"@;
    let r7 = r6 + json::string_array_json_spec(b.seen_by);
    let r8 = r7 + "}"@;
    let b2 = a1 + ",\"targets\":"@;
    let b3 = b2 + json::string_array_json_spec(b.targets);
    assert(a1 + r2 + json::string_array_json_spec(b.targets) =~= a1 + r3);
    let b4 = b3 + str_field(",\"requester\":"@, b.requester);
    assert(a1 + r3 + str_field(",\"requester\":"@, b.requester) =~= a1 + r4);
    let b5 = b4 + str_field(",\"createdAt\":"@, b.created_at);
    assert(a1 + r4 + str_field(",\"createdAt\":"@, b.created_at) =~= a1 + r5);
    let b6 = b5 + ",\"seenBy\":"@;
    assert(a1 + r5 + ",\"seenBy\":"@ =~= a1 + r6);
    let b7 = b6 + json::string_array_json_spec(b.seen_by);
    assert(a1 + r6 + json::string_array_json_spec(b.seen_by) =~= a1 + r7);
    let b8 = b7 + "}"@;
    assert(a1 + r7 + "}"@ =~= a1 + r8);
    assert(broadcast_json(b) == b8);
    assert(b8 == a1 + r8);
    json::lemma_json_field_after(x1, (json::key_needle("message"@) + seq![':']), f, b.message, r8);
}

#[verifier::rlimit(50)]
#[verifier::spinoff_prover]
proof fn lemma_broadcast_reads_requester(b: BroadcastView)
    requires
        broadcast_renders_plainly(b),
    ensures
        json::json_field_spec(broadcast_json(b), "requester"@) == Some(b.requester),
{
    lemma_broadcast_member_keys();
    let f = "requester"@;
    let x0 = seq!['{'];
    json::lemma_absent_short(x0, f);
    let a0 = str_field("{\"id\":"@, b.id);
    let a1 = a0 + str_field(",\"message\":"@, b.message);
    let a2 = a1 + ",\"targets\":"@;
    let a3 = a2 + json::string_array_json_spec(b.targets);
    let a4 = a3 + str_field(",\"requester\":"@, b.requester);
    assert(x0 + ((json::key_needle("id"@) + seq![':']) + json::json_string(b.id)) =~= a0);
    json::lemma_absent_member(x0, (json::key_needle("id"@) + seq![':']), "id"@, b.id, ',', f);
    let x1 = x0 + ((json::key_needle("id"@) + seq![':']) + json::json_string(b.id)) + seq![','];
    assert(a0 + seq![','] + ((json::key_needle("message"@) + seq![':']) + json::json_string(b.message)) =~= a0 + ((seq![','] + (json::key_needle("message"@) + seq![':'])) + json::json_string(b.message)));
    assert(x1 + ((json::key_needle("message"@) + seq![':']) + json::json_string(b.message)) == a1);
    json::lemma_absent_member(x1, (json::key_needle("message"@) + seq![':']), "message"@, b.message, ',', f);
    let x2 = x1 + ((json::key_needle("message"@) + seq![':']) + json::json_string(b.message)) + seq![','];
    assert(a1 + seq![','] + ((json::key_needle("targets"@) + seq![':']) + json::string_array_json_spec(b.targets)) =~= (a1 + (seq![','] + (json::key_needle("targets"@) + seq![':']))) + json::string_array_json_spec(b.targets));
    assert(x2 + ((json::key_needle("targets"@) + seq![':']) + json::string_array_json_spec(b.targets)) == a3);
    assert forall|k: int| 0 <= k < b.targets.len() implies json::plain(#[trigger] b.targets[k]) && b.targets[k] != f by {
        assert(json::plain_value(b.targets[k], broadcast_member_names()));
    }
    json::lemma_absent_array_member(x2, (json::key_needle("targets"@) + seq![':']), "targets"@, b.targets, ',', f);
    let x3 = x2 + ((json::key_needle("targets"@) + seq![':']) + json::string_array_json_spec(b.targets)) + seq![','];
    assert(a3 + seq![','] + ((json::key_needle("requester"@) + seq![':']) + json::json_string(b.requester)) =~= a3 + ((seq![','] + (json::key_needle("requester"@) + seq![':'])) + json::json_string(b.requester)));
    assert(x3 + ((json::key_needle("requester"@) + seq![':']) + json::json_string(b.requester)) == a4);
    let r5 = str_field(",\"createdAt\":"@, b.created_at);
    let r6 = r5 + ",\"seenBy\":"@;
    let r7 = r6 + json::string_array_json_spec(b.seen_by);
    let r8 = r7 + "}"@;
    let b5 = a4 + str_field(",\"createdAt\":"@, b.created_at);
    let b6 = b5 + ",\"seenBy\":"@;
    assert(a4 + r5 + ",\"seenBy\":"@ =~= a4 + r6);
    let b7 = b6 + json::string_array_json_spec(b.seen_by);
    assert(a4 + r6 + json::string_array_json_spec(b.seen_by) =~= a4 + r7);
    let b8 = b7 + "}"@;
    assert(a4 + r7 + "}"@ =~= a4 + r8);
    assert(broadcast_json(b) == b8);
    assert(b8 == a4 + r8);
    json::lemma_json_field_after(x3, (json::key_needle("requester"@) + seq![':']), f, b.requester, r8);
}

#[verifier::rlimit(50)]
#[verifier::spinoff_prover]
proof fn lemma_broadcast_reads_createdAt(b: BroadcastView)
    requires
        broadcast_renders_plainly(b),
    ensures
        json::json_field_spec(broadcast_json(b), "createdAt"@) == Some(b.created_at),
{
    lemma_broadcast_member_keys();
    let f = "createdAt"@;
    let x0 = seq!['{'];
    json::lemma_absent_short(x0, f);
    let a0 = str_field("{\"id\":"@, b.id);
    let a1 = a0 + str_field(",\"message\":"@, b.message);
    let a2 = a1 + ",\"targets\":"@;
    let a3 = a2 + json::string_array_json_spec(b.targets);
    let a4 = a3 + str_field(",\"requester\":"@, b.requester);
    let a5 = a4 + str_field(",\"createdAt\":"@, b.created_at);
    assert(x0 + ((json::key_needle("id"@) + seq![':']) + json::json_string(b.id)) =~= a0);
    json::lemma_absent_member(x0, (json::key_needle("id"@) + seq![':']), "id"@, b.id, ',', f);
    let x1 = x0 + ((json::key_needle("id"@) + seq![':']) + json::json_string(b.id)) + seq![','];
    assert(a0 + seq![','] + ((json::key_needle("message"@) + seq![':']) + json::json_string(b.message)) =~= a0 + ((seq![','] + (json::key_needle("message"@) + seq![':'])) + json::json_string(b.message)));
    assert(x1 + ((json::key_needle("message"@) + seq![':']) + json::json_string(b.message)) == a1);
    json::lemma_absent_member(x1, (json::key_needle("message"@) + seq![':']), "message"@, b.message, ',', f);
    let x2 = x1 + ((json::key_needle("message"@) + seq![':']) + json::json_string(b.message)) + seq![','];
    assert(a1 + seq![','] + ((json::key_needle("targets"@) + seq![':']) + json::string_array_json_spec(b.targets)) =~= (a1 + (seq![','] + (json::key_needle("targets"@) + seq![':']))) + json::string_array_json_spec(b.targets));
    assert(x2 + ((json::key_needle("targets"@) + seq![':']) + json::string_array_json_spec(b.targets)) == a3);
    assert forall|k: int| 0 <= k < b.targets.len() implies json::plain(#[trigger] b.targets[k]) && b.targets[k] != f by {
        assert(json::plain_value(b.targets[k], broadcast_member_names()));
    }
    json::lemma_absent_array_member(x2, (json::key_needle("targets"@) + seq![':']), "targets"@, b.targets, ',', f);
    let x3 = x2 + ((json::key_needle("targets"@) + seq![':']) + json::string_array_json_spec(b.targets)) + seq![','];
    assert(a3 + seq![','] + ((json::key_needle("requester"@) + seq![':']) + json::json_string(b.requester)) =~= a3 + ((seq![','] + (json::key_needle("requester"@) + seq![':'])) + json::json_string(b.requester)));
    assert(x3 + ((json::key_needle("requester"@) + seq![':']) + json::json_string(b.requester)) == a4);
    json::lemma_absent_member(x3, (json::key_needle("requester"@) + seq![':']), "requester"@, b.requester, ',', f);
    let x4 = x3 + ((json::key_needle("requester"@) + seq![':']) + json::json_string(b.requester)) + seq![','];
    assert(a4 + seq![','] + ((json::key_needle("createdAt"@) + seq![':']) + json::json_string(b.created_at)) =~= a4 + ((seq![','] + (json::key_needle("createdAt"@) + seq![':'])) + json::json_string(b.created_at)));
    assert(x4 + ((json::key_needle("createdAt"@) + seq![':']) + json::json_string(b.created_at)) == a5);
    let r6 = ",\"seenBy\":"@;
    let r7 = r6 + json::string_array_json_spec(b.seen_by);
    let r8 = r7 + "}"@;
    let b6 = a5 + ",\"seenBy\":"@;
    let b7 = b6 + json::string_array_json_spec(b.seen_by);
    assert(a5 + r6 + json::string_array_json_spec(b.seen_by) =~= a5 + r7);
    let b8 = b7 + "}"@;
    assert(a5 + r7 + "}"@ =~= a5 + r8);
    assert(broadcast_json(b) == b8);
    assert(b8 == a5 + r8);
    json::lemma_json_field_after(x4, (json::key_needle("createdAt"@) + seq![':']), f, b.created_at, r8);
}

/// Reading a member of a rendered broadcast back with `json_field` gives the
/// broadcast's own value, for every text member, when its texts render as
/// themselves and none is a member name (a text equal to a later member's
/// name would be found first).
pub proof fn lemma_broadcast_json_reads_back(b: BroadcastView)
    requires
        broadcast_renders_plainly(b),
    ensures
        json::json_field_spec(broadcast_json(b), "id"@) == Some(b.id),
        json::json_field_spec(broadcast_json(b), "message"@) == Some(b.message),
        json::json_field_spec(broadcast_json(b), "requester"@) == Some(b.requester),
        json::json_field_spec(broadcast_json(b), "createdAt"@) == Some(b.created_at),
{
    lemma_broadcast_reads_id(b);
    lemma_broadcast_reads_message(b);
    lemma_broadcast_reads_requester(b);
    lemma_broadcast_reads_createdAt(b);
}


} // verus!
