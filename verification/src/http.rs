use vstd::prelude::*;
use crate::json::{self, Reply};
use crate::text::{
    self, append_str, chars_of, copy_chars, lines_of, nonempty_pieces, push_decimal,
    split_chars, split_ws_chars, string_of,
};

verus! {

/// The request methods the server tells apart.
#[derive(Clone, Copy, Debug, PartialEq, Eq, Structural)]
pub enum Method {
    Get,
    Post,
    Other,
}

/// What the server reads from a request.
pub struct Request {
    pub method: Method,
    pub path: String,
    pub body: String,
}

/// The first line of the text, or nothing.
pub open spec fn first_line(s: Seq<char>) -> Seq<char> {
    let ls = text::lines(s);
    if ls.len() > 0 {
        ls[0]
    } else {
        Seq::empty()
    }
}

/// The method named by the first word of the request line.
pub open spec fn method_of(word: Seq<char>) -> Method {
    if word == "GET"@ {
        Method::Get
    } else if word == "POST"@ {
        Method::Post
    } else {
        Method::Other
    }
}

/// `parse_request`: the method, the path without its query, and the text
/// after the first blank line.
pub open spec fn request_method(request: Seq<char>) -> Method {
    let words = text::words(first_line(request));
    method_of(if words.len() > 0 { words[0] } else { Seq::empty() })
}

pub open spec fn request_path(request: Seq<char>) -> Seq<char> {
    let words = text::words(first_line(request));
    let target = if words.len() > 1 {
        words[1]
    } else {
        "/"@
    };
    text::split_by(target, text::is_char('?'))[0]
}

pub open spec fn request_body(request: Seq<char>) -> Seq<char> {
    match json::split_once(request, "\r\n\r\n"@) {
        Some((_, b)) => b,
        None => Seq::empty(),
    }
}

/// Whether two character vectors hold the same characters.
pub fn eq_chars(a: &Vec<char>, b: &Vec<char>) -> (r: bool)
    ensures
        r == (a@ == b@),
{
    if a.len() != b.len() {
        return false;
    }
    for i in 0..a.len()
        invariant
            a.len() == b.len(),
            forall|k: int| 0 <= k < i ==> a@[k] == b@[k],
    {
        if a[i] != b[i] {
            return false;
        }
    }
    assert(a@ =~= b@);
    true
}

/// Whether the characters spell the given text.
pub fn eq_str(a: &Vec<char>, b: &str) -> (r: bool)
    ensures
        r == (a@ == b@),
{
    let bc = chars_of(b);
    eq_chars(a, &bc)
}

/// Reads the method, the path (without a query string) and the body of a raw
/// HTTP request.
pub fn parse_request(request: &str) -> (r: Request)
    ensures
        r.method == request_method(request@),
        r.path@ == request_path(request@),
        r.body@ == request_body(request@),
{
    let cs = chars_of(request);
    let ls = lines_of(&cs);
    let first: Vec<char> = if ls.len() > 0 {
        copy_chars(&ls[0])
    } else {
        Vec::new()
    };
    assert(first@ == first_line(request@));
    let pieces = split_ws_chars(&first);
    let words = nonempty_pieces(&pieces);
    let word: Vec<char> = if words.len() > 0 {
        copy_chars(&words[0])
    } else {
        Vec::new()
    };
    let method = if eq_str(&word, "GET") {
        Method::Get
    } else if eq_str(&word, "POST") {
        Method::Post
    } else {
        Method::Other
    };
    let target: Vec<char> = if words.len() > 1 {
        copy_chars(&words[1])
    } else {
        chars_of("/")
    };
    let parts = split_chars(&target, '?');
    proof {
        text::lemma_split_len(target@, text::is_char('?'));
    }
    let path = copy_chars(&parts[0]);
    let sep = chars_of("\r\n\r\n");
    let body: Vec<char> = match json::split_once_chars(&cs, &sep) {
        Some((_, b)) => b,
        None => Vec::new(),
    };
    Request { method, path: string_of(&path), body: string_of(&body) }
}

/// What the server does with a request.
#[derive(Clone, Copy, Debug, PartialEq, Eq, Structural)]
pub enum Route {
    Index,
    Styles,
    Script,
    ListAccounts,
    ListGroups,
    HostTime,
    ListTasks,
    ListBroadcasts,
    ListEvents,
    AdminLogin,
    UserLogin,
    AddAccount,
    DeleteAccount,
    AddGroup,
    DeleteGroup,
    GroupMember,
    AddTask,
    DeleteTask,
    AddBroadcast,
    MarkBroadcastSeen,
    AddEvent,
    DeleteEvent,
    NotFound,
}

/// The route of a method and path.
pub open spec fn route_spec(method: Method, path: Seq<char>) -> Route {
    if method == Method::Get {
        if path == "/"@ || path == "/index.html"@ {
            Route::Index
        } else if path == "/styles.css"@ {
            Route::Styles
        } else if path == "/app.js"@ {
            Route::Script
        } else if path == "/api/accounts"@ {
            Route::ListAccounts
        } else if path == "/api/groups"@ {
            Route::ListGroups
        } else if path == "/api/now"@ {
            Route::HostTime
        } else if path == "/api/tasks"@ {
            Route::ListTasks
        } else if path == "/api/broadcasts"@ {
            Route::ListBroadcasts
        } else if path == "/api/events"@ {
            Route::ListEvents
        } else {
            Route::NotFound
        }
    } else if method == Method::Post {
        if path == "/api/admin/login"@ {
            Route::AdminLogin
        } else if path == "/api/user/login"@ {
            Route::UserLogin
        } else if path == "/api/accounts"@ {
            Route::AddAccount
        } else if path == "/api/accounts/delete"@ {
            Route::DeleteAccount
        } else if path == "/api/groups"@ {
            Route::AddGroup
        } else if path == "/api/groups/delete"@ {
            Route::DeleteGroup
        } else if path == "/api/groups/member"@ {
            Route::GroupMember
        } else if path == "/api/tasks"@ {
            Route::AddTask
        } else if path == "/api/tasks/delete"@ {
            Route::DeleteTask
        } else if path == "/api/broadcasts"@ {
            Route::AddBroadcast
        } else if path == "/api/broadcasts/seen"@ {
            Route::MarkBroadcastSeen
        } else if path == "/api/events"@ {
            Route::AddEvent
        } else if path == "/api/events/delete"@ {
            Route::DeleteEvent
        } else {
            Route::NotFound
        }
    } else {
        Route::NotFound
    }
}

/// Chooses what to do with a request from its method and path.
pub fn route(method: Method, path: &str) -> (r: Route)
    ensures
        r == route_spec(method, path@),
{
    let p = chars_of(path);
    match method {
        Method::Get => {
            if eq_str(&p, "/") || eq_str(&p, "/index.html") {
                Route::Index
            } else if eq_str(&p, "/styles.css") {
                Route::Styles
            } else if eq_str(&p, "/app.js") {
                Route::Script
            } else if eq_str(&p, "/api/accounts") {
                Route::ListAccounts
            } else if eq_str(&p, "/api/groups") {
                Route::ListGroups
            } else if eq_str(&p, "/api/now") {
                Route::HostTime
            } else if eq_str(&p, "/api/tasks") {
                Route::ListTasks
            } else if eq_str(&p, "/api/broadcasts") {
                Route::ListBroadcasts
            } else if eq_str(&p, "/api/events") {
                Route::ListEvents
            } else {
                Route::NotFound
            }
        },
        Method::Post => {
            if eq_str(&p, "/api/admin/login") {
                Route::AdminLogin
            } else if eq_str(&p, "/api/user/login") {
                Route::UserLogin
            } else if eq_str(&p, "/api/accounts") {
                Route::AddAccount
            } else if eq_str(&p, "/api/accounts/delete") {
                Route::DeleteAccount
            } else if eq_str(&p, "/api/groups") {
                Route::AddGroup
            } else if eq_str(&p, "/api/groups/delete") {
                Route::DeleteGroup
            } else if eq_str(&p, "/api/groups/member") {
                Route::GroupMember
            } else if eq_str(&p, "/api/tasks") {
                Route::AddTask
            } else if eq_str(&p, "/api/tasks/delete") {
                Route::DeleteTask
            } else if eq_str(&p, "/api/broadcasts") {
                Route::AddBroadcast
            } else if eq_str(&p, "/api/broadcasts/seen") {
                Route::MarkBroadcastSeen
            } else if eq_str(&p, "/api/events") {
                Route::AddEvent
            } else if eq_str(&p, "/api/events/delete") {
                Route::DeleteEvent
            } else {
                Route::NotFound
            }
        },
        Method::Other => Route::NotFound,
    }
}

/// A successful reply with a content type.
pub fn ok_reply(content_type: &'static str, body: String) -> (r: Reply)
    ensures
        r.0@ == "200 OK"@,
        r.1 == content_type,
        r.2 == body,
{
    ("200 OK", content_type, body)
}

/// The plain-text `404 Not Found` reply.
pub fn not_found_reply() -> (r: Reply)
    ensures
        r.0@ == "404 Not Found"@,
        r.1@ == "text/plain; charset=utf-8"@,
        r.2@ == "Not found"@,
{
    ("404 Not Found", "text/plain; charset=utf-8", String::from_str("Not found"))
}

/// The text of an HTTP/1.1 response.
pub open spec fn response_text(status: Seq<char>, content_type: Seq<char>, body: Seq<char>) -> Seq<char> {
    "HTTP/1.1 "@ + status + "\r\nContent-Type: "@ + content_type + "\r\nContent-Length: "@
        + text::decimal(vstd::utf8::encode_utf8(body).len()) + "\r\nCache-Control: no-store\r\n\r\n"@
        + body
}

/// Writes out an HTTP/1.1 response: status line, content type, the body's
/// length in bytes, `Cache-Control: no-store`, a blank line and the body.
pub fn response_text_of(status: &str, content_type: &str, body: &str) -> (out: String)
    ensures
        out@ == response_text(status@, content_type@, body@),
{
    let mut out: Vec<char> = Vec::new();
    append_str(&mut out, "HTTP/1.1 ");
    append_str(&mut out, status);
    append_str(&mut out, "\r\nContent-Type: ");
    append_str(&mut out, content_type);
    append_str(&mut out, "\r\nContent-Length: ");
    let bytes = body.as_bytes();
    let n = bytes.len();
    push_decimal(&mut out, n as u128);
    append_str(&mut out, "\r\nCache-Control: no-store\r\n\r\n");
    append_str(&mut out, body);
    string_of(&out)
}

/// Where the server listens unless a bind address is stored.
pub const DEFAULT_ADDRESS: &'static str = "127.0.0.1:8100";

/// The stored bind address, trimmed; the default when nothing is stored or
/// the stored text is blank.
pub open spec fn bind_address_spec(content: Option<Seq<char>>) -> Seq<char> {
    match content {
        Some(t) => if text::trim(t).len() > 0 {
            text::trim(t)
        } else {
            DEFAULT_ADDRESS@
        },
        None => DEFAULT_ADDRESS@,
    }
}

/// Chooses the address to listen on from the bind address file's text, if
/// it could be read.
pub fn bind_address(content: Option<&str>) -> (out: String)
    ensures
        out@ == bind_address_spec(crate::auth::opt_str_view(content)),
{
    match content {
        Some(t) => {
            let cs = chars_of(t);
            let trimmed = text::trim_chars(&cs);
            if trimmed.len() > 0 {
                string_of(&trimmed)
            } else {
                String::from_str(DEFAULT_ADDRESS)
            }
        },
        None => String::from_str(DEFAULT_ADDRESS),
    }
}

/// The routing table, path by path: each page and API path reaches its own
/// handler for its own method.
pub proof fn lemma_route_table()
    ensures
        route_spec(Method::Get, "/"@) == Route::Index,
        route_spec(Method::Get, "/index.html"@) == Route::Index,
        route_spec(Method::Get, "/styles.css"@) == Route::Styles,
        route_spec(Method::Get, "/app.js"@) == Route::Script,
        route_spec(Method::Get, "/api/accounts"@) == Route::ListAccounts,
        route_spec(Method::Get, "/api/groups"@) == Route::ListGroups,
        route_spec(Method::Get, "/api/now"@) == Route::HostTime,
        route_spec(Method::Get, "/api/tasks"@) == Route::ListTasks,
        route_spec(Method::Get, "/api/broadcasts"@) == Route::ListBroadcasts,
        route_spec(Method::Get, "/api/events"@) == Route::ListEvents,
        route_spec(Method::Post, "/api/admin/login"@) == Route::AdminLogin,
        route_spec(Method::Post, "/api/user/login"@) == Route::UserLogin,
        route_spec(Method::Post, "/api/accounts"@) == Route::AddAccount,
        route_spec(Method::Post, "/api/accounts/delete"@) == Route::DeleteAccount,
        route_spec(Method::Post, "/api/groups"@) == Route::AddGroup,
        route_spec(Method::Post, "/api/groups/delete"@) == Route::DeleteGroup,
        route_spec(Method::Post, "/api/groups/member"@) == Route::GroupMember,
        route_spec(Method::Post, "/api/tasks"@) == Route::AddTask,
        route_spec(Method::Post, "/api/tasks/delete"@) == Route::DeleteTask,
        route_spec(Method::Post, "/api/broadcasts"@) == Route::AddBroadcast,
        route_spec(Method::Post, "/api/broadcasts/seen"@) == Route::MarkBroadcastSeen,
        route_spec(Method::Post, "/api/events"@) == Route::AddEvent,
        route_spec(Method::Post, "/api/events/delete"@) == Route::DeleteEvent,
{
    reveal_strlit("/");
    reveal_strlit("/api/accounts");
    reveal_strlit("/api/accounts/delete");
    reveal_strlit("/api/admin/login");
    reveal_strlit("/api/broadcasts");
    reveal_strlit("/api/broadcasts/seen");
    reveal_strlit("/api/events");
    reveal_strlit("/api/events/delete");
    reveal_strlit("/api/groups");
    reveal_strlit("/api/groups/delete");
    reveal_strlit("/api/groups/member");
    reveal_strlit("/api/now");
    reveal_strlit("/api/tasks");
    reveal_strlit("/api/tasks/delete");
    reveal_strlit("/api/user/login");
    reveal_strlit("/app.js");
    reveal_strlit("/index.html");
    reveal_strlit("/styles.css");
    assert("/index.html"@.len() != "/"@.len());
    assert("/styles.css"@.len() != "/"@.len());
    assert("/styles.css"@[1] != "/index.html"@[1]);
    assert("/app.js"@.len() != "/"@.len());
    assert("/app.js"@.len() != "/index.html"@.len());
    assert("/app.js"@.len() != "/styles.css"@.len());
    assert("/api/accounts"@.len() != "/"@.len());
    assert("/api/accounts"@.len() != "/index.html"@.len());
    assert("/api/accounts"@.len() != "/styles.css"@.len());
    assert("/api/accounts"@.len() != "/app.js"@.len());
    assert("/api/groups"@.len() != "/"@.len());
    assert("/api/groups"@[1] != "/index.html"@[1]);
    assert("/api/groups"@[1] != "/styles.css"@[1]);
    assert("/api/groups"@.len() != "/app.js"@.len());
    assert("/api/groups"@.len() != "/api/accounts"@.len());
    assert("/api/now"@.len() != "/"@.len());
    assert("/api/now"@.len() != "/index.html"@.len());
    assert("/api/now"@.len() != "/styles.css"@.len());
    assert("/api/now"@.len() != "/app.js"@.len());
    assert("/api/now"@.len() != "/api/accounts"@.len());
    assert("/api/now"@.len() != "/api/groups"@.len());
    assert("/api/tasks"@.len() != "/"@.len());
    assert("/api/tasks"@.len() != "/index.html"@.len());
    assert("/api/tasks"@.len() != "/styles.css"@.len());
    assert("/api/tasks"@.len() != "/app.js"@.len());
    assert("/api/tasks"@.len() != "/api/accounts"@.len());
    assert("/api/tasks"@.len() != "/api/groups"@.len());
    assert("/api/tasks"@.len() != "/api/now"@.len());
    assert("/api/broadcasts"@.len() != "/"@.len());
    assert("/api/broadcasts"@.len() != "/index.html"@.len());
    assert("/api/broadcasts"@.len() != "/styles.css"@.len());
    assert("/api/broadcasts"@.len() != "/app.js"@.len());
    assert("/api/broadcasts"@.len() != "/api/accounts"@.len());
    assert("/api/broadcasts"@.len() != "/api/groups"@.len());
    assert("/api/broadcasts"@.len() != "/api/now"@.len());
    assert("/api/broadcasts"@.len() != "/api/tasks"@.len());
    assert("/api/events"@.len() != "/"@.len());
    assert("/api/events"@[1] != "/index.html"@[1]);
    assert("/api/events"@[1] != "/styles.css"@[1]);
    assert("/api/events"@.len() != "/app.js"@.len());
    assert("/api/events"@.len() != "/api/accounts"@.len());
    assert("/api/events"@[5] != "/api/groups"@[5]);
    assert("/api/events"@.len() != "/api/now"@.len());
    assert("/api/events"@.len() != "/api/tasks"@.len());
    assert("/api/events"@.len() != "/api/broadcasts"@.len());
    assert("/api/user/login"@.len() != "/api/admin/login"@.len());
    assert("/api/accounts"@.len() != "/api/admin/login"@.len());
    assert("/api/accounts"@.len() != "/api/user/login"@.len());
    assert("/api/accounts/delete"@.len() != "/api/admin/login"@.len());
    assert("/api/accounts/delete"@.len() != "/api/user/login"@.len());
    assert("/api/accounts/delete"@.len() != "/api/accounts"@.len());
    assert("/api/groups"@.len() != "/api/admin/login"@.len());
    assert("/api/groups"@.len() != "/api/user/login"@.len());
    assert("/api/groups"@.len() != "/api/accounts"@.len());
    assert("/api/groups"@.len() != "/api/accounts/delete"@.len());
    assert("/api/groups/delete"@.len() != "/api/admin/login"@.len());
    assert("/api/groups/delete"@.len() != "/api/user/login"@.len());
    assert("/api/groups/delete"@.len() != "/api/accounts"@.len());
    assert("/api/groups/delete"@.len() != "/api/accounts/delete"@.len());
    assert("/api/groups/delete"@.len() != "/api/groups"@.len());
    assert("/api/groups/member"@.len() != "/api/admin/login"@.len());
    assert("/api/groups/member"@.len() != "/api/user/login"@.len());
    assert("/api/groups/member"@.len() != "/api/accounts"@.len());
    assert("/api/groups/member"@.len() != "/api/accounts/delete"@.len());
    assert("/api/groups/member"@.len() != "/api/groups"@.len());
    assert("/api/groups/member"@[12] != "/api/groups/delete"@[12]);
    assert("/api/tasks"@.len() != "/api/admin/login"@.len());
    assert("/api/tasks"@.len() != "/api/user/login"@.len());
    assert("/api/tasks"@.len() != "/api/accounts"@.len());
    assert("/api/tasks"@.len() != "/api/accounts/delete"@.len());
    assert("/api/tasks"@.len() != "/api/groups"@.len());
    assert("/api/tasks"@.len() != "/api/groups/delete"@.len());
    assert("/api/tasks"@.len() != "/api/groups/member"@.len());
    assert("/api/tasks/delete"@.len() != "/api/admin/login"@.len());
    assert("/api/tasks/delete"@.len() != "/api/user/login"@.len());
    assert("/api/tasks/delete"@.len() != "/api/accounts"@.len());
    assert("/api/tasks/delete"@.len() != "/api/accounts/delete"@.len());
    assert("/api/tasks/delete"@.len() != "/api/groups"@.len());
    assert("/api/tasks/delete"@.len() != "/api/groups/delete"@.len());
    assert("/api/tasks/delete"@.len() != "/api/groups/member"@.len());
    assert("/api/tasks/delete"@.len() != "/api/tasks"@.len());
    assert("/api/broadcasts"@.len() != "/api/admin/login"@.len());
    assert("/api/broadcasts"@[5] != "/api/user/login"@[5]);
    assert("/api/broadcasts"@.len() != "/api/accounts"@.len());
    assert("/api/broadcasts"@.len() != "/api/accounts/delete"@.len());
    assert("/api/broadcasts"@.len() != "/api/groups"@.len());
    assert("/api/broadcasts"@.len() != "/api/groups/delete"@.len());
    assert("/api/broadcasts"@.len() != "/api/groups/member"@.len());
    assert("/api/broadcasts"@.len() != "/api/tasks"@.len());
    assert("/api/broadcasts"@.len() != "/api/tasks/delete"@.len());
    assert("/api/broadcasts/seen"@.len() != "/api/admin/login"@.len());
    assert("/api/broadcasts/seen"@.len() != "/api/user/login"@.len());
    assert("/api/broadcasts/seen"@.len() != "/api/accounts"@.len());
    assert("/api/broadcasts/seen"@[5] != "/api/accounts/delete"@[5]);
    assert("/api/broadcasts/seen"@.len() != "/api/groups"@.len());
    assert("/api/broadcasts/seen"@.len() != "/api/groups/delete"@.len());
    assert("/api/broadcasts/seen"@.len() != "/api/groups/member"@.len());
    assert("/api/broadcasts/seen"@.len() != "/api/tasks"@.len());
    assert("/api/broadcasts/seen"@.len() != "/api/tasks/delete"@.len());
    assert("/api/broadcasts/seen"@.len() != "/api/broadcasts"@.len());
    assert("/api/events"@.len() != "/api/admin/login"@.len());
    assert("/api/events"@.len() != "/api/user/login"@.len());
    assert("/api/events"@.len() != "/api/accounts"@.len());
    assert("/api/events"@.len() != "/api/accounts/delete"@.len());
    assert("/api/events"@[5] != "/api/groups"@[5]);
    assert("/api/events"@.len() != "/api/groups/delete"@.len());
    assert("/api/events"@.len() != "/api/groups/member"@.len());
    assert("/api/events"@.len() != "/api/tasks"@.len());
    assert("/api/events"@.len() != "/api/tasks/delete"@.len());
    assert("/api/events"@.len() != "/api/broadcasts"@.len());
    assert("/api/events"@.len() != "/api/broadcasts/seen"@.len());
    assert("/api/events/delete"@.len() != "/api/admin/login"@.len());
    assert("/api/events/delete"@.len() != "/api/user/login"@.len());
    assert("/api/events/delete"@.len() != "/api/accounts"@.len());
    assert("/api/events/delete"@.len() != "/api/accounts/delete"@.len());
    assert("/api/events/delete"@.len() != "/api/groups"@.len());
    assert("/api/events/delete"@[5] != "/api/groups/delete"@[5]);
    assert("/api/events/delete"@[5] != "/api/groups/member"@[5]);
    assert("/api/events/delete"@.len() != "/api/tasks"@.len());
    assert("/api/events/delete"@.len() != "/api/tasks/delete"@.len());
    assert("/api/events/delete"@.len() != "/api/broadcasts"@.len());
    assert("/api/events/delete"@.len() != "/api/broadcasts/seen"@.len());
    assert("/api/events/delete"@.len() != "/api/events"@.len());
}

/// A request that names no known path for its method, or whose method is
/// neither GET nor POST, is not found.
pub proof fn lemma_route_unknown(method: Method, path: Seq<char>)
    ensures
        method == Method::Other ==> route_spec(method, path) == Route::NotFound,
        method == Method::Get && !(path == "/"@ || path == "/index.html"@ || path == "/styles.css"@ || path == "/app.js"@ || path == "/api/accounts"@ || path == "/api/groups"@ || path == "/api/now"@ || path == "/api/tasks"@ || path == "/api/broadcasts"@ || path == "/api/events"@) ==> route_spec(method, path) == Route::NotFound,
        method == Method::Post && !(path == "/api/admin/login"@ || path == "/api/user/login"@ || path == "/api/accounts"@ || path == "/api/accounts/delete"@ || path == "/api/groups"@ || path == "/api/groups/delete"@ || path == "/api/groups/member"@ || path == "/api/tasks"@ || path == "/api/tasks/delete"@ || path == "/api/broadcasts"@ || path == "/api/broadcasts/seen"@ || path == "/api/events"@ || path == "/api/events/delete"@) ==> route_spec(method, path) == Route::NotFound,
{
}

} // verus!
