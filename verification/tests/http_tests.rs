use lib::http::{bind_address, not_found_reply, parse_request, response_text_of, route, Method, Route};

#[test]
fn request_line_and_body() {
    let r = parse_request("POST /api/tasks?x=1 HTTP/1.1\r\nHost: a\r\n\r\n{\"a\":\"b\"}");
    assert_eq!(r.method, Method::Post);
    assert_eq!(r.path, "/api/tasks");
    assert_eq!(r.body, "{\"a\":\"b\"}");
}

#[test]
fn request_defaults() {
    let r = parse_request("");
    assert_eq!(r.method, Method::Other);
    assert_eq!(r.path, "/");
    assert_eq!(r.body, "");
    let r = parse_request("GET\r\n");
    assert_eq!(r.method, Method::Get);
    assert_eq!(r.path, "/");
    let r = parse_request("PUT /x HTTP/1.1");
    assert_eq!(r.method, Method::Other);
    assert_eq!(r.path, "/x");
}

#[test]
fn routes() {
    assert_eq!(route(Method::Get, "/"), Route::Index);
    assert_eq!(route(Method::Get, "/index.html"), Route::Index);
    assert_eq!(route(Method::Get, "/api/now"), Route::HostTime);
    assert_eq!(route(Method::Post, "/api/accounts"), Route::AddAccount);
    assert_eq!(route(Method::Get, "/api/accounts"), Route::ListAccounts);
    assert_eq!(route(Method::Post, "/api/events/delete"), Route::DeleteEvent);
    assert_eq!(route(Method::Post, "/"), Route::NotFound);
    assert_eq!(route(Method::Other, "/api/tasks"), Route::NotFound);
}

#[test]
fn response_text() {
    assert_eq!(
        response_text_of("200 OK", "text/plain", "hé"),
        "HTTP/1.1 200 OK\r\nContent-Type: text/plain\r\nContent-Length: 3\r\nCache-Control: no-store\r\n\r\nhé"
    );
    let (status, content_type, body) = not_found_reply();
    assert_eq!((status, content_type, body.as_str()), ("404 Not Found", "text/plain; charset=utf-8", "Not found"));
}

#[test]
fn bind_addresses() {
    assert_eq!(bind_address(Some(" 0.0.0.0:8100\n")), "0.0.0.0:8100");
    assert_eq!(bind_address(Some("  ")), "127.0.0.1:8100");
    assert_eq!(bind_address(None), "127.0.0.1:8100");
}
