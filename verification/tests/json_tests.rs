use lib::json::{escape_json, json_field, json_response, server_error, string_array_json};

#[test]
fn escape_handles_specials() {
    assert_eq!(escape_json("a\"b\\c\nd\re\tf"), "a\\\"b\\\\c\\nd\\re\tf");
    assert_eq!(escape_json(""), "");
}

#[test]
fn json_field_reads_strings() {
    let body = r#"{"name":"Anna","pin":"1234"}"#;
    assert_eq!(json_field(body, "name"), Some("Anna".to_string()));
    assert_eq!(json_field(body, "pin"), Some("1234".to_string()));
    assert_eq!(json_field(body, "missing"), None);
}

#[test]
fn json_field_resolves_escapes() {
    let body = r#"{"note": "say \"hi\"\n\tnow\\ \u"}"#;
    assert_eq!(json_field(body, "note"), Some("say \"hi\"\n\tnow\\ u".to_string()));
}

#[test]
fn json_field_needs_a_string_value() {
    assert_eq!(json_field(r#"{"n":5}"#, "n"), None);
    assert_eq!(json_field(r#"{"n":"unterminated"#, "n"), None);
    assert_eq!(json_field(r#"{"n" "x"}"#, "n"), None);
}

#[test]
fn json_field_reads_back_escaped_text() {
    for value in ["plain", "q\"uote", "back\\slash", "line\nbreak\r", ""] {
        let body = format!(r#"{{"v":"{}"}}"#, escape_json(value));
        assert_eq!(json_field(&body, "v"), Some(value.to_string()));
    }
}

#[test]
fn string_arrays() {
    assert_eq!(string_array_json(&[]), "[]");
    let values = vec!["a".to_string(), "b\"c".to_string()];
    assert_eq!(string_array_json(&values), r#"["a","b\"c"]"#);
}

#[test]
fn json_reply_parts() {
    let (status, content_type, body) = json_response("200 OK", "{}");
    assert_eq!(status, "200 OK");
    assert_eq!(content_type, "application/json; charset=utf-8");
    assert_eq!(body, "{}");
}

#[test]
fn server_error_reply() {
    let (status, content_type, body) = server_error("disk \"full\"");
    assert_eq!(status, "500 Internal Server Error");
    assert_eq!(content_type, "application/json; charset=utf-8");
    assert_eq!(body, r#"{"ok":false,"error":"disk \"full\""}"#);
}
