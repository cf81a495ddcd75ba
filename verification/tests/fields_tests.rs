use lib::fields::{
    is_overview_account, is_valid_date_key, is_valid_pin, is_valid_time_value,
    parse_assignees_field, sanitize_account_name, sanitize_broadcast_text, sanitize_note_text,
    sanitize_task_text, same_name,
};

#[test]
fn account_name_is_trimmed_and_collapsed() {
    assert_eq!(sanitize_account_name("  Mom   and\tDad  "), "Mom and Dad");
}

#[test]
fn account_name_drops_disallowed_characters() {
    assert_eq!(sanitize_account_name("A*n!n@a,é"), "Anna");
    assert_eq!(sanitize_account_name("j.doe_2-x"), "j.doe_2-x");
}

#[test]
fn account_name_keeps_at_most_32_characters() {
    let long = "abcdefghijklmnopqrstuvwxyz0123456789";
    assert_eq!(sanitize_account_name(long), "abcdefghijklmnopqrstuvwxyz012345");
    // The cut may leave a trailing space, which the collapse removes.
    let spaced = format!("{} tail", "a".repeat(31));
    assert_eq!(sanitize_account_name(&spaced), "a".repeat(31));
}

#[test]
fn account_name_can_become_empty() {
    assert_eq!(sanitize_account_name("  \t "), "");
    assert_eq!(sanitize_account_name("!!!"), "");
}

#[test]
fn sanitizing_a_name_twice_changes_nothing() {
    for raw in ["  Mom   and\tDad  ", "x y  z", "abcdefghijklmnopqrstuvwxyz0123456789", "a,b"] {
        let once = sanitize_account_name(raw);
        assert_eq!(sanitize_account_name(&once), once);
    }
}

#[test]
fn task_text_drops_tabs_and_line_breaks() {
    assert_eq!(sanitize_task_text("  buy\tmilk\r\n now ", 100), "buymilk now");
}

#[test]
fn task_text_is_cut_to_the_limit() {
    assert_eq!(sanitize_task_text("abcdef", 4), "abcd");
    assert_eq!(sanitize_task_text("ab cdef", 3), "ab ");
}

#[test]
fn note_text_turns_breaks_into_spaces() {
    assert_eq!(sanitize_note_text(" line one\nline\ttwo\r ", 2000), "line one line two");
    assert_eq!(sanitize_note_text("abcdef", 2), "ab");
}

#[test]
fn broadcast_text_is_cleaned_like_a_note() {
    assert_eq!(sanitize_broadcast_text("\tDinner\nat 6 ", 500), "Dinner at 6");
    assert_eq!(sanitize_broadcast_text("xyz", 1), "x");
}

#[test]
fn assignees_keep_people_and_groups_once() {
    let list = parse_assignees_field(" Anna , @ Kids ,anna,, @ ,@kids,Bob");
    assert_eq!(list, vec!["Anna".to_string(), "@Kids".to_string(), "Bob".to_string()]);
}

#[test]
fn assignees_of_an_empty_field() {
    assert!(parse_assignees_field("").is_empty());
    assert!(parse_assignees_field(" , ,@").is_empty());
}

#[test]
fn date_keys() {
    assert!(is_valid_date_key("2024-05-31"));
    assert!(is_valid_date_key("0000-00-00"));
    assert!(!is_valid_date_key("2024-5-31"));
    assert!(!is_valid_date_key("2024/05/31"));
    assert!(!is_valid_date_key("2024-05-3a"));
    assert!(!is_valid_date_key(""));
}

#[test]
fn time_values() {
    assert!(is_valid_time_value(""));
    assert!(is_valid_time_value("09:30"));
    assert!(is_valid_time_value("23:59"));
    assert!(is_valid_time_value("7:5"));
    assert!(is_valid_time_value("+7:05"));
    assert!(!is_valid_time_value("24:00"));
    assert!(!is_valid_time_value("12:60"));
    assert!(!is_valid_time_value("1230"));
    assert!(!is_valid_time_value("12:30:00"));
    assert!(!is_valid_time_value(" 12:30"));
    assert!(!is_valid_time_value("-1:30"));
    assert!(!is_valid_time_value("256:00"));
}

#[test]
fn pins() {
    assert!(is_valid_pin("0123"));
    assert!(!is_valid_pin("123"));
    assert!(!is_valid_pin("12345"));
    assert!(!is_valid_pin("12a4"));
    assert!(!is_valid_pin(""));
}

#[test]
fn names_compare_ignoring_ascii_case() {
    assert!(same_name("Anna", "aNNA"));
    assert!(!same_name("Anna", "Ann"));
    assert!(!same_name("Émile", "émile"));
    assert!(same_name("", ""));
}

#[test]
fn overview_account_is_recognised() {
    assert!(is_overview_account("overview"));
    assert!(is_overview_account("OverView"));
    assert!(!is_overview_account("overviews"));
}

#[test]
fn sanitized_names_have_their_shape() {
    let inputs = [
        "  Anna\u{c}\u{c} Maria\t\tLopez  ",
        " a  b\n\nc\r\n",
        "x@y!z  .-_ ",
        "abcdefghij klmnopqrst uvwxyz0123456789 tail",
        "\u{c}\u{c}",
        "é ü  ö",
    ];
    for input in inputs {
        let r = lib::fields::sanitize_account_name(input);
        assert!(r.chars().count() <= 32, "{:?}", r);
        assert!(r.chars().all(|c| c.is_ascii_alphanumeric() || c == ' ' || c == '-' || c == '_' || c == '.'), "{:?}", r);
        assert!(!r.starts_with(' ') && !r.ends_with(' '), "{:?}", r);
        assert!(!r.contains("  "), "{:?}", r);
        assert_eq!(lib::fields::sanitize_account_name(&r), r);
    }
    assert_eq!(lib::fields::sanitize_account_name("  Anna\u{c}\u{c} Maria\t\tLopez  "), "Anna Maria Lopez");
    assert_eq!(lib::fields::sanitize_account_name("abcdefghij klmnopqrst uvwxyz0123456789 tail"), "abcdefghij klmnopqrst uvwxyz0123");
}
