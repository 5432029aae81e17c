use imap_safe_mail::headers::{parse_fields, Headers};

#[test]
fn fields_have_lower_case_names_and_trimmed_values() {
    assert_eq!(
        parse_fields("Subject:  Hello \r\nX-Ünï: a:b\nnot a field\nEmpty:\n"),
        vec![
            ("subject".to_string(), "Hello".to_string()),
            ("x-Ünï".to_string(), "a:b".to_string()),
            ("empty".to_string(), "".to_string()),
        ]
    );
}

#[test]
fn folded_lines_continue_the_value_before_them() {
    assert_eq!(
        parse_fields(" lost\nTo: a,\r\n\t b \r\n c\nplain\n d"),
        vec![("to".to_string(), "a, b c d".to_string())]
    );
}

#[test]
fn the_first_field_of_a_name_counts() {
    let headers = Headers::parse(b"A: 1\r\na: 2\r\nB: 3\r\n\r\nx");
    assert_eq!(headers.get("a"), Some("1"));
    assert_eq!(headers.get("b"), Some("3"));
    assert_eq!(headers.get("c"), None);
    assert_eq!(headers.get("A"), None);
}

#[test]
fn the_body_follows_the_first_empty_line() {
    assert_eq!(
        Headers::parse(b"A: 1\r\n\r\nbody\r\n\r\nmore").body_text(),
        Some("body\r\n\r\nmore")
    );
    assert_eq!(Headers::parse(b"A: 1\n\nbody").body_text(), Some("body"));
    // An empty line with carriage returns counts before one without.
    let mixed = Headers::parse(b"A: 1\n\nB: 2\r\n\r\nbody");
    assert_eq!(mixed.body_text(), Some("body"));
    assert_eq!(mixed.get("b"), Some("2"));
    let headless = Headers::parse(b"A: 1");
    assert_eq!(headless.body_text(), None);
    assert_eq!(headless.get("a"), Some("1"));
    assert_eq!(Headers::parse(b"").get("a"), None);
    assert_eq!(Headers::parse(b"A: 1\r\n\r\n").body_text(), None);
    assert_eq!(Headers::parse(b"\n\n").body_text(), None);
}

#[test]
fn bytes_that_are_not_utf8_are_replaced_in_headers_and_refused_in_bodies() {
    let headers = Headers::parse(b"A: caf\xE9\r\nB: \xC3\xA9\r\n\r\ncaf\xE9");
    assert_eq!(headers.get("a"), Some("caf\u{FFFD}"));
    assert_eq!(headers.get("b"), Some("é"));
    assert_eq!(headers.body_text(), None);
    assert_eq!(
        Headers::parse("A: 1\r\n\r\ncafé".as_bytes()).body_text(),
        Some("café")
    );
}

#[test]
fn a_section_and_a_body_make_a_message() {
    let headers = Headers::of_section("A: 1\n 2", b"x");
    assert_eq!(headers.get("a"), Some("1 2"));
    assert_eq!(headers.body_text(), Some("x"));
}
