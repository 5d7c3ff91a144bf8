use toolcase_gateway::numbers::{decimal_text, parse_number, parse_u16, parse_u64, parse_usize};
use toolcase_gateway::rewrite::{
    escape_json_string, json_string_text, json_string_value, replace_model, rewrite_tool_names,
};
use toolcase_gateway::text::{
    find_chars, same_text, space_char, text_eq_ignore_case, trim_text,
};

fn rewritten(body: &str, request: &str) -> String {
    String::from_utf8(rewrite_tool_names(body.as_bytes(), request.as_bytes())).unwrap()
}

#[test]
fn values_are_found_behind_their_key() {
    assert_eq!(json_string_value(r#"{"model": "a b"}"#, "model").as_deref(), Some("a b"));
    assert_eq!(json_string_value(r#"{"model": 1, "x": "y"}"#, "model").as_deref(), Some("x"));
    assert_eq!(json_string_value(r#"{"modelx":"a"}"#, "model"), None);
    assert_eq!(json_string_value(r#"{"model":"a"#, "model"), None);
    assert_eq!(json_string_value(r#"{"model":"a\"b"}"#, "model").as_deref(), Some("a\\"));
}

#[test]
fn models_are_replaced_and_escaped() {
    let replaced = |body: &[u8], model: &str| replace_model(body, model);
    assert_eq!(replaced(br#"{"model" : "a"}"#, "b\\\""), br#"{"model" : "b\\\""}"#);
    assert_eq!(replaced(br#"{"x":1}"#, "b"), br#"{"x":1}"#);
    assert_eq!(replaced(b"{\"model\":\"\xff\"}", "b"), b"{\"model\":\"\xff\"}");
    assert_eq!(replaced(br#""model""#, "b"), br#""model""#);
    assert_eq!(replaced(br#""model":1"#, "b"), br#""model":1"#);
    assert_eq!(replaced(br#""model":"a"#, "b"), br#""model":"a"#);
    let utf8 = "{\"\u{e9}\":1,\"model\":\"\u{4e2d}\"}";
    assert_eq!(
        replaced(utf8.as_bytes(), "\u{1f600}"),
        "{\"\u{e9}\":1,\"model\":\"\u{1f600}\"}".as_bytes()
    );
    let once = replaced(br#"{"model":"a"}"#, "b");
    let text = String::from_utf8(once).unwrap();
    assert_eq!(json_string_value(&text, "model").as_deref(), Some("b"));
}

#[test]
fn tool_names_get_their_case_back() {
    let request = r#"{"tools":[{"name":"ReadFile"},{"name":"grep"},{"name":"WebSearch"}]}"#;
    assert_eq!(
        rewritten(r#"[{"name":"readfile"},{"NAME" : "WEBSEARCH"},{"name":"GREP"}]"#, request),
        r#"[{"name":"ReadFile"},{"NAME" : "WebSearch"},{"name":"GREP"}]"#
    );
    // Only the value of the key is touched.
    assert_eq!(rewritten(r#"{"title":"readfile"}"#, request), r#"{"title":"readfile"}"#);
    // A value that is no string ends the search.
    assert_eq!(
        rewritten(r#"{"name":1,"x":{"name":"readfile"}}"#, request),
        r#"{"name":1,"x":{"name":"readfile"}}"#
    );
}

#[test]
fn rewriting_changes_letter_case_alone() {
    let request = r#"{"name":"ÉtA","name":"Be","name":"bE"}"#;
    for body in [
        r#"{"name":"be","name":"x"}"#,
        "{\"name\":\u{a0}\"BE\"}",
        "\u{e9}{\"name\":\"be\"",
        "",
    ] {
        let once = rewritten(body, request);
        assert!(once.eq_ignore_ascii_case(body));
        assert_eq!(rewritten(&once, request), once);
    }
    // Of two names that differ in letter case alone, the last one counts.
    assert_eq!(rewritten(r#"{"name":"be"}"#, request), r#"{"name":"bE"}"#);
}

#[test]
fn bodies_that_are_not_utf8_stay() {
    let request = br#"{"name":"MyTool"}"#;
    let body = b"{\"name\":\"mytool\"}\xff";
    assert_eq!(rewrite_tool_names(body, request), body);
    assert_eq!(
        rewrite_tool_names(br#"{"name":"mytool"}"#, b"\xff{\"name\":\"MyTool\"}"),
        br#"{"name":"mytool"}"#
    );
}

#[test]
fn lower_case_requests_change_nothing() {
    let body = r#"{"name":"MYTOOL"}"#;
    assert_eq!(rewritten(body, r#"{"name":"mytool"}"#), body);
    assert_eq!(rewritten(body, ""), body);
}

#[test]
fn escapes_are_those_of_two_replacements() {
    for text in ["", "\\", "\"", "\\\"", "a\\\\b\"\"", "\n\u{e9}"] {
        let expected = text.replace('\\', "\\\\").replace('"', "\\\"");
        assert_eq!(escape_json_string(text), expected);
    }
}

#[test]
fn json_texts_are_read_back() {
    for text in ["", "a\"b\\c", "\n\r\t\u{8}\u{c}", "\u{0}\u{1f}", "\u{e9}\u{1f600}"] {
        let json = format!("\"{}\"", json_string_text(text));
        let read: String = serde_json::from_str(&json).unwrap();
        assert_eq!(read, text);
    }
    assert_eq!(json_string_text("\u{0}\u{b}\n"), "\\u0000\\u000B\\n");
    assert_eq!(json_string_text("a\"b\\c"), escape_json_string("a\"b\\c"));
}

#[test]
fn white_space_is_that_of_std() {
    for c in (0u32..0x110000).filter_map(char::from_u32) {
        assert_eq!(space_char(c), c.is_whitespace());
    }
    for text in ["", " ", " a ", "\u{3000}a b\u{85}\t", "a", "\u{200b}a"] {
        assert_eq!(trim_text(text), text.trim());
    }
}

#[test]
fn numbers_are_those_of_std() {
    let texts = [
        "", "+", "-", "0", "+0", "-0", "007", "65535", "65536", "18446744073709551615",
        "18446744073709551616", "1 ", " 1", "1_0", "0x1", "ff", "++1", "99999999999999999999999",
        "\u{661}",
    ];
    for text in texts {
        assert_eq!(parse_u64(text), text.parse().ok());
        assert_eq!(parse_u16(text), text.parse().ok());
        assert_eq!(parse_usize(text), text.parse().ok());
        let chars: Vec<char> = text.chars().collect();
        assert_eq!(parse_number(&chars, 16, u64::MAX), u64::from_str_radix(text, 16).ok());
    }
    for n in [0, 9, 10, 255, 20129, u64::MAX] {
        assert_eq!(decimal_text(n), n.to_string());
        assert_eq!(parse_u64(&decimal_text(n)), Some(n));
    }
}

#[test]
fn texts_are_compared() {
    assert!(same_text("a\u{e9}", "a\u{e9}"));
    assert!(!same_text("a", "A"));
    assert!(!same_text("a", "ab"));
    assert!(text_eq_ignore_case("Content-Type", "CONTENT-tYPE"));
    assert!(!text_eq_ignore_case("\u{212a}", "k"));
    assert!(!text_eq_ignore_case("\u{c9}", "\u{e9}"));
    let chars: Vec<char> = "abcabc".chars().collect();
    assert_eq!(find_chars(&chars, &['c', 'a'], 0), Some(2));
    assert_eq!(find_chars(&chars, &['c'], 3), Some(5));
    assert_eq!(find_chars(&chars, &['d'], 0), None);
    assert_eq!(find_chars(&chars, &[], 6), Some(6));
}
