use yewchat::frame::{push_string_array, serialize_socket_message};
use yewchat::text::{ends_with, push_decimal, push_quoted, trims_to_empty};

#[test]
fn decimal_numbers() {
    for (n, s) in [(0u128, "0"), (9, "9"), (10, "10"), (1234567890, "1234567890")] {
        let mut out = String::from(">");
        push_decimal(&mut out, n);
        assert_eq!(out, format!(">{}", s));
    }
    let mut out = String::new();
    push_decimal(&mut out, u128::MAX);
    assert_eq!(out, u128::MAX.to_string());
}

#[test]
fn quoted_strings_escape() {
    let mut out = String::new();
    push_quoted(&mut out, "plain");
    assert_eq!(out, "\"plain\"");
    let mut out = String::new();
    push_quoted(&mut out, "q\"b\\n\n\t\u{1}\u{7f}\u{e9}");
    assert_eq!(out, "\"q\\\"b\\\\n\\n\\t\\u0001\u{7f}\u{e9}\"");
}

#[test]
fn whitespace_and_suffix() {
    assert!(trims_to_empty(""));
    assert!(trims_to_empty(" \t\r\n\u{b}\u{c}\u{85}\u{a0}\u{1680}\u{2000}\u{200a}\u{2028}\u{2029}\u{202f}\u{205f}\u{3000}"));
    assert!(!trims_to_empty(" a "));
    assert!(!trims_to_empty("\u{200b}"));
    for s in ["", " ", "x", " \u{3000}x", "\u{feff}"] {
        assert_eq!(trims_to_empty(s), s.trim().is_empty());
    }
    assert!(ends_with("cat.gif", ".gif"));
    assert!(ends_with(".gif", ".gif"));
    assert!(!ends_with("gif", ".gif"));
    assert!(!ends_with("cat.gifs", ".gif"));
    assert!(ends_with("\u{e9}.gif", ".gif"));
}

#[test]
fn frames() {
    let mut out = String::new();
    push_string_array(&mut out, &vec![]);
    assert_eq!(out, "[]");
    assert_eq!(
        serialize_socket_message("t", Some(&vec!["a".to_string(), "b".to_string(), "c".to_string()]), Some("d")),
        r#"{"messageType":"t","dataArray":["a","b","c"],"data":"d"}"#
    );
    assert_eq!(
        serialize_socket_message("t", None, None),
        r#"{"messageType":"t","dataArray":null,"data":null}"#
    );
}
