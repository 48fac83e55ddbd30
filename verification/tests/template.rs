use regex::Regex;
use std::collections::HashMap;
use ynap::template::{
    apply_command, contains_placeholder, interpolate, scan_placeholder, TemplateError,
};

fn words(s: &str) -> String {
    match s {
        "a" => "hello".to_string(),
        "b" => "world".to_string(),
        _ => String::new(),
    }
}

#[test]
fn test_interpolate() {
    let words = HashMap::from([("a", "hello"), ("b", "world")]);
    let func = |s: &str| words.get(s).map(|x| x.to_string()).unwrap_or_default();
    let tests = [
        ("${a} ${b}!", "hello world!"),
        ("${a|title_case} ${b}!", "Hello world!"),
        ("${a|not_empty} ${b|uppercase}!", "hello WORLD!"),
    ];

    for test in tests {
        assert_eq!(interpolate(test.0, func), Ok(test.1.to_string()));
    }
}

#[test]
fn interpolate_plain_text_is_unchanged() {
    assert_eq!(interpolate("no placeholder here", words), Ok("no placeholder here".to_string()));
    assert_eq!(interpolate("", words), Ok(String::new()));
    assert_eq!(interpolate("cost: $5 {a} $a", words), Ok("cost: $5 {a} $a".to_string()));
}

#[test]
fn interpolate_plain_text_never_asks_the_lookup() {
    let out = interpolate("plain", |_: &str| -> String { panic!("lookup was asked") });
    assert_eq!(out, Ok("plain".to_string()));
}

#[test]
fn interpolate_unknown_key_is_empty() {
    assert_eq!(interpolate("[${zzz}]", words), Ok("[]".to_string()));
}

#[test]
fn interpolate_lowercase() {
    let out = interpolate("${k|lowercase}", |_: &str| "MiXeD".to_string());
    assert_eq!(out, Ok("mixed".to_string()));
}

#[test]
fn interpolate_uppercase_changes_the_value() {
    let out = interpolate("${k|uppercase}", |_: &str| "abc".to_string());
    assert_eq!(out, Ok("ABC".to_string()));
}

#[test]
fn interpolate_title_case_changes_the_value() {
    let out = interpolate("${k|title_case}", |_: &str| "coffee shop".to_string());
    assert_eq!(out, Ok("Coffee Shop".to_string()));
}

#[test]
fn interpolate_not_empty_fails_on_empty_value() {
    let out = interpolate("${a|not_empty} ${b|uppercase}!", |k: &str| {
        if k == "b" {
            "world".to_string()
        } else {
            String::new()
        }
    });
    assert_eq!(out, Err(TemplateError::EmptyValue("a".to_string())));
}

#[test]
fn interpolate_invalid_command_fails() {
    assert_eq!(
        interpolate("x ${a|shout} y", words),
        Err(TemplateError::InvalidCommand("shout".to_string()))
    );
}

#[test]
fn interpolate_first_failure_wins() {
    assert_eq!(
        interpolate("${a|one} ${b|two}", words),
        Err(TemplateError::InvalidCommand("one".to_string()))
    );
}

#[test]
fn interpolate_adjacent_and_nested_marks() {
    assert_eq!(interpolate("${a}${b}", words), Ok("helloworld".to_string()));
    assert_eq!(interpolate("$${a}}", words), Ok("$hello}".to_string()));
    assert_eq!(interpolate("${${a}", words), Ok("${hello".to_string()));
}

#[test]
fn interpolate_malformed_placeholders_pass_through() {
    assert_eq!(interpolate("${} ${a", words), Ok("${} ${a".to_string()));
    assert_eq!(interpolate("${a|} ${a b} ${a}", words), Ok("${a|} ${a b} hello".to_string()));
    assert_eq!(interpolate("${a-b}${b}", words), Ok("${a-b}world".to_string()));
}

#[test]
fn interpolate_names_take_underscores_and_digits() {
    let out = interpolate("${key_1}", |k: &str| format!("<{}>", k));
    assert_eq!(out, Ok("<key_1>".to_string()));
}

#[test]
fn interpolate_asks_once_per_placeholder_in_order() {
    let seen = std::cell::RefCell::new(Vec::new());
    let out = interpolate("${x}-${y}-${x}", |k: &str| {
        seen.borrow_mut().push(k.to_string());
        k.to_string()
    });
    assert_eq!(out, Ok("x-y-x".to_string()));
    assert_eq!(seen.into_inner(), vec!["x".to_string(), "y".to_string(), "x".to_string()]);
}

#[test]
fn scan_placeholder_positions() {
    let s = "ab${key|cmd}z";
    let p = scan_placeholder(s, 13, 2).unwrap();
    assert_eq!((p.key_start, p.key_end, p.command, p.end), (4, 7, Some((8, 11)), 12));
    assert!(scan_placeholder(s, 13, 0).is_none());
    assert!(scan_placeholder(s, 13, 3).is_none());
    let q = scan_placeholder("${k}", 4, 0).unwrap();
    assert_eq!((q.key_start, q.key_end, q.command, q.end), (2, 3, None, 4));
}

#[test]
fn contains_placeholder_cases() {
    assert!(contains_placeholder("x ${a} y"));
    assert!(contains_placeholder("${a|b}"));
    assert!(!contains_placeholder("x $ {a} y"));
    assert!(!contains_placeholder("${a|b|c}"));
    assert!(!contains_placeholder(""));
}

#[test]
fn apply_command_each_command() {
    assert_eq!(apply_command("k", "v w".to_string(), None), Ok("v w".to_string()));
    assert_eq!(apply_command("k", "v w".to_string(), Some("title_case")), Ok("V W".to_string()));
    assert_eq!(apply_command("k", "V W".to_string(), Some("lowercase")), Ok("v w".to_string()));
    assert_eq!(apply_command("k", "v w".to_string(), Some("uppercase")), Ok("V W".to_string()));
    assert_eq!(apply_command("k", "v".to_string(), Some("not_empty")), Ok("v".to_string()));
    assert_eq!(
        apply_command("k", String::new(), Some("not_empty")),
        Err(TemplateError::EmptyValue("k".to_string()))
    );
    assert_eq!(
        apply_command("k", "v".to_string(), Some("Uppercase")),
        Err(TemplateError::InvalidCommand("Uppercase".to_string()))
    );
}

#[test]
fn interpolate_names_are_ascii_words() {
    let shout = |k: &str| format!("<{}>", k);
    assert_eq!(interpolate("${\u{e9}}", shout), Ok("${\u{e9}}".to_string()));
    assert_eq!(interpolate("${caf\u{e9}} ${a}", shout), Ok("${caf\u{e9}} <a>".to_string()));
    assert_eq!(interpolate("${\u{3b1}|uppercase}", shout), Ok("${\u{3b1}|uppercase}".to_string()));
    assert_eq!(interpolate("${a|\u{e9}}", shout), Ok("${a|\u{e9}}".to_string()));
    assert_eq!(interpolate("${\u{b2}}", shout), Ok("${\u{b2}}".to_string()));
    assert_eq!(interpolate("${Az09_}", shout), Ok("<Az09_>".to_string()));
    assert_eq!(interpolate("${\u{17f}\u{212a}}", shout), Ok("<\u{17f}\u{212a}>".to_string()));
}

#[test]
fn placeholders_are_those_of_the_expression() {
    let grammar = Regex::new(r"(?mi)\$\{([[:word:]]+)(\|([[:word:]]+))?\}").unwrap();
    let templates = [
        "",
        "plain",
        "${a}",
        "${a|b}",
        "${a|b|c}",
        "${}",
        "${a",
        "$ {a}",
        "${a b}",
        "${a-b}",
        "${_}",
        "${0}",
        "${\u{e9}}",
        "${\u{17f}}",
        "${\u{212a}}",
        "${k|\u{17f}}",
        "${\u{3b1}}",
        "${\u{b2}}",
        "${\u{200d}}",
        "${a\n}",
        "x${${a}",
        "${A|Z}",
    ];
    for t in templates {
        assert_eq!(contains_placeholder(t), grammar.is_match(t), "{:?}", t);
    }
}
