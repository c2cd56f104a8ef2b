use beetree::lang::{find_line_occurance, find_match, gen_language_text, process_language_text};
use beetree::lang::Error;
use beetree::text::unquote_text;

#[test]
fn two_records_in_order() {
    let r = gen_language_text("en,Hello\nfr,Bonjour", "MSG").unwrap();
    assert_eq!(r.len(), 2);
    assert_eq!(r[0].0, "en");
    assert_eq!(r[0].1, "MSG=\"Hello\"");
    assert_eq!(r[1].0, "fr");
    assert_eq!(r[1].1, "MSG=\"Bonjour\"");
}

#[test]
fn one_record() {
    let (lang, snippet) = process_language_text("en,Hello", "MSG").unwrap();
    assert_eq!(lang, "en");
    assert_eq!(snippet, "MSG=\"Hello\"");
}

#[test]
fn payload_keeps_later_separators() {
    let (lang, snippet) = process_language_text("en,a,b", "MSG").unwrap();
    assert_eq!(lang, "en");
    assert_eq!(snippet, "MSG=\"a,b\"");
}

#[test]
fn missing_separator_is_rejected() {
    let r = process_language_text("enHello", "MSG");
    assert!(matches!(r, Err(Error::NoSeparator)));
}

#[test]
fn one_bad_line_fails_whole_parse() {
    let r = gen_language_text("en,Hello\nbroken", "MSG");
    assert!(matches!(r, Err(Error::NoSeparator)));
}

#[test]
fn duplicate_languages_are_preserved() {
    let r = gen_language_text("en,a\nen,b", "T").unwrap();
    assert_eq!(r.len(), 2);
    assert_eq!(r[0].0, "en");
    assert_eq!(r[0].1, "T=\"a\"");
    assert_eq!(r[1].0, "en");
    assert_eq!(r[1].1, "T=\"b\"");
}

#[test]
fn empty_text_gives_no_records() {
    let r = gen_language_text("", "MSG").unwrap();
    assert_eq!(r.len(), 0);
}

#[test]
fn trailing_newline_opens_no_extra_record() {
    let r = gen_language_text("en,Hello\n", "MSG").unwrap();
    assert_eq!(r.len(), 1);
    assert_eq!(r[0].1, "MSG=\"Hello\"");
}

#[test]
fn quoting_escapes_quotes_and_backslashes() {
    let (_, snippet) = process_language_text("en,He said \"hi\" \\ done", "MSG").unwrap();
    assert_eq!(snippet, "MSG=\"He said \\\"hi\\\" \\\\ done\"");
}

#[test]
fn quoting_round_trips() {
    let payload = "He said \"hi\" \\ done";
    let line = format!("en,{payload}");
    let (_, snippet) = process_language_text(&line, "MSG").unwrap();
    let quoted = &snippet["MSG=".len()..];
    assert_eq!(unquote_text(quoted), Some(payload.to_string()));
}

#[test]
fn unquote_rejects_missing_close() {
    assert_eq!(unquote_text("\"abc"), None);
}

#[test]
fn unquote_rejects_bare_quote_inside() {
    assert_eq!(unquote_text("\"a\"b\""), None);
}

#[test]
fn unquote_rejects_trailing_lone_backslash() {
    assert_eq!(unquote_text("\"a\\\""), None);
}

#[test]
fn find_match_returns_first_occurrence() {
    let vals = vec![
        ("en".to_string(), "one".to_string()),
        ("fr".to_string(), "two".to_string()),
        ("en".to_string(), "three".to_string()),
    ];
    assert_eq!(find_match("en", &vals), Some(&"one".to_string()));
    assert_eq!(find_match("fr", &vals), Some(&"two".to_string()));
    assert_eq!(find_match("nl", &vals), None);
}

#[test]
fn scanner_reports_first_matching_line() {
    assert_eq!(find_line_occurance("a\nMSG=1\nMSG=2", "MSG"), Some(1));
}

#[test]
fn scanner_is_case_sensitive_prefix_match() {
    assert_eq!(find_line_occurance("msg=1", "MSG"), None);
    assert_eq!(find_line_occurance("xMSG=1", "MSG"), None);
    assert_eq!(find_line_occurance("MSG", "MSG"), Some(0));
}

#[test]
fn scanner_finds_nothing_in_empty_text() {
    assert_eq!(find_line_occurance("", "MSG"), None);
}
