use ion_engine::codec::{escape, unescape};

#[test]
fn test_escape() {
    let line = " Mary   had\ta little  \n\t lamb\t";
    let output = escape(line).expect("error processing string");
    assert_eq!(output, " Mary   had\\ta little  \\n\\t lamb\\t");
}

#[test]
fn test_unescape() {
    let line = " Mary   had\ta little  \n\t lamb\t";
    let output = unescape(line).expect("error processing string");
    assert_eq!(output, line);
}

#[test]
fn escape_then_unescape_round_trips() {
    let line = "bell \u{7} backspace \u{8} tab \t newline \n vtab \u{B} formfeed \u{C} cr \r esc \u{1B} quote ' dquote \" slash \\ plain words; with_underscores";
    let escaped = escape(line).expect("escape failed");
    let back = unescape(&escaped).expect("unescape failed");
    assert_eq!(back, line);
}

#[test]
fn escape_rejects_non_ascii() {
    assert!(escape("oh là là").is_err());
    assert_eq!(escape("café").unwrap_err(), "ion: Invalid ASCII character");
}

#[test]
fn unescape_rejects_non_ascii() {
    assert!(unescape("oh là là").is_err());
    assert_eq!(unescape("café").unwrap_err(), "ion: Invalid ASCII character");
}

#[test]
fn unescape_rejects_non_ascii_after_a_backslash() {
    assert_eq!(unescape("\\é").unwrap_err(), "ion: Invalid ASCII character");
}

#[test]
fn unescape_control_sequence_discards_output() {
    assert_eq!(unescape("hello\\cworld").unwrap(), "");
}

#[test]
fn unescape_passes_unknown_escapes_through() {
    assert_eq!(unescape("\\q").unwrap(), "\\q");
    assert_eq!(unescape("\\0").unwrap(), "\\0");
}

#[test]
fn escape_marks_shell_punctuation() {
    assert_eq!(escape("a!b").unwrap(), "a\\!b");
    assert_eq!(escape("a;b_c").unwrap(), "a;b_c");
    assert_eq!(escape("[x]").unwrap(), "\\[x\\]");
}

#[test]
fn unescape_decodes_the_fixed_table() {
    assert_eq!(unescape("\\a\\b\\e\\f\\n\\r\\t\\v\\ \\'\\\"\\\\").unwrap(),
        "\u{7}\u{8}\u{1B}\u{C}\n\r\t\u{B} '\"\\");
}
