use ion_engine::methods::{boolean_test_char, Expander, MethodError, Select, StringMethod};

struct VariableExpander;

impl Expander for VariableExpander {
    fn string(&self, variable: &str, _: bool) -> Option<String> {
        match variable {
            "FOO" => Some("FOOBAR".to_string()),
            "BAZ" => Some("  BARBAZ   ".to_string()),
            "EMPTY" => Some("".to_string()),
            _ => None,
        }
    }

    fn array(&self, _: &str, _: &Select) -> Option<Vec<String>> {
        None
    }
}

fn method(method: &str, variable: &str, pattern: &str) -> StringMethod {
    StringMethod {
        method: method.to_string(),
        variable: variable.to_string(),
        pattern: pattern.to_string(),
        selection: Select::All,
    }
}

#[test]
fn test_ends_with_succeeding() {
    let mut output = String::new();
    let method = method("ends_with", "$FOO", "\"BAR\"");
    let _ = method.handle(&mut output, &VariableExpander);
    assert_eq!(&*output, "1");
}

#[test]
fn test_ends_with_failing() {
    let mut output = String::new();
    let method = method("ends_with", "$FOO", "\"BA\"");
    let _ = method.handle(&mut output, &VariableExpander);
    assert_eq!(&*output, "0");
}

#[test]
fn test_contains_succeeding() {
    let mut output = String::new();
    let method = method("contains", "$FOO", "\"OBA\"");
    let _ = method.handle(&mut output, &VariableExpander);
    assert_eq!(&*output, "1");
}

#[test]
fn test_contains_failing() {
    let mut output = String::new();
    let method = method("contains", "$FOO", "\"OBI\"");
    let _ = method.handle(&mut output, &VariableExpander);
    assert_eq!(&*output, "0");
}

#[test]
fn test_starts_with_succeeding() {
    let mut output = String::new();
    let method = method("starts_with", "$FOO", "\"FOO\"");
    let _ = method.handle(&mut output, &VariableExpander);
    assert_eq!(&*output, "1");
}

#[test]
fn test_starts_with_failing() {
    let mut output = String::new();
    let method = method("starts_with", "$FOO", "\"OO\"");
    let _ = method.handle(&mut output, &VariableExpander);
    assert_eq!(&*output, "0");
}

#[test]
fn test_basename() {
    let mut output = String::new();
    let method = method("basename", "\"/home/redox/file.txt\"", "");
    let _ = method.handle(&mut output, &VariableExpander);
    assert_eq!(&*output, "file.txt");
}

#[test]
fn test_extension() {
    let mut output = String::new();
    let method = method("extension", "\"/home/redox/file.txt\"", "");
    let _ = method.handle(&mut output, &VariableExpander);
    assert_eq!(&*output, "txt");
}

#[test]
fn test_filename() {
    let mut output = String::new();
    let method = method("filename", "\"/home/redox/file.txt\"", "");
    let _ = method.handle(&mut output, &VariableExpander);
    assert_eq!(&*output, "file");
}

#[test]
fn test_parent() {
    let mut output = String::new();
    let method = method("parent", "\"/home/redox/file.txt\"", "");
    let _ = method.handle(&mut output, &VariableExpander);
    assert_eq!(&*output, "/home/redox");
}

#[test]
fn test_to_lowercase() {
    let mut output = String::new();
    let method = method("to_lowercase", "\"Ford Prefect\"", "");
    let _ = method.handle(&mut output, &VariableExpander);
    assert_eq!(&*output, "ford prefect");
}

#[test]
fn test_to_uppercase() {
    let mut output = String::new();
    let method = method("to_uppercase", "\"Ford Prefect\"", "");
    let _ = method.handle(&mut output, &VariableExpander);
    assert_eq!(&*output, "FORD PREFECT");
}

#[test]
fn test_trim_with_string() {
    let mut output = String::new();
    let method = method("trim", "\"  Foo Bar \"", "");
    let _ = method.handle(&mut output, &VariableExpander);
    assert_eq!(&*output, "Foo Bar");
}

#[test]
fn test_trim_with_variable() {
    let mut output = String::new();
    let method = method("trim", "$BAZ", "");
    let _ = method.handle(&mut output, &VariableExpander);
    assert_eq!(&*output, "BARBAZ");
}

#[test]
fn test_trim_right_with_string() {
    let mut output = String::new();
    let method = method("trim_right", "\"  Foo Bar \"", "");
    let _ = method.handle(&mut output, &VariableExpander);
    assert_eq!(&*output, "  Foo Bar");
}

#[test]
fn test_trim_right_with_variable() {
    let mut output = String::new();
    let method = method("trim_right", "$BAZ", "");
    let _ = method.handle(&mut output, &VariableExpander);
    assert_eq!(&*output, "  BARBAZ");
}

#[test]
fn test_trim_left_with_string() {
    let mut output = String::new();
    let method = method("trim_left", "\"  Foo Bar \"", "");
    let _ = method.handle(&mut output, &VariableExpander);
    assert_eq!(&*output, "Foo Bar ");
}

#[test]
fn test_trim_left_with_variable() {
    let mut output = String::new();
    let method = method("trim_left", "$BAZ", "");
    let _ = method.handle(&mut output, &VariableExpander);
    assert_eq!(&*output, "BARBAZ   ");
}

#[test]
fn test_repeat_succeeding() {
    let mut output = String::new();
    let method = method("repeat", "$FOO", "2");
    let _ = method.handle(&mut output, &VariableExpander);
    assert_eq!(&*output, "FOOBARFOOBAR");
}

#[test]
fn test_repeat_failing() {
    let mut output = String::new();
    let method = method("repeat", "$FOO", "-2");
    let r = method.handle(&mut output, &VariableExpander);
    assert_eq!(&*output, "");
    assert_eq!(r, Err(MethodError::RepeatInvalidNumber));
}

#[test]
fn test_replace_succeeding() {
    let mut output = String::new();
    let method = method("replace", "$FOO", "[\"FOO\" \"BAR\"]");
    let _ = method.handle(&mut output, &VariableExpander);
    assert_eq!(&*output, "BARBAR");
}

#[test]
fn test_replace_failing() {
    let mut output = String::new();
    let method = method("replace", "$FOO", "[]");
    let r = method.handle(&mut output, &VariableExpander);
    assert_eq!(&*output, "");
    assert_eq!(r, Err(MethodError::ReplaceTwoArguments));
}

#[test]
fn test_replacen_succeeding() {
    let mut output = String::new();
    let method = method("replacen", "\"FOO$FOO\"", "[\"FOO\" \"BAR\" 1]");
    let _ = method.handle(&mut output, &VariableExpander);
    assert_eq!(&*output, "BARFOOBAR");
}

#[test]
fn test_replacen_failing() {
    let mut output = String::new();
    let method = method("replacen", "$FOO", "[]");
    let r = method.handle(&mut output, &VariableExpander);
    assert_eq!(&*output, "");
    assert_eq!(r, Err(MethodError::ReplacenThreeArguments));
}

#[test]
fn test_regex_replace_succeeding() {
    let mut output = String::new();
    let method = method("regex_replace", "$FOO", "[\"^F\" \"f\"]");
    let _ = method.handle(&mut output, &VariableExpander);
    assert_eq!(&*output, "fOOBAR");
}

#[test]
fn test_regex_replace_failing() {
    let mut output = String::new();
    let method = method("regex_replace", "$FOO", "[\"^f\" \"F\"]");
    let _ = method.handle(&mut output, &VariableExpander);
    assert_eq!(&*output, "FOOBAR");
}

#[test]
fn regex_replace_invalid_pattern_reports_it_and_writes_nothing() {
    let mut output = String::new();
    let method = method("regex_replace", "$FOO", "[\"(unclosed\" \"x\"]");
    let r = method.handle(&mut output, &VariableExpander);
    assert_eq!(&*output, "");
    assert_eq!(r, Err(MethodError::InvalidRegex("(unclosed".to_string())));
    assert_eq!(
        r.unwrap_err().message(),
        "ion: regex_replace: error in regular expression (unclosed"
    );
}

#[test]
fn test_join_with_string() {
    let mut output = String::new();
    let method = method("join", "[\"FOO\" \"BAR\"]", "\" \"");
    let _ = method.handle(&mut output, &VariableExpander);
    assert_eq!(&*output, "FOO BAR");
}

#[test]
fn test_join_with_array() {
    let mut output = String::new();
    let method = method("join", "[\"FOO\" \"BAR\"]", "[\"-\" \"-\"]");
    let _ = method.handle(&mut output, &VariableExpander);
    assert_eq!(&*output, "FOO- -BAR");
}

#[test]
fn test_len_with_array() {
    let mut output = String::new();
    let method = method("len", "[\"1\"]", "");
    let _ = method.handle(&mut output, &VariableExpander);
    assert_eq!(&*output, "1");
}

#[test]
fn test_len_with_string() {
    let mut output = String::new();
    let method = method("len", "\"FOO\"", "");
    let _ = method.handle(&mut output, &VariableExpander);
    assert_eq!(&*output, "3");
}

#[test]
fn test_len_with_variable() {
    let mut output = String::new();
    let method = method("len", "$FOO", "");
    let _ = method.handle(&mut output, &VariableExpander);
    assert_eq!(&*output, "6");
}

#[test]
fn len_counts_grapheme_clusters_not_code_points() {
    let mut output = String::new();
    // 'e' followed by a combining acute accent: one user-perceived character.
    let method = method("len", "\"e\u{301}\"", "");
    let _ = method.handle(&mut output, &VariableExpander);
    assert_eq!(&*output, "1");
}

#[test]
fn test_len_bytes_with_variable() {
    let mut output = String::new();
    let method = method("len_bytes", "$FOO", "");
    let _ = method.handle(&mut output, &VariableExpander);
    assert_eq!(&*output, "6");
}

#[test]
fn test_len_bytes_with_string() {
    let mut output = String::new();
    let method = method("len_bytes", "\"oh là là\"", "");
    let _ = method.handle(&mut output, &VariableExpander);
    assert_eq!(&*output, "10");
}

#[test]
fn test_reverse_with_variable() {
    let mut output = String::new();
    let method = method("reverse", "$FOO", "");
    let _ = method.handle(&mut output, &VariableExpander);
    assert_eq!(&*output, "RABOOF");
}

#[test]
fn test_reverse_with_string() {
    let mut output = String::new();
    let method = method("reverse", "\"FOOBAR\"", "");
    let _ = method.handle(&mut output, &VariableExpander);
    assert_eq!(&*output, "RABOOF");
}

#[test]
fn reverse_keeps_grapheme_clusters_whole() {
    let mut output = String::new();
    let method = method("reverse", "\"ae\u{301}\"", "");
    let _ = method.handle(&mut output, &VariableExpander);
    assert_eq!(&*output, "e\u{301}a");
}

#[test]
fn test_find_succeeding() {
    let mut output = String::new();
    let method = method("find", "$FOO", "\"O\"");
    let _ = method.handle(&mut output, &VariableExpander);
    assert_eq!(&*output, "1");
}

#[test]
fn test_find_failing() {
    let mut output = String::new();
    let method = method("find", "$FOO", "\"L\"");
    let _ = method.handle(&mut output, &VariableExpander);
    assert_eq!(&*output, "-1");
}

#[test]
fn test_or_undefined() {
    let mut output = String::new();
    let method = method("or", "$NDIUKFBINCF", "\"baz\"");
    let _ = method.handle(&mut output, &VariableExpander);
    assert_eq!(&*output, "baz");
}

#[test]
fn test_or_empty() {
    let mut output = String::new();
    let method = method("or", "$EMPTY", "\"baz\"");
    let _ = method.handle(&mut output, &VariableExpander);
    assert_eq!(&*output, "baz");
}

#[test]
fn test_or_defined() {
    let mut output = String::new();
    let method = method("or", "$FOO", "\"baz\"");
    let _ = method.handle(&mut output, &VariableExpander);
    assert_eq!(&*output, "FOOBAR");
}

#[test]
fn test_or_three_args_second_arg_defined() {
    let mut output = String::new();
    let method = method("or", "$EMPTY", "\"bar\", \"baz\"");
    let _ = method.handle(&mut output, &VariableExpander);
    assert_eq!(&*output, "bar");
}

#[test]
fn test_or_three_args_third_arg_defined() {
    let mut output = String::new();
    let method = method("or", "$EMPTY", "\"\", \"baz\"");
    let _ = method.handle(&mut output, &VariableExpander);
    assert_eq!(&*output, "baz");
}

#[test]
fn test_or_no_pattern() {
    let mut output = String::new();
    let method = method("or", "$FOO", "\"\"");
    let _ = method.handle(&mut output, &VariableExpander);
    assert_eq!(&*output, "FOOBAR");
}

#[test]
fn unknown_method_reports_and_writes_nothing() {
    let mut output = String::from("kept");
    let method = method("no_such_method", "$FOO", "");
    let r = method.handle(&mut output, &VariableExpander);
    assert_eq!(&*output, "kept");
    assert_eq!(r, Err(MethodError::UnknownMethod));
    assert_eq!(r.unwrap_err().message(), "ion: method namespace not found");
}

#[test]
fn unescape_method_rejects_non_ascii_and_writes_nothing() {
    let mut output = String::new();
    let method = method("unescape", "\"café\"", "");
    let r = method.handle(&mut output, &VariableExpander);
    assert_eq!(&*output, "");
    assert_eq!(r, Err(MethodError::InvalidAscii));
}

#[test]
fn escape_method_writes_escaped_text() {
    let mut output = String::new();
    let method = method("escape", "\"a b!\"", "");
    let r = method.handle(&mut output, &VariableExpander);
    assert_eq!(&*output, "a b\\!");
    assert!(r.is_ok());
}

#[test]
fn join_with_index_selection_takes_one_grapheme() {
    let mut output = String::new();
    let method = StringMethod {
        method: "join".to_string(),
        variable: "[\"FOO\" \"BAR\"]".to_string(),
        pattern: "\" \"".to_string(),
        selection: Select::Index(4),
    };
    let _ = method.handle(&mut output, &VariableExpander);
    assert_eq!(&*output, "B");
}

#[test]
fn join_with_range_selection_takes_a_clamped_slice() {
    let mut output = String::new();
    let method = StringMethod {
        method: "join".to_string(),
        variable: "[\"FOO\" \"BAR\"]".to_string(),
        pattern: "\"-\"".to_string(),
        selection: Select::Range(2, Some(100)),
    };
    let _ = method.handle(&mut output, &VariableExpander);
    assert_eq!(&*output, "O-BAR");
}

#[test]
fn or_keeps_a_comma_inside_one_alternative() {
    let mut output = String::new();
    let method = method("or", "$EMPTY", "\"x,y\"");
    let _ = method.handle(&mut output, &VariableExpander);
    assert_eq!(&*output, "x,y");
}

#[test]
fn boolean_test_char_pins_the_answer() {
    assert_eq!(boolean_test_char("ends_with", &Some("FOOBAR".to_string()), "BAR"), '1');
    assert_eq!(boolean_test_char("ends_with", &Some("FOOBAR".to_string()), "BA"), '0');
    assert_eq!(boolean_test_char("contains", &Some("FOOBAR".to_string()), "OBA"), '1');
    assert_eq!(boolean_test_char("starts_with", &Some("FOOBAR".to_string()), "FOO"), '1');
    assert_eq!(boolean_test_char("starts_with", &None, "FOO"), '0');
}
