use ion_engine::completion::{command_to_save, complete_as_file, line_has_content};
use ion_engine::keys::Primitive;
use ion_engine::pathops::{path_extension, path_file_name, path_file_stem, path_parent};
use ion_engine::signals::pending_signal;
use ion_engine::splitter::split_args;
use ion_engine::strutil::{fmt_usize, parse_usize, trim_str};
use ion_engine::wordsplit::word_divide;

#[test]
fn word_divide_splits_on_unescaped_spaces() {
    let chars: Vec<char> = "echo hello world".chars().collect();
    assert_eq!(word_divide(chars), vec![(0, 4), (5, 10), (11, 16)]);
}

#[test]
fn word_divide_backslash_joins_the_next_character() {
    let chars: Vec<char> = "a\\ b c".chars().collect();
    assert_eq!(word_divide(chars), vec![(0, 4), (5, 6)]);
}

#[test]
fn word_divide_of_spaces_is_empty() {
    let chars: Vec<char> = "   ".chars().collect();
    assert_eq!(word_divide(chars), vec![]);
}

#[test]
fn complete_as_file_rules() {
    // A word starting with a dot always completes as a file.
    assert!(complete_as_file(" .config", 0, false, false));
    // A word starting with a dollar sign is a variable, never a file.
    assert!(!complete_as_file("$HOME", 3, true, true));
    // Past the first word, anything completes as a file.
    assert!(complete_as_file("grep", 1, false, false));
    // A first word completes as a file only when the filesystem says so.
    assert!(!complete_as_file("grep", 0, false, false));
    assert!(complete_as_file("grep", 0, true, false));
    assert!(complete_as_file("grep", 0, false, true));
}

#[test]
fn split_args_respects_quotes_and_brackets() {
    assert_eq!(split_args("one [two three] [4 5 6]"), vec!["one", "[two three]", "[4 5 6]"]);
    assert_eq!(split_args("\"a b\" c"), vec!["\"a b\"", "c"]);
    assert_eq!(split_args(""), Vec::<String>::new());
    assert_eq!(split_args("  a   b "), vec!["a", "b"]);
}

#[test]
fn parse_usize_accepts_digits_and_rejects_the_rest() {
    assert_eq!(parse_usize("42"), Some(42));
    assert_eq!(parse_usize("+7"), Some(7));
    assert_eq!(parse_usize(""), None);
    assert_eq!(parse_usize("-2"), None);
    assert_eq!(parse_usize("12a"), None);
    assert_eq!(parse_usize("99999999999999999999999999"), None);
}

#[test]
fn fmt_usize_writes_decimal() {
    assert_eq!(fmt_usize(0), "0");
    assert_eq!(fmt_usize(10), "10");
    assert_eq!(fmt_usize(90210), "90210");
}

#[test]
fn trim_strips_unicode_whitespace() {
    assert_eq!(trim_str("  x  "), "x");
    assert_eq!(trim_str("\t\n x y \u{A0}"), "x y");
    assert_eq!(trim_str("   "), "");
}

#[test]
fn pending_signal_decodes_each_bit() {
    assert_eq!(pending_signal(0), None);
    assert_eq!(pending_signal(1), Some(2));
    assert_eq!(pending_signal(2), Some(1));
    assert_eq!(pending_signal(4), Some(15));
    assert_eq!(pending_signal(3), None);
}

#[test]
fn line_has_content_sees_past_whitespace() {
    assert!(!line_has_content(""));
    assert!(!line_has_content(" \t\r\n"));
    assert!(line_has_content("  x  "));
}

#[test]
fn command_to_save_appends_slash_for_directories() {
    assert_eq!(command_to_save("src", true), "src/");
    assert_eq!(command_to_save("src/", true), "src/");
    assert_eq!(command_to_save("ls", false), "ls");
}

#[test]
fn path_decomposition_handles_edges() {
    assert_eq!(path_file_name("/usr/bin/"), Some("bin".to_string()));
    assert_eq!(path_file_name("/"), None);
    assert_eq!(path_file_name("a/.."), None);
    assert_eq!(path_parent("/usr"), Some("/".to_string()));
    assert_eq!(path_parent("plain"), Some("".to_string()));
    assert_eq!(path_parent("/"), None);
    assert_eq!(path_extension(".gitignore"), None);
    assert_eq!(path_file_stem(".gitignore"), Some(".gitignore".to_string()));
    assert_eq!(path_extension("a.b.c"), Some("c".to_string()));
    assert_eq!(path_file_stem("a.b.c"), Some("a.b".to_string()));
}

#[test]
fn path_decomposition_normalizes_trailing_dot_segments() {
    assert_eq!(path_file_name("foo/."), Some("foo".to_string()));
    assert_eq!(path_file_name("foo/.//"), Some("foo".to_string()));
    assert_eq!(path_file_name("."), None);
    assert_eq!(path_parent("foo/."), Some("".to_string()));
    assert_eq!(path_parent("a/./b"), Some("a/.".to_string()));
    assert_eq!(path_parent("."), Some("".to_string()));
    assert_eq!(path_parent(".."), Some("".to_string()));
    assert_eq!(path_parent("/."), None);
}

#[test]
fn kind_text_names_every_shape() {
    assert_eq!(Primitive::Str.kind_text(), "str");
    assert_eq!(Primitive::IntegerArray.kind_text(), "int[]");
    assert_eq!(Primitive::HashMap.kind_text(), "hmap[]");
    assert_eq!(Primitive::Indexed("3".to_string()).kind_text(), "indexed[3]");
}
