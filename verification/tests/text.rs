use mercury_cli::api::prompt::wrap_tag;
use mercury_cli::cli::edit::{build_next_edit_cli_context, split_at_line};
use mercury_cli::json::{integer_field, natural_field, refuse_json, text_field};
use mercury_cli::repo::path::{
    should_skip_directory, should_skip_watch_path, should_skip_workspace_copy,
};
use mercury_cli::repo::typescript_tokens::mask_typescript_non_code;
use mercury_cli::repo::RepoRelativePath;
use mercury_cli::sorting::{sort_distinct, sort_texts};
use mercury_cli::text::bytes::{count_bytes, tail_from};
use mercury_cli::text::chars::{same_ignoring_case, to_lowercase_ascii};
use mercury_cli::text::find::{
    find_text, replace_all, strip_prefix, trim, trim_end_matches, trim_of, trim_start_matches,
};
use mercury_cli::text::number::{format_hex, format_i64, parse_i64, parse_u32, parse_usize};
use mercury_cli::text::order::text_before;
use mercury_cli::text::pad::{format_padded, pad_left, pad_right, repeat};
use mercury_cli::text::split::{
    first_nonempty_line, join, lines, rsplit_once, split_char, split_once, split_whitespace,
};

fn texts(values: &[&str]) -> Vec<String> {
    values.iter().map(|value| value.to_string()).collect()
}

#[test]
fn numbers_read_back() {
    for number in [0, 7, -1, i64::MIN, i64::MAX] {
        assert_eq!(parse_i64(&format_i64(number)), Some(number));
    }
    assert_eq!(parse_u32("+7"), Some(7));
    assert_eq!(parse_u32("4294967296"), None);
    assert_eq!(parse_u32(""), None);
    assert_eq!(parse_usize("-1"), None);
    assert_eq!(format_hex(255), "00000000000000ff");
}

#[test]
fn splitting_undoes_joining() {
    let parts = texts(&["a", "", "b"]);
    assert_eq!(split_char(&join(&parts, ","), ','), parts);
    assert_eq!(split_once("a=b=c", '='), Some(("a".to_string(), "b=c".to_string())));
    assert_eq!(rsplit_once("a:b:c", ':'), Some(("a:b".to_string(), "c".to_string())));
    assert_eq!(split_once("abc", '='), None);
    assert_eq!(lines("a\r\n\nb"), ["a", "", "b"]);
    assert_eq!(lines("a\n"), ["a"]);
    assert!(lines("").is_empty());
    assert_eq!(split_whitespace(" a \t b\n"), ["a", "b"]);
    assert_eq!(first_nonempty_line("\n  \n x \ny"), Some("x".to_string()));
}

#[test]
fn texts_are_trimmed_and_replaced() {
    assert_eq!(trim(" \u{2003}a b\t\n"), "a b");
    assert_eq!(trim_of("\"'a'\"", "\"'"), "a");
    assert_eq!(trim_start_matches("././a", "./"), "a");
    assert_eq!(trim_end_matches("a//", "/"), "a");
    assert_eq!(strip_prefix("abc", "ab"), Some("c".to_string()));
    assert_eq!(strip_prefix("abc", "b"), None);
    assert_eq!(replace_all("aaa", "aa", "b"), "ba");
    assert_eq!(find_text("äbc", "b"), Some(1));
    assert_eq!(to_lowercase_ascii("AÄ"), "aÄ");
    assert!(same_ignoring_case("True", "tRUE"));
}

#[test]
fn texts_are_measured_and_padded() {
    assert_eq!(count_bytes("aä€😀"), 10);
    assert_eq!(tail_from("äb", 2), "b");
    assert_eq!(repeat('-', 3), "---");
    assert_eq!(pad_right("ab", 4), "ab  ");
    assert_eq!(pad_left("ab", 4), "  ab");
    assert_eq!(pad_left("abcde", 4), "abcde");
    assert_eq!(format_padded(7, 4), "0007");
    assert_eq!(format_padded(12345, 4), "12345");
}

#[test]
fn texts_are_sorted_by_their_characters() {
    assert!(text_before("a", "b"));
    assert!(text_before("a", "aa"));
    assert!(!text_before("b", "a"));
    assert!(text_before("z", "ä"));
    assert_eq!(sort_texts(texts(&["b", "a", "b"])), ["a", "b", "b"]);
    assert_eq!(sort_distinct(texts(&["b", "a", "b"])), ["a", "b"]);
}

#[test]
fn paths_have_a_normal_form() {
    let path = RepoRelativePath::new("./src//a/./b.rs").unwrap();
    assert_eq!(path.as_str(), "src/a/b.rs");
    assert_eq!(RepoRelativePath::new(path.as_str()).unwrap().as_str(), path.as_str());
    assert_eq!(path.depth(), 3);
    assert!(RepoRelativePath::new("").is_err());
    assert!(should_skip_workspace_copy(".mercury/runs/x"));
    assert!(!should_skip_workspace_copy(".mercury/config.toml"));
    assert!(should_skip_watch_path(".mercury/config.toml"));
    assert!(!should_skip_watch_path("targets/x"));
    assert!(should_skip_directory("target"));
    assert!(!should_skip_directory("src"));
}

#[test]
fn masking_keeps_lines_and_does_nothing_twice() {
    let source = b"let a = 'x'; // no\n/* b\n*/ c";
    let masked = mask_typescript_non_code(source);
    assert_eq!(masked.len(), source.len());
    assert_eq!(
        masked.iter().filter(|byte| **byte == b'\n').count(),
        source.iter().filter(|byte| **byte == b'\n').count()
    );
    assert!(!masked.windows(2).any(|pair| pair == b"no"));
    assert_eq!(mask_typescript_non_code(&masked), masked);
}

#[test]
fn tags_hold_their_content() {
    let tagged = wrap_tag("|code|", "a\nb");
    assert!(tagged.contains("a\nb"));
    assert!(tagged.contains("|code|"));
}

#[test]
fn cuts_keep_all_lines() {
    let (before, after) = split_at_line("a\nb\nc", 2);
    assert_eq!((before.as_str(), after.as_str()), ("a\nb", "c"));
    let (all, none) = split_at_line("a\nb", 9);
    assert_eq!((all.as_str(), none.as_str()), ("a\nb", ""));
    let path = RepoRelativePath::new("src/a.rs").unwrap();
    let context = build_next_edit_cli_context(&path, "a\nb\nc", 2);
    assert!(context.code_to_edit.contains('b'));
    assert_eq!(context.current_file_path, "src/a.rs");
}

#[test]
fn fields_of_json_texts_are_read() {
    let raw = r#"{"a": "x", "n": 7, "m": -7, "f": 7.0, "big": 18446744073709551615, "a": "y"}"#;
    assert_eq!(text_field(raw, "a").as_deref(), Some("y"));
    assert_eq!(text_field(raw, "n"), None);
    assert_eq!(natural_field(raw, "n"), Some(7));
    assert_eq!(natural_field(raw, "m"), None);
    assert_eq!(natural_field(raw, "f"), None);
    assert_eq!(natural_field(raw, "big"), Some(u64::MAX));
    assert_eq!(integer_field(raw, "m"), Some(-7));
    assert_eq!(integer_field(raw, "big"), None);
    assert_eq!(integer_field(raw, "none"), None);
    assert_eq!(text_field("[1]", "a"), None);
    assert_eq!(refuse_json(raw), None);
    assert!(refuse_json("{").is_some());
    assert_eq!(text_field("{", "a"), None);
}
