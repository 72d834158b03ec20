use amdgpu_control::paths::{config_dir, join, last_component};
use amdgpu_control::text::{
    chars_of, parse_i32, parse_u16, parse_u32, split_lines, trim_text,
};

fn chars(s: &str) -> Vec<char> {
    s.chars().collect()
}

#[test]
fn trims_unicode_whitespace() {
    assert_eq!(trim_text("\u{a0} 42\t\n"), "42");
    assert_eq!(trim_text("   "), "");
    assert_eq!(chars_of("añ"), vec!['a', 'ñ']);
}

#[test]
fn splits_lines_like_str_lines() {
    let lines: Vec<String> =
        split_lines(&chars("a\r\nb\n\nc\n")).into_iter().map(|l| l.into_iter().collect()).collect();
    assert_eq!(lines, vec!["a", "b", "", "c"]);
    assert!(split_lines(&chars("")).is_empty());
}

#[test]
fn parses_integers_like_str_parse() {
    assert_eq!(parse_u32(&chars("+4294967295")), Some(u32::MAX));
    assert_eq!(parse_u32(&chars("4294967296")), None);
    assert_eq!(parse_u32(&chars("")), None);
    assert_eq!(parse_u16(&chars("65535")), Some(65535));
    assert_eq!(parse_u16(&chars("65536")), None);
    assert_eq!(parse_i32(&chars("-2147483648")), Some(i32::MIN));
    assert_eq!(parse_i32(&chars("-2147483649")), None);
    assert_eq!(parse_i32(&chars("- 1")), None);
}

#[test]
fn joins_paths_as_pathbuf_does() {
    assert_eq!(join("/a", "b"), "/a/b");
    assert_eq!(join("/a/", "b"), "/a/b");
    assert_eq!(join("", "b"), "b");
    assert_eq!(join("/a", "/b"), "/b");
    assert_eq!(last_component("/sys/devices/0000:03:00.0").as_deref(), Some("0000:03:00.0"));
    assert_eq!(last_component("/a/b/").as_deref(), Some("b"));
    assert_eq!(last_component("/a/.."), None);
    assert_eq!(last_component("/"), None);
}

#[test]
fn the_configuration_directory_comes_from_the_environment() {
    assert_eq!(config_dir(Some("/x"), Some("/h")), "/x");
    assert_eq!(config_dir(None, Some("/h")), "/h/.config");
    assert_eq!(config_dir(None, None), ".config");
}
