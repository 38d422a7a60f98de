//! Tests of the command-line parsers and the path and message helpers.

use move_web_compile::format_error;
use move_web_compile::format_success;
use move_web_compile::get_file_name;
use move_web_compile::CliOptions;

#[test]
fn deps_are_split_on_commas_and_trimmed() {
    let deps = CliOptions::parse_deps("a, b ,c".to_string());
    assert_eq!(deps, vec!["a", "b", "c"]);
}

#[test]
fn an_empty_deps_list_is_one_empty_entry() {
    let deps = CliOptions::parse_deps(String::new());
    assert_eq!(deps, vec![""]);
}

#[test]
fn addresses_are_split_and_trimmed() {
    let bs = CliOptions::parse_addresses("std=0x1, sui = 0x2".to_string());
    assert_eq!(bs.len(), 2);
    assert_eq!(bs[0].name, "std");
    assert_eq!(bs[0].value, "0x1");
    assert_eq!(bs[1].name, "sui");
    assert_eq!(bs[1].value, "0x2");
}

#[test]
fn malformed_address_entries_are_dropped() {
    let bs = CliOptions::parse_addresses("bad, x=y=z, ok=0x5".to_string());
    assert_eq!(bs.len(), 1);
    assert_eq!(bs[0].name, "ok");
    assert_eq!(bs[0].value, "0x5");
}

#[test]
fn file_names_come_from_the_last_component() {
    assert_eq!(get_file_name("/tmp/pkg/foo.move").unwrap(), "foo.move");
    assert_eq!(get_file_name("foo.move").unwrap(), "foo.move");
}

#[test]
fn trailing_separators_do_not_hide_the_file_name() {
    assert_eq!(get_file_name("/usr/bin/").unwrap(), "bin");
    assert_eq!(get_file_name("/tmp/pkg/").unwrap(), "pkg");
    assert_eq!(get_file_name("a//").unwrap(), "a");
    assert_eq!(get_file_name("foo.txt/.").unwrap(), "foo.txt");
    assert_eq!(get_file_name("./main.move").unwrap(), "main.move");
}

#[test]
fn paths_without_a_file_name_are_rejected() {
    assert_eq!(get_file_name("..").unwrap_err(), "无效的文件路径");
    assert!(get_file_name("a/..").is_err());
    assert!(get_file_name("a/../").is_err());
    assert!(get_file_name(".").is_err());
    assert!(get_file_name("./").is_err());
    assert!(get_file_name("/").is_err());
    assert!(get_file_name("").is_err());
}

#[test]
fn status_lines_carry_their_prefixes() {
    assert_eq!(format_error("boom"), "错误: boom");
    assert_eq!(format_success("done"), "成功: done");
}
