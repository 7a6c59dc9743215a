//! The status command's filtering decisions.

use popusk::comps_appearance::split_string;
use popusk::pcommand::{
    is_current_directory, is_hidden, is_working_directory, str_contains, str_eq, StatusPCMD,
};

#[test]
fn hidden_names() {
    assert!(is_hidden(".git"));
    assert!(is_hidden(".x"));
    assert!(!is_hidden("."));
    assert!(!is_hidden(".."));
    assert!(!is_hidden("plain"));
    assert!(!is_hidden(""));
}

#[test]
fn current_directory_name() {
    assert!(is_current_directory("."));
    assert!(!is_current_directory("./"));
    assert!(!is_current_directory("a"));
}

#[test]
fn substring_search() {
    assert!(str_contains("a.popusk/b", ".popusk"));
    assert!(str_contains("abc", ""));
    assert!(str_contains("abc", "abc"));
    assert!(!str_contains("ab", "abc"));
    assert!(!str_contains("acbc", "abc"));
    assert!(is_working_directory(".popusk"));
    assert!(!is_working_directory("work"));
}

#[test]
fn string_equality() {
    assert!(str_eq("", ""));
    assert!(str_eq("abc", "abc"));
    assert!(!str_eq("abc", "abd"));
    assert!(!str_eq("abc", "ab"));
}

#[test]
fn plain_splitting_keeps_empty_pieces() {
    assert_eq!(split_string("a,,b", ','), vec!["a", "", "b"]);
    assert_eq!(split_string("", ','), vec![""]);
}

#[test]
fn entry_filtering() {
    let hide = StatusPCMD::new(false, Some("skipme,other".to_string()));
    assert!(!hide.check_entry(".x"));
    assert!(!hide.check_entry("skipme"));
    assert!(hide.check_entry("kept"));

    let show = StatusPCMD::new(true, None);
    assert!(!show.check_entry(".popusk"));
    assert!(show.check_entry(".x"));
    assert!(show.check_entry("kept"));
}
