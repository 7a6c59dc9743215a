//! Tag-list editing: merging with deduplication, and deletion by position.

use popusk::tag_edit::{delete_indexes_in_vector, merge_tags};

#[test]
fn deletes_listed_positions() {
    let v = vec![10, 20, 30, 40];
    assert_eq!(delete_indexes_in_vector(v, &vec![1, 3]), vec![10, 30]);
}

#[test]
fn deleting_nothing_keeps_everything() {
    let v = vec!["a", "b"];
    assert_eq!(delete_indexes_in_vector(v, &vec![]), vec!["a", "b"]);
}

#[test]
fn merge_drops_duplicates_keeping_first() {
    let merged = merge_tags(
        vec!["a".to_string(), "b".to_string()],
        vec!["b".to_string(), "c".to_string()],
    );
    assert_eq!(merged, vec!["a", "b", "c"]);
}

#[test]
fn merge_dedups_within_the_new_tags_too() {
    let merged = merge_tags(
        vec!["a".to_string()],
        vec!["c".to_string(), "c".to_string(), "a".to_string()],
    );
    assert_eq!(merged, vec!["a", "c"]);
}
