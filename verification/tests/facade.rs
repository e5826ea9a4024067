use explorer::paths::{last_segment_of, strip_prefix_of, upload_path};
use explorer::{file_info_for_file, file_info_for_new_directory};

#[test]
fn created_file_snapshot_names_last_segment() {
    let info = file_info_for_file("/drive/docs/report.txt".to_string(), 42);
    assert_eq!(info.name, "report.txt");
    assert_eq!(info.path, "/drive/docs/report.txt");
    assert_eq!(info.size, 42);
    assert!(!info.is_directory);
    assert_eq!(info.created, 0);
    assert_eq!(info.modified, 0);
    assert_eq!(info.permissions, "rw");
}

#[test]
fn created_directory_snapshot_is_empty_directory() {
    let info = file_info_for_new_directory("/drive/new".to_string());
    assert_eq!(info.name, "new");
    assert_eq!(info.path, "/drive/new");
    assert_eq!(info.size, 0);
    assert!(info.is_directory);
    assert_eq!(info.permissions, "rw");
}

#[test]
fn upload_path_joins_directory_and_name() {
    assert_eq!(upload_path("/drive/docs", "note.txt"), "/drive/docs/note.txt");
    assert_eq!(upload_path("", "note.txt"), "/note.txt");
}

#[test]
fn last_segment_follows_final_slash() {
    assert_eq!(last_segment_of("a/b/c"), "c");
    assert_eq!(last_segment_of("abc"), "abc");
    assert_eq!(last_segment_of(""), "");
    assert_eq!(last_segment_of("a/"), "");
    assert_eq!(last_segment_of("/x"), "x");
}

#[test]
fn prefix_stripping_accepts_exact_prefix_only() {
    assert_eq!(strip_prefix_of("/shared/abc", "/shared/"), Some("abc".to_string()));
    assert_eq!(strip_prefix_of("/shared/", "/shared/"), Some("".to_string()));
    assert_eq!(strip_prefix_of("/shard/abc", "/shared/"), None);
    assert_eq!(strip_prefix_of("/sh", "/shared/"), None);
}
