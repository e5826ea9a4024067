use explorer::listing::{build_listing, EntryLookup};
use explorer::paths::normalize_list_path;

#[test]
fn listing_reports_file_size_and_dir_child_count() {
    let entries = vec![
        EntryLookup::File { path: "drive/a.txt".to_string(), len: Ok(10) },
        EntryLookup::Dir { path: "drive/sub".to_string(), children: Some(3) },
    ];
    let infos = build_listing(entries).expect("listing succeeds");
    assert_eq!(infos.len(), 2);

    assert_eq!(infos[0].name, "a.txt");
    assert_eq!(infos[0].path, "/drive/a.txt");
    assert_eq!(infos[0].size, 10);
    assert!(!infos[0].is_directory);
    assert_eq!(infos[0].created, 0);
    assert_eq!(infos[0].modified, 0);
    assert_eq!(infos[0].permissions, "rw");

    assert_eq!(infos[1].name, "sub");
    assert_eq!(infos[1].path, "/drive/sub");
    assert_eq!(infos[1].size, 3);
    assert!(infos[1].is_directory);
    assert_eq!(infos[1].permissions, "rw");
}

#[test]
fn failed_subdirectory_listing_falls_back_to_size_zero() {
    let entries = vec![
        EntryLookup::File { path: "drive/a.txt".to_string(), len: Ok(7) },
        EntryLookup::Dir { path: "drive/locked".to_string(), children: None },
    ];
    let infos = build_listing(entries).expect("one unreadable sub-directory must not fail the listing");
    assert_eq!(infos.len(), 2);
    assert_eq!(infos[1].name, "locked");
    assert_eq!(infos[1].size, 0);
    assert!(infos[1].is_directory);
}

#[test]
fn failed_file_metadata_aborts_the_listing() {
    let entries = vec![
        EntryLookup::Dir { path: "drive/ok".to_string(), children: Some(1) },
        EntryLookup::File { path: "drive/bad.txt".to_string(), len: Err("timeout".to_string()) },
    ];
    let err = build_listing(entries).expect_err("a file metadata failure is fatal");
    assert_eq!(err, "Failed to get metadata for drive/bad.txt: timeout");
}

#[test]
fn listing_aborts_at_first_failed_file() {
    let entries = vec![
        EntryLookup::File { path: "a".to_string(), len: Err("first".to_string()) },
        EntryLookup::File { path: "b".to_string(), len: Err("second".to_string()) },
    ];
    let err = build_listing(entries).expect_err("must abort");
    assert_eq!(err, "Failed to get metadata for a: first");
}

#[test]
fn listing_of_no_entries_is_empty() {
    let infos = build_listing(Vec::new()).expect("empty listing succeeds");
    assert!(infos.is_empty());
}

#[test]
fn empty_and_slash_both_mean_root() {
    assert_eq!(normalize_list_path(""), "/");
    assert_eq!(normalize_list_path("/"), "/");
    assert_eq!(normalize_list_path("/drive"), "/drive");
}
