use dirsync::file_checker::{DirListing, File, FileChecker, ListedFile};
use dirsync::pattern::Pattern;

fn entry(name: &str, size: u64) -> ListedFile {
    ListedFile {
        file: File::new(format!("/src/{}", name), name.to_string()),
        size: Some(size),
    }
}

fn entry_no_size(name: &str) -> ListedFile {
    ListedFile { file: File::new(format!("/src/{}", name), name.to_string()), size: None }
}

fn plain_checker() -> FileChecker {
    FileChecker::new(String::from("/src"), String::from("/dest"), Vec::new(), Vec::new())
}

fn opened(entries: Vec<ListedFile>) -> DirListing {
    DirListing::Opened { entries, errors: Vec::new() }
}

#[test]
fn classifies_adds_updates_and_deletes() {
    let checker = plain_checker();
    let src = opened(vec![entry("a.txt", 10), entry("b.txt", 5)]);
    let dest = opened(vec![entry("b.txt", 8), entry("c.txt", 3)]);
    let results = checker.get_list_of_files(src, dest).unwrap();
    assert_eq!(results.to_add.len(), 1);
    assert_eq!(results.to_add[0].filename, "a.txt");
    assert_eq!(results.to_rewrite.len(), 1);
    assert_eq!(results.to_rewrite[0].file.filename, "b.txt");
    assert_eq!(results.to_rewrite[0].old_size, 5);
    assert_eq!(results.to_rewrite[0].new_size, 8);
    assert_eq!(results.to_delete.len(), 1);
    assert_eq!(results.to_delete[0].filename, "c.txt");
}

#[test]
fn equal_sizes_yield_no_actions() {
    let checker = plain_checker();
    let src = opened(vec![entry("a.txt", 10), entry("b.txt", 5)]);
    let dest = opened(vec![entry("a.txt", 10), entry("b.txt", 5)]);
    let results = checker.get_list_of_files(src, dest).unwrap();
    assert!(!results.has_any_operations());
    assert!(results.to_add.is_empty());
    assert!(results.to_delete.is_empty());
    assert!(results.to_rewrite.is_empty());
}

#[test]
fn unknown_size_drops_the_pair() {
    let checker = plain_checker();
    let src = opened(vec![entry_no_size("a.txt")]);
    let dest = opened(vec![entry("a.txt", 10)]);
    let results = checker.get_list_of_files(src, dest).unwrap();
    assert!(!results.has_any_operations());
}

#[test]
fn filters_keep_only_matching_names() {
    let required = vec![Pattern::new("\\.txt$").unwrap()];
    let exclude = vec![Pattern::new("^tmp").unwrap()];
    let checker =
        FileChecker::new(String::from("/src"), String::from("/dest"), required, exclude);
    let src = opened(vec![entry("tmp1.txt", 4), entry("note.txt", 7)]);
    let dest = opened(Vec::new());
    let results = checker.get_list_of_files(src, dest).unwrap();
    assert_eq!(results.to_add.len(), 1);
    assert_eq!(results.to_add[0].filename, "note.txt");
    assert!(results.to_delete.is_empty());
    assert!(results.to_rewrite.is_empty());
}

#[test]
fn every_required_pattern_must_match() {
    let required = vec![Pattern::new("\\.txt$").unwrap(), Pattern::new("^a").unwrap()];
    let checker =
        FileChecker::new(String::from("/src"), String::from("/dest"), required, Vec::new());
    let src = opened(vec![entry("a.txt", 1), entry("b.txt", 2), entry("a.rs", 3)]);
    let dest = opened(Vec::new());
    let results = checker.get_list_of_files(src, dest).unwrap();
    assert_eq!(results.to_add.len(), 1);
    assert_eq!(results.to_add[0].filename, "a.txt");
}

#[test]
fn excluded_destination_files_are_not_deleted() {
    let exclude = vec![Pattern::new("^tmp").unwrap()];
    let checker =
        FileChecker::new(String::from("/src"), String::from("/dest"), Vec::new(), exclude);
    let src = opened(Vec::new());
    let dest = opened(vec![entry("tmp.txt", 1), entry("keep.txt", 2)]);
    let results = checker.get_list_of_files(src, dest).unwrap();
    assert_eq!(results.to_delete.len(), 1);
    assert_eq!(results.to_delete[0].filename, "keep.txt");
}

#[test]
fn hidden_files_never_take_part() {
    let checker = plain_checker();
    let src = opened(vec![entry(".hidden", 4), entry("seen.txt", 7)]);
    let dest = opened(vec![entry(".other", 2)]);
    let results = checker.get_list_of_files(src, dest).unwrap();
    assert_eq!(results.to_add.len(), 1);
    assert_eq!(results.to_add[0].filename, "seen.txt");
    assert!(results.to_delete.is_empty());
    assert!(results.to_rewrite.is_empty());
}

#[test]
fn second_pass_after_full_drain_is_empty() {
    let checker = plain_checker();
    let first = checker
        .get_list_of_files(
            opened(vec![entry("a.txt", 10), entry("b.txt", 5)]),
            opened(vec![entry("b.txt", 8), entry("c.txt", 3)]),
        )
        .unwrap();
    assert!(first.has_any_operations());
    // after adding a.txt (10), rewriting b.txt to the source length, and
    // deleting c.txt, the destination mirrors the source
    let second = checker
        .get_list_of_files(
            opened(vec![entry("a.txt", 10), entry("b.txt", 5)]),
            opened(vec![entry("a.txt", 10), entry("b.txt", 5)]),
        )
        .unwrap();
    assert!(!second.has_any_operations());
}

#[test]
fn failed_source_listing_is_fatal() {
    let checker = plain_checker();
    let src = DirListing::Failed(String::from("permission denied"));
    let dest = opened(vec![entry("a.txt", 1)]);
    let err = checker.get_list_of_files(src, dest).unwrap_err();
    assert_eq!(err.source_errors, vec![String::from("permission denied")]);
    assert!(err.dest_errors.is_empty());
}

#[test]
fn failed_destination_listing_is_fatal() {
    let checker = plain_checker();
    let src = opened(vec![entry("a.txt", 1)]);
    let dest = DirListing::Failed(String::from("not a directory"));
    let err = checker.get_list_of_files(src, dest).unwrap_err();
    assert!(err.source_errors.is_empty());
    assert_eq!(err.dest_errors, vec![String::from("not a directory")]);
}

#[test]
fn empty_listing_with_errors_is_fatal() {
    let checker = plain_checker();
    let src = DirListing::Opened {
        entries: Vec::new(),
        errors: vec![String::from("bad entry")],
    };
    let dest = opened(vec![entry("a.txt", 1)]);
    let err = checker.get_list_of_files(src, dest).unwrap_err();
    assert_eq!(err.source_errors, vec![String::from("bad entry")]);
    assert!(err.dest_errors.is_empty());
}

#[test]
fn empty_listing_without_errors_is_usable() {
    let checker = plain_checker();
    let src = opened(Vec::new());
    let dest = opened(vec![entry("a.txt", 1)]);
    let results = checker.get_list_of_files(src, dest).unwrap();
    assert_eq!(results.to_delete.len(), 1);
    assert_eq!(results.to_delete[0].filename, "a.txt");
}
