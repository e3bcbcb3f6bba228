use dirsync::file_checker::{ChangedFile, File, FileCheckResults, Mode};
use dirsync::syncer::Syncer;

fn file(name: &str) -> File {
    File::new(format!("/src/{}", name), name.to_string())
}

fn change(name: &str, old_size: u64, new_size: u64) -> ChangedFile {
    ChangedFile { file: file(name), old_size, new_size }
}

#[test]
fn next_drains_updates_then_adds_then_deletes() {
    let mut results = FileCheckResults {
        to_add: vec![file("add.txt")],
        to_delete: vec![file("del.txt")],
        to_rewrite: vec![change("upd.txt", 1, 2)],
    };
    let (mode, f) = results.next().unwrap();
    assert_eq!(mode, Mode::UPDATE);
    assert_eq!(f.filename, "upd.txt");
    let (mode, f) = results.next().unwrap();
    assert_eq!(mode, Mode::ADD);
    assert_eq!(f.filename, "add.txt");
    let (mode, f) = results.next().unwrap();
    assert_eq!(mode, Mode::REMOVE);
    assert_eq!(f.filename, "del.txt");
    assert!(results.next().is_none());
    assert!(!results.has_any_operations());
}

#[test]
fn next_pops_the_last_listed_entry_first() {
    let mut results = FileCheckResults {
        to_add: vec![file("first.txt"), file("second.txt")],
        to_delete: Vec::new(),
        to_rewrite: Vec::new(),
    };
    let (_, f) = results.next().unwrap();
    assert_eq!(f.filename, "second.txt");
    let (_, f) = results.next().unwrap();
    assert_eq!(f.filename, "first.txt");
}

#[test]
fn run_respects_the_operation_budget() {
    let results = FileCheckResults {
        to_add: vec![file("add.txt")],
        to_delete: Vec::new(),
        to_rewrite: vec![change("u1.txt", 1, 2), change("u2.txt", 3, 4)],
    };
    let mut syncer = Syncer::new(String::from("/src"), String::from("/dest"), 1);
    syncer.set_results(results);
    let plan = syncer.run();
    assert_eq!(plan.len(), 1);
    assert_eq!(plan[0].0, Mode::UPDATE);
    assert_eq!(plan[0].1.filename, "u2.txt");
    // the remaining update and the add persist for the next invocation
    let second = syncer.run();
    assert_eq!(second.len(), 1);
    assert_eq!(second[0].0, Mode::UPDATE);
    assert_eq!(second[0].1.filename, "u1.txt");
    let third = syncer.run();
    assert_eq!(third.len(), 1);
    assert_eq!(third[0].0, Mode::ADD);
    assert_eq!(third[0].1.filename, "add.txt");
    let fourth = syncer.run();
    assert!(fourth.is_empty());
}

#[test]
fn run_orders_updates_before_adds_before_deletes() {
    let results = FileCheckResults {
        to_add: vec![file("a1.txt"), file("a2.txt")],
        to_delete: vec![file("d1.txt")],
        to_rewrite: vec![change("u1.txt", 1, 2)],
    };
    let mut syncer = Syncer::new(String::from("/src"), String::from("/dest"), 10);
    syncer.set_results(results);
    let plan = syncer.run();
    assert_eq!(plan.len(), 4);
    assert_eq!(plan[0].0, Mode::UPDATE);
    assert_eq!(plan[1].0, Mode::ADD);
    assert_eq!(plan[2].0, Mode::ADD);
    assert_eq!(plan[3].0, Mode::REMOVE);
    let rest = syncer.run();
    assert!(rest.is_empty());
}

#[test]
fn guards_protect_existing_and_missing_targets() {
    assert!(!Mode::ADD.allowed_when(true));
    assert!(Mode::ADD.allowed_when(false));
    assert!(Mode::REMOVE.allowed_when(true));
    assert!(!Mode::REMOVE.allowed_when(false));
    assert!(Mode::UPDATE.allowed_when(true));
    assert!(!Mode::UPDATE.allowed_when(false));
}

#[test]
fn mode_labels_match_the_log_lines() {
    assert_eq!(Mode::ADD.label(), "ADD");
    assert_eq!(Mode::REMOVE.label(), "REMOVE");
    assert_eq!(Mode::UPDATE.label(), "UPDATE");
}
