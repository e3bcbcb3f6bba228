use dirsync::pattern::Pattern;

#[test]
fn valid_patterns_compile() {
    assert!(Pattern::new("\\.txt$").is_some());
    assert!(Pattern::new(".*").is_some());
}

#[test]
fn invalid_patterns_are_rejected() {
    assert!(Pattern::new("(").is_none());
    assert!(Pattern::new("[").is_none());
}

#[test]
fn matching_depends_on_the_haystack() {
    let txt = Pattern::new("\\.txt$").unwrap();
    assert!(txt.is_match("note.txt"));
    assert!(!txt.is_match("note.rs"));
    assert!(!txt.is_match("txt.note"));
    let tmp = Pattern::new("^tmp").unwrap();
    assert!(tmp.is_match("tmp1.txt"));
    assert!(!tmp.is_match("note.txt"));
}
