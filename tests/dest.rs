use fsutils::dest::{basename, join, resolve, Decision, EntryKind, RejectReason};

fn rename_target(d: &Decision) -> &str {
    match d {
        Decision::RenameTo(p) => p.as_str(),
        other => panic!("expected a rename, got {:?}", other),
    }
}

#[test]
fn file_into_existing_directory_nests() {
    let d = resolve("docs/notes.txt", EntryKind::File, "archive", EntryKind::Directory, false);
    match &d {
        Decision::NestUnder(dir, name) => {
            assert_eq!(dir, "archive");
            assert_eq!(name, "notes.txt");
        }
        other => panic!("unexpected {:?}", other),
    }
    assert_eq!(d.target().unwrap(), "archive/notes.txt");
}

#[test]
fn directory_to_new_path() {
    let d = resolve("a", EntryKind::Directory, "newpath", EntryKind::Missing, true);
    assert_eq!(rename_target(&d), "newpath");
    let d = resolve("a", EntryKind::Directory, "newpath", EntryKind::Missing, false);
    assert!(matches!(d, Decision::Rejected(RejectReason::NeedsRecursive)));
}

#[test]
fn file_to_new_or_existing_file() {
    let d = resolve("a.txt", EntryKind::File, "b.txt", EntryKind::Missing, false);
    assert_eq!(rename_target(&d), "b.txt");
    let d = resolve("a.txt", EntryKind::File, "b.txt", EntryKind::File, true);
    assert_eq!(rename_target(&d), "b.txt");
    let d = resolve("link", EntryKind::Symlink, "b.txt", EntryKind::Missing, false);
    assert_eq!(rename_target(&d), "b.txt");
}

#[test]
fn directory_over_file_is_refused() {
    let d = resolve("dir", EntryKind::Directory, "b.txt", EntryKind::File, true);
    assert!(matches!(d, Decision::Rejected(RejectReason::DirectoryOverFile)));
    assert!(d.target().is_none());
}

#[test]
fn directory_into_existing_directory_nests() {
    let d = resolve("src/tree/", EntryKind::Directory, "out/", EntryKind::Directory, true);
    assert_eq!(d.target().unwrap(), "out/tree");
}

#[test]
fn missing_source_is_refused() {
    let d = resolve("nope", EntryKind::Missing, "b", EntryKind::Directory, true);
    assert!(matches!(d, Decision::Rejected(RejectReason::SourceMissing)));
}

#[test]
fn source_without_name_cannot_nest() {
    for src in ["/", "", ".", "..", "a/..", "a/../", "./", "./.", "/.", "///"] {
        let d = resolve(src, EntryKind::Directory, "out", EntryKind::Directory, true);
        assert!(matches!(d, Decision::Rejected(RejectReason::NoBasename)), "{}", src);
    }
}

#[test]
fn trailing_dot_component_nests_under_its_parent_name() {
    let d = resolve("foo/.", EntryKind::Directory, "D", EntryKind::Directory, true);
    match &d {
        Decision::NestUnder(dir, name) => {
            assert_eq!(dir, "D");
            assert_eq!(name, "foo");
        }
        other => panic!("unexpected {:?}", other),
    }
    assert_eq!(d.target().unwrap(), "D/foo");
    let d = resolve("a/./b/./", EntryKind::File, "D/", EntryKind::Directory, false);
    assert_eq!(d.target().unwrap(), "D/b");
}

#[test]
fn basename_cases() {
    assert_eq!(basename("a/b/c.txt"), "c.txt");
    assert_eq!(basename("a/b/"), "b");
    assert_eq!(basename("plain"), "plain");
    assert_eq!(basename("/abs//"), "abs");
    assert_eq!(basename("/"), "");
    assert_eq!(basename(""), "");
    assert_eq!(basename("a/b/."), "b");
    assert_eq!(basename("a/./"), "a");
    assert_eq!(basename("a/.b"), ".b");
    assert_eq!(basename("x."), "x.");
    assert_eq!(basename("."), ".");
    assert_eq!(basename("./."), ".");
    assert_eq!(basename("/."), "");
    assert_eq!(basename("a/.."), "..");
}

#[test]
fn join_cases() {
    assert_eq!(join("a", "b"), "a/b");
    assert_eq!(join("a/", "b"), "a/b");
    assert_eq!(join("", "b"), "b");
}
