use fsutils::dest::{resolve, Decision, EntryKind};
use fsutils::walk::{plan_rmdir, walk, Action, FsError, Node, Op, TraversalOutcome};

fn file(name: &str) -> Node {
    Node { name: name.to_string(), kind: EntryKind::File, children: vec![] }
}

fn dir(name: &str, children: Vec<Node>) -> Node {
    Node { name: name.to_string(), kind: EntryKind::Directory, children }
}

fn describe(ops: &[Op]) -> Vec<String> {
    ops.iter()
        .map(|o| match o {
            Op::RemoveFile(p) => format!("rm {}", p),
            Op::RemoveDir(p) => format!("rmdir {}", p),
            Op::CreateDir(p) => format!("mkdir {}", p),
            Op::CopyFile(a, b) => format!("cp {} {}", a, b),
            Op::Print(l) => format!("print {}", l),
        })
        .collect()
}

fn nested() -> Node {
    dir("top", vec![file("f1"), dir("sub", vec![file("f2"), dir("deep", vec![])]), file(".h")])
}

#[test]
fn recursive_delete_is_post_order() {
    let ops = walk("top", &nested(), true, &Action::Delete { empty_dirs: false }).unwrap();
    assert_eq!(
        describe(&ops),
        vec![
            "rm top/f1",
            "rm top/sub/f2",
            "rmdir top/sub/deep",
            "rmdir top/sub",
            "rm top/.h",
            "rmdir top",
        ]
    );
}

#[test]
fn plain_delete_of_non_empty_directory_fails() {
    let r = walk("top", &nested(), false, &Action::Delete { empty_dirs: false });
    assert_eq!(r.unwrap_err(), FsError::UnsupportedOperation);
    let r = walk("top", &nested(), false, &Action::Delete { empty_dirs: true });
    assert_eq!(r.unwrap_err(), FsError::DirectoryNotEmpty);
}

#[test]
fn plain_delete_of_empty_directory() {
    let empty = dir("e", vec![]);
    let ops = walk("e", &empty, false, &Action::Delete { empty_dirs: true }).unwrap();
    assert_eq!(describe(&ops), vec!["rmdir e"]);
    let r = walk("e", &empty, false, &Action::Delete { empty_dirs: false });
    assert_eq!(r.unwrap_err(), FsError::UnsupportedOperation);
}

#[test]
fn delete_of_file_and_missing_root() {
    let ops = walk("x.txt", &file("x.txt"), false, &Action::Delete { empty_dirs: false }).unwrap();
    assert_eq!(describe(&ops), vec!["rm x.txt"]);
    let missing = Node { name: "gone".to_string(), kind: EntryKind::Missing, children: vec![] };
    let r = walk("gone", &missing, true, &Action::Delete { empty_dirs: false });
    assert_eq!(r.unwrap_err(), FsError::NotFound);
}

#[test]
fn copy_directory_into_new_path() {
    let a = dir("a", vec![file("x.txt")]);
    let d = resolve("a/", EntryKind::Directory, "b/", EntryKind::Missing, true);
    let target = match d {
        Decision::RenameTo(t) => t,
        other => panic!("unexpected {:?}", other),
    };
    let ops = walk("a/", &a, true, &Action::Copy(target)).unwrap();
    assert_eq!(describe(&ops), vec!["mkdir b/", "cp a/x.txt b/x.txt"]);
}

#[test]
fn copy_creates_directories_before_children() {
    let ops = walk("top", &nested(), true, &Action::Copy("dst".to_string())).unwrap();
    assert_eq!(
        describe(&ops),
        vec![
            "mkdir dst",
            "cp top/f1 dst/f1",
            "mkdir dst/sub",
            "cp top/sub/f2 dst/sub/f2",
            "mkdir dst/sub/deep",
            "cp top/.h dst/.h",
        ]
    );
    let r = walk("top", &nested(), false, &Action::Copy("dst".to_string()));
    assert_eq!(r.unwrap_err(), FsError::UnsupportedOperation);
}

#[test]
fn list_plain_hides_dot_entries() {
    let ops = walk("top", &nested(), false, &Action::List { show_hidden: false }).unwrap();
    assert_eq!(describe(&ops), vec!["print f1", "print sub"]);
}

#[test]
fn list_all_shows_dots_first() {
    let ops = walk("top", &nested(), false, &Action::List { show_hidden: true }).unwrap();
    assert_eq!(describe(&ops), vec!["print .", "print ..", "print f1", "print sub", "print .h"]);
}

#[test]
fn list_recursive_lists_children_before_descending() {
    let ops = walk("top", &nested(), true, &Action::List { show_hidden: false }).unwrap();
    assert_eq!(
        describe(&ops),
        vec![
            "print top:",
            "print f1",
            "print sub",
            "print top/sub:",
            "print f2",
            "print deep",
            "print top/sub/deep:",
        ]
    );
}

#[test]
fn list_file_prints_its_path() {
    let ops = walk("dir/x.txt", &file("x.txt"), true, &Action::List { show_hidden: true }).unwrap();
    assert_eq!(describe(&ops), vec!["print dir/x.txt"]);
}

#[test]
fn outcome_counts_and_first_error() {
    let plan = walk("top", &nested(), true, &Action::Delete { empty_dirs: false });
    let mut out = TraversalOutcome::start(&plan);
    assert_eq!(out.intended, 6);
    for _ in 0..6 {
        out.record(Ok(()));
    }
    assert!(out.succeeded());
    assert_eq!(out.to_result(), Ok(()));

    let mut partial = TraversalOutcome::start(&plan);
    partial.record(Ok(()));
    partial.record(Err(FsError::Underlying));
    partial.record(Err(FsError::NotFound));
    assert_eq!(partial.affected, 1);
    assert_eq!(partial.first_error, Some(FsError::Underlying));
    assert!(!partial.succeeded());

    let refused = TraversalOutcome::start(&Err(FsError::NotFound));
    assert_eq!(refused.intended, 1);
    let total = TraversalOutcome::empty().merge(&out).merge(&refused);
    assert_eq!(total.intended, 7);
    assert_eq!(total.affected, 6);
    assert_eq!(total.to_result(), Err(FsError::NotFound));

    let short = TraversalOutcome { intended: 2, affected: 1, first_error: None };
    assert_eq!(short.to_result(), Err(FsError::Underlying));
}

#[test]
fn rmdir_only_takes_empty_directories() {
    let ops = plan_rmdir("e", &dir("e", vec![])).unwrap();
    assert_eq!(describe(&ops), vec!["rmdir e"]);
    assert_eq!(plan_rmdir("top", &nested()).unwrap_err(), FsError::DirectoryNotEmpty);
    assert_eq!(plan_rmdir("f", &file("f")).unwrap_err(), FsError::NotADirectory);
    let missing = Node { name: "m".to_string(), kind: EntryKind::Missing, children: vec![] };
    assert_eq!(plan_rmdir("m", &missing).unwrap_err(), FsError::NotFound);
}
