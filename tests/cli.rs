use fsutils::cli::{echo_text, is_word, parse_chmod, parse_cp, parse_ln, parse_ls, parse_rm, parse_touch};

fn words(ws: &[&str]) -> Vec<String> {
    ws.iter().map(|w| w.to_string()).collect()
}

#[test]
fn word_comparison() {
    assert!(is_word("-r", "-r"));
    assert!(!is_word("-r", "-R"));
    assert!(!is_word("-rf", "-r"));
    assert!(is_word("", ""));
}

#[test]
fn rm_options_anywhere() {
    let r = parse_rm(&words(&["a", "-r", "b", "--dir"])).unwrap();
    assert!(r.recursive);
    assert!(r.dir_only);
    assert_eq!(r.paths, words(&["a", "b"]));
    let r = parse_rm(&words(&["x"])).unwrap();
    assert!(!r.recursive && !r.dir_only);
    assert_eq!(r.paths, words(&["x"]));
    let r = parse_rm(&words(&["--recursive", "-R", "y"])).unwrap();
    assert!(r.recursive && !r.dir_only);
}

#[test]
fn rm_without_paths_is_refused() {
    assert!(parse_rm(&words(&[])).is_none());
    assert!(parse_rm(&words(&["-r", "-d"])).is_none());
}

#[test]
fn ls_options() {
    let r = parse_ls(&words(&["-a", "dir", "-R"]));
    assert!(r.show_hidden && r.recursive);
    assert_eq!(r.path.as_deref(), Some("dir"));
    let r = parse_ls(&words(&["one", "two"]));
    assert_eq!(r.path.as_deref(), Some("two"));
    let r = parse_ls(&words(&["--all"]));
    assert!(r.show_hidden && !r.recursive && r.path.is_none());
    // `-r` is no option of ls: it names a path.
    assert_eq!(parse_ls(&words(&["-r"])).path.as_deref(), Some("-r"));
}

#[test]
fn cp_operands() {
    let r = parse_cp(&words(&["-R", "a", "b"])).unwrap();
    assert!(r.recursive);
    assert_eq!((r.source.as_str(), r.destination.as_str()), ("a", "b"));
    let r = parse_cp(&words(&["a.txt", "b.txt"])).unwrap();
    assert!(!r.recursive);
    assert_eq!((r.source.as_str(), r.destination.as_str()), ("a.txt", "b.txt"));
    assert!(parse_cp(&words(&["a"])).is_none());
    assert!(parse_cp(&words(&["-r", "a"])).is_none());
}

#[test]
fn ln_operands() {
    let r = parse_ln(&words(&["t", "l"])).unwrap();
    assert!(!r.symbolic);
    assert_eq!((r.source.as_str(), r.link.as_str()), ("t", "l"));
    let r = parse_ln(&words(&["--symbolic", "t", "l"])).unwrap();
    assert!(r.symbolic);
    assert_eq!((r.source.as_str(), r.link.as_str()), ("t", "l"));
    assert!(parse_ln(&words(&["-x", "t", "l"])).is_none());
    assert!(parse_ln(&words(&["t"])).is_none());
}

#[test]
fn chmod_operands() {
    let r = parse_chmod(&words(&["755", "f"])).unwrap();
    assert_eq!((r.mode.as_str(), r.target.as_str()), ("755", "f"));
    assert!(parse_chmod(&words(&["-w", "f"])).is_none());
    assert!(parse_chmod(&words(&["755"])).is_none());
    assert!(parse_chmod(&words(&["755", "f", "g"])).is_none());
}

#[test]
fn touch_options() {
    let r = parse_touch(&words(&["-a", "-c", "f"]));
    assert!(r.access_only && !r.create && !r.modify_only);
    assert_eq!(r.file.as_deref(), Some("f"));
    let r = parse_touch(&words(&["-m", "g"]));
    assert!(r.modify_only && r.create);
    assert!(parse_touch(&words(&["--no-create"])).file.is_none());
}

#[test]
fn echo_output() {
    assert_eq!(echo_text(&words(&["hello", "world"])), "hello world\n");
    assert_eq!(echo_text(&words(&["-n", "a", "b"])), "a b");
    assert_eq!(echo_text(&words(&["-n"])), "");
    assert_eq!(echo_text(&words(&[])), "\n");
    assert_eq!(echo_text(&words(&["x"])), "x\n");
}
