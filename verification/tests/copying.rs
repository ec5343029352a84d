use lua_bindings::copy::{is_ignored, CopyStep, DirCopy, EntryKind};

#[test]
fn ignored_names() {
    let list = vec!["target".to_string(), ".git".to_string()];
    assert!(is_ignored("target", &list));
    assert!(is_ignored("my_target_dir", &list));
    assert!(is_ignored(".gitignore", &list));
    assert!(!is_ignored("src", &list));
    assert!(!is_ignored("anything", &Vec::new()));
}

#[test]
fn walk_is_last_in_first_out() {
    let mut c = DirCopy::new("src".into(), "dst".into(), vec!["skip".into()]);
    let (from, to) = c.next_dir().unwrap();
    assert_eq!((from.as_str(), to.as_str()), ("src", "dst"));
    assert!(matches!(c.entry(&to, "skipme", "src/skipme".into(), EntryKind::Dir), CopyStep::Skip));
    match c.entry(&to, "a", "src/a".into(), EntryKind::Dir) {
        CopyStep::Descend { from, to } => assert_eq!((from.as_str(), to.as_str()), ("src/a", "dst/a")),
        _ => panic!("expected a directory"),
    }
    match c.entry(&to, "b", "src/b".into(), EntryKind::Dir) {
        CopyStep::Descend { .. } => {}
        _ => panic!("expected a directory"),
    }
    match c.entry(&to, "f.txt", "src/f.txt".into(), EntryKind::File) {
        CopyStep::CopyFile { from, to } => assert_eq!((from.as_str(), to.as_str()), ("src/f.txt", "dst/f.txt")),
        _ => panic!("expected a file"),
    }
    assert!(matches!(c.entry(&to, "l", "src/l".into(), EntryKind::Symlink), CopyStep::CopyLink { .. }));
    assert!(matches!(c.entry(&to, "p", "src/p".into(), EntryKind::Other), CopyStep::Skip));
    assert_eq!(c.next_dir().unwrap().0, "src/b");
    assert_eq!(c.next_dir().unwrap().0, "src/a");
    assert!(c.next_dir().is_none());
}

#[test]
fn destinations_are_children_of_the_target() {
    let mut c = DirCopy::new("src".into(), "out/dst".into(), Vec::new());
    let (_, to) = c.next_dir().unwrap();
    match c.entry(&to, "deep", "src/deep".into(), EntryKind::Dir) {
        CopyStep::Descend { to, .. } => assert_eq!(to, "out/dst/deep"),
        _ => panic!("expected a directory"),
    }
    match c.entry(&to, "l", "src/l".into(), EntryKind::Symlink) {
        CopyStep::CopyLink { to, from } => assert_eq!((to.as_str(), from.as_str()), ("out/dst/l", "src/l")),
        _ => panic!("expected a link"),
    }
    match c.entry("", "top.txt", "src/top.txt".into(), EntryKind::File) {
        CopyStep::CopyFile { to, .. } => assert_eq!(to, "top.txt"),
        _ => panic!("expected a file"),
    }
}
