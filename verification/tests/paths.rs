use lua_bindings::path::{fix_path, get_parent_dir, join_path, normalize_parts, parent_or_self, PathPart};

fn names(parts: &[PathPart]) -> Vec<String> {
    parts
        .iter()
        .map(|p| match p {
            PathPart::Prefix(s) => format!("prefix:{s}"),
            PathPart::Root(_) => "/".to_string(),
            PathPart::Current => ".".to_string(),
            PathPart::Parent => "..".to_string(),
            PathPart::Normal(s) => s.clone(),
        })
        .collect()
}

#[test]
fn fix_path_readme_example() {
    assert_eq!(fix_path("./folder/../other/./file.txt"), "other/file.txt");
}

#[test]
fn fix_path_keeps_root_and_drops_excess_parents() {
    assert_eq!(fix_path("/a/b/../../../c"), "/c");
    assert_eq!(fix_path("../x"), "x");
    assert_eq!(fix_path("a/.."), "");
}

#[test]
fn normalize_components() {
    let parts = vec![
        PathPart::Current,
        PathPart::Normal("a".into()),
        PathPart::Normal("b".into()),
        PathPart::Parent,
        PathPart::Current,
        PathPart::Normal("c".into()),
    ];
    assert_eq!(names(&normalize_parts(&parts)), vec!["a", "c"]);
    let twice = normalize_parts(&normalize_parts(&parts));
    assert_eq!(names(&twice), vec!["a", "c"]);
}

#[test]
fn join_pieces() {
    assert_eq!(join_path(&vec!["folder".to_string(), "file.txt".to_string()]), "folder/file.txt");
    assert_eq!(join_path(&vec!["a".to_string(), "/abs".to_string()]), "/abs");
    assert_eq!(join_path(&Vec::new()), "");
}

#[test]
fn parent_directory() {
    assert_eq!(get_parent_dir("a/b/c.txt"), "a/b");
    assert_eq!(get_parent_dir("c.txt"), "c.txt");
    assert_eq!(get_parent_dir("/"), "/");
    assert_eq!(get_parent_dir(""), "");
    assert_eq!(parent_or_self("x", Some(String::new())), "x");
    assert_eq!(parent_or_self("x/y", Some("x".into())), "x");
    assert_eq!(parent_or_self("z", None), "z");
}

#[test]
fn single_segments() {
    assert_eq!(fix_path("name.txt"), "name.txt");
    assert_eq!(fix_path("."), "");
    assert_eq!(fix_path(".."), "");
    assert_eq!(get_parent_dir("dir/file"), "dir");
    assert_eq!(get_parent_dir("dir/.."), "dir");
    assert_eq!(get_parent_dir("file"), "file");
    assert_eq!(join_path(&vec!["only".to_string()]), "only");
    assert_eq!(lua_bindings::path::child_path("", "x"), "x");
    assert_eq!(lua_bindings::path::child_path("a", "b"), "a/b");
    assert!(lua_bindings::scripts::needs_current_dir("scripts"));
    assert!(!lua_bindings::scripts::needs_current_dir("/abs"));
    assert!(!lua_bindings::scripts::needs_current_dir("//server/share"));
}

#[test]
fn fix_path_many_segments() {
    assert_eq!(fix_path("a/b/../c/./d"), "a/c/d");
    assert_eq!(fix_path("./x/y/z"), "x/y/z");
    assert_eq!(fix_path("a/b/../.."), "");
    assert_eq!(fix_path("../../a/b"), "a/b");
}

#[test]
fn join_path_many_pieces() {
    let v = |xs: &[&str]| xs.iter().map(|s| s.to_string()).collect::<Vec<String>>();
    assert_eq!(join_path(&v(&["a", "b", "c", "d.txt"])), "a/b/c/d.txt");
    assert_eq!(join_path(&v(&["a", "b", "/root/file"])), "/root/file");
    assert_eq!(lua_bindings::path::child_path("dir/", "x"), "dir/x");
    assert_eq!(lua_bindings::path::child_path("a/b", "/c"), "/c");
}

#[test]
fn parent_of_deeper_paths() {
    assert_eq!(get_parent_dir("a/b/c/d"), "a/b/c");
    assert_eq!(get_parent_dir("./x"), ".");
    assert_eq!(get_parent_dir("a/../b"), "a/..");
    assert_eq!(get_parent_dir("one/two/three/four/five"), "one/two/three/four");
}

#[test]
fn rooted_and_loose_paths() {
    assert_eq!(fix_path("/a/../b"), "/b");
    assert_eq!(fix_path("/"), "/");
    assert_eq!(fix_path("/../x/./y"), "/x/y");
    assert_eq!(fix_path("a//b/"), "a/b");
    assert_eq!(fix_path("./a/./b//"), "a/b");
    let v = |xs: &[&str]| xs.iter().map(|s| s.to_string()).collect::<Vec<String>>();
    assert_eq!(join_path(&v(&["/home/u", "f"])), "/home/u/f");
    assert_eq!(join_path(&v(&["/home/u/", "docs", "a.txt"])), "/home/u/docs/a.txt");
    assert_eq!(join_path(&v(&["x", "/etc", "hosts"])), "/etc/hosts");
    assert_eq!(get_parent_dir("/a/b"), "/a");
    assert_eq!(get_parent_dir("/x"), "/");
    assert_eq!(get_parent_dir("/usr/local/bin"), "/usr/local");
    assert_eq!(lua_bindings::path::child_path("a\\", "b"), "a\\/b");
}
