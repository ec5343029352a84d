use lua_bindings::scripts::{is_script_extension, script_to_run, ScriptRegistry};

#[test]
fn base_dirs_keep_order() {
    let mut r = ScriptRegistry::new();
    r.add_base_dir("/one".into());
    r.add_base_dir("/two".into());
    assert_eq!(r.base_dir_list(), vec!["/one".to_string(), "/two".to_string()]);
}

#[test]
fn included_files_are_a_set() {
    let mut r = ScriptRegistry::new();
    assert!(r.included_files().is_empty());
    r.record_included("a.lua".into());
    r.record_included("b.lua".into());
    r.record_included("a.lua".into());
    let mut files = r.included_files();
    files.sort();
    assert_eq!(files, vec!["a.lua".to_string(), "b.lua".to_string()]);
    assert!(r.is_included("b.lua"));
    assert!(!r.is_included("c.lua"));
}

#[test]
fn local_candidates_follow_base_dirs_then_scripts() {
    let mut r = ScriptRegistry::new();
    r.add_base_dir("/base".into());
    assert_eq!(r.local_candidates("x.lua", None), vec!["/base/x.lua".to_string()]);
    assert_eq!(
        r.local_candidates("x.lua", Some("/work".into())),
        vec!["/base/x.lua".to_string(), "/work/scripts/x.lua".to_string()]
    );
}

#[test]
fn script_extensions() {
    assert!(is_script_extension(&Some("lua".into())));
    assert!(is_script_extension(&Some("luau".into())));
    assert!(!is_script_extension(&Some("txt".into())));
    assert!(!is_script_extension(&None));
}

#[test]
fn default_script() {
    assert_eq!(script_to_run(None), "scripts\\main.luau");
    assert_eq!(script_to_run(Some("x.luau".into())), "x.luau");
}

#[test]
fn candidates_join_each_directory() {
    let mut r = ScriptRegistry::new();
    r.add_base_dir("lib".into());
    r.add_base_dir("vendor/".into());
    assert_eq!(
        r.local_candidates("util/config.lua", Some("home".into())),
        vec![
            "lib/util/config.lua".to_string(),
            "vendor/util/config.lua".to_string(),
            "home/scripts/util/config.lua".to_string()
        ]
    );
    assert_eq!(ScriptRegistry::new().local_candidates("config.lua", Some(String::new())), vec!["scripts/config.lua".to_string()]);
}
