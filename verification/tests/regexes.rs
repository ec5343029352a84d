use lua_bindings::regex::{found_entry, regex_find, regex_find_text, regex_is_match, regex_replace, FindStep, Pattern};

#[test]
fn readme_examples() {
    assert_eq!(regex_is_match("\\d+", "abc123def").unwrap(), true);
    let m = regex_find("\\d+", "abc123def").unwrap().unwrap();
    assert_eq!((m.start, m.end, m.text.as_str()), (4, 6, "123"));
    assert_eq!(regex_find_text("\\d+", "abc123def").unwrap(), Some("123".to_string()));
    assert_eq!(regex_replace("\\d+", "abc123def456", "X").unwrap(), "abcXdefX");
}

#[test]
fn no_match() {
    assert_eq!(regex_is_match("z", "abc").unwrap(), false);
    assert!(regex_find("z", "abc").unwrap().is_none());
    assert_eq!(regex_find_text("z", "abc").unwrap(), None);
    assert_eq!(regex_replace("z", "abc", "X").unwrap(), "abc");
}

#[test]
fn offsets_are_bytes_and_text_is_chars() {
    let m = regex_find("é+", "aééb").unwrap().unwrap();
    assert_eq!((m.start, m.end, m.text.as_str()), (2, 5, "éé"));
}

#[test]
fn group_references_expand() {
    assert_eq!(regex_replace("(\\w+)@(\\w+)", "me@host", "$2:$1").unwrap(), "host:me");
}

#[test]
fn bad_pattern_is_an_error() {
    let e = regex_is_match("(", "x").err().unwrap();
    assert!(!e.message.is_empty());
    assert!(regex_find("[", "x").is_err());
    assert!(regex_replace("(", "x", "y").is_err());
    assert!(Pattern::new("(").is_err());
}

#[test]
fn pattern_reuse() {
    let p = Pattern::new("o+").unwrap();
    assert!(p.is_match("foo"));
    assert!(!p.is_match("bar"));
    assert_eq!(p.replace_all("foo boo", "0"), "f0 b0");
}

#[test]
fn error_messages_are_the_crates() {
    let expected = regex::Regex::new("(").err().unwrap().to_string();
    assert_eq!(regex_is_match("(", "x").err().unwrap().message, expected);
    assert_eq!(Pattern::new("(").err().unwrap().message, expected);
    assert_eq!(regex_replace("(", "x", "y").err().unwrap().message, expected);
}

#[test]
fn search_steps() {
    let p = Pattern::new("\\.lua$").unwrap();
    assert_eq!(found_entry(true, Some("dir.lua"), &p), FindStep::Descend);
    assert_eq!(found_entry(false, Some("main.lua"), &p), FindStep::Keep);
    assert_eq!(found_entry(false, Some("main.txt"), &p), FindStep::Skip);
    assert_eq!(found_entry(false, None, &p), FindStep::Skip);
}
