use lua_bindings::lines::{LineSplitter, OutputCapture};
use lua_bindings::text::{chars_of, string_of, text_contains, text_ends_with, text_equal};

#[test]
fn contains_finds_substrings() {
    assert!(text_contains("abc123def", "123"));
    assert!(text_contains("abc", ""));
    assert!(!text_contains("abc", "abcd"));
    assert!(!text_contains("abc", "ac"));
}

#[test]
fn equality_and_suffixes() {
    assert!(text_equal("héllo", "héllo"));
    assert!(!text_equal("hello", "hell"));
    assert!(text_ends_with("backup.tar.gz", ".tar.gz"));
    assert!(!text_ends_with("gz", ".tar.gz"));
}

#[test]
fn chars_round_trip() {
    let cs = chars_of("añb");
    assert_eq!(cs, vec!['a', 'ñ', 'b']);
    assert_eq!(string_of(&cs), "añb");
}

#[test]
fn splitter_emits_complete_lines() {
    let mut s = LineSplitter::new();
    let lines = s.feed(b"one\r\ntwo\nthr");
    assert_eq!(lines, vec![b"one".to_vec(), b"two".to_vec()]);
    let lines = s.feed(b"ee\n\nfour");
    assert_eq!(lines, vec![b"three".to_vec(), Vec::new()]);
    assert_eq!(s.finish(), Some(b"four".to_vec()));
}

#[test]
fn splitter_strips_only_one_carriage_return() {
    let mut s = LineSplitter::new();
    let lines = s.feed(b"a\r\r\n\rb\n");
    assert_eq!(lines, vec![b"a\r".to_vec(), b"\rb".to_vec()]);
    assert_eq!(s.finish(), None);
}

#[test]
fn splitter_does_not_depend_on_chunking() {
    let input: &[u8] = b"alpha\r\nbeta\ngamma\r\n\ndelta";
    let mut whole = LineSplitter::new();
    let all = whole.feed(input);
    let rest_whole = whole.finish();
    for cut in 0..=input.len() {
        let mut parts = LineSplitter::new();
        let mut got = parts.feed(&input[..cut]);
        got.extend(parts.feed(&input[cut..]));
        assert_eq!(got, all);
        assert_eq!(parts.finish(), rest_whole);
    }
    let mut bytewise = LineSplitter::new();
    let mut got = Vec::new();
    for b in input {
        got.extend(bytewise.feed(&[*b]));
    }
    assert_eq!(got, all);
}

#[test]
fn capture_gathers_text() {
    let mut c = OutputCapture::new();
    let t1 = c.feed(b"hello\nwor");
    assert_eq!(t1, vec!["hello".to_string()]);
    let t2 = c.feed(b"ld\r\nbye");
    assert_eq!(t2, vec!["world".to_string()]);
    let (last, all) = c.finish();
    assert_eq!(last, Some("bye".to_string()));
    assert_eq!(all, "hello\nworld\nbye");
}

#[test]
fn capture_without_trailing_text() {
    let mut c = OutputCapture::new();
    c.feed(b"x\ny\n");
    let (last, all) = c.finish();
    assert_eq!(last, None);
    assert_eq!(all, "x\ny\n");
}

#[test]
fn lossy_decoding_replaces_invalid_bytes() {
    let mut c = OutputCapture::new();
    let t = c.feed(&[0xff, b'\n']);
    assert_eq!(t, vec!["\u{FFFD}".to_string()]);
    let t = c.feed(&[0x61, 0xff, 0x62, b'\n', 0xc3, 0xa9]);
    assert_eq!(t, vec!["a\u{FFFD}b".to_string()]);
    let (last, all) = c.finish();
    assert_eq!(last, Some("é".to_string()));
    assert_eq!(all, "\u{FFFD}\na\u{FFFD}b\né");
}

#[test]
fn lines_and_rest_give_back_input_without_carriage_returns() {
    let input: &[u8] = b"ab\n\ncd\nef";
    let mut s = LineSplitter::new();
    let lines = s.feed(input);
    let mut back = Vec::new();
    for l in &lines {
        back.extend_from_slice(l);
        back.push(b'\n');
    }
    back.extend(s.finish().unwrap_or_default());
    assert_eq!(back, input);
}

#[test]
fn valid_utf8_lines_come_back_decoded() {
    let mut c = OutputCapture::new();
    let t = c.feed("héllo wörld\r\nñ".as_bytes());
    assert_eq!(t, vec!["héllo wörld".to_string()]);
    let t = c.feed("o\n日本".as_bytes());
    assert_eq!(t, vec!["ño".to_string()]);
    let (last, all) = c.finish();
    assert_eq!(last, Some("日本".to_string()));
    assert_eq!(all, "héllo wörld\nño\n日本");
}
