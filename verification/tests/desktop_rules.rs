use lua_bindings::desktop::{answer_name, buttons_for, dialog_title, icon_for, Answer, Buttons, Icon, WindowSearch};
use lua_bindings::process::process_output;

#[test]
fn buttons_and_icons() {
    assert_eq!(buttons_for(None), Buttons::OkOnly);
    assert_eq!(buttons_for(Some("ok")), Buttons::OkOnly);
    assert_eq!(buttons_for(Some("yesno")), Buttons::YesNo);
    assert_eq!(buttons_for(Some("canceltrycontinue")), Buttons::CancelTryContinue);
    assert_eq!(buttons_for(Some("nonsense")), Buttons::OkOnly);
    assert_eq!(icon_for(None), Icon::Information);
    assert_eq!(icon_for(Some("error")), Icon::Error);
    assert_eq!(icon_for(Some("???")), Icon::Information);
}

#[test]
fn answers_and_titles() {
    assert_eq!(answer_name(Answer::Okay), "ok");
    assert_eq!(answer_name(Answer::TryAgain), "tryagain");
    assert_eq!(answer_name(Answer::Unknown), "unknown");
    assert_eq!(dialog_title(None), "Message");
    assert_eq!(dialog_title(Some("Hi".into())), "Hi");
}

#[test]
fn search_all_windows() {
    let mut s = WindowSearch::all_matching("Notepad".into());
    assert!(s.visit(1, true, Some("Untitled - Notepad".into())));
    assert!(s.visit(2, false, Some("Notepad".into())));
    assert!(s.visit(3, true, None));
    assert!(s.visit(4, true, Some("notepad".into())));
    assert!(s.visit(5, true, Some("Notepad++".into())));
    assert_eq!(s.found_windows(), vec![1, 5]);
    assert_eq!(s.first_found(), 1);
}

#[test]
fn search_first_window_ignoring_case() {
    let mut s = WindowSearch::first_matching("NOTEPAD".into());
    assert_eq!(s.first_found(), 0);
    assert!(s.visit(7, true, Some("Calculator".into())));
    assert!(!s.visit(8, true, Some("untitled - notepad".into())));
    assert_eq!(s.first_found(), 8);
}

#[test]
fn process_output_decoding() {
    let o = process_output(Some(0), b"out".to_vec(), b"err".to_vec()).ok().unwrap();
    assert_eq!((o.status, o.stdout.as_str(), o.stderr.as_str()), (Some(0), "out", "err"));
    assert!(process_output(Some(1), vec![0xff], Vec::new()).is_err());
    assert!(process_output(None, Vec::new(), vec![0xc3]).is_err());
}

#[test]
fn process_output_errors_name_the_stream_bytes() {
    let expected = String::from_utf8(vec![b'a', 0xff]).err().unwrap().to_string();
    assert_eq!(process_output(Some(0), vec![b'a', 0xff], vec![0xff]).err().unwrap().message, expected);
    let expected = String::from_utf8(vec![0xc3]).err().unwrap().to_string();
    assert_eq!(process_output(Some(0), b"ok".to_vec(), vec![0xc3]).err().unwrap().message, expected);
}
