use lua_bindings::http::{convert_headers, failed_reply, received_reply, reply_for, HeaderError};
use reqwest::StatusCode;

fn pairs(v: &[(&str, &str)]) -> Vec<(String, String)> {
    v.iter().map(|(a, b)| (a.to_string(), b.to_string())).collect()
}

#[test]
fn valid_headers_convert_in_order() {
    let got = convert_headers(&pairs(&[("Authorization", "Bearer token123"), ("User-Agent", "MyApp/1.0")])).unwrap();
    assert_eq!(got.len(), 2);
    assert_eq!(got[0].0.as_str(), "authorization");
    assert_eq!(got[1].1.to_str().unwrap(), "MyApp/1.0");
}

#[test]
fn bad_name_is_reported_first() {
    match convert_headers(&pairs(&[("Good", "ok"), ("bad name", "x\n")])) {
        Err(HeaderError::InvalidName(m)) => assert_eq!(m, "invalid HTTP header name"),
        _ => panic!("expected a name error"),
    }
    assert!(matches!(convert_headers(&pairs(&[("", "v")])), Err(HeaderError::InvalidName(_))));
}

#[test]
fn bad_value_is_reported() {
    match convert_headers(&pairs(&[("X-Test", "line\nbreak")])) {
        Err(HeaderError::InvalidValue(m)) => assert_eq!(m, "failed to parse header value"),
        _ => panic!("expected a value error"),
    }
    assert!(convert_headers(&pairs(&[("X-Tab", "a\tb")])).is_ok());
}

#[test]
fn replies() {
    let r = failed_reply();
    assert_eq!((r.status, r.content.as_str()), (0, ""));
    let r = received_reply(&StatusCode::OK, Some("body".into()));
    assert_eq!((r.status, r.content.as_str()), (200, "body"));
    let r = received_reply(&StatusCode::NOT_FOUND, None);
    assert_eq!((r.status, r.content.as_str()), (404, ""));
}

#[test]
fn converted_headers_keep_pair_order() {
    let got = convert_headers(&pairs(&[("X-B", "2"), ("X-A", "1"), ("Content-Type", "application/json")])).unwrap();
    let names: Vec<&str> = got.iter().map(|(n, _)| n.as_str()).collect();
    assert_eq!(names, vec!["x-b", "x-a", "content-type"]);
    let values: Vec<&str> = got.iter().map(|(_, v)| v.to_str().unwrap()).collect();
    assert_eq!(values, vec!["2", "1", "application/json"]);
}

#[test]
fn status_is_zero_exactly_without_a_response() {
    let r = reply_for(Ok(None));
    assert_eq!((r.status, r.content.as_str()), (0, ""));
    let r = reply_for(Ok(Some((StatusCode::from_u16(100).unwrap(), Some(String::new())))));
    assert_eq!((r.status, r.content.as_str()), (100, ""));
    let r = reply_for(Ok(Some((StatusCode::from_u16(999).unwrap(), Some("x".into())))));
    assert_eq!((r.status, r.content.as_str()), (999, "x"));
    let r = reply_for(Ok(Some((StatusCode::INTERNAL_SERVER_ERROR, None))));
    assert_eq!((r.status, r.content.as_str()), (500, ""));
}

#[test]
fn header_name_characters() {
    assert!(convert_headers(&pairs(&[("X-Ok_Name.1~", "v")])).is_ok());
    assert!(matches!(convert_headers(&pairs(&[("Bad:Name", "v")])), Err(HeaderError::InvalidName(_))));
    assert!(matches!(convert_headers(&pairs(&[("Ünïcode", "v")])), Err(HeaderError::InvalidName(_))));
    let long = "a".repeat(65535);
    assert!(convert_headers(&vec![(long, "v".to_string())]).is_ok());
    let too_long = "a".repeat(65536);
    assert!(matches!(convert_headers(&vec![(too_long, "v".to_string())]), Err(HeaderError::InvalidName(_))));
}

#[test]
fn refused_headers_reply_like_a_failed_request() {
    let refused = convert_headers(&pairs(&[("bad name", "v")])).map(|_| None);
    let r = reply_for(refused);
    assert_eq!((r.status, r.content.as_str()), (0, ""));
    let r = reply_for(Err(HeaderError::InvalidValue("failed to parse header value".into())));
    assert_eq!((r.status, r.content.as_str()), (0, ""));
}
