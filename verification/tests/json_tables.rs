use lua_bindings::json::{decimal_string, json_parse, json_stringify, shape_table, TableKey, TableShape};

fn idx(i: u64) -> TableKey {
    TableKey::Index(i)
}

fn name(s: &str) -> TableKey {
    TableKey::Name(s.to_string())
}

#[test]
fn list_becomes_array_in_key_order() {
    match shape_table(vec![(idx(2), "b"), (idx(1), "a"), (idx(3), "c")]) {
        TableShape::Array(v) => assert_eq!(v, vec!["a", "b", "c"]),
        TableShape::Object(_) => panic!("expected an array"),
    }
}

#[test]
fn empty_table_is_an_empty_array() {
    match shape_table::<i32>(Vec::new()) {
        TableShape::Array(v) => assert!(v.is_empty()),
        TableShape::Object(_) => panic!("expected an array"),
    }
}

#[test]
fn gaps_give_an_object_keyed_by_decimal_index() {
    match shape_table(vec![(idx(1), 10), (idx(3), 30)]) {
        TableShape::Object(pairs) => {
            assert_eq!(pairs, vec![("1".to_string(), 10), ("3".to_string(), 30)])
        }
        TableShape::Array(_) => panic!("expected an object"),
    }
}

#[test]
fn string_keys_give_an_object_without_index_entries() {
    let entries = vec![(idx(1), 1), (name("name"), 2), (TableKey::Other, 3), (name("age"), 4)];
    match shape_table(entries) {
        TableShape::Object(pairs) => {
            assert_eq!(pairs, vec![("name".to_string(), 2), ("age".to_string(), 4)])
        }
        TableShape::Array(_) => panic!("expected an object"),
    }
}

#[test]
fn integer_keys_must_be_positive() {
    assert!(matches!(TableKey::from_integer(3), TableKey::Index(3)));
    assert!(matches!(TableKey::from_integer(0), TableKey::Other));
    assert!(matches!(TableKey::from_integer(-2), TableKey::Other));
}

#[test]
fn decimal_strings() {
    assert_eq!(decimal_string(0), "0");
    assert_eq!(decimal_string(7), "7");
    assert_eq!(decimal_string(10), "10");
    assert_eq!(decimal_string(12345), "12345");
    assert_eq!(decimal_string(u64::MAX), u64::MAX.to_string());
}

#[test]
fn parse_and_stringify() {
    let v = json_parse(r#"{"name": "John", "age": 30, "hobbies": ["reading", "coding"]}"#).unwrap();
    assert_eq!(v["name"], "John");
    assert_eq!(v["hobbies"][0], "reading");
    let text = json_stringify(&v).unwrap();
    assert_eq!(text, r#"{"age":30,"hobbies":["reading","coding"],"name":"John"}"#);
    assert!(json_parse("{oops").is_err());
}

#[test]
fn numbered_keys_stay_distinct() {
    let keys: Vec<String> = [1u64, 10, 11, 101, 110].iter().map(|n| decimal_string(*n)).collect();
    for i in 0..keys.len() {
        for j in 0..keys.len() {
            assert_eq!(i == j, keys[i] == keys[j]);
        }
    }
}

#[test]
fn stringify_never_empty() {
    for text in ["null", "\"\"", "[]", "{}", "0"] {
        let v = json_parse(text).unwrap();
        assert_eq!(json_stringify(&v).unwrap(), text);
    }
}

#[test]
fn parse_gives_the_text_value() {
    let v = json_parse("[1, 2, 3]").unwrap();
    assert_eq!(v.as_array().map(|a| a.len()), Some(3));
    assert_ne!(json_parse("[]").unwrap(), v);
    assert_eq!(json_stringify(&v).unwrap(), "[1,2,3]");
    assert_eq!(json_stringify(&json_parse("{\"b\": true, \"a\": null}").unwrap()).unwrap(), "{\"a\":null,\"b\":true}");
}

#[test]
fn parse_errors_carry_serde_messages() {
    let expected = serde_json::from_str::<serde_json::Value>("{oops").err().unwrap().to_string();
    assert_eq!(json_parse("{oops").err().unwrap().message, expected);
}
