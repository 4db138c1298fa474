use bpfjailer::json::{field_line, name_line, parse_json, Json};

#[test]
fn values_are_read() {
    let j = parse_json("{\"b\": [1, -2, 1.5, null], \"a\": {\"t\": \"x\", \"y\": true}}").unwrap();
    let items = j.get_items("b").unwrap();
    assert_eq!(items.len(), 4);
    assert!(matches!(items[0], Json::Number(Some(1))));
    assert!(matches!(items[1], Json::Number(None)));
    assert!(matches!(items[2], Json::Number(None)));
    assert!(matches!(items[3], Json::Null));
    let a = j.get("a").unwrap();
    assert_eq!(a.get_text("t"), Some("x"));
    assert_eq!(a.get_bool("y"), Some(true));
    assert_eq!(a.get_text("y"), None);
    assert_eq!(a.get_number("t"), None);
    assert!(a.get("z").is_none());
    assert_eq!(j.get_fields("a").unwrap().len(), 2);
    assert!(matches!(j.get("b").unwrap().item(0), Some(Json::Number(Some(1)))));
    assert!(j.get("b").unwrap().item(4).is_none());
    assert!(j.item(0).is_none());
}

#[test]
fn fields_come_in_the_order_of_their_names() {
    let j = parse_json("{\"roles\": {\"z\": 1, \"a\": 2, \"a\": 3}}").unwrap();
    let f = j.get_fields("roles").unwrap();
    assert_eq!(f.len(), 2);
    assert_eq!((f[0].0.as_str(), f[1].0.as_str()), ("a", "z"));
    assert!(matches!(f[0].1, Json::Number(Some(3))));
}

#[test]
fn errors_of_reading_are_told() {
    assert_eq!(
        parse_json("{").unwrap_err(),
        "EOF while parsing an object at line 1 column 1"
    );
    assert!(parse_json("").is_err());
    assert!(parse_json("\"a\" x").is_err());
}

#[test]
fn requests_are_lines_of_json() {
    assert_eq!(name_line("Reload"), "\"Reload\"\n");
    assert_eq!(
        field_line("EnrollSelf", "role", "a\"b\n\u{1}ä"),
        "{\"EnrollSelf\":{\"role\":\"a\\\"b\\n\\u0001ä\"}}\n"
    );
}

#[test]
fn requests_are_read_back() {
    assert!(parse_json(&name_line("Status")).unwrap().is_text("Status"));
    for role in ["", "code_agent", "a\"b\\\n\t\u{7f}\u{2028}😀"] {
        let j = parse_json(&field_line("EnrollSelf", "role", role)).unwrap();
        assert_eq!(j.get("EnrollSelf").unwrap().get_text("role"), Some(role));
    }
}
