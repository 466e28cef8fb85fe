use ai_translate::json::{parse_i64, Json};

fn obj(members: Vec<(&str, Json)>) -> Json {
    Json::Object(members.into_iter().map(|(k, v)| (k.to_string(), v)).collect())
}

fn s(t: &str) -> Json {
    Json::Str(t.to_string())
}

#[test]
fn parses_integers_like_std() {
    assert_eq!(parse_i64("200"), Some(200));
    assert_eq!(parse_i64("+7"), Some(7));
    assert_eq!(parse_i64("-42"), Some(-42));
    assert_eq!(parse_i64("0007"), Some(7));
    assert_eq!(parse_i64("9223372036854775807"), Some(i64::MAX));
    assert_eq!(parse_i64("-9223372036854775808"), Some(i64::MIN));
    assert_eq!(parse_i64("9223372036854775808"), None);
    assert_eq!(parse_i64("-9223372036854775809"), None);
    assert_eq!(parse_i64(""), None);
    assert_eq!(parse_i64("-"), None);
    assert_eq!(parse_i64("+"), None);
    assert_eq!(parse_i64(" 1"), None);
    assert_eq!(parse_i64("1.0"), None);
    for text in ["0", "-0", "123456789", "-5", "18446744073709551615", "x1"] {
        assert_eq!(parse_i64(text), text.parse::<i64>().ok());
    }
}

#[test]
fn object_and_array_lookups() {
    let v = obj(vec![
        ("a", Json::Array(vec![s("x"), Json::Null])),
        ("0", s("zero")),
        ("n", Json::Number("12".to_string())),
        ("f", Json::Number("1.5".to_string())),
        ("t", s("-3")),
    ]);
    assert!(matches!(v.get("a"), Some(Json::Array(_))));
    assert!(v.get("missing").is_none());
    assert!(v.at(0).is_none());
    assert_eq!(v.step("0").and_then(|x| x.as_text()).map(|x| x.as_str()), Some("zero"));
    let a = v.get("a").unwrap();
    assert_eq!(a.at(0).and_then(|x| x.as_text()).map(|x| x.as_str()), Some("x"));
    assert!(a.at(2).is_none());
    assert!(a.step("0").is_some());
    assert!(a.step("00").is_none());
    assert!(a.step("+0").is_none());
    assert!(a.step("a").is_none());
    assert_eq!(v.get("n").unwrap().as_int(), Some(12));
    assert_eq!(v.get("f").unwrap().as_int(), None);
    assert_eq!(v.get("t").unwrap().as_int(), Some(-3));
    assert_eq!(Json::Bool(true).as_int(), None);
    assert!(s("q").as_items().is_none());
}

#[test]
fn first_member_wins() {
    let v = obj(vec![("k", s("one")), ("k", s("two"))]);
    assert_eq!(v.get("k").and_then(|x| x.as_text()).map(|x| x.as_str()), Some("one"));
}
