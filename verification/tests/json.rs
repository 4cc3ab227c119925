use acil::json::{find_at, i64_at, member, set_member, str_at, value_at, JsonValue};

fn obj(ms: Vec<(&str, JsonValue)>) -> JsonValue {
    JsonValue::Object(ms.into_iter().map(|(k, v)| (k.to_string(), v)).collect())
}

#[test]
fn member_lookup() {
    let v = obj(vec![("a", JsonValue::Int(1)), ("b", obj(vec![("c", JsonValue::Str("x".into()))])), ("a", JsonValue::Int(2))]);
    assert!(matches!(member(&v, "a"), Some(JsonValue::Int(1))));
    assert!(member(&v, "z").is_none());
    assert!(member(&JsonValue::Int(3), "a").is_none());
    assert!(matches!(find_at(&v, &["b", "c"]), Some(JsonValue::Str(s)) if s == "x"));
    assert!(find_at(&v, &["b", "d"]).is_none());
    assert!(matches!(find_at(&v, &[]), Some(JsonValue::Object(_))));
    assert_eq!(str_at(&v, &["b", "c"]), Some("x".to_string()));
    assert_eq!(str_at(&v, &["a"]), None);
    assert_eq!(i64_at(&v, &["a"]), Some(1));
    assert_eq!(i64_at(&JsonValue::Num("1.5".into()), &[]), None);
    assert!(matches!(value_at(&v, &["q"]), JsonValue::Null));
}

#[test]
fn setting_members() {
    let v = set_member(obj(vec![("a", JsonValue::Int(1))]), "a", JsonValue::Bool(true));
    assert!(matches!(member(&v, "a"), Some(JsonValue::Bool(true))));
    let v = set_member(v, "b", JsonValue::Null);
    match &v {
        JsonValue::Object(ms) => assert_eq!(ms.len(), 2),
        _ => panic!("expected an object"),
    }
    assert!(matches!(set_member(JsonValue::Null, "k", JsonValue::Int(5)), JsonValue::Object(ms) if ms.len() == 1));
    assert!(matches!(set_member(JsonValue::Int(4), "k", JsonValue::Int(5)), JsonValue::Int(4)));
}
