use hc_auth_server::json::JsonValue;

fn s(t: &str) -> String {
    t.to_string()
}

#[test]
fn set_then_get() {
    let mut v = JsonValue::Object(vec![(s("a"), JsonValue::Null), (s("b"), JsonValue::Bool(true))]);
    v.set_field("a", JsonValue::Str(s("x")));
    assert_eq!(v.get("a"), Some(&JsonValue::Str(s("x"))));
    assert_eq!(v.get("b"), Some(&JsonValue::Bool(true)));
    assert_eq!(v.get_str("a"), Some(&s("x")));
    assert_eq!(v.get_str("b"), None);
    assert_eq!(v.get("c"), None);
    if let JsonValue::Object(m) = &v {
        assert_eq!(m.len(), 2);
    }
}

#[test]
fn non_objects_have_no_fields() {
    let mut v = JsonValue::Array(vec![JsonValue::Null]);
    v.set_field("a", JsonValue::Null);
    assert_eq!(v, JsonValue::Array(vec![JsonValue::Null]));
    assert_eq!(v.get("a"), None);
    assert!(!v.is_object());
    assert!(JsonValue::Object(vec![]).is_object());
}

#[test]
fn later_members_hide_earlier_ones() {
    let v = JsonValue::Object(vec![(s("a"), JsonValue::Bool(false)), (s("a"), JsonValue::Bool(true))]);
    assert_eq!(v.get("a"), Some(&JsonValue::Bool(true)));
}
