use hc_auth_server::json::JsonValue;
use hc_auth_server::storage::{
    auth_key, classify_add_pending_error, decide_access, decide_access_with, entry_pairs, listing_order,
    new_auth_token, now_secs, record_from_fields, state_key, value_or_text, with_state, AccessDecision, AuthResult, State,
    StorageErr,
};

fn s(t: &str) -> String {
    t.to_string()
}

fn obj(members: Vec<(&str, JsonValue)>) -> JsonValue {
    JsonValue::Object(members.into_iter().map(|(k, v)| (k.to_string(), v)).collect())
}

#[test]
fn state_names_round_trip() {
    for st in [State::Pending, State::Authorized, State::Blocked] {
        assert_eq!(State::from_str(st.as_str()), Some(st));
    }
    assert_eq!(State::Pending.as_str(), "pending");
    assert_eq!(State::Authorized.as_str(), "authorized");
    assert_eq!(State::Blocked.as_str(), "blocked");
    assert_eq!(State::from_str("Pending"), None);
    assert_eq!(State::from_str(""), None);
    assert_eq!(State::from_str("blocked "), None);
}

#[test]
fn store_keys() {
    assert_eq!(auth_key("abc"), "auth:abc");
    assert_eq!(auth_key(""), "auth:");
    assert_eq!(state_key(State::Pending), "state:pending");
    assert_eq!(state_key(State::Authorized), "state:authorized");
    assert_eq!(state_key(State::Blocked), "state:blocked");
}

#[test]
fn seconds_in_decimal() {
    assert_eq!(now_secs(0), "0");
    assert_eq!(now_secs(1_700_000_000), "1700000000");
    assert_eq!(now_secs(u64::MAX), u64::MAX.to_string());
}

#[test]
fn records_need_both_fields_and_a_known_state() {
    let r = record_from_fields(Some(s("authorized")), Some(s("{}"))).unwrap();
    assert_eq!(r.state, State::Authorized);
    assert_eq!(r.json, "{}");
    assert!(record_from_fields(Some(s("weird")), Some(s("{}"))).is_none());
    assert!(record_from_fields(None, Some(s("{}"))).is_none());
    assert!(record_from_fields(Some(s("pending")), None).is_none());
}

#[test]
fn flat_lists_pair_up() {
    let pairs = entry_pairs(vec![s("k1"), s("v1"), s("k2"), s("v2"), s("odd")]);
    assert_eq!(pairs, vec![(s("k1"), s("v1")), (s("k2"), s("v2"))]);
    assert!(entry_pairs(vec![]).is_empty());
    assert!(entry_pairs(vec![s("one")]).is_empty());
}

#[test]
fn keys_are_tagged_with_their_state() {
    let tagged = with_state(vec![s("a"), s("b")], State::Blocked);
    assert_eq!(tagged, vec![(s("a"), State::Blocked), (s("b"), State::Blocked)]);
    assert_eq!(listing_order(), [State::Pending, State::Authorized, State::Blocked]);
}

#[test]
fn limit_errors_are_recognized() {
    assert_eq!(
        classify_add_pending_error(s("ERR Error running script: limit_reached")),
        StorageErr::TooManyPendingRequests
    );
    assert_eq!(classify_add_pending_error(s("connection refused")), StorageErr::Redis(s("connection refused")));
    assert_eq!(classify_add_pending_error(s("limit_reache")), StorageErr::Redis(s("limit_reache")));
    assert_eq!(StorageErr::TooManyPendingRequests.message(), "Too many pending requests");
    assert_eq!(StorageErr::Redis(s("x")).message(), "Redis error: x");
    assert_eq!(StorageErr::other(s("y")).message(), "Other error: y");
}

#[test]
fn pending_and_blocked_keys_get_no_token() {
    let doc = obj(vec![("payload", JsonValue::Null)]);
    match decide_access(State::Pending, doc, "5") {
        AccessDecision::Reply(AuthResult::Pending) => {}
        other => panic!("unexpected {:?}", other),
    }
    match decide_access(State::Blocked, obj(vec![]), "5") {
        AccessDecision::Reply(AuthResult::Blocked) => {}
        other => panic!("unexpected {:?}", other),
    }
    match decide_access(State::Authorized, JsonValue::Str(s("not an object")), "5") {
        AccessDecision::Reply(AuthResult::NotFound) => {}
        other => panic!("unexpected {:?}", other),
    }
}

#[test]
fn stored_token_is_kept_and_access_stamped() {
    let doc = obj(vec![
        ("authToken", JsonValue::Str(s("tok"))),
        ("lastAccess", JsonValue::Str(s("1"))),
        ("payload", JsonValue::Bool(true)),
    ]);
    match decide_access_with(State::Authorized, doc, "99", s("fresh")) {
        AccessDecision::Grant { json, token } => {
            assert_eq!(token, "tok");
            assert_eq!(json.get_str("lastAccess").unwrap(), "99");
            assert_eq!(json.get_str("authToken").unwrap(), "tok");
            assert_eq!(json.get("payload"), Some(&JsonValue::Bool(true)));
        }
        other => panic!("unexpected {:?}", other),
    }
}

#[test]
fn missing_token_is_replaced_by_the_fresh_one() {
    let doc = obj(vec![("authToken", JsonValue::Number(s("12"))), ("createdAt", JsonValue::Number(s("1.5")))]);
    match decide_access_with(State::Authorized, doc, "7", s("fresh")) {
        AccessDecision::Grant { json, token } => {
            assert_eq!(token, "fresh");
            assert_eq!(json.get_str("authToken").unwrap(), "fresh");
            assert_eq!(json.get_str("lastAccess").unwrap(), "7");
            assert_eq!(json.get("createdAt"), Some(&JsonValue::Number(s("1.5"))));
        }
        other => panic!("unexpected {:?}", other),
    }
}

#[test]
fn random_tokens_are_43_url_safe_characters_and_stay() {
    let first = match decide_access(State::Authorized, obj(vec![]), "1") {
        AccessDecision::Grant { json, token } => {
            assert_eq!(token.len(), 43);
            assert!(token.chars().all(|c| c.is_ascii_alphanumeric() || c == '-' || c == '_'));
            (json, token)
        }
        other => panic!("unexpected {:?}", other),
    };
    match decide_access(State::Authorized, first.0, "2") {
        AccessDecision::Grant { json, token } => {
            assert_eq!(token, first.1);
            assert_eq!(json.get_str("lastAccess").unwrap(), "2");
        }
        other => panic!("unexpected {:?}", other),
    }
}

#[test]
fn unparsable_documents_are_shown_as_text() {
    assert_eq!(value_or_text(None, s("raw")), JsonValue::Str(s("raw")));
    assert_eq!(value_or_text(Some(JsonValue::Null), s("null")), JsonValue::Null);
}

fn url_safe(t: &str) -> bool {
    t.chars().all(|c| c.is_ascii_alphanumeric() || c == '-' || c == '_')
}

#[test]
fn new_tokens_are_43_url_safe_characters() {
    let t = new_auth_token();
    assert_eq!(t.len(), 43);
    assert!(url_safe(&t));
    assert_ne!(new_auth_token(), t);
}

#[test]
fn granted_fresh_tokens_are_43_url_safe_characters() {
    match decide_access(State::Authorized, obj(vec![("k", JsonValue::Bool(true))]), "17") {
        AccessDecision::Grant { token, .. } => {
            assert_eq!(token.len(), 43);
            assert!(url_safe(&token));
        }
        _ => panic!("an authorized key is granted"),
    }
}
