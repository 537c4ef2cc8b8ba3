use hc_auth_server::config::parse_api_tokens;
use hc_auth_server::json::JsonValue;
use hc_auth_server::routes_api::{
    check_api_token, get_response, list_response, transition_states, transition_status, TransitionRequest,
};
use hc_auth_server::storage::{State, StorageErr};

#[test]
fn bearer_tokens_are_checked() {
    let tokens = parse_api_tokens("alpha,beta");
    assert!(check_api_token(Some(b"Bearer alpha"), &tokens));
    assert!(check_api_token(Some(b"Bearer beta"), &tokens));
    assert!(!check_api_token(Some(b"Bearer gamma"), &tokens));
    assert!(!check_api_token(Some(b"bearer alpha"), &tokens));
    assert!(!check_api_token(Some(b"Bearer  alpha"), &tokens));
    assert!(!check_api_token(Some(b"Bearer "), &tokens));
    assert!(!check_api_token(Some(b"alpha"), &tokens));
    assert!(!check_api_token(Some(b"Bearer alph\xc3\xa9"), &tokens));
    assert!(!check_api_token(None, &tokens));
}

#[test]
fn listing_names_states() {
    let list = list_response(vec![("k1".to_string(), State::Pending), ("k2".to_string(), State::Blocked)]);
    assert_eq!(list.len(), 2);
    assert_eq!(list[0].pub_key, "k1");
    assert_eq!(list[0].state, "pending");
    assert_eq!(list[1].state, "blocked");
}

#[test]
fn get_responses() {
    let r = get_response("k".to_string(), Ok(Some((State::Authorized, JsonValue::Null)))).unwrap();
    assert_eq!(r.state, "authorized");
    assert_eq!(r.pub_key, "k");
    assert_eq!(r.data, JsonValue::Null);
    assert_eq!(get_response("k".to_string(), Ok(None)).err(), Some(404));
    assert_eq!(get_response("k".to_string(), Err(StorageErr::Redis("x".to_string()))).err(), Some(500));
}

#[test]
fn transitions_need_known_states() {
    let req = |a: &str, b: &str| TransitionRequest {
        pub_key: "k".to_string(),
        old_state: a.to_string(),
        new_state: b.to_string(),
    };
    assert_eq!(transition_states(&req("pending", "authorized")), Ok((State::Pending, State::Authorized)));
    assert_eq!(transition_states(&req("pending", "gone")), Err(400));
    assert_eq!(transition_states(&req("", "blocked")), Err(400));
    assert_eq!(transition_status(&Ok(())), 200);
    assert_eq!(transition_status(&Err(StorageErr::Other("x".to_string()))), 500);
}
