use vstd::prelude::*;
use crate::config::ApiTokens;
use crate::json::JsonValue;
use crate::storage::{state_named, state_text, State, StorageErr};
use crate::text::{chars_of, is_prefix, suffix_from};

verus! {

/// Response item of `/api/list`.
#[derive(Debug, PartialEq, Eq)]
pub struct ApiListResponse {
    pub state: &'static str,
    pub pub_key: String,
}

/// Response of `/api/get/{key}`.
#[derive(Debug, PartialEq, Eq)]
pub struct ApiGetResponse {
    pub state: &'static str,
    pub pub_key: String,
    pub data: JsonValue,
}

/// Payload of `/api/transition`.
#[derive(Debug, PartialEq, Eq)]
pub struct TransitionRequest {
    pub pub_key: String,
    pub old_state: String,
    pub new_state: String,
}

/// Whether a header value reads as text: visible ASCII and tabs only, as
/// `HeaderValue::to_str` requires.
pub open spec fn header_is_text(value: Seq<u8>) -> bool {
    forall|i: int| 0 <= i < value.len() ==> (#[trigger] value[i] == 9 || (32 <= value[i] && value[i] < 127))
}

/// The characters of a header value that reads as text.
pub open spec fn header_text(value: Seq<u8>) -> Seq<char> {
    value.map_values(|b: u8| b as char)
}

/// Whether an `Authorization` header grants API access: it reads as text, starts with
/// `Bearer `, and the rest is one of the tokens.
pub open spec fn api_token_accepted(authorization: Option<Seq<u8>>, tokens: Set<Seq<char>>) -> bool {
    authorization matches Some(v) && header_is_text(v) && is_prefix("Bearer "@, header_text(v))
        && tokens.contains(header_text(v).skip(7))
}

/// Validates whether the `Authorization` header carries a valid API token.
pub fn check_api_token(authorization: Option<&[u8]>, api_tokens: &ApiTokens) -> (r: bool)
    ensures
        r == api_token_accepted(crate::routes_client::slice_bytes_of(authorization), api_tokens.view()),
{
    let value = match authorization {
        Some(v) => v,
        None => return false,
    };
    let mut text = String::new();
    let mut i: usize = 0;
    while i < value.len()
        invariant
            crate::routes_client::slice_bytes_of(authorization) == Some(value@),
            i <= value@.len(),
            forall|j: int| 0 <= j < i ==> (#[trigger] value@[j] == 9 || (32 <= value@[j] && value@[j] < 127)),
            text@ == value@.take(i as int).map_values(|b: u8| b as char),
        decreases value@.len() - i,
    {
        let b = value[i];
        if !(b == 9 || (32 <= b && b < 127)) {
            assert(!header_is_text(value@)) by {
                assert(!(value@[i as int] == 9 || (32 <= value@[i as int] && value@[i as int] < 127)));
            }
            return false;
        }
        crate::text::push_char(&mut text, b as char);
        i = i + 1;
        assert(text@ =~= value@.take(i as int).map_values(|b: u8| b as char));
    }
    assert(value@.take(value@.len() as int) =~= value@);
    if !crate::text::starts_with(text.as_str(), "Bearer ") {
        return false;
    }
    proof { reveal_strlit("Bearer "); }
    let cs = chars_of(text.as_str());
    let token = suffix_from(&cs, 7);
    api_tokens.contains(token.as_str())
}

/// The listing of all requests, each with the name of its state.
pub fn list_response(requests: Vec<(String, State)>) -> (r: Vec<ApiListResponse>)
    ensures
        r@.len() == requests@.len(),
        forall|i: int| 0 <= i < r@.len() ==> (#[trigger] r@[i]).pub_key == requests@[i].0
            && r@[i].state@ == state_text(requests@[i].1),
{
    let ghost all = requests@;
    let mut rest = requests;
    let mut r: Vec<ApiListResponse> = Vec::new();
    while rest.len() > 0
        invariant
            r@.len() + rest@.len() == all.len(),
            rest@ == all.skip(r@.len() as int),
            forall|i: int| 0 <= i < r@.len() ==> (#[trigger] r@[i]).pub_key == all[i].0
                && r@[i].state@ == state_text(all[i].1),
        decreases rest.len(),
    {
        let ghost n = r@.len();
        let (pub_key, s) = rest.remove(0);
        assert((pub_key, s) == all[n as int]);
        r.push(ApiListResponse { state: s.as_str(), pub_key });
        assert(rest@ =~= all.skip(r@.len() as int));
    }
    r
}

/// The response to `/api/get/{key}` given what the store found: the record, `404` where
/// there is none, `500` where the store failed.
pub fn get_response(key: String, found: Result<Option<(State, JsonValue)>, StorageErr>) -> (r: Result<ApiGetResponse, u16>)
    ensures
        match found {
            Ok(Some((s, data))) => r matches Ok(resp) && resp.pub_key == key && resp.state@ == state_text(s) && resp.data == data,
            Ok(None) => r == Err::<ApiGetResponse, u16>(404),
            Err(_) => r == Err::<ApiGetResponse, u16>(500),
        },
{
    match found {
        Ok(Some((s, data))) => Ok(ApiGetResponse { state: s.as_str(), pub_key: key, data }),
        Ok(None) => Err(404),
        Err(_) => Err(500),
    }
}

/// The states of a transition request; `400` where either names no state.
pub fn transition_states(req: &TransitionRequest) -> (r: Result<(State, State), u16>)
    ensures
        match (state_named(req.old_state@), state_named(req.new_state@)) {
            (Some(from), Some(to)) => r == Ok::<(State, State), u16>((from, to)),
            _ => r == Err::<(State, State), u16>(400),
        },
{
    let from = match State::from_str(req.old_state.as_str()) {
        Some(s) => s,
        None => return Err(400),
    };
    let to = match State::from_str(req.new_state.as_str()) {
        Some(s) => s,
        None => return Err(400),
    };
    Ok((from, to))
}

/// The status that answers a performed transition: `200`, or `500` where the store failed.
pub fn transition_status(result: &Result<(), StorageErr>) -> (r: u16)
    ensures
        r == (if result is Ok { 200u16 } else { 500u16 }),
{
    match result {
        Ok(()) => 200,
        Err(_) => 500,
    }
}

} // verus!
