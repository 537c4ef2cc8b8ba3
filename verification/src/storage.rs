pub mod types;

use vstd::prelude::*;
use crate::encoding::{base64url_encode, encode_base64url, is_base64url_text, random_value};
use crate::json::{json_str_field, json_with_field, JsonData, JsonValue};
use crate::text::{concat, contains_text, decimal, decimal_string, occurs_in};
pub use types::{state_named, state_text, AuthResult, ObjectRecord, State, StorageErr};

verus! {

/// The store key of a key's record.
pub open spec fn auth_key_text(id: Seq<char>) -> Seq<char> {
    "auth:"@ + id
}

/// The store key of the set of keys in a state.
pub open spec fn state_key_text(s: State) -> Seq<char> {
    "state:"@ + state_text(s)
}

/// Formats the store key for an authentication record.
pub fn auth_key(id: &str) -> (r: String)
    ensures
        r@ == auth_key_text(id@),
{
    concat("auth:", id)
}

/// Formats the store key for the set of IDs in a given state.
pub fn state_key(state: State) -> (r: String)
    ensures
        r@ == state_key_text(state),
{
    concat("state:", state.as_str())
}

/// The given time, in whole seconds since the Unix epoch, as decimal text.
pub fn now_secs(unix_secs: u64) -> (r: String)
    ensures
        r@ == decimal(unix_secs as nat),
{
    decimal_string(unix_secs)
}

/// The record that the `state` and `json` fields of a stored hash make: present when
/// both fields are there and the state names a state.
pub fn record_from_fields(state: Option<String>, json: Option<String>) -> (r: Option<ObjectRecord>)
    ensures
        match r {
            Some(rec) => state matches Some(s) && state_text(rec.state) == s@ && json == Some(rec.json),
            None => !(state matches Some(s) && json is Some && exists|st: State| state_text(st) == s@),
        },
{
    match (state, json) {
        (Some(s), Some(j)) => match State::from_str(s.as_str()) {
            Some(st) => Some(ObjectRecord { state: st, json: j }),
            None => None,
        },
        _ => None,
    }
}

/// Splits a flat list `[k0, v0, k1, v1, ...]` into pairs; a last unpaired item is dropped.
pub fn entry_pairs(flat: Vec<String>) -> (r: Vec<(String, String)>)
    ensures
        r@.len() == flat@.len() / 2,
        forall|i: int| 0 <= i < r@.len() ==> #[trigger] r@[i] == (flat@[2 * i], flat@[2 * i + 1]),
{
    let mut rest = flat;
    let ghost orig = rest@;
    let mut r: Vec<(String, String)> = Vec::new();
    let ghost mut done: int = 0;
    while rest.len() >= 2
        invariant
            0 <= 2 * done <= orig.len(),
            rest@ == orig.skip(2 * done),
            r@.len() == done,
            forall|i: int| 0 <= i < done ==> #[trigger] r@[i] == (orig[2 * i], orig[2 * i + 1]),
        decreases rest.len(),
    {
        let k = rest.remove(0);
        let v = rest.remove(0);
        assert(k == orig[2 * done]);
        assert(v == orig[2 * done + 1]);
        r.push((k, v));
        proof {
            assert(rest@ =~= orig.skip(2 * (done + 1)));
            done = done + 1;
        }
    }
    r
}

/// Each key paired with the state it was listed under.
pub fn with_state(keys: Vec<String>, state: State) -> (r: Vec<(String, State)>)
    ensures
        r@.len() == keys@.len(),
        forall|i: int| 0 <= i < r@.len() ==> #[trigger] r@[i] == (keys@[i], state),
{
    let mut rest = keys;
    let ghost orig = rest@;
    let mut r: Vec<(String, State)> = Vec::new();
    while rest.len() > 0
        invariant
            r@.len() + rest@.len() == orig.len(),
            rest@ == orig.skip(r@.len() as int),
            forall|i: int| 0 <= i < r@.len() ==> #[trigger] r@[i] == (orig[i], state),
        decreases rest.len(),
    {
        let ghost n = r@.len();
        let k = rest.remove(0);
        assert(k == orig[n as int]);
        r.push((k, state));
        assert(rest@ =~= orig.skip(r@.len() as int));
    }
    r
}

/// The states in the order in which all requests are listed.
pub fn listing_order() -> (r: [State; 3])
    ensures
        r@ == seq![State::Pending, State::Authorized, State::Blocked],
{
    let r = [State::Pending, State::Authorized, State::Blocked];
    assert(r@ =~= seq![State::Pending, State::Authorized, State::Blocked]);
    r
}

/// The error that a failed add of a pending request stands for: the limit on pending
/// requests where the store's message says `limit_reached`, the store's error otherwise.
pub fn classify_add_pending_error(message: String) -> (r: StorageErr)
    ensures
        occurs_in("limit_reached"@, message@) ==> r == StorageErr::TooManyPendingRequests,
        !occurs_in("limit_reached"@, message@) ==> r == StorageErr::Redis(message),
{
    if contains_text(message.as_str(), "limit_reached") {
        StorageErr::TooManyPendingRequests
    } else {
        StorageErr::Redis(message)
    }
}

/// What an authentication attempt leads to.
#[derive(Debug)]
pub enum AccessDecision {
    /// Answer with this result; nothing is written.
    Reply(AuthResult),
    /// Write the document back and answer `Authorized(token)`.
    Grant { json: JsonValue, token: String },
}

/// The document of a granted access: `lastAccess` set to `now`, and `authToken` set to
/// `fresh` where the document held no string token.
pub open spec fn granted_document(json: JsonData, now: Seq<char>, fresh: Seq<char>) -> JsonData {
    let stamped = json_with_field(json, "lastAccess"@, JsonData::Str(now));
    match json_str_field(json, "authToken"@) {
        Some(_) => stamped,
        None => json_with_field(stamped, "authToken"@, JsonData::Str(fresh)),
    }
}

/// The token of a granted access: the stored one, or `fresh` where there is none.
pub open spec fn granted_token(json: JsonData, fresh: Seq<char>) -> Seq<char> {
    match json_str_field(json, "authToken"@) {
        Some(t) => t,
        None => fresh,
    }
}

/// Whether a granted access needs a new token.
pub open spec fn needs_token(json: JsonData) -> bool {
    json is Object && json_str_field(json, "authToken"@) is None
}

/// The decision for a key in the given state with the given document, where `fresh` is
/// the token to hand out if the document holds none.
pub open spec fn access_spec(state: State, json: JsonData, now: Seq<char>, fresh: Seq<char>, d: AccessDecision) -> bool {
    match state {
        State::Pending => d == AccessDecision::Reply(AuthResult::Pending),
        State::Blocked => d == AccessDecision::Reply(AuthResult::Blocked),
        State::Authorized => if json is Object {
            d matches AccessDecision::Grant { json: j, token: t }
                && j.data() == granted_document(json, now, fresh)
                && t@ == granted_token(json, fresh)
        } else {
            d == AccessDecision::Reply(AuthResult::NotFound)
        },
    }
}

/// Decides an authentication attempt with the token to hand out where none is stored.
pub fn decide_access_with(state: State, json: JsonValue, now: &str, fresh: String) -> (d: AccessDecision)
    ensures
        access_spec(state, json.data(), now@, fresh@, d),
{
    match state {
        State::Pending => AccessDecision::Reply(AuthResult::Pending),
        State::Blocked => AccessDecision::Reply(AuthResult::Blocked),
        State::Authorized => {
            if !json.is_object() {
                return AccessDecision::Reply(AuthResult::NotFound);
            }
            let existing: Option<String> = match json.get_str("authToken") {
                Some(t) => Some(t.clone()),
                None => None,
            };
            let mut doc = json;
            doc.set_field("lastAccess", JsonValue::Str(String::from_str(now)));
            match existing {
                Some(t) => AccessDecision::Grant { json: doc, token: t },
                None => {
                    doc.set_field("authToken", JsonValue::Str(fresh.clone()));
                    AccessDecision::Grant { json: doc, token: fresh }
                },
            }
        },
    }
}

/// A new authentication token: 32 random bytes, URL-safe base64 without padding, so 43
/// characters of the URL-safe alphabet.
pub fn new_auth_token() -> (r: String)
    ensures
        exists|b: Seq<u8>| b.len() == 32 && r@ == base64url_encode(b),
        r@.len() == 43,
        is_base64url_text(r@),
{
    let b: [u8; 32] = random_value::<[u8; 32]>();
    encode_base64url(&b)
}

/// Decides an authentication attempt; a new random token is drawn only where the
/// document of an authorized key holds none.
pub fn decide_access(state: State, json: JsonValue, now: &str) -> (d: AccessDecision)
    ensures
        exists|fresh: Seq<char>| access_spec(state, json.data(), now@, fresh, d),
        state == State::Authorized && needs_token(json.data()) ==> (d matches AccessDecision::Grant { token: t, .. }
            && (exists|b: Seq<u8>| b.len() == 32 && t@ == base64url_encode(b))
            && t@.len() == 43 && is_base64url_text(t@)),
{
    let need = match state {
        State::Authorized => json.is_object() && json.get_str("authToken").is_none(),
        _ => false,
    };
    let fresh = if need { new_auth_token() } else { String::new() };
    decide_access_with(state, json, now, fresh)
}


/// Once granted, the token stays: deciding again on the document that a grant wrote
/// hands out the same token, whatever time it is and whatever fresh token is offered.
pub proof fn lemma_granted_token_is_kept(json: JsonData, now: Seq<char>, fresh: Seq<char>, later: Seq<char>, other_fresh: Seq<char>)
    requires
        json is Object,
    ensures
        granted_document(json, now, fresh) is Object,
        json_str_field(granted_document(json, now, fresh), "authToken"@) == Some(granted_token(json, fresh)),
        granted_token(granted_document(json, now, fresh), other_fresh) == granted_token(json, fresh),
        json_str_field(granted_document(json, now, fresh), "lastAccess"@) == Some(now),
{
    reveal_strlit("lastAccess");
    reveal_strlit("authToken");
    assert("lastAccess"@ != "authToken"@) by {
        assert("lastAccess"@[0] != "authToken"@[0]);
    }
    let stamped = json_with_field(json, "lastAccess"@, JsonData::Str(now));
    crate::json::lemma_get_after_set(json, "lastAccess"@, JsonData::Str(now), "authToken"@);
    match json_str_field(json, "authToken"@) {
        Some(_) => {},
        None => {
            crate::json::lemma_get_after_set(stamped, "authToken"@, JsonData::Str(fresh), "lastAccess"@);
        },
    }
}

} // verus!

verus! {

/// A stored document as it is shown: the parsed document, or the stored text itself as a
/// JSON string where the text does not parse.
pub fn value_or_text(parsed: Option<JsonValue>, text: String) -> (r: JsonValue)
    ensures
        match parsed {
            Some(v) => r == v,
            None => r == JsonValue::Str(text),
        },
{
    match parsed {
        Some(v) => v,
        None => JsonValue::Str(text),
    }
}

} // verus!
