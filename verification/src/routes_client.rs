use vstd::prelude::*;
use crate::crypto::{ed25519_key_accepted, ed25519_strict_verifies, leading_array, read_public_key, verify_strict};
use crate::encoding::{base64url_decode, base64url_encode, decode_base64url, encode_base64url, is_base64url_text, random_value};
use crate::json::{json_field, json_str_field, JsonData, JsonValue};
use crate::storage::{AuthResult, StorageErr};

verus! {

/// The body of an HTTP reply.
#[derive(Debug, PartialEq, Eq)]
pub enum ReplyBody {
    Empty,
    Text(String),
    Json(JsonValue),
}

/// An HTTP reply: status code and body.
#[derive(Debug, PartialEq, Eq)]
pub struct Reply {
    pub status: u16,
    pub body: ReplyBody,
}

/// A reply with a status code and no body.
pub fn status_reply(status: u16) -> (r: Reply)
    ensures
        r == (Reply { status, body: ReplyBody::Empty }),
{
    Reply { status, body: ReplyBody::Empty }
}

/// Whether a text is a public key: URL-safe base64 of exactly 32 bytes.
pub open spec fn pubkey_accepted(text: Seq<char>) -> bool {
    base64url_decode(text) matches Some(b) && b.len() == 32
}

/// Checks the result of decoding a public key: it must be exactly 32 bytes.
pub fn check_pubkey_bytes(decoded: Option<Vec<u8>>) -> (r: Result<(), ()>)
    ensures
        r is Ok <==> (decoded matches Some(b) && b@.len() == 32),
{
    match decoded {
        Some(b) => if b.len() == 32 { Ok(()) } else { Err(()) },
        None => Err(()),
    }
}

/// Validates that a string is a valid base64url encoded 32-byte public key.
pub fn validate_pubkey(pk: &str) -> (r: Result<(), ()>)
    ensures
        r is Ok <==> pubkey_accepted(pk@),
{
    check_pubkey_bytes(decode_base64url(pk))
}

/// The bytes of an optional byte list.
pub open spec fn bytes_of(o: Option<Vec<u8>>) -> Option<Seq<u8>> {
    match o {
        Some(b) => Some(b@),
        None => None,
    }
}

/// The bytes of an optional byte slice.
pub open spec fn slice_bytes_of(o: Option<&[u8]>) -> Option<Seq<u8>> {
    match o {
        Some(b) => Some(b@),
        None => None,
    }
}

/// Whether decoded key, signature and payload make a valid signed challenge: a 32-byte
/// payload whose time stamp is fresh, a 32-byte key that Ed25519 accepts, and a 64-byte
/// signature that verifies strictly over the whole payload.
pub open spec fn signed_parts_accepted(key: Option<Seq<u8>>, sig: Option<Seq<u8>>, payload: Option<Seq<u8>>, fresh: bool) -> bool {
    &&& key matches Some(k)
    &&& sig matches Some(s)
    &&& payload matches Some(p)
    &&& p.len() == 32
    &&& fresh
    &&& k.len() == 32
    &&& ed25519_key_accepted(k)
    &&& s.len() == 64
    &&& ed25519_strict_verifies(k, p, s)
}

/// Checks decoded key, signature and payload bytes; `fresh` tells whether the payload's
/// time stamp lies within the allowed drift of the current time.
pub fn check_signed_parts(key: Option<Vec<u8>>, sig: Option<Vec<u8>>, payload: Option<Vec<u8>>, fresh: bool) -> (r: Result<(), ()>)
    ensures
        r is Ok <==> signed_parts_accepted(bytes_of(key), bytes_of(sig), bytes_of(payload), fresh),
{
    let key = match key { Some(k) => k, None => return Err(()) };
    let sig = match sig { Some(s) => s, None => return Err(()) };
    let payload = match payload { Some(p) => p, None => return Err(()) };
    if payload.len() != 32 {
        return Err(());
    }
    if !fresh {
        return Err(());
    }
    if key.len() != 32 {
        return Err(());
    }
    let key_bytes: [u8; 32] = leading_array::<32>(&key);
    assert(key_bytes@ =~= key@);
    let public_key = match read_public_key(key_bytes) {
        Some(pk) => pk,
        None => return Err(()),
    };
    if sig.len() != 64 {
        return Err(());
    }
    let sig_bytes: [u8; 64] = leading_array::<64>(&sig);
    assert(sig_bytes@ =~= sig@);
    if verify_strict(&public_key, payload.as_slice(), sig_bytes) {
        Ok(())
    } else {
        Err(())
    }
}

/// Whether a signed challenge, given as URL-safe base64 texts, is valid.
pub open spec fn signature_accepted(pk: Seq<char>, sig: Seq<char>, payload: Seq<char>, fresh: bool) -> bool {
    signed_parts_accepted(base64url_decode(pk), base64url_decode(sig), base64url_decode(payload), fresh)
}

/// Verifies an Ed25519 signature over a payload; `fresh` tells whether the payload's time
/// stamp lies within the allowed drift (see `payload_timestamp`).
pub fn validate_signature(
    base64_url_encoded_pubkey: &str,
    base64_url_encoded_signature: &str,
    base64_url_encoded_payload: &str,
    fresh: bool,
) -> (r: Result<(), ()>)
    ensures
        r is Ok <==> signature_accepted(base64_url_encoded_pubkey@, base64_url_encoded_signature@, base64_url_encoded_payload@, fresh),
{
    let k = decode_base64url(base64_url_encoded_pubkey);
    let s = decode_base64url(base64_url_encoded_signature);
    let p = decode_base64url(base64_url_encoded_payload);
    check_signed_parts(k, s, p, fresh)
}

/// The time stamp bytes of a payload text: the first 8 bytes of what it decodes to, where
/// that is exactly 32 bytes.
pub open spec fn payload_timestamp_spec(payload: Seq<char>) -> Option<Seq<u8>> {
    match base64url_decode(payload) {
        Some(p) => if p.len() == 32 { Some(p.take(8)) } else { None },
        None => None,
    }
}

/// The time stamp bytes of a payload: its first 8 bytes, present when the payload decodes
/// to exactly 32 bytes.
pub fn payload_timestamp(base64_url_encoded_payload: &str) -> (r: Option<[u8; 8]>)
    ensures
        match r {
            Some(ts) => payload_timestamp_spec(base64_url_encoded_payload@) == Some(ts@),
            None => payload_timestamp_spec(base64_url_encoded_payload@) is None,
        },
{
    match decode_base64url(base64_url_encoded_payload) {
        Some(p) => if p.len() == 32 { Some(leading_array::<8>(&p)) } else { None },
        None => None,
    }
}

/// Whether a text is a challenge made from a time stamp: the URL-safe base64 of the time
/// stamp bytes followed by 24 nonce bytes, which decodes back to those 32 bytes.
pub open spec fn is_challenge_for(text: Seq<char>, timestamp: Seq<u8>) -> bool {
    exists|nonce: Seq<u8>|
        #![trigger base64url_encode(timestamp + nonce)]
        nonce.len() == 24 && text == base64url_encode(timestamp + nonce) && base64url_decode(text) == Some(timestamp + nonce)
}

/// A challenge for a client to sign: the 8 time stamp bytes followed by 24 random bytes,
/// URL-safe base64 without padding.
pub fn challenge(timestamp_le: [u8; 8]) -> (r: String)
    ensures
        is_challenge_for(r@, timestamp_le@),
        r@.len() == 43,
        is_base64url_text(r@),
{
    let nonce: [u8; 24] = random_value::<[u8; 24]>();
    let mut buf: Vec<u8> = Vec::new();
    let mut i: usize = 0;
    while i < 8
        invariant
            i <= 8,
            buf@ == timestamp_le@.take(i as int),
        decreases 8 - i,
    {
        buf.push(timestamp_le[i]);
        i = i + 1;
        assert(buf@ =~= timestamp_le@.take(i as int));
    }
    let mut j: usize = 0;
    while j < 24
        invariant
            j <= 24,
            buf@ == timestamp_le@ + nonce@.take(j as int),
        decreases 24 - j,
    {
        buf.push(nonce[j]);
        j = j + 1;
        assert(buf@ =~= timestamp_le@ + nonce@.take(j as int));
    }
    assert(timestamp_le@.take(8) =~= timestamp_le@);
    assert(nonce@.take(24) =~= nonce@);
    let r = encode_base64url(buf.as_slice());
    assert(base64url_encode(timestamp_le@ + nonce@) == r@);
    r
}

/// Reading the time stamp of a challenge gives back the time stamp it was made with.
pub proof fn lemma_challenge_timestamp(text: Seq<char>, timestamp: Seq<u8>)
    requires
        timestamp.len() == 8,
        is_challenge_for(text, timestamp),
    ensures
        payload_timestamp_spec(text) == Some(timestamp),
{
    let nonce = choose|nonce: Seq<u8>|
        #![trigger base64url_encode(timestamp + nonce)]
        nonce.len() == 24 && text == base64url_encode(timestamp + nonce) && base64url_decode(text) == Some(timestamp + nonce);
    assert((timestamp + nonce).take(8) =~= timestamp);
}

/// A challenge signed with a key is accepted while it is fresh: where the key text decodes
/// to a public key that Ed25519 accepts and the signature text to 64 bytes that verify
/// over the challenge's bytes, `validate_signature` succeeds on the fresh challenge.
pub proof fn lemma_signed_challenge_accepted(
    pk: Seq<char>,
    sig: Seq<char>,
    text: Seq<char>,
    timestamp: Seq<u8>,
    key: Seq<u8>,
    signature: Seq<u8>,
)
    requires
        timestamp.len() == 8,
        is_challenge_for(text, timestamp),
        base64url_decode(pk) == Some(key),
        key.len() == 32,
        ed25519_key_accepted(key),
        base64url_decode(sig) == Some(signature),
        signature.len() == 64,
        base64url_decode(text) matches Some(p) && ed25519_strict_verifies(key, p, signature),
    ensures
        signature_accepted(pk, sig, text, true),
{
    lemma_challenge_timestamp(text, timestamp);
}

// ---------------------------------------------------------------------------------------
// PUT /request-auth/{key}

/// The document stored for a new authentication request.
pub open spec fn pending_document_spec(created_at: JsonData, last_access: JsonData, payload: JsonData) -> JsonData {
    JsonData::Object(seq![
        ("createdAt"@, created_at),
        ("lastAccess"@, last_access),
        ("payload"@, payload),
    ])
}

/// Builds the document stored for a new authentication request from the two time
/// stamps and the client's payload.
pub fn pending_document(created_at: JsonValue, last_access: JsonValue, payload: JsonValue) -> (r: JsonValue)
    ensures
        r.data() == pending_document_spec(created_at.data(), last_access.data(), payload.data()),
        json_field(r.data(), "createdAt"@) == Some(created_at.data()),
        json_field(r.data(), "lastAccess"@) == Some(last_access.data()),
        json_field(r.data(), "payload"@) == Some(payload.data()),
{
    proof { lemma_pending_document_members(created_at.data(), last_access.data(), payload.data()); }
    let ghost (c, l, p) = (created_at.data(), last_access.data(), payload.data());
    let mut members: Vec<(String, JsonValue)> = Vec::new();
    members.push((String::from_str("createdAt"), created_at));
    members.push((String::from_str("lastAccess"), last_access));
    members.push((String::from_str("payload"), payload));
    proof {
        crate::json::lemma_members_data(members@);
        assert(crate::json::members_data(members@) =~= seq![("createdAt"@, c), ("lastAccess"@, l), ("payload"@, p)]);
    }
    JsonValue::Object(members)
}

/// A pending request's document is an object of exactly three members, whatever kind of
/// JSON value the client's payload is: `createdAt` and `lastAccess` read back the two time
/// stamps, and `payload` reads back the payload itself, nested and unchanged.
pub proof fn lemma_pending_document_members(created_at: JsonData, last_access: JsonData, payload: JsonData)
    ensures
        pending_document_spec(created_at, last_access, payload) matches JsonData::Object(m) && m.len() == 3,
        json_field(pending_document_spec(created_at, last_access, payload), "createdAt"@) == Some(created_at),
        json_field(pending_document_spec(created_at, last_access, payload), "lastAccess"@) == Some(last_access),
        json_field(pending_document_spec(created_at, last_access, payload), "payload"@) == Some(payload),
{
    reveal_strlit("createdAt");
    reveal_strlit("lastAccess");
    reveal_strlit("payload");
    let m = seq![("createdAt"@, created_at), ("lastAccess"@, last_access), ("payload"@, payload)];
    assert("createdAt"@ != "lastAccess"@) by { assert("createdAt"@[0] != "lastAccess"@[0]); }
    assert("createdAt"@ != "payload"@) by { assert("createdAt"@[0] != "payload"@[0]); }
    assert("lastAccess"@ != "payload"@) by { assert("lastAccess"@[0] != "payload"@[0]); }
    assert(m.drop_last() =~= seq![("createdAt"@, created_at), ("lastAccess"@, last_access)]);
    assert(m.drop_last().drop_last() =~= seq![("createdAt"@, created_at)]);
    assert(m.drop_last().drop_last().drop_last() =~= Seq::<(Seq<char>, JsonData)>::empty());
    reveal_with_fuel(crate::json::member_lookup, 4);
}

/// The reply to a request for authentication whose key was accepted, given what storing it gave.
pub open spec fn request_auth_reply_spec(stored: Result<(), StorageErr>) -> (u16, Seq<char>) {
    match stored {
        Ok(()) => (200, "OK"@),
        Err(StorageErr::TooManyPendingRequests) => (429, "Pending request limit reached"@),
        Err(_) => (500, "Failed to store data"@),
    }
}

/// The reply to a request for authentication whose key was accepted.
pub fn request_auth_reply(stored: &Result<(), StorageErr>) -> (r: Reply)
    ensures
        r.body matches ReplyBody::Text(t) && (r.status, t@) == request_auth_reply_spec(*stored),
{
    match stored {
        Ok(()) => Reply { status: 200, body: ReplyBody::Text(String::from_str("OK")) },
        Err(StorageErr::TooManyPendingRequests) => Reply {
            status: 429,
            body: ReplyBody::Text(String::from_str("Pending request limit reached")),
        },
        Err(_) => Reply { status: 500, body: ReplyBody::Text(String::from_str("Failed to store data")) },
    }
}

// ---------------------------------------------------------------------------------------
// PUT /authenticate

/// Whether a content-type header value is exactly `application/octet-stream`.
pub open spec fn octet_stream_type(ct: Option<Seq<u8>>) -> bool {
    ct matches Some(b) && b == "application/octet-stream"@.map_values(|c: char| c as u8)
}

/// Checks the content type of an authentication request.
pub fn content_type_accepted(content_type: Option<&[u8]>) -> (r: bool)
    ensures
        r == octet_stream_type(slice_bytes_of(content_type)),
{
    let expected = "application/octet-stream";
    proof { reveal_strlit("application/octet-stream"); }
    let want: Vec<u8> = ascii_bytes(expected);
    match content_type {
        Some(b) => {
            if b.len() != want.len() {
                return false;
            }
            let mut i: usize = 0;
            while i < b.len()
                invariant
                    slice_bytes_of(content_type) == Some(b@),
                    b@.len() == want@.len(),
                    want@ == "application/octet-stream"@.map_values(|c: char| c as u8),
                    i <= b@.len(),
                    forall|k: int| 0 <= k < i ==> b@[k] == want@[k],
                decreases b@.len() - i,
            {
                if b[i] != want[i] {
                    assert(b@[i as int] != want@[i as int]);
                    return false;
                }
                i = i + 1;
            }
            assert(b@ =~= want@);
            true
        },
        None => false,
    }
}

/// The low byte of each character of an ASCII text.
fn ascii_bytes(s: &str) -> (r: Vec<u8>)
    ensures
        r@ == s@.map_values(|c: char| c as u8),
{
    let cs = crate::text::chars_of(s);
    let mut r: Vec<u8> = Vec::new();
    let mut i: usize = 0;
    while i < cs.len()
        invariant
            cs@ == s@,
            i <= cs@.len(),
            r@ == cs@.take(i as int).map_values(|c: char| c as u8),
        decreases cs@.len() - i,
    {
        r.push(cs[i] as u8);
        i = i + 1;
        assert(r@ =~= cs@.take(i as int).map_values(|c: char| c as u8));
    }
    assert(cs@.take(cs@.len() as int) =~= cs@);
    r
}

/// Calls `String::from_utf8` of std, which returns the text that the bytes encode, and an
/// error exactly where they are not valid UTF-8.
#[verifier::external_body]
pub(crate) fn utf8_text(bytes: Vec<u8>) -> (r: Option<String>)
    ensures
        r is Some <==> vstd::utf8::valid_utf8(bytes@),
        r matches Some(s) ==> s@ == vstd::utf8::decode_utf8(bytes@),
{
    String::from_utf8(bytes).ok()
}

/// The body of an authentication request as text, if it is valid UTF-8.
pub fn body_text(body: Vec<u8>) -> (r: Option<String>)
    ensures
        r is Some <==> vstd::utf8::valid_utf8(body@),
        r matches Some(s) ==> s@ == vstd::utf8::decode_utf8(body@),
{
    utf8_text(body)
}

/// The fields of a signed authentication request.
#[derive(Debug, PartialEq, Eq)]
pub struct SignedRequest {
    pub pub_key: String,
    pub signature: String,
    pub payload: String,
}

/// Which fields a request document must carry to be checked further: a string `pubKey`
/// that is a public key, and string `signature` and `payload`.
pub open spec fn signed_request_spec(body: JsonData, r: Result<SignedRequest, Reply>) -> bool {
    match (json_str_field(body, "pubKey"@), json_str_field(body, "signature"@), json_str_field(body, "payload"@)) {
        (Some(k), Some(s), Some(p)) if pubkey_accepted(k) =>
            r matches Ok(req) && req.pub_key@ == k && req.signature@ == s && req.payload@ == p,
        _ => r == Err::<SignedRequest, Reply>(Reply { status: 401, body: ReplyBody::Empty }),
    }
}

/// Reads the public key, signature and payload out of an authentication request and
/// validates the key; any missing field or a bad key is answered `401 Unauthorized`.
pub fn signed_request(body: &JsonValue) -> (r: Result<SignedRequest, Reply>)
    ensures
        signed_request_spec(body.data(), r),
{
    let signature = body.get_str("signature");
    let payload = body.get_str("payload");
    match body.get_str("pubKey") {
        Some(pub_key) => {
            if validate_pubkey(pub_key.as_str()).is_err() {
                return Err(status_reply(401));
            }
            match (signature, payload) {
                (Some(s), Some(p)) => Ok(SignedRequest {
                    pub_key: pub_key.clone(),
                    signature: s.clone(),
                    payload: p.clone(),
                }),
                _ => Err(status_reply(401)),
            }
        },
        None => Err(status_reply(401)),
    }
}

/// Checks the signature of a request; a bad one is answered `401 Unauthorized`.
pub fn check_signature(req: &SignedRequest, fresh: bool) -> (r: Result<(), Reply>)
    ensures
        r is Ok <==> signature_accepted(req.pub_key@, req.signature@, req.payload@, fresh),
        r matches Err(reply) ==> reply == (Reply { status: 401, body: ReplyBody::Empty }),
{
    match validate_signature(req.pub_key.as_str(), req.signature.as_str(), req.payload.as_str(), fresh) {
        Ok(()) => Ok(()),
        Err(()) => Err(status_reply(401)),
    }
}

/// The reply to an authentication attempt whose signature was accepted, given what the
/// store answered.
pub open spec fn authenticate_reply_spec(outcome: Result<AuthResult, StorageErr>, r: Reply) -> bool {
    match outcome {
        Ok(AuthResult::Authorized(token)) => r.status == 200 && (r.body matches ReplyBody::Json(j)
            && j.data() == JsonData::Object(seq![("authToken"@, JsonData::Str(token@))])),
        Ok(AuthResult::Pending) => r == (Reply { status: 202, body: ReplyBody::Empty }),
        Ok(_) => r == (Reply { status: 401, body: ReplyBody::Empty }),
        Err(_) => r == (Reply { status: 500, body: ReplyBody::Empty }),
    }
}

/// The reply to an authentication attempt whose signature was accepted.
pub fn authenticate_reply(outcome: Result<AuthResult, StorageErr>) -> (r: Reply)
    ensures
        authenticate_reply_spec(outcome, r),
{
    match outcome {
        Ok(AuthResult::Authorized(token)) => {
            let ghost t = token@;
            let mut members: Vec<(String, JsonValue)> = Vec::new();
            members.push((String::from_str("authToken"), JsonValue::Str(token)));
            proof {
                crate::json::lemma_members_data(members@);
                assert(crate::json::members_data(members@) =~= seq![("authToken"@, JsonData::Str(t))]);
            }
            Reply { status: 200, body: ReplyBody::Json(JsonValue::Object(members)) }
        },
        Ok(AuthResult::Pending) => status_reply(202),
        Ok(_) => status_reply(401),
        Err(_) => status_reply(500),
    }
}

/// The document of an optional request body.
pub open spec fn body_data(body: Option<&JsonValue>) -> Option<JsonData> {
    match body {
        Some(b) => Some(b.data()),
        None => None,
    }
}

/// The public key of an authentication request that passes every check, in order: the
/// content type is `application/octet-stream`, the body is a JSON document with string
/// members `pubKey`, `signature` and `payload`, the key is a public key, and the
/// signature over the fresh payload verifies. `None` when any check fails.
pub open spec fn admitted_key(content_type: Option<Seq<u8>>, body: Option<JsonData>, fresh: bool) -> Option<Seq<char>> {
    match body {
        Some(b) => match (json_str_field(b, "pubKey"@), json_str_field(b, "signature"@), json_str_field(b, "payload"@)) {
            (Some(k), Some(s), Some(p)) =>
                if octet_stream_type(content_type) && pubkey_accepted(k) && signature_accepted(k, s, p, fresh) {
                    Some(k)
                } else {
                    None
                },
            _ => None,
        },
        None => None,
    }
}

/// Runs every check of an authentication request before the store is asked: gives the
/// public key to authenticate when all pass, and the `401 Unauthorized` reply otherwise.
/// `body` is the request body read as a JSON document (`None` when it is not UTF-8 text
/// or not JSON), and `fresh` tells whether its payload's time stamp is within the drift.
pub fn admit_authentication(content_type: Option<&[u8]>, body: Option<&JsonValue>, fresh: bool) -> (r: Result<String, Reply>)
    ensures
        match r {
            Ok(k) => admitted_key(slice_bytes_of(content_type), body_data(body), fresh) == Some(k@),
            Err(reply) => admitted_key(slice_bytes_of(content_type), body_data(body), fresh) is None
                && reply == (Reply { status: 401, body: ReplyBody::Empty }),
        },
{
    if !content_type_accepted(content_type) {
        return Err(status_reply(401));
    }
    let doc = match body {
        Some(b) => b,
        None => return Err(status_reply(401)),
    };
    let req = match signed_request(doc) {
        Ok(req) => req,
        Err(reply) => return Err(reply),
    };
    match check_signature(&req, fresh) {
        Ok(()) => Ok(req.pub_key),
        Err(reply) => Err(reply),
    }
}

} // verus!
