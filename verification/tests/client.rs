use base64::engine::general_purpose::URL_SAFE_NO_PAD;
use base64::Engine;
use ed25519_dalek::{Signer, SigningKey};
use hc_auth_server::json::JsonValue;
use hc_auth_server::routes_client::{
    admit_authentication, authenticate_reply, body_text, challenge, check_pubkey_bytes, check_signature, check_signed_parts,
    content_type_accepted, payload_timestamp, pending_document, request_auth_reply, signed_request,
    validate_pubkey, validate_signature, Reply, ReplyBody, SignedRequest,
};
use hc_auth_server::storage::{AuthResult, StorageErr};

fn b64(bytes: &[u8]) -> String {
    URL_SAFE_NO_PAD.encode(bytes)
}

fn signer() -> SigningKey {
    SigningKey::from_bytes(&[7u8; 32])
}

fn signed(payload: &[u8]) -> (String, String, String) {
    let key = signer();
    let sig = key.sign(payload);
    (b64(key.verifying_key().as_bytes()), b64(&sig.to_bytes()), b64(payload))
}

#[test]
fn pubkeys_must_be_32_bytes_of_url_safe_base64() {
    assert_eq!(validate_pubkey(&b64(&[1u8; 32])), Ok(()));
    assert_eq!(validate_pubkey(&b64(&[1u8; 31])), Err(()));
    assert_eq!(validate_pubkey(&b64(&[1u8; 33])), Err(()));
    assert_eq!(validate_pubkey("not base64!"), Err(()));
    let padded = base64::engine::general_purpose::URL_SAFE.encode([1u8; 32]);
    assert_eq!(validate_pubkey(&padded), Err(()));
    assert_eq!(check_pubkey_bytes(Some(vec![0u8; 32])), Ok(()));
    assert_eq!(check_pubkey_bytes(Some(vec![0u8; 3])), Err(()));
    assert_eq!(check_pubkey_bytes(None), Err(()));
}

#[test]
fn good_signatures_pass() {
    let payload = [3u8; 32];
    let (k, s, p) = signed(&payload);
    assert_eq!(validate_signature(&k, &s, &p, true), Ok(()));
}

#[test]
fn stale_or_tampered_signatures_fail() {
    let payload = [3u8; 32];
    let (k, s, p) = signed(&payload);
    assert_eq!(validate_signature(&k, &s, &p, false), Err(()));
    let mut other = payload;
    other[31] ^= 1;
    assert_eq!(validate_signature(&k, &s, &b64(&other), true), Err(()));
    let (k2, _, _) = {
        let key = SigningKey::from_bytes(&[9u8; 32]);
        (b64(key.verifying_key().as_bytes()), (), ())
    };
    assert_eq!(validate_signature(&k2, &s, &p, true), Err(()));
    let short = [3u8; 31];
    let (k3, s3, p3) = signed(&short);
    assert_eq!(validate_signature(&k3, &s3, &p3, true), Err(()));
    assert_eq!(validate_signature("%%", &s, &p, true), Err(()));
    assert_eq!(validate_signature(&k, &b64(&[0u8; 63]), &p, true), Err(()));
}

#[test]
fn signed_parts_are_checked_in_bytes() {
    let payload = [5u8; 32];
    let key = signer();
    let sig = key.sign(&payload).to_bytes().to_vec();
    let kb = key.verifying_key().as_bytes().to_vec();
    assert_eq!(check_signed_parts(Some(kb.clone()), Some(sig.clone()), Some(payload.to_vec()), true), Ok(()));
    assert_eq!(check_signed_parts(None, Some(sig.clone()), Some(payload.to_vec()), true), Err(()));
    assert_eq!(check_signed_parts(Some(kb), Some(sig), Some(payload[..31].to_vec()), true), Err(()));
}

#[test]
fn timestamps_are_the_first_eight_bytes() {
    let mut payload = [0u8; 32];
    payload[..8].copy_from_slice(&1234.5f64.to_le_bytes());
    let ts = payload_timestamp(&b64(&payload)).unwrap();
    assert_eq!(f64::from_le_bytes(ts), 1234.5);
    assert_eq!(payload_timestamp(&b64(&[0u8; 31])), None);
    assert_eq!(payload_timestamp("*"), None);
}

#[test]
fn challenges_carry_the_time_stamp() {
    let ts = 42.25f64.to_le_bytes();
    let c = challenge(ts);
    assert_eq!(c.len(), 43);
    assert!(c.chars().all(|ch| ch.is_ascii_alphanumeric() || ch == '-' || ch == '_'));
    let bytes = URL_SAFE_NO_PAD.decode(&c).unwrap();
    assert_eq!(bytes.len(), 32);
    assert_eq!(&bytes[..8], &ts);
    assert_eq!(payload_timestamp(&c), Some(ts));
    assert_ne!(challenge(ts), c);
}

#[test]
fn pending_document_holds_times_and_payload() {
    let d = pending_document(
        JsonValue::Number("1.5".to_string()),
        JsonValue::Number("1.5".to_string()),
        JsonValue::Str("p".to_string()),
    );
    assert_eq!(d.get("createdAt"), Some(&JsonValue::Number("1.5".to_string())));
    assert_eq!(d.get("lastAccess"), Some(&JsonValue::Number("1.5".to_string())));
    assert_eq!(d.get("payload"), Some(&JsonValue::Str("p".to_string())));
}

#[test]
fn request_auth_replies() {
    assert_eq!(request_auth_reply(&Ok(())), Reply { status: 200, body: ReplyBody::Text("OK".to_string()) });
    assert_eq!(
        request_auth_reply(&Err(StorageErr::TooManyPendingRequests)),
        Reply { status: 429, body: ReplyBody::Text("Pending request limit reached".to_string()) }
    );
    assert_eq!(
        request_auth_reply(&Err(StorageErr::Redis("down".to_string()))),
        Reply { status: 500, body: ReplyBody::Text("Failed to store data".to_string()) }
    );
}

#[test]
fn content_type_must_be_octet_stream() {
    assert!(content_type_accepted(Some(b"application/octet-stream")));
    assert!(!content_type_accepted(Some(b"application/json")));
    assert!(!content_type_accepted(Some(b"application/octet-stream; x")));
    assert!(!content_type_accepted(None));
}

#[test]
fn bodies_must_be_utf8() {
    assert_eq!(body_text(b"{}".to_vec()), Some("{}".to_string()));
    assert_eq!(body_text(vec![0xff, 0xfe]), None);
}

fn request_doc(pub_key: Option<&str>, sig: Option<&str>, payload: Option<&str>) -> JsonValue {
    let mut members = Vec::new();
    if let Some(k) = pub_key {
        members.push(("pubKey".to_string(), JsonValue::Str(k.to_string())));
    }
    if let Some(s) = sig {
        members.push(("signature".to_string(), JsonValue::Str(s.to_string())));
    }
    if let Some(p) = payload {
        members.push(("payload".to_string(), JsonValue::Str(p.to_string())));
    }
    JsonValue::Object(members)
}

fn unauthorized() -> Reply {
    Reply { status: 401, body: ReplyBody::Empty }
}

#[test]
fn signed_requests_need_all_fields() {
    let key = b64(&[1u8; 32]);
    let ok = signed_request(&request_doc(Some(&key), Some("s"), Some("p"))).unwrap();
    assert_eq!(ok, SignedRequest { pub_key: key.clone(), signature: "s".to_string(), payload: "p".to_string() });
    assert_eq!(signed_request(&request_doc(None, Some("s"), Some("p"))), Err(unauthorized()));
    assert_eq!(signed_request(&request_doc(Some("bad"), Some("s"), Some("p"))), Err(unauthorized()));
    assert_eq!(signed_request(&request_doc(Some(&key), None, Some("p"))), Err(unauthorized()));
    assert_eq!(signed_request(&JsonValue::Null), Err(unauthorized()));
}

#[test]
fn signature_check_answers_401() {
    let payload = [8u8; 32];
    let (k, s, p) = signed(&payload);
    let req = SignedRequest { pub_key: k, signature: s, payload: p };
    assert_eq!(check_signature(&req, true), Ok(()));
    assert_eq!(check_signature(&req, false), Err(Reply { status: 401, body: ReplyBody::Empty }));
}

#[test]
fn authentication_replies() {
    let r = authenticate_reply(Ok(AuthResult::Authorized("tok".to_string())));
    assert_eq!(r.status, 200);
    assert_eq!(
        r.body,
        ReplyBody::Json(JsonValue::Object(vec![("authToken".to_string(), JsonValue::Str("tok".to_string()))]))
    );
    assert_eq!(authenticate_reply(Ok(AuthResult::Pending)), Reply { status: 202, body: ReplyBody::Empty });
    assert_eq!(authenticate_reply(Ok(AuthResult::Blocked)), Reply { status: 401, body: ReplyBody::Empty });
    assert_eq!(authenticate_reply(Ok(AuthResult::NotFound)), Reply { status: 401, body: ReplyBody::Empty });
    assert_eq!(
        authenticate_reply(Err(StorageErr::Redis("x".to_string()))),
        Reply { status: 500, body: ReplyBody::Empty }
    );
}

#[test]
fn keys_that_are_no_curve_points_are_refused() {
    let payload = [3u8; 32];
    let (_, s, p) = signed(&payload);
    let mut candidate = [0u8; 32];
    let bad = (0u8..=255)
        .find(|b| {
            candidate[0] = *b;
            candidate[31] = 0x7f;
            ed25519_dalek::VerifyingKey::from_bytes(&candidate).is_err()
        })
        .map(|_| candidate)
        .expect("some encoding is no point");
    assert_eq!(validate_signature(&b64(&bad), &s, &p, true), Err(()));
}

#[test]
fn authentication_is_admitted_only_when_every_check_passes() {
    let payload = [5u8; 32];
    let (k, s, p) = signed(&payload);
    let octet: Option<&[u8]> = Some(b"application/octet-stream");
    let doc = request_doc(Some(&k), Some(&s), Some(&p));
    assert_eq!(admit_authentication(octet, Some(&doc), true), Ok(k.clone()));
    assert_eq!(admit_authentication(Some(b"application/json"), Some(&doc), true), Err(unauthorized()));
    assert_eq!(admit_authentication(None, Some(&doc), true), Err(unauthorized()));
    assert_eq!(admit_authentication(octet, None, true), Err(unauthorized()));
    assert_eq!(admit_authentication(octet, Some(&doc), false), Err(unauthorized()));
    let missing = request_doc(Some(&k), None, Some(&p));
    assert_eq!(admit_authentication(octet, Some(&missing), true), Err(unauthorized()));
    let (_, other_sig, _) = signed(&[6u8; 32]);
    let forged = request_doc(Some(&k), Some(&other_sig), Some(&p));
    assert_eq!(admit_authentication(octet, Some(&forged), true), Err(unauthorized()));
}

#[test]
fn signed_challenges_are_accepted_while_fresh() {
    let c = challenge(7.5f64.to_le_bytes());
    let payload = URL_SAFE_NO_PAD.decode(&c).unwrap();
    let key = signer();
    let sig = key.sign(&payload);
    let pk = b64(key.verifying_key().as_bytes());
    let s = b64(&sig.to_bytes());
    assert_eq!(validate_signature(&pk, &s, &c, true), Ok(()));
    assert_eq!(validate_signature(&pk, &s, &c, false), Err(()));
}
