use hc_auth_server::oauth::{oauth_login_request, GITHUB_AUTHORIZE_URL, LOGIN_SCOPE};
use oauth2::{PkceCodeChallenge, PkceCodeVerifier};

#[test]
fn login_requests_carry_client_state_challenge_and_scope() {
    let callback = "http://127.0.0.1:3000/ops-oauth-callback";
    let req = oauth_login_request("client-123", callback).unwrap();
    let challenge = PkceCodeChallenge::from_code_verifier_sha256(&PkceCodeVerifier::new(req.pkce_verifier.clone()));
    let expected = format!(
        "https://github.com/login/oauth/authorize?response_type=code&client_id=client-123&state={}&code_challenge={}&code_challenge_method=S256&redirect_uri=http%3A%2F%2F127.0.0.1%3A3000%2Fops-oauth-callback&scope=read%3Aorg",
        req.state,
        challenge.as_str()
    );
    assert_eq!(req.url, expected);
    assert_eq!(req.pkce_verifier.len(), 43);
    assert!(!req.state.is_empty());
}

#[test]
fn login_requests_are_drawn_anew() {
    let a = oauth_login_request("c", "https://auth.example/ops-oauth-callback").unwrap();
    let b = oauth_login_request("c", "https://auth.example/ops-oauth-callback").unwrap();
    assert_ne!(a.state, b.state);
    assert_ne!(a.pkce_verifier, b.pkce_verifier);
}

#[test]
fn login_requests_need_a_redirect_url() {
    assert_eq!(oauth_login_request("c", "not a url"), None);
}

#[test]
fn login_constants() {
    assert_eq!(GITHUB_AUTHORIZE_URL, "https://github.com/login/oauth/authorize");
    assert_eq!(LOGIN_SCOPE, "read:org");
}
