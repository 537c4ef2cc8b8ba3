use vstd::prelude::*;
use oauth2::basic::BasicClient;
use oauth2::{AuthUrl, ClientId, CsrfToken, PkceCodeChallenge, RedirectUrl, Scope};

verus! {

#[verifier::external_type_specification]
#[verifier::external_body]
pub struct ExPkceCodeChallenge(PkceCodeChallenge);

/// The PKCE code challenge that `oauth2`'s `PkceCodeChallenge::from_code_verifier_sha256`
/// derives from a verifier: the unpadded URL-safe base64 of the verifier's SHA-256 digest.
pub uninterp spec fn pkce_s256_challenge(verifier: Seq<char>) -> Seq<char>;

/// The authorization address that `oauth2`'s `AuthorizationRequest::url` builds for a
/// client with this authorization endpoint, client id and redirect address, a state, an
/// S256 code challenge and one scope; `None` where the endpoint or the redirect address
/// is no URL.
pub uninterp spec fn github_authorize_url(
    auth_endpoint: Seq<char>,
    client_id: Seq<char>,
    redirect_uri: Seq<char>,
    state: Seq<char>,
    code_challenge: Seq<char>,
    scope: Seq<char>,
) -> Option<Seq<char>>;

/// A PKCE pair: the verifier kept for the token exchange and the S256 challenge sent with
/// the authorization request. Only `new_pkce_pair` makes one, so the challenge is always
/// the S256 challenge whose text is `challenge_text`.
pub struct PkcePair {
    challenge_text: String,
    verifier: String,
    challenge: PkceCodeChallenge,
}

impl PkcePair {
    /// The text of the code challenge.
    pub closed spec fn challenge_spec(&self) -> Seq<char> {
        self.challenge_text@
    }

    /// The text of the code verifier.
    pub closed spec fn verifier_spec(&self) -> Seq<char> {
        self.verifier@
    }

    /// The text of the code challenge.
    pub fn challenge_text(&self) -> (r: &String)
        ensures
            r@ == self.challenge_spec(),
    {
        &self.challenge_text
    }

    /// The text of the code verifier.
    pub fn verifier_text(&self) -> (r: &String)
        ensures
            r@ == self.verifier_spec(),
    {
        &self.verifier
    }
}

/// Calls `PkceCodeChallenge::new_random_sha256` of `oauth2`, which draws a random verifier
/// (32 random bytes, base64 encoded) and derives its S256 challenge. Claimed: the
/// challenge is `pkce_s256_challenge` of the verifier. Which verifier is drawn is not
/// stated: it comes from the thread-local random generator.
#[verifier::external_body]
pub(crate) fn new_pkce_pair() -> (r: PkcePair)
    ensures
        r.challenge_spec() == pkce_s256_challenge(r.verifier_spec()),
{
    let (challenge, verifier) = PkceCodeChallenge::new_random_sha256();
    PkcePair { challenge_text: challenge.as_str().to_string(), verifier: verifier.secret().clone(), challenge }
}

/// Calls `CsrfToken::new_random` of `oauth2` and gives the token's text. Nothing is
/// claimed of it: it is 16 bytes from the thread-local random generator, base64 encoded.
#[verifier::external_body]
pub(crate) fn new_csrf_state() -> String {
    CsrfToken::new_random().secret().clone()
}

/// Calls `AuthorizationRequest::url` of `oauth2` on a `BasicClient` with this client id,
/// authorization endpoint and redirect address, for the given state, the pair's challenge
/// and one scope. Claimed: the address is `github_authorize_url` of those texts, and there
/// is none exactly where `AuthUrl::new` or `RedirectUrl::new` refuses its text.
#[verifier::external_body]
pub(crate) fn build_authorize_url(
    auth_endpoint: &str,
    client_id: &str,
    redirect_uri: &str,
    state: &str,
    pkce: &PkcePair,
    scope: &str,
) -> (r: Option<String>)
    ensures
        match r {
            Some(u) => github_authorize_url(auth_endpoint@, client_id@, redirect_uri@, state@, pkce.challenge_spec(), scope@) == Some(u@),
            None => github_authorize_url(auth_endpoint@, client_id@, redirect_uri@, state@, pkce.challenge_spec(), scope@) is None,
        },
{
    let auth_url = AuthUrl::new(auth_endpoint.to_string()).ok()?;
    let redirect = RedirectUrl::new(redirect_uri.to_string()).ok()?;
    let token = CsrfToken::new(state.to_string());
    let client = BasicClient::new(ClientId::new(client_id.to_string()), None, auth_url, None).set_redirect_uri(redirect);
    let request = client.authorize_url(move || token).set_pkce_challenge(pkce.challenge.clone());
    let (url, _) = request.add_scope(Scope::new(scope.to_string())).url();
    Some(url.to_string())
}

/// GitHub's authorization endpoint.
pub const GITHUB_AUTHORIZE_URL: &'static str = "https://github.com/login/oauth/authorize";

/// The scope a login asks for: reading the user's organization memberships.
pub const LOGIN_SCOPE: &'static str = "read:org";

/// The start of a login: where to send the user, the state GitHub must send back, and
/// the PKCE verifier for the token exchange.
#[derive(Debug, PartialEq, Eq)]
pub struct LoginRequest {
    pub url: String,
    pub state: String,
    pub pkce_verifier: String,
}

/// The login request for a given state and PKCE pair: GitHub's authorization address for
/// this client and redirect address, with the state, the pair's S256 challenge and the
/// `read:org` scope; `None` where the redirect address is no URL.
pub fn authorize_request_with(client_id: &str, redirect_uri: &str, state: String, pkce: PkcePair) -> (r: Option<LoginRequest>)
    ensures
        match r {
            Some(req) => {
                &&& github_authorize_url(GITHUB_AUTHORIZE_URL@, client_id@, redirect_uri@, state@, pkce.challenge_spec(), LOGIN_SCOPE@) == Some(req.url@)
                &&& req.state@ == state@
                &&& req.pkce_verifier@ == pkce.verifier_spec()
            },
            None => github_authorize_url(GITHUB_AUTHORIZE_URL@, client_id@, redirect_uri@, state@, pkce.challenge_spec(), LOGIN_SCOPE@) is None,
        },
{
    match build_authorize_url(GITHUB_AUTHORIZE_URL, client_id, redirect_uri, state.as_str(), &pkce, LOGIN_SCOPE) {
        Some(url) => Some(LoginRequest { url, state, pkce_verifier: pkce.verifier_text().clone() }),
        None => None,
    }
}

/// Starts a GitHub login: draws a random state and a random PKCE pair and builds the
/// authorization address with them and the `read:org` scope. Whatever was drawn, the
/// address carries the returned state and the S256 challenge of the returned verifier;
/// `None` where the redirect address is no URL.
pub fn oauth_login_request(client_id: &str, redirect_uri: &str) -> (r: Option<LoginRequest>)
    ensures
        match r {
            Some(req) => github_authorize_url(
                GITHUB_AUTHORIZE_URL@, client_id@, redirect_uri@, req.state@, pkce_s256_challenge(req.pkce_verifier@), LOGIN_SCOPE@,
            ) == Some(req.url@),
            None => exists|state: Seq<char>, verifier: Seq<char>| github_authorize_url(
                GITHUB_AUTHORIZE_URL@, client_id@, redirect_uri@, state, pkce_s256_challenge(verifier), LOGIN_SCOPE@,
            ) is None,
        },
{
    let pkce = new_pkce_pair();
    let state = new_csrf_state();
    authorize_request_with(client_id, redirect_uri, state, pkce)
}

} // verus!
