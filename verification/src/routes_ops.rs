use vstd::prelude::*;
use crate::json::JsonValue;
use crate::state::{entry_lookup, new_random_id, CsrfTokenEntry, PendingLogin, TimedTable};
use crate::storage::{state_named, State};
use crate::text::{decimal, decimal_string, str_eq};

verus! {

/// Data of the home page.
#[derive(Debug, PartialEq, Eq)]
pub struct HomeTemplate {
    pub logged_in: bool,
    pub username: Option<String>,
    pub error: Option<String>,
}

/// Data of the protected dashboard.
#[derive(Debug, PartialEq, Eq)]
pub struct ProtectedTemplate {
    pub username: String,
    pub authorized_keys: Vec<String>,
    pub unauthorized_keys: Vec<String>,
    pub blocked_keys: Vec<String>,
    pub view_key: Option<String>,
    pub current_value: Option<String>,
    pub csrf_token: String,
}

/// A form posted to approve, block or delete a key.
#[derive(Debug, PartialEq, Eq)]
pub struct OpsRequest {
    pub key: String,
    pub state: Option<String>,
    pub csrf_token: String,
}

/// The query of the OAuth callback.
#[derive(Debug, PartialEq, Eq)]
pub struct AuthRequest {
    pub code: String,
    pub state: String,
}

/// A cookie to set or remove.
#[derive(Debug, PartialEq, Eq)]
pub struct CookieSpec {
    pub name: String,
    pub value: String,
    pub path: String,
    pub http_only: bool,
    pub secure: bool,
}

/// The name of the session cookie.
pub const SESSION_COOKIE: &'static str = "user_session";

/// The name of the cookie that identifies a login in progress.
pub const CSRF_ID_COOKIE: &'static str = "csrf_id";

/// The data of the home page: logged in exactly when the session cookie names a user.
pub fn home_page(session_user: Option<String>, error: Option<String>) -> (r: HomeTemplate)
    ensures
        r.logged_in == session_user is Some,
        r.username == session_user,
        r.error == error,
{
    let logged_in = session_user.is_some();
    HomeTemplate { logged_in, username: session_user, error }
}

/// A cookie for the whole site that scripts cannot read, secure in production.
fn site_cookie(name: &str, value: String, production: bool) -> (r: CookieSpec)
    ensures
        r.name@ == name@,
        r.value == value,
        r.path@ == "/"@,
        r.http_only,
        r.secure == production,
{
    CookieSpec {
        name: String::from_str(name),
        value,
        path: String::from_str("/"),
        http_only: true,
        secure: production,
    }
}

/// The session cookie of a user who logged in.
pub fn session_cookie(login: String, production: bool) -> (r: CookieSpec)
    ensures
        r.name@ == SESSION_COOKIE@,
        r.value == login,
        r.path@ == "/"@,
        r.http_only,
        r.secure == production,
{
    site_cookie(SESSION_COOKIE, login, production)
}

/// The cookie that identifies a login in progress.
pub fn csrf_id_cookie(csrf_id: String, production: bool) -> (r: CookieSpec)
    ensures
        r.name@ == CSRF_ID_COOKIE@,
        r.value == csrf_id,
        r.path@ == "/"@,
        r.http_only,
        r.secure == production,
{
    site_cookie(CSRF_ID_COOKIE, csrf_id, production)
}

/// The cookie whose removal logs a user out: empty, for the whole site, secure in production.
pub fn logout_cookie(production: bool) -> (r: CookieSpec)
    ensures
        r.name@ == SESSION_COOKIE@,
        r.value@ == Seq::<char>::empty(),
        r.path@ == "/"@,
        !r.http_only,
        r.secure == production,
{
    CookieSpec {
        name: String::from_str(SESSION_COOKIE),
        value: String::new(),
        path: String::from_str("/"),
        http_only: false,
        secure: production,
    }
}

/// Where a form post is sent back to when it may not go ahead: home without a session,
/// the dashboard with an error when the form's CSRF token is not the session's.
pub open spec fn form_access_spec(session_user: Option<Seq<char>>, expected: Option<CsrfTokenEntry>, form_csrf: Seq<char>) -> Option<Seq<char>> {
    match session_user {
        None => Some("/"@),
        Some(_) => match expected {
            Some(e) if e.token@ == form_csrf => None,
            _ => Some("/ops-auth?error=invalid_csrf"@),
        },
    }
}

/// The text of an optional string slice.
pub open spec fn opt_text(o: Option<&str>) -> Option<Seq<char>> {
    match o {
        Some(s) => Some(s@),
        None => None,
    }
}

/// Checks that a form post comes from a logged-in user and carries that user's CSRF token;
/// otherwise names the page to redirect to.
pub fn form_access(session_user: Option<&str>, tokens: &TimedTable<CsrfTokenEntry>, form_csrf: &str) -> (r: Result<(), &'static str>)
    ensures
        match form_access_spec(
            opt_text(session_user),
            match session_user {
                Some(u) => if tokens@.contains_key(u@) { Some(tokens@[u@]) } else { None },
                None => None,
            },
            form_csrf@,
        ) {
            None => r is Ok,
            Some(target) => r matches Err(t) && t@ == target,
        },
{
    let user = match session_user {
        Some(u) => u,
        None => return Err("/"),
    };
    match tokens.get(user) {
        Some(e) => if str_eq(e.token.as_str(), form_csrf) { Ok(()) } else { Err("/ops-auth?error=invalid_csrf") },
        None => Err("/ops-auth?error=invalid_csrf"),
    }
}

/// The state a form names as the one a key is in; `Pending` where it names none.
pub fn form_from_state(state: Option<&str>) -> (r: State)
    ensures
        r == match opt_text(state) {
            Some(t) => match state_named(t) {
                Some(s) => s,
                None => State::Pending,
            },
            None => State::Pending,
        },
{
    match state {
        Some(t) => match State::from_str(t) {
            Some(s) => s,
            None => State::Pending,
        },
        None => State::Pending,
    }
}

/// The address that GitHub sends users back to: the configured one, or the server's own
/// callback address.
pub open spec fn redirect_uri_text(configured: Option<Seq<char>>, production: bool, host: Seq<char>, port: u16) -> Seq<char> {
    match configured {
        Some(u) => u,
        None => (if production { "https"@ } else { "http"@ }) + "://"@ + host + ":"@ + decimal(port as nat) + "/ops-oauth-callback"@,
    }
}

/// A configured redirect address is used exactly as configured, whatever the production
/// flag, host and port.
pub proof fn lemma_configured_redirect_wins(configured: Seq<char>, production: bool, host: Seq<char>, port: u16)
    ensures
        redirect_uri_text(Some(configured), production, host, port) == configured,
{
}

/// Without a configured address, GitHub sends the user back to this server's callback
/// path: the address ends in `/ops-oauth-callback`, and it names the scheme the
/// production flag picks.
pub proof fn lemma_default_redirect_is_callback(production: bool, host: Seq<char>, port: u16)
    ensures
        redirect_uri_text(None, production, host, port).len() >= 19,
        redirect_uri_text(None, production, host, port).skip(redirect_uri_text(None, production, host, port).len() - 19)
            == "/ops-oauth-callback"@,
        redirect_uri_text(None, production, host, port).take(if production { 8int } else { 7int })
            == (if production { "https://"@ } else { "http://"@ }),
{
    reveal_strlit("/ops-oauth-callback");
    reveal_strlit("https");
    reveal_strlit("http");
    reveal_strlit("://");
    reveal_strlit("https://");
    reveal_strlit("http://");
    let t = redirect_uri_text(None, production, host, port);
    let scheme = if production { "https"@ } else { "http"@ };
    let rest = host + ":"@ + decimal(port as nat);
    assert(t =~= scheme + "://"@ + rest + "/ops-oauth-callback"@);
    assert(t.skip(t.len() - 19) =~= "/ops-oauth-callback"@);
    assert(t.take(if production { 8int } else { 7int }) =~= (if production { "https://"@ } else { "http://"@ }));
}

/// Builds the OAuth redirect address.
pub fn redirect_uri(configured: Option<String>, production: bool, host: &str, port: u16) -> (r: String)
    ensures
        r@ == redirect_uri_text(match configured { Some(u) => Some(u@), None => None }, production, host@, port),
        configured matches Some(u) ==> r@ == u@,
        configured is None ==> r@.len() >= 19 && r@.skip(r@.len() - 19) == "/ops-oauth-callback"@,
{
    proof {
        if configured is Some {
            lemma_configured_redirect_wins(configured->0@, production, host@, port);
        } else {
            lemma_default_redirect_is_callback(production, host@, port);
        }
    }
    match configured {
        Some(u) => u,
        None => {
            let mut r = String::from_str(if production { "https" } else { "http" });
            r.append("://");
            r.append(host);
            r.append(":");
            let p = decimal_string(port as u64);
            r.append(p.as_str());
            r.append("/ops-oauth-callback");
            r
        },
    }
}

/// The stored document to show for a key: the authorized one first, then the pending
/// one, then the blocked one.
pub open spec fn view_value_spec(
    key: Seq<char>,
    authorized: Seq<(String, JsonValue)>,
    pending: Seq<(String, JsonValue)>,
    blocked: Seq<(String, JsonValue)>,
) -> Option<JsonValue> {
    match entry_lookup(authorized, key) {
        Some(v) => Some(v),
        None => match entry_lookup(pending, key) {
            Some(v) => Some(v),
            None => entry_lookup(blocked, key),
        },
    }
}

/// The document under `key` in a list of records: the last one with that key.
pub fn record_lookup<'a>(records: &'a Vec<(String, JsonValue)>, key: &str) -> (r: Option<&'a JsonValue>)
    ensures
        match r {
            Some(v) => entry_lookup(records@, key@) == Some(*v),
            None => entry_lookup(records@, key@) is None,
        },
{
    let mut i = records.len();
    assert(records@.take(i as int) =~= records@);
    while i > 0
        invariant
            i <= records@.len(),
            entry_lookup(records@, key@) == entry_lookup(records@.take(i as int), key@),
        decreases i,
    {
        assert(records@.take(i as int).drop_last() =~= records@.take(i - 1));
        assert(records@.take(i as int).last() == records@[i - 1]);
        if str_eq(records[i - 1].0.as_str(), key) {
            return Some(&records[i - 1].1);
        }
        i = i - 1;
    }
    None
}

/// The document to show for the key the dashboard was asked to view.
pub fn view_value<'a>(
    view_key: &str,
    authorized: &'a Vec<(String, JsonValue)>,
    pending: &'a Vec<(String, JsonValue)>,
    blocked: &'a Vec<(String, JsonValue)>,
) -> (r: Option<&'a JsonValue>)
    ensures
        match r {
            Some(v) => view_value_spec(view_key@, authorized@, pending@, blocked@) == Some(*v),
            None => view_value_spec(view_key@, authorized@, pending@, blocked@) is None,
        },
{
    match record_lookup(authorized, view_key) {
        Some(v) => Some(v),
        None => match record_lookup(pending, view_key) {
            Some(v) => Some(v),
            None => record_lookup(blocked, view_key),
        },
    }
}

/// Opens the dashboard for the user the session cookie names: gives the user and the
/// session's CSRF token (made at random where it has none, and stamped `now`). Without a
/// session the dashboard stays shut: the answer is the page to redirect to, `/`, and the
/// token table is left as it was.
pub fn open_dashboard(session_user: Option<String>, tokens: &mut TimedTable<CsrfTokenEntry>, now: u64) -> (r: Result<(String, String), &'static str>)
    ensures
        r is Ok <==> session_user is Some,
        match r {
            Ok((user, token)) => {
                &&& session_user == Some(user)
                &&& old(tokens)@.contains_key(user@) ==> token@ == old(tokens)@[user@].token@
                &&& !old(tokens)@.contains_key(user@) ==> exists|n: u64| token@ == decimal(n as nat)
                &&& final(tokens)@ == old(tokens)@.insert(user@, CsrfTokenEntry { token, created_at: now })
            },
            Err(target) => target@ == "/"@ && final(tokens)@ == old(tokens)@,
        },
{
    match session_user {
        Some(user) => {
            let token = tokens.session_token(user.as_str(), now);
            Ok((user, token))
        },
        None => Err("/"),
    }
}

/// No set of `n` texts holds the decimal notations of all of `0..=n`.
proof fn lemma_decimals_overflow_table(keys: Set<Seq<char>>, n: nat)
    requires
        keys.finite(),
        keys.len() == n,
    ensures
        exists|j: nat| j <= n && !keys.contains(#[trigger] decimal(j)),
{
    if forall|j: nat| j <= n ==> keys.contains(#[trigger] decimal(j)) {
        lemma_decimals_fill(keys, n);
    }
}

proof fn lemma_decimals_fill(keys: Set<Seq<char>>, n: nat)
    requires
        keys.finite(),
        forall|j: nat| j <= n ==> keys.contains(#[trigger] decimal(j)),
    ensures
        keys.len() > n,
{
    let q = Seq::new(n + 1, |j: int| decimal(j as nat));
    assert(q.no_duplicates()) by {
        assert forall|i: int, j: int| 0 <= i < q.len() && 0 <= j < q.len() && i != j implies q[i] != q[j] by {
            crate::config::lemma_decimal_reads_back(i as nat);
            crate::config::lemma_decimal_reads_back(j as nat);
        }
    }
    q.unique_seq_to_set();
    assert(q.to_set().subset_of(keys)) by {
        assert forall|t: Seq<char>| q.to_set().contains(t) implies keys.contains(t) by {
            let i = choose|i: int| 0 <= i < q.len() && q[i] == t;
            assert(keys.contains(decimal(i as nat)));
        }
    }
    vstd::set_lib::lemma_len_subset(q.to_set(), keys);
}

/// The decimal notation of the smallest number up to the table's size that is no key of
/// the table; there is always one.
fn unused_login_id<V>(pending: &TimedTable<PendingLogin<V>>) -> (r: String)
    ensures
        exists|n: u64| r@ == decimal(n as nat),
        !pending@.contains_key(r@),
{
    let n: u64 = pending.len() as u64;
    let mut k: u64 = 0;
    loop
        invariant
            k <= n,
            n == pending@.len(),
            pending@.dom().finite(),
            forall|j: nat| j < k ==> pending@.contains_key(#[trigger] decimal(j)),
        decreases n - k,
    {
        let s = decimal_string(k);
        if pending.get(s.as_str()).is_none() {
            return s;
        }
        if k == n {
            proof {
                lemma_decimals_overflow_table(pending@.dom(), n as nat);
                let j = choose|j: nat| j <= n && !pending@.dom().contains(#[trigger] decimal(j));
                assert(j < k ==> pending@.contains_key(decimal(j)));
            }
            return s;
        }
        k = k + 1;
    }
}

/// Starting a login never replaces one in progress: the table gains exactly one entry, under
/// an identifier it did not hold, and every login already in it stays as it was.
pub proof fn lemma_begin_login_adds_one<V>(
    before: Map<Seq<char>, PendingLogin<V>>,
    after: Map<Seq<char>, PendingLogin<V>>,
    id: Seq<char>,
    entry: PendingLogin<V>,
)
    requires
        before.dom().finite(),
        !before.contains_key(id),
        after == before.insert(id, entry),
    ensures
        after.len() == before.len() + 1,
        after.contains_key(id) && after[id] == entry,
        forall|k: Seq<char>| #[trigger] before.contains_key(k) ==> after.contains_key(k) && after[k] == before[k] && k != id,
{
}

/// Starts a login: files `value` under a fresh random identifier, stamped `now`, and
/// returns the identifier.
pub fn begin_login<V>(pending: &mut TimedTable<PendingLogin<V>>, value: V, now: u64) -> (r: String)
    ensures
        exists|n: u64| r@ == decimal(n as nat),
        !old(pending)@.contains_key(r@),
        final(pending)@ == old(pending)@.insert(r@, PendingLogin { value, created_at: now }),
{
    let mut id = new_random_id();
    if pending.get(id.as_str()).is_some() {
        id = unused_login_id(pending);
    }
    let key = id.clone();
    pending.insert(key, PendingLogin { value, created_at: now });
    id
}

/// Takes the login in progress that the `csrf_id` cookie names out of the table; names the
/// page to redirect to where there is no cookie or no such login.
pub fn take_login<V>(pending: &mut TimedTable<PendingLogin<V>>, csrf_cookie: Option<&str>) -> (r: Result<PendingLogin<V>, &'static str>)
    ensures
        match csrf_cookie {
            None => (r matches Err(t) && t@ == "/?error=missing_csrf"@) && *final(pending) == *old(pending),
            Some(id) => {
                &&& if old(pending)@.contains_key(id@) {
                    r == Ok::<PendingLogin<V>, &'static str>(old(pending)@[id@])
                } else {
                    r matches Err(t) && t@ == "/?error=invalid_csrf"@
                }
                &&& final(pending)@ == old(pending)@.remove(id@)
            },
        },
{
    let id = match csrf_cookie {
        Some(c) => c,
        None => return Err("/?error=missing_csrf"),
    };
    match pending.remove(id) {
        Some(p) => Ok(p),
        None => Err("/?error=invalid_csrf"),
    }
}

/// Checks the `state` that GitHub returned against the one the login started with.
pub fn check_returned_state(expected: &str, returned: &str) -> (r: Result<(), &'static str>)
    ensures
        expected@ == returned@ ==> r is Ok,
        expected@ != returned@ ==> (r matches Err(t) && t@ == "/?error=state_mismatch"@),
{
    if str_eq(expected, returned) { Ok(()) } else { Err("/?error=state_mismatch") }
}

/// What happened in a step of the OAuth callback.
#[derive(Debug, PartialEq, Eq)]
pub enum LoginEvent {
    /// The code was exchanged for an access token, or not.
    TokenExchanged(bool),
    /// The membership check answered: a member, not a member, or failed.
    Membership(Option<bool>),
    /// The user's profile was fetched, with the login, or the fetch failed.
    User(Option<String>),
}

/// What the callback does next.
#[derive(Debug, PartialEq, Eq)]
pub enum LoginAction {
    /// Ask GitHub whether the user is a member of the team.
    CheckMembership,
    /// Fetch the user's profile.
    FetchUser,
    /// Set the session cookie for this login and go home.
    StartSession(String),
    /// Go to this page.
    Redirect(&'static str),
}

/// The next action of the OAuth callback.
pub open spec fn login_step_spec(event: LoginEvent, action: LoginAction) -> bool {
    match event {
        LoginEvent::TokenExchanged(true) => action == LoginAction::CheckMembership,
        LoginEvent::TokenExchanged(false) => action matches LoginAction::Redirect(t) && t@ == "/"@,
        LoginEvent::Membership(Some(true)) => action == LoginAction::FetchUser,
        LoginEvent::Membership(Some(false)) => action matches LoginAction::Redirect(t) && t@ == "/?error=access_denied"@,
        LoginEvent::Membership(None) => action matches LoginAction::Redirect(t) && t@ == "/?error=verification_failed"@,
        LoginEvent::User(Some(login)) => action == LoginAction::StartSession(login),
        LoginEvent::User(None) => action matches LoginAction::Redirect(t) && t@ == "/?error=failed_to_get_user"@,
    }
}

/// Decides the next step of the OAuth callback.
pub fn login_step(event: LoginEvent) -> (r: LoginAction)
    ensures
        login_step_spec(event, r),
{
    match event {
        LoginEvent::TokenExchanged(true) => LoginAction::CheckMembership,
        LoginEvent::TokenExchanged(false) => LoginAction::Redirect("/"),
        LoginEvent::Membership(Some(true)) => LoginAction::FetchUser,
        LoginEvent::Membership(Some(false)) => LoginAction::Redirect("/?error=access_denied"),
        LoginEvent::Membership(None) => LoginAction::Redirect("/?error=verification_failed"),
        LoginEvent::User(Some(login)) => LoginAction::StartSession(login),
        LoginEvent::User(None) => LoginAction::Redirect("/?error=failed_to_get_user"),
    }
}

} // verus!
