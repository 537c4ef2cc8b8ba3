use hc_auth_server::github::{bearer_header, is_active_membership, membership_url, teams_in_org, GitHubOrg, GitHubTeam};
use hc_auth_server::json::JsonValue;
use hc_auth_server::routes_ops::{
    begin_login, check_returned_state, csrf_id_cookie, form_access, form_from_state, home_page, login_step,
    logout_cookie, redirect_uri, session_cookie, take_login, view_value, LoginAction, LoginEvent,
};
use hc_auth_server::state::{clean_up_expired, CsrfTokenEntry, PendingLogin, TimedTable, ENTRY_TTL_NANOS};
use hc_auth_server::storage::State;

#[test]
fn home_page_shows_the_session() {
    let h = home_page(Some("octo".to_string()), None);
    assert!(h.logged_in);
    assert_eq!(h.username.as_deref(), Some("octo"));
    let h = home_page(None, Some("access_denied".to_string()));
    assert!(!h.logged_in);
    assert_eq!(h.error.as_deref(), Some("access_denied"));
}

#[test]
fn cookies_follow_production() {
    let c = session_cookie("octo".to_string(), true);
    assert_eq!((c.name.as_str(), c.value.as_str(), c.path.as_str(), c.http_only, c.secure), ("user_session", "octo", "/", true, true));
    let c = csrf_id_cookie("12".to_string(), false);
    assert_eq!((c.name.as_str(), c.value.as_str(), c.http_only, c.secure), ("csrf_id", "12", true, false));
    let c = logout_cookie(true);
    assert_eq!((c.name.as_str(), c.value.as_str(), c.path.as_str(), c.http_only, c.secure), ("user_session", "", "/", false, true));
}

#[test]
fn csrf_tokens_stay_per_session() {
    let mut tokens: TimedTable<CsrfTokenEntry> = TimedTable::new();
    let t1 = tokens.session_token("alice", 10);
    assert!(t1.parse::<u64>().is_ok());
    let t2 = tokens.session_token("alice", 20);
    assert_eq!(t1, t2);
    assert_eq!(tokens.get("alice"), Some(&CsrfTokenEntry { token: t1.clone(), created_at: 20 }));
    assert_eq!(tokens.expected_token("alice"), Some(t1.clone()));
    assert_eq!(tokens.expected_token("bob"), None);
    let tb = tokens.session_token_with("bob", 5, "fixed".to_string());
    assert_eq!(tb, "fixed");
    assert_eq!(tokens.len(), 2);
}

#[test]
fn forms_need_session_and_matching_token() {
    let mut tokens: TimedTable<CsrfTokenEntry> = TimedTable::new();
    tokens.session_token_with("alice", 0, "t".to_string());
    assert_eq!(form_access(Some("alice"), &tokens, "t"), Ok(()));
    assert_eq!(form_access(Some("alice"), &tokens, "u"), Err("/ops-auth?error=invalid_csrf"));
    assert_eq!(form_access(Some("bob"), &tokens, "t"), Err("/ops-auth?error=invalid_csrf"));
    assert_eq!(form_access(None, &tokens, "t"), Err("/"));
}

#[test]
fn form_state_defaults_to_pending() {
    assert_eq!(form_from_state(Some("blocked")), State::Blocked);
    assert_eq!(form_from_state(Some("authorized")), State::Authorized);
    assert_eq!(form_from_state(Some("nonsense")), State::Pending);
    assert_eq!(form_from_state(None), State::Pending);
}

#[test]
fn redirect_addresses() {
    assert_eq!(redirect_uri(None, false, "127.0.0.1", 3000), "http://127.0.0.1:3000/ops-oauth-callback");
    assert_eq!(redirect_uri(None, true, "auth.example", 443), "https://auth.example:443/ops-oauth-callback");
    assert_eq!(redirect_uri(Some("https://x/cb".to_string()), false, "h", 1), "https://x/cb");
}

#[test]
fn logins_are_taken_once() {
    let mut pending: TimedTable<PendingLogin<&str>> = TimedTable::new();
    let id = begin_login(&mut pending, "verifier", 100);
    assert!(id.parse::<u64>().is_ok());
    assert_eq!(take_login(&mut pending, None).err(), Some("/?error=missing_csrf"));
    let p = take_login(&mut pending, Some(&id)).unwrap();
    assert_eq!(p, PendingLogin { value: "verifier", created_at: 100 });
    assert_eq!(take_login(&mut pending, Some(&id)).err(), Some("/?error=invalid_csrf"));
    assert_eq!(check_returned_state("abc", "abc"), Ok(()));
    assert_eq!(check_returned_state("abc", "abd"), Err("/?error=state_mismatch"));
}

#[test]
fn expired_entries_are_cleaned_up() {
    let mut pending: TimedTable<PendingLogin<u8>> = TimedTable::new();
    let mut csrf: TimedTable<CsrfTokenEntry> = TimedTable::new();
    pending.insert("old".to_string(), PendingLogin { value: 1, created_at: 0 });
    pending.insert("new".to_string(), PendingLogin { value: 2, created_at: 500_000 });
    csrf.insert("u".to_string(), CsrfTokenEntry { token: "t".to_string(), created_at: ENTRY_TTL_NANOS });
    csrf.insert("future".to_string(), CsrfTokenEntry { token: "f".to_string(), created_at: 10 * ENTRY_TTL_NANOS });
    clean_up_expired(&mut pending, &mut csrf, ENTRY_TTL_NANOS);
    assert!(pending.get("old").is_none());
    assert_eq!(pending.get("new").map(|p| p.value), Some(2));
    assert!(csrf.get("u").is_some());
    assert!(csrf.get("future").is_some());
    clean_up_expired(&mut pending, &mut csrf, 2 * ENTRY_TTL_NANOS);
    assert!(csrf.get("u").is_none());
    assert!(pending.get("new").is_none());
}

#[test]
fn callback_steps() {
    assert_eq!(login_step(LoginEvent::TokenExchanged(true)), LoginAction::CheckMembership);
    assert_eq!(login_step(LoginEvent::TokenExchanged(false)), LoginAction::Redirect("/"));
    assert_eq!(login_step(LoginEvent::Membership(Some(true))), LoginAction::FetchUser);
    assert_eq!(login_step(LoginEvent::Membership(Some(false))), LoginAction::Redirect("/?error=access_denied"));
    assert_eq!(login_step(LoginEvent::Membership(None)), LoginAction::Redirect("/?error=verification_failed"));
    assert_eq!(login_step(LoginEvent::User(Some("octo".to_string()))), LoginAction::StartSession("octo".to_string()));
    assert_eq!(login_step(LoginEvent::User(None)), LoginAction::Redirect("/?error=failed_to_get_user"));
}

#[test]
fn viewed_value_prefers_authorized_then_pending() {
    let a = vec![("k".to_string(), JsonValue::Bool(true))];
    let p = vec![("k".to_string(), JsonValue::Bool(false)), ("q".to_string(), JsonValue::Null)];
    let b = vec![("z".to_string(), JsonValue::Number("3".to_string()))];
    assert_eq!(view_value("k", &a, &p, &b), Some(&JsonValue::Bool(true)));
    assert_eq!(view_value("q", &a, &p, &b), Some(&JsonValue::Null));
    assert_eq!(view_value("z", &a, &p, &b), Some(&JsonValue::Number("3".to_string())));
    assert_eq!(view_value("none", &a, &p, &b), None);
}

#[test]
fn github_helpers() {
    assert_eq!(membership_url("org", "team", "octo"), "https://api.github.com/orgs/org/teams/team/memberships/octo");
    assert_eq!(bearer_header("abc"), "Bearer abc");
    let member = |state: &str| {
        JsonValue::Object(vec![
            ("state".to_string(), JsonValue::Str(state.to_string())),
            ("role".to_string(), JsonValue::Str("member".to_string())),
        ])
    };
    assert!(is_active_membership(200, &member("active")));
    assert!(!is_active_membership(200, &member("pending")));
    assert!(!is_active_membership(204, &member("active")));
    assert!(!is_active_membership(404, &member("active")));
    assert!(!is_active_membership(404, &JsonValue::Null));
    assert!(!is_active_membership(200, &JsonValue::Null));
    assert!(!is_active_membership(200, &JsonValue::Object(vec![("state".to_string(), JsonValue::Bool(true))])));
    let teams = vec![
        GitHubTeam { organization: GitHubOrg { login: "a".to_string() } },
        GitHubTeam { organization: GitHubOrg { login: "b".to_string() } },
        GitHubTeam { organization: GitHubOrg { login: "a".to_string() } },
    ];
    let kept = teams_in_org(teams, "a");
    assert_eq!(kept.len(), 2);
    assert!(kept.iter().all(|t| t.organization.login == "a"));
}
