use vstd::prelude::*;
use crate::json::{json_str_field, JsonValue};
use crate::text::{concat, str_eq};

verus! {

/// Detailed information about a GitHub user.
#[derive(Debug, PartialEq, Eq)]
pub struct GitHubUser {
    /// The user's GitHub username.
    pub login: String,
}

/// Detailed information about a GitHub organization.
#[derive(Debug, PartialEq, Eq)]
pub struct GitHubOrg {
    /// The organization's GitHub name/slug.
    pub login: String,
}

/// Detailed information about a GitHub team.
#[derive(Debug, PartialEq, Eq)]
pub struct GitHubTeam {
    /// The organization the team belongs to.
    pub organization: GitHubOrg,
}

/// The address of the authenticated user's profile.
pub const USER_URL: &'static str = "https://api.github.com/user";

/// The address of the authenticated user's teams.
pub const USER_TEAMS_URL: &'static str = "https://api.github.com/user/teams";

/// The user agent sent with every GitHub request.
pub const USER_AGENT_VALUE: &'static str = "rust-oauth-server";

/// The address that tells whether `login` is a member of a team of an organization.
pub open spec fn membership_url_text(org: Seq<char>, team_slug: Seq<char>, login: Seq<char>) -> Seq<char> {
    "https://api.github.com/orgs/"@ + org + "/teams/"@ + team_slug + "/memberships/"@ + login
}

/// Builds the team membership address of a user.
pub fn membership_url(org: &str, team_slug: &str, login: &str) -> (r: String)
    ensures
        r@ == membership_url_text(org@, team_slug@, login@),
{
    let mut r = String::from_str("https://api.github.com/orgs/");
    r.append(org);
    r.append("/teams/");
    r.append(team_slug);
    r.append("/memberships/");
    r.append(login);
    r
}

/// The `Authorization` header value for an access token.
pub fn bearer_header(access_token: &str) -> (r: String)
    ensures
        r@ == "Bearer "@ + access_token@,
{
    concat("Bearer ", access_token)
}

/// Whether a team membership answer shows an active member: the status is 200 (OK)
/// and the answer's `state` member is the text `active`. A 404, any other status, or
/// a pending membership all mean "not a member".
pub fn is_active_membership(status: u16, body: &JsonValue) -> (r: bool)
    ensures
        r == (status == 200 && json_str_field(body.data(), "state"@) == Some("active"@)),
{
    if status != 200 {
        return false;
    }
    match body.get_str("state") {
        Some(s) => str_eq(s.as_str(), "active"),
        None => false,
    }
}

/// The teams that belong to the organization `org`, in their order.
pub fn teams_in_org(teams: Vec<GitHubTeam>, org: &str) -> (r: Vec<GitHubTeam>)
    ensures
        r@ == teams@.filter(|t: GitHubTeam| t.organization.login@ == org@),
{
    let ghost pred = |t: GitHubTeam| t.organization.login@ == org@;
    let ghost all = teams@;
    let mut rest = teams;
    let mut kept: Vec<GitHubTeam> = Vec::new();
    let ghost mut done: int = 0;
    while rest.len() > 0
        invariant
            0 <= done <= all.len(),
            rest@.len() + done == all.len(),
            pred == |t: GitHubTeam| t.organization.login@ == org@,
            rest@ == all.skip(done),
            kept@ == all.take(done).filter(pred),
        decreases rest.len(),
    {
        let ghost prev = rest@;
        let t = rest.remove(0);
        proof {
            assert(prev[0] == all[done]);
            assert(rest@ =~= all.skip(done + 1));
            assert(all.take(done + 1).drop_last() =~= all.take(done));
            assert(all.take(done + 1).last() == all[done]);
            reveal_with_fuel(Seq::filter, 1);
        }
        if crate::text::str_eq(t.organization.login.as_str(), org) {
            kept.push(t);
        }
        proof { done = done + 1; }
    }
    assert(all.take(done) =~= all);
    kept
}

} // verus!
