# hc_auth_server

A key-authorization service: clients register an Ed25519 public key, operators who log in
with GitHub (and belong to a configured team) approve or block it, and approved clients
exchange a signed time challenge for an authentication token.

## Layout

- `src/` — the verified library (Verus):
  - `storage.rs`, `storage/types.rs`: key states and their names, store keys, stored records,
    and the decision an authentication attempt leads to (token kept or drawn, access stamped).
  - `json.rs`: JSON documents as plain values, with read-after-write lemmas.
  - `encoding.rs`, `crypto.rs`: base64url, random bytes and Ed25519 behind trusted wrappers.
  - `routes_client.rs`: public-key and signature validation, time challenges, the checks
    that admit an authentication request to the store, replies of the client endpoints.
  - `routes_api.rs`: bearer-token check and replies of the `/api` endpoints.
  - `routes_ops.rs`: operator pages (`/ops-auth`, shown only with a session), cookies, CSRF
    checks, the OAuth callback address (`/ops-oauth-callback` by default) and the steps of
    the callback.
  - `oauth.rs`: the GitHub authorization address (client id, state, S256 PKCE challenge,
    `read:org` scope) built with `oauth2` behind trusted wrappers.
  - `state.rs`: time-stamped tables of logins in progress and CSRF tokens, and their clean-up.
  - `config.rs`: reading the settings, API token lists, unsigned numbers.
  - `github.rs`: GitHub addresses, active team membership and team filtering.
- `app/` — the HTTP server around the library: axum routes, Redis, OAuth2 and GitHub calls,
  JSON (de)serialization, HTML, and the floating-point time checks.
- `tests/` — tests of the library.
