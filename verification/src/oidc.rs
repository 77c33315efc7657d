//! The token-lifecycle engine: deciding whether a cached token is still
//! usable, which grant exchange to perform when it is not, and how to wrap an
//! exchange response into the next cached state.
//!
//! The engine itself performs no I/O. `get_token` and `fetch_token` return the
//! decision — reuse the cached state, or run a particular grant exchange — and
//! the surrounding binary carries the exchange out against the issuer, handing
//! the response back to `complete_fetch`. Discovery failures, network failures
//! and provider rejections are surfaced by that binary unmodified and are
//! never retried.

use vstd::prelude::*;

use crate::claims::{decode_refresh_claims, exp_hint_of, split_on};
use crate::config::{Client, ClientState, ClientStateView, ClientType, clone_opt_string};
use crate::error::TokenError;

verus! {

/// The outcome of obtaining a token: `Existing` needs no storage write,
/// `Refreshed` must be persisted by the caller.
#[derive(Clone, Debug)]
pub enum TokenResult {
    Existing(ClientState),
    Refreshed(ClientState),
}

/// A grant exchange to run against the issuer's token endpoint.
#[derive(Clone, Debug)]
pub enum GrantRequest {
    /// `grant_type=client_credentials`, authenticated with the client secret.
    ClientCredentials { client_id: String, client_secret: String, scopes: Vec<String> },
    /// `grant_type=refresh_token`, presenting the cached refresh token.
    RefreshExchange { refresh_token: String, scopes: Vec<String> },
}

/// The mathematical content of a [`GrantRequest`].
pub enum GrantRequestView {
    ClientCredentials { client_id: Seq<char>, client_secret: Seq<char>, scopes: Seq<Seq<char>> },
    RefreshExchange { refresh_token: Seq<char>, scopes: Seq<Seq<char>> },
}

impl View for GrantRequest {
    type V = GrantRequestView;

    open spec fn view(&self) -> GrantRequestView {
        match self {
            GrantRequest::ClientCredentials { client_id, client_secret, scopes } =>
                GrantRequestView::ClientCredentials {
                    client_id: client_id@,
                    client_secret: client_secret@,
                    scopes: scopes.deep_view(),
                },
            GrantRequest::RefreshExchange { refresh_token, scopes } =>
                GrantRequestView::RefreshExchange {
                    refresh_token: refresh_token@,
                    scopes: scopes.deep_view(),
                },
        }
    }
}

/// What `get_token` decides: hand back the cached state, or run an exchange.
#[derive(Clone, Debug)]
pub enum TokenStep {
    Existing(ClientState),
    Exchange(GrantRequest),
}

/// The mathematical content of a [`TokenStep`].
pub enum TokenStepView {
    Existing(ClientStateView),
    Exchange(GrantRequestView),
}

impl View for TokenStep {
    type V = TokenStepView;

    open spec fn view(&self) -> TokenStepView {
        match self {
            TokenStep::Existing(s) => TokenStepView::Existing(s@),
            TokenStep::Exchange(g) => TokenStepView::Exchange(g@),
        }
    }
}

/// The scope values a client asks for: its space-delimited `scope` text,
/// split; none when it has no scope text.
pub open spec fn scopes_of(scope: Option<String>) -> Seq<Seq<char>> {
    match scope {
        Some(s) => split_on(s@, ' '),
        None => Seq::empty(),
    }
}

/// Whether the claims of `token` say it already expired at `now`: an `exp`
/// hint strictly in the past. A token that does not decode, or decodes
/// without a usable `exp`, gives no such verdict.
pub open spec fn refresh_expired(token: Seq<char>, now: int) -> bool {
    exp_hint_of(token) matches Some(e) && e < now
}

/// What `fetch_token` decides for a client at time `now`.
///
/// A confidential client always gets a client-credentials exchange. A public
/// client needs its cached refresh token: without any cached state or without
/// a refresh token in it the engine fails with `MissingPriorState`, and with a
/// refresh token whose claims already expired it fails with
/// `ExpiredRefreshToken` — both before any exchange is attempted.
pub open spec fn fetch_decision(client: Client, now: int) -> Result<GrantRequestView, TokenError> {
    match client.client_type {
        ClientType::Confidential { client_id, client_secret } => Ok(
            GrantRequestView::ClientCredentials {
                client_id: client_id@,
                client_secret: client_secret@,
                scopes: scopes_of(client.scope),
            },
        ),
        ClientType::Public { client_id } => {
            match client.state {
                None => Err(TokenError::MissingPriorState),
                Some(state) => {
                    match state.refresh_token {
                        None => Err(TokenError::MissingPriorState),
                        Some(rt) => {
                            if refresh_expired(rt@, now) {
                                Err(TokenError::ExpiredRefreshToken)
                            } else {
                                Ok(
                                    GrantRequestView::RefreshExchange {
                                        refresh_token: rt@,
                                        scopes: scopes_of(client.scope),
                                    },
                                )
                            }
                        },
                    }
                },
            }
        },
    }
}

/// Whether the cached state is still usable at `now`: an expiry strictly in
/// the future. An absent expiry also counts — such tokens are treated as
/// non-expiring.
pub open spec fn cache_fresh(client: Client, now: int) -> bool {
    client.state matches Some(s) && match s.expires {
        Some(e) => e > now,
        None => true,
    }
}

/// What `get_token` decides: the cached state while it is fresh, otherwise
/// whatever `fetch_decision` says.
pub open spec fn get_decision(client: Client, now: int) -> Result<TokenStepView, TokenError> {
    if cache_fresh(client, now) {
        Ok(TokenStepView::Existing(client.state->Some_0@))
    } else {
        match fetch_decision(client, now) {
            Ok(g) => Ok(TokenStepView::Exchange(g)),
            Err(e) => Err(e),
        }
    }
}

/// Split a space-delimited scope string into the individual scope values.
pub fn extra_scopes(scope: Option<&str>) -> (r: Vec<String>)
    ensures
        r.deep_view() == match scope {
            Some(s) => split_on(s@, ' '),
            None => Seq::<Seq<char>>::empty(),
        },
{
    match scope {
        Some(s) => crate::claims::split_char(s, ' '),
        None => Vec::new(),
    }
}

/// Decide the grant exchange for a forced fetch, bypassing the cache.
///
/// No network is touched here: the returned request is what the caller must
/// run against the discovered token endpoint, and every error comes before
/// any exchange.
pub fn fetch_token(client: &Client, now: i64) -> (r: Result<GrantRequest, TokenError>)
    ensures
        match r {
            Ok(g) => fetch_decision(*client, now as int) == Ok::<GrantRequestView, TokenError>(g@),
            Err(e) => fetch_decision(*client, now as int) == Err::<GrantRequestView, TokenError>(e),
        },
{
    match &client.client_type {
        ClientType::Confidential { client_id, client_secret } => {
            let scopes = match &client.scope {
                Some(s) => extra_scopes(Some(s.as_str())),
                None => extra_scopes(None),
            };
            Ok(
                GrantRequest::ClientCredentials {
                    client_id: client_id.clone(),
                    client_secret: client_secret.clone(),
                    scopes,
                },
            )
        },
        ClientType::Public { client_id: _ } => {
            let state = match &client.state {
                Some(s) => s,
                None => {
                    return Err(TokenError::MissingPriorState);
                },
            };
            let refresh_token = match &state.refresh_token {
                Some(rt) => rt,
                None => {
                    return Err(TokenError::MissingPriorState);
                },
            };
            match decode_refresh_claims(refresh_token.as_str()) {
                Some(claims) => {
                    match claims.exp {
                        Some(exp) => {
                            if exp < now {
                                return Err(TokenError::ExpiredRefreshToken);
                            }
                        },
                        None => {},
                    }
                },
                None => {},
            }
            let scopes = match &client.scope {
                Some(s) => extra_scopes(Some(s.as_str())),
                None => extra_scopes(None),
            };
            Ok(GrantRequest::RefreshExchange { refresh_token: refresh_token.clone(), scopes })
        },
    }
}

/// Decide how to obtain a usable token at `now`: hand the cached state back
/// while it is fresh — unmodified, with no exchange — and fall back to
/// `fetch_token`'s decision otherwise.
pub fn get_token(client: &Client, now: i64) -> (r: Result<TokenStep, TokenError>)
    ensures
        match r {
            Ok(s) => get_decision(*client, now as int) == Ok::<TokenStepView, TokenError>(s@),
            Err(e) => get_decision(*client, now as int) == Err::<TokenStepView, TokenError>(e),
        },
        cache_fresh(*client, now as int) ==> (r matches Ok(s) && s matches TokenStep::Existing(cs)
            && Some(cs) == client.state),
{
    match &client.state {
        Some(state) => {
            let fresh = match state.expires {
                Some(e) => e > now,
                None => true,
            };
            if fresh {
                return Ok(TokenStep::Existing(state.duplicate()));
            }
        },
        None => {},
    }
    match fetch_token(client, now) {
        Ok(g) => Ok(TokenStep::Exchange(g)),
        Err(e) => Err(e),
    }
}

/// A token-endpoint response, reduced to its plain fields.
#[derive(Clone, Debug)]
pub struct TokenResponseData {
    pub access_token: String,
    pub id_token: Option<String>,
    pub refresh_token: Option<String>,
    /// Lifetime of the access token in seconds, when the provider reports one.
    pub expires_in: Option<u64>,
}

/// `now + secs`, capped at the largest representable timestamp.
pub open spec fn sat_expiry(now: int, secs: int) -> int {
    if now + secs > i64::MAX {
        i64::MAX as int
    } else {
        now + secs
    }
}

/// The cached state a response becomes: the response's fields, an expiry of
/// `now + expires_in` when a lifetime is reported, and — when the response
/// omits a refresh token — the previous refresh token, which is never
/// silently dropped.
pub open spec fn merged_state(
    prior: Option<ClientState>,
    resp: TokenResponseData,
    now: int,
) -> ClientStateView {
    ClientStateView {
        access_token: resp.access_token@,
        id_token: match resp.id_token {
            Some(s) => Some(s@),
            None => None,
        },
        refresh_token: match resp.refresh_token {
            Some(s) => Some(s@),
            None => match prior {
                Some(p) => match p.refresh_token {
                    Some(s) => Some(s@),
                    None => None,
                },
                None => None,
            },
        },
        expires: match resp.expires_in {
            Some(e) => Some(sat_expiry(now, e as int)),
            None => None,
        },
    }
}

/// Wrap a successful exchange response into the new cached state.
pub fn state_from_response(
    prior: Option<&ClientState>,
    resp: TokenResponseData,
    now: i64,
) -> (s: ClientState)
    ensures
        s@ == merged_state(
            match prior {
                Some(p) => Some(*p),
                None => None,
            },
            resp,
            now as int,
        ),
{
    let refresh_token = match resp.refresh_token {
        Some(rt) => Some(rt),
        None => match prior {
            Some(p) => clone_opt_string(&p.refresh_token),
            None => None,
        },
    };
    let expires = match resp.expires_in {
        Some(e) => {
            let sum: i128 = now as i128 + e as i128;
            if sum > i64::MAX as i128 {
                Some(i64::MAX)
            } else {
                Some(sum as i64)
            }
        },
        None => None,
    };
    ClientState { access_token: resp.access_token, id_token: resp.id_token, refresh_token, expires }
}

/// Complete a forced fetch: wrap the exchange response over the client's
/// previous state. The result is always `Refreshed`, so the caller persists
/// it.
pub fn complete_fetch(client: &Client, resp: TokenResponseData, now: i64) -> (r: TokenResult)
    ensures
        r matches TokenResult::Refreshed(s) && s@ == merged_state(client.state, resp, now as int),
{
    let prior = match &client.state {
        Some(s) => Some(s),
        None => None,
    };
    TokenResult::Refreshed(state_from_response(prior, resp, now))
}

// --- the engine's laws ---

/// While the cached state's expiry lies strictly in the future, `get_token`
/// hands that state back unmodified and decides on no exchange.
pub proof fn lemma_fresh_cache_reused(client: Client, now: int)
    requires
        client.state matches Some(s) && s.expires matches Some(e) && e > now,
    ensures
        get_decision(client, now) == Ok::<TokenStepView, TokenError>(
            TokenStepView::Existing(client.state->Some_0@),
        ),
{
}

/// Whatever the cached state says, a confidential client is always sent to a
/// client-credentials exchange with its own credentials and scopes.
pub proof fn lemma_confidential_always_exchanges(client: Client, now: int)
    requires
        client.client_type is Confidential,
    ensures
        fetch_decision(client, now) == Ok::<GrantRequestView, TokenError>(
            GrantRequestView::ClientCredentials {
                client_id: client.client_type->Confidential_client_id@,
                client_secret: client.client_type->Confidential_client_secret@,
                scopes: scopes_of(client.scope),
            },
        ),
{
}

/// A public client without cached state fails with `MissingPriorState`
/// before any exchange is decided on.
pub proof fn lemma_public_without_state_fails(client: Client, now: int)
    requires
        client.client_type is Public,
        client.state is None,
    ensures
        fetch_decision(client, now) == Err::<GrantRequestView, TokenError>(
            TokenError::MissingPriorState,
        ),
{
}

/// A public client whose cached refresh token carries an `exp` hint in the
/// past fails with `ExpiredRefreshToken` before any exchange is decided on.
pub proof fn lemma_expired_refresh_fails(client: Client, now: int)
    requires
        client.client_type is Public,
        client.state matches Some(s) && s.refresh_token matches Some(rt)
            && exp_hint_of(rt@) matches Some(e) && e < now,
    ensures
        fetch_decision(client, now) == Err::<GrantRequestView, TokenError>(
            TokenError::ExpiredRefreshToken,
        ),
{
}

} // verus!
