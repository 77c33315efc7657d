//! The error taxonomy of the token engine and the authorization flow.
//!
//! Every variant is fatal to the current command invocation: nothing here is
//! retried. `MissingPriorState` and `ExpiredRefreshToken` instruct the
//! operator to re-run the interactive login, since no automatic recovery is
//! possible without a browser.

use vstd::prelude::*;

verus! {

/// Why obtaining a token failed.
#[derive(Clone, Copy, Debug, PartialEq, Eq, Structural)]
pub enum TokenError {
    /// No usable local port/address according to the bind policy.
    BindFailure,
    /// Issuer metadata unreachable or malformed.
    DiscoveryFailure,
    /// The token endpoint rejected the grant.
    ExchangeFailure,
    /// The callback carried no `state` value, or one that does not match the
    /// CSRF token issued for this flow.
    CsrfMismatch,
    /// A public client has no cached state or no cached refresh token, so no
    /// exchange can even be attempted.
    MissingPriorState,
    /// The cached refresh token's claims say it already expired.
    ExpiredRefreshToken,
    /// The ID token returned by the provider failed nonce/signature
    /// verification.
    IdTokenVerificationFailure,
}

/// The operator-facing wording of each error.
pub open spec fn message_spec(e: TokenError) -> Seq<char> {
    match e {
        TokenError::BindFailure => "unable to bind the local callback server"@,
        TokenError::DiscoveryFailure => "failed to discover the issuer metadata"@,
        TokenError::ExchangeFailure => "the token endpoint rejected the exchange"@,
        TokenError::CsrfMismatch => "state mismatch in the authorization callback"@,
        TokenError::MissingPriorState => "expired token of a public client, without a refresh token. You will need to re-login"@,
        TokenError::ExpiredRefreshToken => "refresh token expired. You need to re-login"@,
        TokenError::IdTokenVerificationFailure => "failed to verify ID token"@,
    }
}

impl TokenError {
    /// The message shown to the operator for this error.
    pub fn message(&self) -> (r: String)
        ensures
            r@ == message_spec(*self),
    {
        match self {
            TokenError::BindFailure => String::from_str("unable to bind the local callback server"),
            TokenError::DiscoveryFailure => String::from_str("failed to discover the issuer metadata"),
            TokenError::ExchangeFailure => String::from_str("the token endpoint rejected the exchange"),
            TokenError::CsrfMismatch => String::from_str("state mismatch in the authorization callback"),
            TokenError::MissingPriorState => String::from_str("expired token of a public client, without a refresh token. You will need to re-login"),
            TokenError::ExpiredRefreshToken => String::from_str("refresh token expired. You need to re-login"),
            TokenError::IdTokenVerificationFailure => String::from_str("failed to verify ID token"),
        }
    }
}

} // verus!
