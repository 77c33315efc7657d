//! The decision core of the interactive authorization flow: what one login
//! attempt carries with it, and the validation of the callback against it.
//!
//! The surrounding binary starts the listener, builds the authorization URL
//! from the discovered metadata, opens the browser and performs the code
//! exchange. Before that exchange it must pass the captured callback through
//! [`validate_callback`]; a callback whose `state` is absent or differs from
//! the CSRF token issued for this flow stops the login before any code
//! reaches the token endpoint.

use vstd::prelude::*;

use crate::error::TokenError;
use crate::server::{FlowResult, FlowResultView};
use crate::utils::hex_digit_char;

verus! {

/// What one in-flight interactive login carries. It exists only for the
/// duration of that login and is never persisted.
#[derive(Clone, Debug)]
pub struct PendingAuthorization {
    /// The random value round-tripped through the redirect as `state`.
    pub csrf_token: String,
    /// The PKCE verifier whose challenge went into the authorization URL.
    pub pkce_verifier: String,
    /// Where the issuer redirects the browser: the local listener.
    pub redirect_uri: String,
    /// The nonce bound into the ID token, checked after the exchange.
    pub nonce: String,
}

/// Whether a callback answers the flow that issued `csrf`: it must carry a
/// `state`, byte for byte the CSRF token.
pub open spec fn callback_matches(csrf: Seq<char>, res: FlowResultView) -> bool {
    res.state matches Some(s) && s == csrf
}

/// What the flow does with a captured callback: hand the code on to the
/// exchange only when the callback matches, and otherwise fail.
pub open spec fn callback_action(csrf: Seq<char>, res: FlowResultView) -> Result<
    Seq<char>,
    TokenError,
> {
    if callback_matches(csrf, res) {
        Ok(res.code)
    } else {
        Err(TokenError::CsrfMismatch)
    }
}

/// Validate the captured callback against the pending login and release the
/// authorization code for the exchange, as [`callback_action`] says.
pub fn validate_callback(pending: &PendingAuthorization, result: &FlowResult) -> (r: Result<
    String,
    TokenError,
>)
    ensures
        match r {
            Ok(code) => callback_action(pending.csrf_token@, result@) == Ok::<
                Seq<char>,
                TokenError,
            >(code@),
            Err(e) => callback_action(pending.csrf_token@, result@) == Err::<
                Seq<char>,
                TokenError,
            >(e),
        },
{
    match &result.state {
        None => Err(TokenError::CsrfMismatch),
        Some(state) => {
            if state.eq(&pending.csrf_token) {
                Ok(result.code.clone())
            } else {
                Err(TokenError::CsrfMismatch)
            }
        },
    }
}

/// A callback whose `state` is absent or differs from the flow's CSRF token
/// fails with `CsrfMismatch`: no authorization code is released to the token
/// endpoint.
pub proof fn lemma_csrf_mismatch_fails(csrf: Seq<char>, res: FlowResultView)
    requires
        !callback_matches(csrf, res),
    ensures
        callback_action(csrf, res) == Err::<Seq<char>, TokenError>(TokenError::CsrfMismatch),
{
}

/// The decimal digits of a non-negative number.
pub open spec fn dec_digits(n: int) -> Seq<char>
    recommends
        n >= 0,
    decreases n,
{
    if n < 10 {
        seq![hex_digit_char(if n < 0 { 0 } else { n })]
    } else {
        dec_digits(n / 10).push(hex_digit_char(n % 10))
    }
}

/// Append the decimal digits of `n`.
fn push_dec(n: u16, out: &mut String)
    ensures
        final(out)@ == old(out)@ + dec_digits(n as int),
    decreases n,
{
    if n < 10 {
        out.push(crate::utils::hex_char(n as u8));
        proof {
            assert(out@ =~= old(out)@ + dec_digits(n as int));
        }
    } else {
        push_dec(n / 10, out);
        out.push(crate::utils::hex_char((n % 10) as u8));
        proof {
            assert(out@ =~= old(out)@ + dec_digits(n as int));
        }
    }
}

/// The redirect URI of a flow whose listener is bound on `port`:
/// `http://localhost:<port>`.
pub fn build_redirect_uri(port: u16) -> (r: String)
    ensures
        r@ == "http://localhost:"@ + dec_digits(port as int),
{
    let mut r = String::from_str("http://localhost:");
    push_dec(port, &mut r);
    r
}

} // verus!
