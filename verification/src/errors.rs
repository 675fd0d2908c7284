//! Error taxonomy of the token lifecycle.

use vstd::prelude::*;

verus! {

/// Failure of one redirect-capture attempt as a whole.
///
/// A malformed connection is not an error at this level: the listener
/// answers `400 Bad Request` and keeps accepting.
#[derive(Clone, Copy, Debug, PartialEq, Eq, Structural)]
pub enum CaptureError {
    /// The fixed loopback port was already bound. Recoverable: the flow
    /// falls back to manual entry of the redirect URL.
    PortUnavailable,
    /// The listener itself failed after it was bound.
    ListenerFailed,
}

/// Flow-terminating authorization failures surfaced to the caller.
#[derive(Clone, Copy, Debug, PartialEq, Eq, Structural)]
pub enum AuthError {
    /// The user declined consent, or the provider redirected back with an
    /// error instead of an authorization code.
    AuthorizationDenied,
    /// The provider rejected the code exchange, or the exchange produced
    /// no usable record.
    TokenExchangeFailed,
    /// A silent refresh was rejected by the provider.
    RefreshFailed,
    /// No redirect URL could be obtained at all: the local listener failed
    /// and so did the manual-entry fallback.
    CaptureFailed,
}

impl CaptureError {
    /// Human-readable description, for the application boundary.
    pub fn describe(&self) -> (r: &'static str)
        ensures
            self is PortUnavailable ==> r@ == "local callback port is already in use"@,
            self is ListenerFailed ==> r@ == "local callback listener failed"@,
    {
        match self {
            CaptureError::PortUnavailable => "local callback port is already in use",
            CaptureError::ListenerFailed => "local callback listener failed",
        }
    }
}

impl AuthError {
    /// Human-readable description, for the application boundary.
    pub fn describe(&self) -> (r: &'static str)
        ensures
            self is AuthorizationDenied ==> r@ == "authorization was denied"@,
            self is TokenExchangeFailed ==> r@ == "exchanging the authorization code failed"@,
            self is RefreshFailed ==> r@ == "refreshing the access token failed"@,
            self is CaptureFailed ==> r@ == "no redirect could be captured or entered"@,
    {
        match self {
            AuthError::AuthorizationDenied => "authorization was denied",
            AuthError::TokenExchangeFailed => "exchanging the authorization code failed",
            AuthError::RefreshFailed => "refreshing the access token failed",
            AuthError::CaptureFailed => "no redirect could be captured or entered",
        }
    }
}

} // verus!
