//! The token record and its validity model.

use vstd::prelude::*;

verus! {

/// Treat a token as expired this many seconds before its literal expiry,
/// so that calls already in flight do not straddle the boundary.
pub const EXPIRY_MARGIN_SECONDS: i64 = 10;

/// Mathematical model of a [`TokenRecord`].
pub struct TokenRecordView {
    pub access_token: Seq<char>,
    pub refresh_token: Option<Seq<char>>,
    pub expires_at: Option<int>,
    pub scopes: Seq<Seq<char>>,
}

/// One obtained token, as produced by a code exchange or a refresh and as
/// persisted in the cache.
///
/// A record is either entirely absent (cold start) or fully populated:
/// `access_token` is always present (and non-empty, see
/// [`TokenRecordView::populated`]) when the record exists. The refresh
/// token may independently be absent; a missing `expires_at` is treated as
/// "already invalid", never as "never expires".
#[derive(Clone, Debug, PartialEq, Eq)]
pub struct TokenRecord {
    /// Bearer credential sent with every API call.
    pub access_token: String,
    /// Credential for silent refresh; absent means interactive
    /// re-authentication is required once the record expires.
    pub refresh_token: Option<String>,
    /// Absolute expiry, in seconds of some agreed epoch clock.
    pub expires_at: Option<i64>,
    /// The scopes this record was granted for.
    pub scopes: Vec<String>,
}

impl View for TokenRecord {
    type V = TokenRecordView;

    open spec fn view(&self) -> TokenRecordView {
        TokenRecordView {
            access_token: self.access_token@,
            refresh_token: match self.refresh_token {
                Some(t) => Some(t@),
                None => None,
            },
            expires_at: match self.expires_at {
                Some(e) => Some(e as int),
                None => None,
            },
            scopes: self.scopes@.map_values(|s: String| s@),
        }
    }
}

impl TokenRecordView {
    /// A populated record: the access token is actually there.
    pub open spec fn populated(self) -> bool {
        self.access_token.len() > 0
    }

    /// The record is still usable at time `now`: it carries an expiry and
    /// that expiry lies strictly after `now` plus the safety margin.
    pub open spec fn valid_at(self, now: int) -> bool {
        match self.expires_at {
            Some(e) => now + EXPIRY_MARGIN_SECONDS < e,
            None => false,
        }
    }
}

impl TokenRecord {
    /// Whether the access token is present (non-empty), i.e. whether the
    /// record counts as fully populated.
    pub fn is_populated(&self) -> (r: bool)
        ensures
            r == self@.populated(),
    {
        !self.access_token.as_str().is_empty()
    }

    /// Validity of this record at time `now` (seconds): true exactly when
    /// an expiry is present and lies strictly after `now` plus the safety
    /// margin of [`EXPIRY_MARGIN_SECONDS`].
    pub fn is_valid_at(&self, now: i64) -> (r: bool)
        ensures
            r == self@.valid_at(now as int),
    {
        match self.expires_at {
            Some(e) => {
                if e >= i64::MIN + EXPIRY_MARGIN_SECONDS {
                    now < e - EXPIRY_MARGIN_SECONDS
                } else {
                    false
                }
            },
            None => false,
        }
    }
}

} // verus!
