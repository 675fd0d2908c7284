//! The token lifecycle state machine.
//!
//! `ensure_valid` and the `on_*` methods take every decision of the
//! "read cache, validate, refresh, interactive re-auth, persist"
//! sequence; the embedding application only performs the returned
//! [`Step`]s (network calls, browser, redirect capture) and reports
//! their outcomes back. Every transition is mirrored by a spec function
//! over the manager's view, so the behaviour of whole call sequences can
//! be stated and proved.

use vstd::prelude::*;

verus! {

use crate::codec::bounded;
use crate::codec::lemma_record_round_trip;
use crate::codec::parse_record_spec;
use crate::codec::ser_record;
use crate::errors::AuthError;
use crate::flow::authorize_url_spec;
use crate::flow::build_authorize_url;
use crate::flow::code_of_redirect;
use crate::flow::extract_code;
use crate::flow::ClientConfig;
use crate::flow::ClientConfigView;
use crate::store::TokenStore;
use crate::token::TokenRecord;
use crate::token::TokenRecordView;

/// Where the manager stands in one `ensure_valid` round. The phase is
/// ghost state: it pins down which `on_*` report is legal next.
#[derive(Clone, Copy, Debug, PartialEq, Eq, Structural)]
pub enum Phase {
    /// No round in progress; `ensure_valid` may start one.
    Idle,
    /// A silent refresh was requested; its outcome is awaited.
    AwaitingRefresh,
    /// The interactive flow was requested; the redirect URL is awaited.
    AwaitingRedirect,
    /// An authorization code was extracted; the exchange outcome is
    /// awaited.
    AwaitingExchange,
}

/// What the application must do next.
pub enum Step {
    /// A valid, persisted record is at hand; nothing else to do.
    Ready(TokenRecord),
    /// Silently refresh with this refresh token at the token endpoint,
    /// then report through `on_refresh_outcome`.
    Refresh { refresh_token: String },
    /// Open this URL in the browser, capture the redirect (or fall back
    /// to manual entry), then report through `on_redirect`.
    Authorize { url: String },
    /// Exchange this authorization code at the token endpoint, then
    /// report through `on_exchange_outcome`.
    Exchange { code: String },
    /// Terminal failure of this round.
    Failed(AuthError),
}

/// Mathematical model of a [`Step`].
pub enum StepView {
    Ready(TokenRecordView),
    Refresh { refresh_token: Seq<char> },
    Authorize { url: Seq<char> },
    Exchange { code: Seq<char> },
    Failed(AuthError),
}

impl View for Step {
    type V = StepView;

    open spec fn view(&self) -> StepView {
        match self {
            Step::Ready(rec) => StepView::Ready(rec@),
            Step::Refresh { refresh_token } => StepView::Refresh {
                refresh_token: refresh_token@,
            },
            Step::Authorize { url } => StepView::Authorize { url: url@ },
            Step::Exchange { code } => StepView::Exchange { code: code@ },
            Step::Failed(e) => StepView::Failed(*e),
        }
    }
}

/// Mathematical model of a [`TokenManager`].
pub struct TokenManagerView {
    pub config: ClientConfigView,
    pub contents: Seq<char>,
    pub phase: Phase,
    pub force: bool,
}

/// The manager: owns the configuration and the cache, takes every
/// decision of the token lifecycle.
pub struct TokenManager {
    config: ClientConfig,
    store: TokenStore,
    force: bool,
    phase: Ghost<Phase>,
}

impl View for TokenManager {
    type V = TokenManagerView;

    closed spec fn view(&self) -> TokenManagerView {
        TokenManagerView {
            config: self.config@,
            contents: self.store@,
            phase: self.phase@,
            force: self.force,
        }
    }
}

/// The record the manager's cache holds, if any.
pub open spec fn cached(m: TokenManagerView) -> Option<TokenRecordView> {
    parse_record_spec(m.contents)
}

/// View of a reported record.
pub open spec fn opt_record_view(o: Option<TokenRecord>) -> Option<TokenRecordView> {
    match o {
        Some(rec) => Some(rec@),
        None => None,
    }
}

/// View of a reported redirect URL.
pub open spec fn opt_string_view(o: Option<String>) -> Option<Seq<char>> {
    match o {
        Some(s) => Some(s@),
        None => None,
    }
}

/// The step `ensure_valid` returns from state `m` at time `now`:
/// a cached record that is valid (and not force-invalidated) is returned
/// as is with no further action; an unusable record with a refresh token
/// asks for a silent refresh; anything else asks for the interactive
/// flow.
pub open spec fn ensure_valid_step(m: TokenManagerView, now: int) -> StepView {
    match cached(m) {
        Some(rec) => if !m.force && rec.valid_at(now) {
            StepView::Ready(rec)
        } else {
            match rec.refresh_token {
                Some(rt) => StepView::Refresh { refresh_token: rt },
                None => StepView::Authorize { url: authorize_url_spec(m.config) },
            }
        },
        None => StepView::Authorize { url: authorize_url_spec(m.config) },
    }
}

/// The state after `ensure_valid`: the fast path changes nothing (in
/// particular it touches neither cache nor network); otherwise the
/// matching phase is entered and a force-invalidation is consumed.
pub open spec fn ensure_valid_next(m: TokenManagerView, now: int) -> TokenManagerView {
    match ensure_valid_step(m, now) {
        StepView::Ready(rec) => m,
        StepView::Refresh { refresh_token } => TokenManagerView {
            config: m.config,
            contents: m.contents,
            phase: Phase::AwaitingRefresh,
            force: false,
        },
        StepView::Authorize { url } => TokenManagerView {
            config: m.config,
            contents: m.contents,
            phase: Phase::AwaitingRedirect,
            force: false,
        },
        StepView::Exchange { code } => m,
        StepView::Failed(e) => m,
    }
}

/// The step after a refresh outcome: a populated record is persisted and
/// returned; a failed or unusable refresh falls through to the
/// interactive flow (refresh failure is never terminal).
pub open spec fn refresh_step(m: TokenManagerView, outcome: Option<TokenRecordView>) -> StepView {
    match outcome {
        Some(rec) => if rec.populated() {
            StepView::Ready(rec)
        } else {
            StepView::Authorize { url: authorize_url_spec(m.config) }
        },
        None => StepView::Authorize { url: authorize_url_spec(m.config) },
    }
}

/// The state after a refresh outcome: on success the cache is replaced
/// by the new record's serialization; otherwise it is untouched and the
/// redirect is awaited.
pub open spec fn refresh_next(
    m: TokenManagerView,
    outcome: Option<TokenRecordView>,
) -> TokenManagerView {
    match outcome {
        Some(rec) => if rec.populated() {
            TokenManagerView {
                config: m.config,
                contents: ser_record(rec),
                phase: Phase::Idle,
                force: m.force,
            }
        } else {
            TokenManagerView {
                config: m.config,
                contents: m.contents,
                phase: Phase::AwaitingRedirect,
                force: m.force,
            }
        },
        None => TokenManagerView {
            config: m.config,
            contents: m.contents,
            phase: Phase::AwaitingRedirect,
            force: m.force,
        },
    }
}

/// The step after the redirect report: a redirect carrying a `code`
/// parameter moves on to the exchange; one without it (consent denied)
/// fails with `AuthorizationDenied`; no redirect at all (listener and
/// manual fallback both failed) fails with `CaptureFailed`.
pub open spec fn redirect_step(m: TokenManagerView, redirect: Option<Seq<char>>) -> StepView {
    match redirect {
        Some(url) => match code_of_redirect(url) {
            Some(code) => StepView::Exchange { code },
            None => StepView::Failed(AuthError::AuthorizationDenied),
        },
        None => StepView::Failed(AuthError::CaptureFailed),
    }
}

/// The state after the redirect report: the cache is never written here.
pub open spec fn redirect_next(
    m: TokenManagerView,
    redirect: Option<Seq<char>>,
) -> TokenManagerView {
    match redirect_step(m, redirect) {
        StepView::Exchange { code } => TokenManagerView {
            config: m.config,
            contents: m.contents,
            phase: Phase::AwaitingExchange,
            force: m.force,
        },
        _ => TokenManagerView {
            config: m.config,
            contents: m.contents,
            phase: Phase::Idle,
            force: m.force,
        },
    }
}

/// The step after the exchange outcome: a populated record is persisted
/// and returned; anything else is a terminal `TokenExchangeFailed`.
pub open spec fn exchange_step(m: TokenManagerView, outcome: Option<TokenRecordView>) -> StepView {
    match outcome {
        Some(rec) => if rec.populated() {
            StepView::Ready(rec)
        } else {
            StepView::Failed(AuthError::TokenExchangeFailed)
        },
        None => StepView::Failed(AuthError::TokenExchangeFailed),
    }
}

/// The state after the exchange outcome: the cache is written only on
/// success.
pub open spec fn exchange_next(
    m: TokenManagerView,
    outcome: Option<TokenRecordView>,
) -> TokenManagerView {
    match outcome {
        Some(rec) => if rec.populated() {
            TokenManagerView {
                config: m.config,
                contents: ser_record(rec),
                phase: Phase::Idle,
                force: m.force,
            }
        } else {
            TokenManagerView {
                config: m.config,
                contents: m.contents,
                phase: Phase::Idle,
                force: m.force,
            }
        },
        None => TokenManagerView {
            config: m.config,
            contents: m.contents,
            phase: Phase::Idle,
            force: m.force,
        },
    }
}

impl TokenManager {
    /// A manager over the given configuration and cache.
    pub fn new(config: ClientConfig, store: TokenStore) -> (m: TokenManager)
        ensures
            m@.config == config@,
            m@.contents == store@,
            m@.phase == Phase::Idle,
            m@.force == false,
    {
        TokenManager { config, store, force: false, phase: Ghost(Phase::Idle) }
    }

    /// The configuration the manager runs under.
    pub fn config(&self) -> (r: &ClientConfig)
        ensures
            r@ == self@.config,
    {
        &self.config
    }

    /// The cache contents to persist to the cache file.
    pub fn cache_contents(&self) -> (r: &String)
        ensures
            r@ == self@.contents,
    {
        self.store.contents()
    }

    /// Start (or re-run) one "ensure a valid token" round: read the
    /// cache, validate, and decide between returning the cached record,
    /// a silent refresh, and the interactive flow
    /// (see [`ensure_valid_step`]). The fast path performs no network
    /// action and leaves the manager untouched.
    pub fn ensure_valid(&mut self, now: i64) -> (step: Step)
        requires
            old(self)@.phase == Phase::Idle,
        ensures
            step@ == ensure_valid_step(old(self)@, now as int),
            final(self)@ == ensure_valid_next(old(self)@, now as int),
    {
        match self.store.load() {
            Some(rec) => {
                if !self.force && rec.is_valid_at(now) {
                    Step::Ready(rec)
                } else {
                    match rec.refresh_token {
                        Some(rt) => {
                            self.force = false;
                            self.phase = Ghost(Phase::AwaitingRefresh);
                            Step::Refresh { refresh_token: rt }
                        },
                        None => {
                            self.force = false;
                            self.phase = Ghost(Phase::AwaitingRedirect);
                            Step::Authorize { url: build_authorize_url(&self.config) }
                        },
                    }
                }
            },
            None => {
                self.force = false;
                self.phase = Ghost(Phase::AwaitingRedirect);
                Step::Authorize { url: build_authorize_url(&self.config) }
            },
        }
    }

    /// Report the outcome of the silent refresh: `Some` with the record
    /// the token endpoint returned, `None` if the call failed. A usable
    /// record is persisted and returned; otherwise the interactive flow
    /// is requested (see [`refresh_step`]).
    pub fn on_refresh_outcome(&mut self, outcome: Option<TokenRecord>) -> (step: Step)
        requires
            old(self)@.phase == Phase::AwaitingRefresh,
        ensures
            step@ == refresh_step(old(self)@, opt_record_view(outcome)),
            final(self)@ == refresh_next(old(self)@, opt_record_view(outcome)),
    {
        match outcome {
            Some(rec) => {
                if rec.is_populated() {
                    self.store.save(&rec);
                    self.phase = Ghost(Phase::Idle);
                    Step::Ready(rec)
                } else {
                    self.phase = Ghost(Phase::AwaitingRedirect);
                    Step::Authorize { url: build_authorize_url(&self.config) }
                }
            },
            None => {
                self.phase = Ghost(Phase::AwaitingRedirect);
                Step::Authorize { url: build_authorize_url(&self.config) }
            },
        }
    }

    /// Report the raw redirect URL the interactive flow produced (from
    /// the local listener or manual entry), or `None` if neither could
    /// produce one. The cache is never written here; in particular a
    /// denied consent surfaces without touching it
    /// (see [`redirect_step`]).
    pub fn on_redirect(&mut self, redirect: Option<String>) -> (step: Step)
        requires
            old(self)@.phase == Phase::AwaitingRedirect,
        ensures
            step@ == redirect_step(old(self)@, opt_string_view(redirect)),
            final(self)@ == redirect_next(old(self)@, opt_string_view(redirect)),
    {
        match redirect {
            Some(url) => match extract_code(url.as_str()) {
                Ok(code) => {
                    self.phase = Ghost(Phase::AwaitingExchange);
                    Step::Exchange { code }
                },
                Err(e) => {
                    self.phase = Ghost(Phase::Idle);
                    Step::Failed(e)
                },
            },
            None => {
                self.phase = Ghost(Phase::Idle);
                Step::Failed(AuthError::CaptureFailed)
            },
        }
    }

    /// Report the outcome of the code exchange: `Some` with the record
    /// the token endpoint returned, `None` if the call failed. A usable
    /// record is persisted and returned; anything else is terminal for
    /// this round (see [`exchange_step`]).
    pub fn on_exchange_outcome(&mut self, outcome: Option<TokenRecord>) -> (step: Step)
        requires
            old(self)@.phase == Phase::AwaitingExchange,
        ensures
            step@ == exchange_step(old(self)@, opt_record_view(outcome)),
            final(self)@ == exchange_next(old(self)@, opt_record_view(outcome)),
    {
        match outcome {
            Some(rec) => {
                if rec.is_populated() {
                    self.store.save(&rec);
                    self.phase = Ghost(Phase::Idle);
                    Step::Ready(rec)
                } else {
                    self.phase = Ghost(Phase::Idle);
                    Step::Failed(AuthError::TokenExchangeFailed)
                }
            },
            None => {
                self.phase = Ghost(Phase::Idle);
                Step::Failed(AuthError::TokenExchangeFailed)
            },
        }
    }

    /// Whether the cache currently holds a record that is valid at time
    /// `now`, without changing anything. (The cheap "are we logged in"
    /// query of the application shell.)
    pub fn authenticated(&self, now: i64) -> (r: bool)
        ensures
            r == (match cached(self@) {
                Some(rec) => rec.valid_at(now as int),
                None => false,
            }),
    {
        match self.store.load() {
            Some(rec) => rec.is_valid_at(now),
            None => false,
        }
    }

    /// Force the next `ensure_valid` to skip the fast path, for when the
    /// remote API reports an authorization failure despite a cache that
    /// looked valid.
    pub fn invalidate(&mut self)
        requires
            old(self)@.phase == Phase::Idle,
        ensures
            final(self)@ == (TokenManagerView {
                config: old(self)@.config,
                contents: old(self)@.contents,
                phase: old(self)@.phase,
                force: true,
            }),
    {
        self.force = true;
    }
}

/// Law: a successful refresh or exchange report leaves the cache holding
/// exactly the record the provider returned: the next load reads it back.
pub proof fn lemma_success_is_persisted(m: TokenManagerView, rec: TokenRecordView)
    requires
        rec.populated(),
        bounded(rec),
    ensures
        cached(refresh_next(m, Some(rec))) == Some(rec),
        cached(exchange_next(m, Some(rec))) == Some(rec),
{
    lemma_record_round_trip(rec);
}

/// Law: while the cached token stays valid, `ensure_valid` is idempotent
/// and free of side effects. If a round returned the cached record, the
/// manager is unchanged, and a second round at any time at which that
/// record is still valid returns the same record again and changes
/// nothing either: the repeat call is a cache read only, with no
/// network step requested.
pub proof fn lemma_ensure_valid_idempotent(
    m: TokenManagerView,
    now1: int,
    now2: int,
    rec: TokenRecordView,
)
    requires
        ensure_valid_step(m, now1) == StepView::Ready(rec),
        rec.valid_at(now2),
    ensures
        ensure_valid_next(m, now1) == m,
        ensure_valid_step(m, now2) == StepView::Ready(rec),
        ensure_valid_next(m, now2) == m,
{
}

} // verus!
