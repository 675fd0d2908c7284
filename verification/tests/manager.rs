//! End-to-end rounds of the token lifecycle state machine.

use spotifalc::errors::AuthError;
use spotifalc::flow::ClientConfig;
use spotifalc::manager::Step;
use spotifalc::manager::TokenManager;
use spotifalc::store::TokenStore;
use spotifalc::token::TokenRecord;

const NOW: i64 = 1_000_000;

fn config() -> ClientConfig {
    ClientConfig::new(
        "abc123".to_string(),
        "secret".to_string(),
        "http://localhost:3001/callback".to_string(),
        vec![
            "user-read-currently-playing".to_string(),
            "user-modify-playback-state".to_string(),
        ],
    )
    .expect("credentials are present")
}

fn record(access: &str, refresh: Option<&str>, expires: Option<i64>) -> TokenRecord {
    TokenRecord {
        access_token: access.to_string(),
        refresh_token: refresh.map(|s| s.to_string()),
        expires_at: expires,
        scopes: vec!["user-read-currently-playing".to_string()],
    }
}

fn manager_with(rec: Option<&TokenRecord>) -> TokenManager {
    let mut store = TokenStore::new();
    if let Some(rec) = rec {
        store.save(rec);
    }
    TokenManager::new(config(), store)
}

fn expect_ready(step: Step) -> TokenRecord {
    match step {
        Step::Ready(rec) => rec,
        _ => panic!("expected Ready"),
    }
}

fn expect_authorize(step: Step) -> String {
    match step {
        Step::Authorize { url } => url,
        _ => panic!("expected Authorize"),
    }
}

#[test]
fn cold_start_runs_the_whole_interactive_flow() {
    // Cache absent: ensure_valid must drive the authorization flow,
    // extract the code from the redirect, exchange it, and persist.
    let mut mgr = manager_with(None);
    let url = expect_authorize(mgr.ensure_valid(NOW));
    assert!(url.starts_with("https://accounts.spotify.com/authorize?response_type=code"));
    let step = mgr.on_redirect(Some("localhost:3001/callback?code=abc123&state=xyz".to_string()));
    let code = match step {
        Step::Exchange { code } => code,
        _ => panic!("expected Exchange"),
    };
    assert_eq!(code, "abc123");
    let fresh = record("token-for-abc123", Some("refresh-1"), Some(NOW + 3600));
    let got = expect_ready(mgr.on_exchange_outcome(Some(fresh.clone())));
    assert_eq!(got, fresh);
    // The record with that access token is persisted: a new round finds it.
    assert!(mgr.authenticated(NOW));
    let again = expect_ready(mgr.ensure_valid(NOW));
    assert_eq!(again.access_token, "token-for-abc123");
}

#[test]
fn valid_cache_is_returned_without_any_network_step() {
    let rec = record("cached-token", Some("r"), Some(NOW + 3600));
    let mut mgr = manager_with(Some(&rec));
    let contents_before = mgr.cache_contents().clone();
    // Two rounds in a row: both are plain cache reads, the manager never
    // asks for a refresh, an authorization or an exchange.
    let first = expect_ready(mgr.ensure_valid(NOW));
    assert_eq!(first, rec);
    let second = expect_ready(mgr.ensure_valid(NOW + 60));
    assert_eq!(second, rec);
    assert_eq!(mgr.cache_contents(), &contents_before);
}

#[test]
fn expired_with_refresh_token_refreshes_silently() {
    // Expired one hour ago, refresh token present: the manager asks for
    // a refresh, not for the interactive flow, and persists the result.
    let old = record("stale-token", Some("refresh-42"), Some(NOW - 3600));
    let mut mgr = manager_with(Some(&old));
    let step = mgr.ensure_valid(NOW);
    let rt = match step {
        Step::Refresh { refresh_token } => refresh_token,
        _ => panic!("expected Refresh"),
    };
    assert_eq!(rt, "refresh-42");
    let refreshed = record("fresh-token", Some("refresh-42"), Some(NOW + 3600));
    let got = expect_ready(mgr.on_refresh_outcome(Some(refreshed.clone())));
    assert_eq!(got, refreshed);
    // Persisted: the next round returns the refreshed record from cache.
    let again = expect_ready(mgr.ensure_valid(NOW));
    assert_eq!(again, refreshed);
}

#[test]
fn expired_without_refresh_token_goes_interactive() {
    let old = record("stale-token", None, Some(NOW - 3600));
    let mut mgr = manager_with(Some(&old));
    expect_authorize(mgr.ensure_valid(NOW));
}

#[test]
fn missing_expiry_is_treated_as_invalid() {
    let old = record("undated-token", None, None);
    let mut mgr = manager_with(Some(&old));
    expect_authorize(mgr.ensure_valid(NOW));
}

#[test]
fn denied_consent_fails_without_writing_the_cache() {
    let mut mgr = manager_with(None);
    expect_authorize(mgr.ensure_valid(NOW));
    let step = mgr.on_redirect(Some(
        "localhost:3001/callback?error=access_denied".to_string(),
    ));
    match step {
        Step::Failed(e) => assert_eq!(e, AuthError::AuthorizationDenied),
        _ => panic!("expected Failed"),
    }
    assert_eq!(mgr.cache_contents(), "");
    assert!(!mgr.authenticated(NOW));
}

#[test]
fn refresh_failure_falls_back_to_interactive() {
    let old = record("stale", Some("r"), Some(NOW - 10));
    let mut mgr = manager_with(Some(&old));
    let contents_before = mgr.cache_contents().clone();
    match mgr.ensure_valid(NOW) {
        Step::Refresh { .. } => {},
        _ => panic!("expected Refresh"),
    }
    expect_authorize(mgr.on_refresh_outcome(None));
    assert_eq!(mgr.cache_contents(), &contents_before);
}

#[test]
fn exchange_failure_is_terminal_for_the_round() {
    let mut mgr = manager_with(None);
    expect_authorize(mgr.ensure_valid(NOW));
    match mgr.on_redirect(Some("x?code=c1".to_string())) {
        Step::Exchange { .. } => {},
        _ => panic!("expected Exchange"),
    }
    match mgr.on_exchange_outcome(None) {
        Step::Failed(e) => assert_eq!(e, AuthError::TokenExchangeFailed),
        _ => panic!("expected Failed"),
    }
    assert_eq!(mgr.cache_contents(), "");
}

#[test]
fn no_redirect_at_all_is_a_capture_failure() {
    let mut mgr = manager_with(None);
    expect_authorize(mgr.ensure_valid(NOW));
    match mgr.on_redirect(None) {
        Step::Failed(e) => assert_eq!(e, AuthError::CaptureFailed),
        _ => panic!("expected Failed"),
    }
}

#[test]
fn invalidate_skips_the_fast_path_once() {
    let rec = record("looks-valid", Some("r-7"), Some(NOW + 3600));
    let mut mgr = manager_with(Some(&rec));
    expect_ready(mgr.ensure_valid(NOW));
    mgr.invalidate();
    // The cached record still looks valid, but the remote API rejected
    // it: the next round must not take the fast path.
    let step = mgr.ensure_valid(NOW);
    let rt = match step {
        Step::Refresh { refresh_token } => refresh_token,
        _ => panic!("expected Refresh"),
    };
    assert_eq!(rt, "r-7");
    // The refreshed record restores the fast path.
    let refreshed = record("new-token", Some("r-7"), Some(NOW + 7200));
    expect_ready(mgr.on_refresh_outcome(Some(refreshed.clone())));
    assert_eq!(expect_ready(mgr.ensure_valid(NOW)), refreshed);
}

#[test]
fn authenticated_reflects_cache_validity() {
    let mgr = manager_with(None);
    assert!(!mgr.authenticated(NOW));
    let valid = record("t", None, Some(NOW + 100));
    let mgr = manager_with(Some(&valid));
    assert!(mgr.authenticated(NOW));
    assert!(!mgr.authenticated(NOW + 95));
    let expired = record("t", None, Some(NOW - 100));
    let mgr = manager_with(Some(&expired));
    assert!(!mgr.authenticated(NOW));
}
